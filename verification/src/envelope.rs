//! Check 1, envelope round-trip: each log line is a JSON object with exactly
//! the envelope's keys, decodes as an event, and re-serializes to the same
//! document.

use vstd::prelude::*;
use vstd::string::StringExecFns;
use crate::event::{EventView, LogEvent, decode_event, decoded_event, line_tag, line_tag_string};
use crate::json::{
    JsonView, NumberView, json_equal, lookup, member_keys, parse_value, parsed_json, value_contents,
    value_eq, value_keys, value_member,
};
use crate::report::{CheckReport, ReportView, gather, lemma_gather_congruent, lemma_gather_empty, lemma_gather_split};
use crate::text::{str_eq, strs};

verus! {

/// The envelope's top-level keys, in their declared order.
pub open spec fn envelope_keys() -> Seq<Seq<char>> {
    seq![
        "id"@,
        "schema_version"@,
        "ts_ms"@,
        "actor"@,
        "kind"@,
        "payload"@,
        "causation_id"@,
        "correlation_id"@,
    ]
}

pub open spec fn opt_json(o: Option<Seq<char>>) -> JsonView {
    match o {
        Some(s) => JsonView::Str(s),
        None => JsonView::Null,
    }
}

/// How serde_json holds an `i64`: negative values as negative integers.
pub open spec fn int_json(i: i64) -> JsonView {
    if i < 0 {
        JsonView::Number(NumberView::NegInt(i))
    } else {
        JsonView::Number(NumberView::PosInt(i as u64))
    }
}

/// An event serialized to a JSON document (`serde_json::to_value` on the
/// envelope): every field under its own name, a missing option as `null`,
/// members in key order as serde_json's map keeps them.
pub open spec fn envelope_value(e: EventView) -> JsonView {
    JsonView::Object(
        seq![
            ("actor"@, JsonView::Object(seq![("id"@, JsonView::Str(e.actor_id)), ("kind"@, JsonView::Str(e.actor_kind))])),
            ("causation_id"@, opt_json(e.causation_id)),
            ("correlation_id"@, opt_json(e.correlation_id)),
            ("id"@, JsonView::Str(e.id)),
            ("kind"@, JsonView::Str(e.kind)),
            ("payload"@, e.payload),
            ("schema_version"@, JsonView::Number(NumberView::PosInt(e.schema_version as u64))),
            ("ts_ms"@, int_json(e.ts_ms)),
        ],
    )
}

pub open spec fn missing_msg(n: nat, key: Seq<char>) -> Seq<char> {
    line_tag(n) + "missing envelope field `"@ + key + "`"@
}

pub open spec fn unknown_msg(n: nat, key: Seq<char>) -> Seq<char> {
    line_tag(n) + "unknown top-level field `"@ + key + "`"@
}

pub open spec fn missing_piece(n: nat, ms: Seq<(Seq<char>, JsonView)>, k: int) -> Seq<Seq<char>> {
    if lookup(ms, envelope_keys()[k]) is Some {
        seq![]
    } else {
        seq![missing_msg(n, envelope_keys()[k])]
    }
}

pub open spec fn unknown_piece(n: nat, ms: Seq<(Seq<char>, JsonView)>, k: int) -> Seq<Seq<char>> {
    if envelope_keys().contains(ms[k].0) {
        seq![]
    } else {
        seq![unknown_msg(n, ms[k].0)]
    }
}

/// A failure for each envelope key the object lacks, in the keys' order.
pub open spec fn missing_keys(n: nat, ms: Seq<(Seq<char>, JsonView)>) -> Seq<Seq<char>> {
    gather(8, |k: int| missing_piece(n, ms, k))
}

/// A failure for each key of the object that is no envelope key, in the
/// object's order.
pub open spec fn unknown_keys(n: nat, ms: Seq<(Seq<char>, JsonView)>) -> Seq<Seq<char>> {
    gather(ms.len(), |k: int| unknown_piece(n, ms, k))
}

pub open spec fn roundtrip_issue(n: nat, line: Seq<char>, v: JsonView) -> Seq<Seq<char>> {
    match decoded_event(line) {
        Ok(e) => if json_equal(envelope_value(e), v) {
            seq![]
        } else {
            seq![line_tag(n) + "does not round-trip structurally"@]
        },
        Err(m) => seq![line_tag(n) + "not a valid envelope: "@ + m],
    }
}

/// What the check reports of a line with number `n`.
pub open spec fn line_issue(n: nat, line: Seq<char>) -> Seq<Seq<char>> {
    match parsed_json(line) {
        Err(e) => seq![line_tag(n) + "not JSON: "@ + e],
        Ok(v) => match v {
            JsonView::Object(ms) => missing_keys(n, ms) + unknown_keys(n, ms) + roundtrip_issue(n, line, v),
            _ => seq![line_tag(n) + "not a JSON object"@],
        },
    }
}

pub open spec fn envelope_issue(lines: Seq<Seq<char>>, i: int) -> Seq<Seq<char>> {
    line_issue((i + 1) as nat, lines[i])
}

/// The report of check 1 on the log's lines.
pub open spec fn envelope_report(lines: Seq<Seq<char>>) -> ReportView {
    ReportView {
        number: 1,
        name: "envelope round-trip"@,
        failures: gather(lines.len(), |i: int| envelope_issue(lines, i)),
        notes: seq![],
    }
}

/// Serializes an event back to a JSON value with `serde_json::to_value`, as
/// yoagent-state's derived `Serialize` for `Event` writes it: every field
/// under its own name, an id as its string, a missing option as `null`.
/// Claims that the value holds `envelope_value` of the event (a `LogEvent`
/// comes only from `decode_event`, which keeps the decoded `Event` beside
/// the fields it copies out).
#[verifier::external_body]
pub(crate) fn event_value(e: &LogEvent) -> (r: serde_json::Value)
    ensures
        value_contents(r) == envelope_value(e@),
{
    serde_json::to_value(e.raw()).expect("an event serializes")
}

fn is_envelope_key(k: &str) -> (r: bool)
    ensures
        r == envelope_keys().contains(k@),
{
    let mut idx: usize = 0;
    while idx < 8
        invariant
            idx <= 8,
            forall|j: int| 0 <= j < idx ==> envelope_keys()[j] != k@,
        decreases 8 - idx,
    {
        if str_eq(k, key_at(idx)) {
            assert(envelope_keys()[idx as int] == k@);
            return true;
        }
        idx = idx + 1;
    }
    false
}

fn key_at(k: usize) -> (r: &'static str)
    requires
        k < 8,
    ensures
        r@ == envelope_keys()[k as int],
{
    match k {
        0 => "id",
        1 => "schema_version",
        2 => "ts_ms",
        3 => "actor",
        4 => "kind",
        5 => "payload",
        6 => "causation_id",
        _ => "correlation_id",
    }
}

fn line_issue_msgs(line: &String, n: usize) -> (r: Vec<String>)
    ensures
        strs(r@) == line_issue(n as nat, line@),
{
    let v = match parse_value(line.as_str()) {
        Err(e) => {
            let mut m = line_tag_string(n);
            m.append("not JSON: ");
            m.append(e.as_str());
            return vec![m];
        },
        Ok(v) => v,
    };
    let keys = match value_keys(&v) {
        None => {
            let mut m = line_tag_string(n);
            m.append("not a JSON object");
            return vec![m];
        },
        Some(ks) => ks,
    };
    let ghost mv = value_contents(v)->Object_0;
    let mut out: Vec<String> = Vec::new();
    let mut k: usize = 0;
    while k < 8
        invariant
            k <= 8,
            value_contents(v) == JsonView::Object(mv),
            strs(out@) == gather(k as nat, |x: int| missing_piece(n as nat, mv, x)),
        decreases 8 - k,
    {
        let key = key_at(k);
        if value_member(&v, key).is_none() {
            let mut m = line_tag_string(n);
            m.append("missing envelope field `");
            m.append(key);
            m.append("`");
            out.push(m);
            assert(strs(out@) == strs(out@.drop_last()).push(m@));
        }
        k = k + 1;
    }
    let ghost after_missing = strs(out@);
    assert(keys@.map_values(|s: String| s@) == member_keys(mv));
    assert(keys@.len() == mv.len()) by {
        assert(keys@.map_values(|s: String| s@).len() == member_keys(mv).len());
    }
    assert forall|j: int| 0 <= j < keys@.len() implies #[trigger] keys@[j]@ == mv[j].0 by {
        assert(keys@.map_values(|s: String| s@)[j] == member_keys(mv)[j]);
    }
    let mut k: usize = 0;
    while k < keys.len()
        invariant
            k <= keys.len(),
            keys@.len() == mv.len(),
            forall|j: int| 0 <= j < keys@.len() ==> #[trigger] keys@[j]@ == mv[j].0,
            strs(out@) == after_missing + gather(k as nat, |x: int| unknown_piece(n as nat, mv, x)),
        decreases keys.len() - k,
    {
        if !is_envelope_key(keys[k].as_str()) {
            let mut m = line_tag_string(n);
            m.append("unknown top-level field `");
            m.append(keys[k].as_str());
            m.append("`");
            out.push(m);
            assert(strs(out@) == strs(out@.drop_last()).push(m@));
        }
        assert(after_missing + gather((k + 1) as nat, |x: int| unknown_piece(n as nat, mv, x)) =~= after_missing
            + gather(k as nat, |x: int| unknown_piece(n as nat, mv, x)) + unknown_piece(n as nat, mv, k as int));
        k = k + 1;
    }
    let ghost after_unknown = strs(out@);
    match decode_event(line.as_str()) {
        Ok(e) => {
            let back = event_value(&e);
            if !value_eq(&back, &v) {
                let mut m = line_tag_string(n);
                m.append("does not round-trip structurally");
                out.push(m);
                assert(strs(out@) == after_unknown.push(m@));
            }
        },
        Err(msg) => {
            let mut m = line_tag_string(n);
            m.append("not a valid envelope: ");
            m.append(msg.as_str());
            out.push(m);
            assert(strs(out@) == after_unknown.push(m@));
        },
    }
    out
}

/// Check 1: envelope round-trip, line by line.
pub fn check_envelope(lines: &[String]) -> (r: CheckReport)
    ensures
        r@ == envelope_report(strs(lines@)),
{
    let ghost ls = strs(lines@);
    let mut report = CheckReport::new(1, "envelope round-trip");
    let mut i: usize = 0;
    while i < lines.len()
        invariant
            i <= lines.len(),
            ls == strs(lines@),
            report.number == 1,
            report.name@ == "envelope round-trip"@,
            report@.notes == Seq::<Seq<char>>::empty(),
            report@.failures == gather(i as nat, |k: int| envelope_issue(ls, k)),
        decreases lines.len() - i,
    {
        let msgs = line_issue_msgs(&lines[i], i + 1);
        report.fail_all(msgs);
        i = i + 1;
    }
    proof {
        assert(report@.notes =~= seq![]);
    }
    report
}

/// A well-formed envelope line: a JSON object that has every envelope key
/// and no other key, that decodes as an event which serializes back to an
/// equal document.
pub open spec fn envelope_line_ok(line: Seq<char>) -> bool {
    match parsed_json(line) {
        Ok(JsonView::Object(ms)) => {
            &&& forall|k: int| 0 <= k < 8 ==> #[trigger] lookup(ms, envelope_keys()[k]) is Some
            &&& forall|k: int| 0 <= k < ms.len() ==> envelope_keys().contains(#[trigger] ms[k].0)
            &&& match decoded_event(line) {
                Ok(e) => json_equal(envelope_value(e), JsonView::Object(ms)),
                Err(_) => false,
            }
        },
        _ => false,
    }
}

/// A line passes check 1 exactly when it is a well-formed envelope line.
pub proof fn lemma_line_passes(n: nat, line: Seq<char>)
    ensures
        line_issue(n, line).len() == 0 <==> envelope_line_ok(line),
{
    if let Ok(v) = parsed_json(line) {
        if let JsonView::Object(ms) = v {
            let f = |k: int| missing_piece(n, ms, k);
            let g = |k: int| unknown_piece(n, ms, k);
            lemma_gather_empty(8, f);
            lemma_gather_empty(ms.len(), g);
            assert(missing_keys(n, ms) == gather(8, f));
            assert(unknown_keys(n, ms) == gather(ms.len(), g));
            if line_issue(n, line).len() == 0 {
                assert forall|k: int| 0 <= k < 8 implies #[trigger] lookup(ms, envelope_keys()[k]) is Some by {
                    assert(f(k).len() == 0);
                }
                assert forall|k: int| 0 <= k < ms.len() implies envelope_keys().contains(#[trigger] ms[k].0) by {
                    assert(g(k).len() == 0);
                }
            }
            if envelope_line_ok(line) {
                assert forall|k: int| 0 <= k < 8 implies #[trigger] f(k).len() == 0 by {
                    assert(lookup(ms, envelope_keys()[k]) is Some);
                }
                assert forall|k: int| 0 <= k < ms.len() implies #[trigger] g(k).len() == 0 by {
                    assert(envelope_keys().contains(ms[k].0));
                }
            }
        }
    }
}

/// What check 1 reports of `lines` numbered from `k + 1` on.
pub open spec fn envelope_failures_from(lines: Seq<Seq<char>>, k: nat) -> Seq<Seq<char>> {
    gather(lines.len(), |i: int| line_issue((k + i + 1) as nat, lines[i]))
}

/// Check 1 on two logs joined together reports what it reports of the first,
/// then what it reports of the second with its line numbers shifted by the
/// length of the first; so the joined log passes exactly when both do.
pub proof fn lemma_envelope_concat(a: Seq<Seq<char>>, b: Seq<Seq<char>>)
    ensures
        envelope_report(a + b).failures == envelope_report(a).failures + envelope_failures_from(b, a.len()),
        envelope_report(b).failures == envelope_failures_from(b, 0),
        envelope_report(a + b).failures.len() == 0 <==> envelope_report(a).failures.len() == 0
            && envelope_report(b).failures.len() == 0,
{
    let ab = a + b;
    let f = |i: int| envelope_issue(ab, i);
    lemma_gather_split(a.len(), b.len(), f);
    lemma_gather_congruent(a.len(), f, |i: int| envelope_issue(a, i));
    lemma_gather_congruent(
        b.len(),
        |j: int| f(a.len() + j),
        |j: int| line_issue((a.len() + j + 1) as nat, b[j]),
    );
    lemma_gather_congruent(b.len(), |i: int| envelope_issue(b, i), |i: int| line_issue((0 + i + 1) as nat, b[i]));
    let fa = |i: int| envelope_issue(a, i);
    let fb = |i: int| envelope_issue(b, i);
    lemma_gather_empty(ab.len(), f);
    lemma_gather_empty(a.len(), fa);
    lemma_gather_empty(b.len(), fb);
    assert forall|i: int| 0 <= i < ab.len() implies (#[trigger] f(i).len() == 0 <==> envelope_line_ok(ab[i])) by {
        lemma_line_passes((i + 1) as nat, ab[i]);
    }
    assert forall|i: int| 0 <= i < a.len() implies (#[trigger] fa(i).len() == 0 <==> envelope_line_ok(a[i])) by {
        lemma_line_passes((i + 1) as nat, a[i]);
    }
    assert forall|i: int| 0 <= i < b.len() implies (#[trigger] fb(i).len() == 0 <==> envelope_line_ok(b[i])) by {
        lemma_line_passes((i + 1) as nat, b[i]);
    }
    if envelope_report(ab).failures.len() == 0 {
        assert forall|i: int| 0 <= i < a.len() implies #[trigger] fa(i).len() == 0 by {
            assert(f(i).len() == 0);
            assert(ab[i] == a[i]);
        }
        assert forall|i: int| 0 <= i < b.len() implies #[trigger] fb(i).len() == 0 by {
            assert(f(a.len() + i).len() == 0);
            assert(ab[a.len() + i] == b[i]);
        }
    }
    if envelope_report(a).failures.len() == 0 && envelope_report(b).failures.len() == 0 {
        assert forall|i: int| 0 <= i < ab.len() implies #[trigger] f(i).len() == 0 by {
            if i < a.len() {
                assert(fa(i).len() == 0);
                assert(ab[i] == a[i]);
            } else {
                assert(fb(i - a.len()).len() == 0);
                assert(ab[i] == b[i - a.len()]);
            }
        }
    }
}

} // verus!
