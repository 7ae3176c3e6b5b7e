//! Check 3, vocabulary: every node kind and relation kind that the ops
//! create is a baseline one or declared by a pack in `.agent/packs/*.json`.

use vstd::prelude::*;
use vstd::string::StringExecFns;
use crate::event::{EventView, LogEvent, OpRecord, OpView, event_ops, event_views, line_tag, line_tag_string, op_views, ops_of};
use crate::json::JsonView;
use crate::report::{CheckReport, ReportView, gather, lemma_gather_contains, lemma_gather_empty};
use crate::text::{ends_with, str_eq, strs};
use yoagent_state::Pack;

verus! {

pub open spec fn baseline_node_kinds() -> Seq<Seq<char>> {
    seq![
        "goal"@,
        "task"@,
        "run"@,
        "observation"@,
        "failure"@,
        "hypothesis"@,
        "patch"@,
        "eval"@,
        "decision"@,
        "model_call"@,
        "tool_call"@,
        "frame"@,
        "project_snapshot"@,
        "policy"@,
        "behavior"@,
    ]
}

pub open spec fn baseline_rels() -> Seq<Seq<char>> {
    seq![
        "serves"@,
        "blocks"@,
        "advances"@,
        "observes"@,
        "explains"@,
        "addresses"@,
        "modifies"@,
        "validated_by"@,
        "approved_by"@,
        "rejected_by"@,
        "produced_by"@,
        "derived_from"@,
        "depends_on"@,
        "supersedes"@,
        "contained_in_frame"@,
        "forked_from"@,
        "references"@,
    ]
}

fn baseline_node_kind_at(i: usize) -> (r: &'static str)
    requires
        i < 15,
    ensures
        r@ == baseline_node_kinds()[i as int],
{
    match i {
        0 => "goal",
        1 => "task",
        2 => "run",
        3 => "observation",
        4 => "failure",
        5 => "hypothesis",
        6 => "patch",
        7 => "eval",
        8 => "decision",
        9 => "model_call",
        10 => "tool_call",
        11 => "frame",
        12 => "project_snapshot",
        13 => "policy",
        _ => "behavior",
    }
}

fn baseline_rel_at(i: usize) -> (r: &'static str)
    requires
        i < 17,
    ensures
        r@ == baseline_rels()[i as int],
{
    match i {
        0 => "serves",
        1 => "blocks",
        2 => "advances",
        3 => "observes",
        4 => "explains",
        5 => "addresses",
        6 => "modifies",
        7 => "validated_by",
        8 => "approved_by",
        9 => "rejected_by",
        10 => "produced_by",
        11 => "derived_from",
        12 => "depends_on",
        13 => "supersedes",
        14 => "contained_in_frame",
        15 => "forked_from",
        _ => "references",
    }
}

/// A file of the packs directory: its name, and its text where it could be
/// read.
#[derive(Debug)]
pub struct PackFile {
    pub file_name: String,
    pub contents: Option<String>,
}

/// What a pack declares: its object kinds and its relation kinds.
#[derive(Debug)]
pub struct PackVocabulary {
    pub kinds: Vec<String>,
    pub rels: Vec<String>,
}

/// A pack's vocabulary as values: (object kinds, relation kinds).
pub open spec fn vocab_view(p: PackVocabulary) -> (Seq<Seq<char>>, Seq<Seq<char>>) {
    (strs(p.kinds@), strs(p.rels@))
}

/// The outcome of yoagent-state's `Pack` decoding (`serde_json::from_str::<Pack>`)
/// on a text, reduced to the keys of its object types and of its relation
/// types; `None` where it fails.
pub uninterp spec fn decoded_pack(text: Seq<char>) -> Option<(Seq<Seq<char>>, Seq<Seq<char>>)>;

/// Decodes a pack file as yoagent-state's `Pack` with `serde_json::from_str`
/// and keeps the keys of its object types and of its relation types, in the
/// maps' order. The outcome is the named result `decoded_pack` of the text.
#[verifier::external_body]
pub(crate) fn decode_pack(text: &str) -> (r: Option<PackVocabulary>)
    ensures
        match r {
            Some(p) => decoded_pack(text@) == Some(vocab_view(p)),
            None => decoded_pack(text@) is None,
        },
{
    serde_json::from_str::<Pack>(text).ok().map(|p| PackVocabulary {
        kinds: p.object_types.into_keys().collect(),
        rels: p.relation_types.into_keys().collect(),
    })
}

/// A file name whose extension is `json` (`Path::extension`: the part after
/// the last dot, where something precedes that dot).
pub open spec fn json_file_name(name: Seq<char>) -> bool {
    ".json"@.is_suffix_of(name) && name.len() > 5
}

/// The pack a file yields: a readable `.json` file that decodes as a pack.
pub open spec fn pack_of_file(name: Seq<char>, contents: Option<Seq<char>>) -> Option<
    (Seq<Seq<char>>, Seq<Seq<char>>),
> {
    if json_file_name(name) {
        match contents {
            Some(t) => decoded_pack(t),
            None => None,
        }
    } else {
        None
    }
}

pub open spec fn file_view(f: PackFile) -> (Seq<char>, Option<Seq<char>>) {
    (
        f.file_name@,
        match f.contents {
            Some(t) => Some(t@),
            None => None,
        },
    )
}

/// The packs the files yield, in the files' order.
pub open spec fn loaded_packs(files: Seq<(Seq<char>, Option<Seq<char>>)>) -> Seq<
    (Seq<Seq<char>>, Seq<Seq<char>>),
>
    decreases files.len(),
{
    if files.len() == 0 {
        seq![]
    } else {
        let rest = loaded_packs(files.drop_last());
        match pack_of_file(files.last().0, files.last().1) {
            Some(p) => rest.push(p),
            None => rest,
        }
    }
}

pub open spec fn file_views(files: Seq<PackFile>) -> Seq<(Seq<char>, Option<Seq<char>>)> {
    files.map_values(|f: PackFile| file_view(f))
}

pub open spec fn vocab_views(ps: Seq<PackVocabulary>) -> Seq<(Seq<Seq<char>>, Seq<Seq<char>>)> {
    ps.map_values(|p: PackVocabulary| vocab_view(p))
}

fn is_json_file_name(name: &str) -> (r: bool)
    ensures
        r == json_file_name(name@),
{
    ends_with(name, ".json") && name.unicode_len() > 5
}

/// The packs of a packs directory: its `.json` files that could be read and
/// decode as a pack, in the given order.
pub fn load_packs(files: &[PackFile]) -> (r: Vec<PackVocabulary>)
    ensures
        vocab_views(r@) == loaded_packs(file_views(files@)),
{
    let mut out: Vec<PackVocabulary> = Vec::new();
    let mut i: usize = 0;
    assert(vocab_views(out@) =~= seq![]);
    while i < files.len()
        invariant
            i <= files.len(),
            vocab_views(out@) == loaded_packs(file_views(files@).take(i as int)),
        decreases files.len() - i,
    {
        assert(file_views(files@).take(i + 1).drop_last() == file_views(files@).take(i as int));
        assert(file_views(files@).take(i + 1).last() == file_view(files@[i as int]));
        let f = &files[i];
        if is_json_file_name(f.file_name.as_str()) {
            match &f.contents {
                Some(t) => match decode_pack(t.as_str()) {
                    Some(p) => {
                        let ghost before = out@;
                        let ghost pv = vocab_view(p);
                        out.push(p);
                        assert(out@.drop_last() == before);
                        assert(vocab_views(out@) =~= vocab_views(before).push(pv));
                    },
                    None => {},
                },
                None => {},
            }
        }
        i = i + 1;
    }
    assert(file_views(files@).take(files.len() as int) == file_views(files@));
    out
}

/// A node kind is declared: baseline, or an object type of some pack.
pub open spec fn kind_declared(packs: Seq<(Seq<Seq<char>>, Seq<Seq<char>>)>, kind: Seq<char>) -> bool {
    baseline_node_kinds().contains(kind) || exists|p: int| 0 <= p < packs.len() && (#[trigger] packs[p]).0.contains(kind)
}

/// A relation kind is declared: baseline, or a relation type of some pack.
pub open spec fn rel_declared(packs: Seq<(Seq<Seq<char>>, Seq<Seq<char>>)>, rel: Seq<char>) -> bool {
    baseline_rels().contains(rel) || exists|p: int| 0 <= p < packs.len() && (#[trigger] packs[p]).1.contains(rel)
}

pub open spec fn undeclared_kind_msg(n: nat, id: Seq<char>, kind: Seq<char>) -> Seq<char> {
    line_tag(n) + "CreateNode "@ + id + " uses undeclared kind `"@ + kind + "`"@
}

pub open spec fn undeclared_rel_msg(n: nat, from: Seq<char>, rel: Seq<char>) -> Seq<char> {
    line_tag(n) + "CreateRelation from "@ + from + " uses undeclared rel `"@ + rel + "`"@
}

pub open spec fn op_issue(packs: Seq<(Seq<Seq<char>>, Seq<Seq<char>>)>, n: nat, op: OpView) -> Seq<Seq<char>> {
    match op {
        OpView::CreateNode { id, kind, props } => if kind_declared(packs, kind) {
            seq![]
        } else {
            seq![undeclared_kind_msg(n, id, kind)]
        },
        OpView::CreateRelation { from, rel, to } => if rel_declared(packs, rel) {
            seq![]
        } else {
            seq![undeclared_rel_msg(n, from, rel)]
        },
        OpView::Other => seq![],
    }
}

/// What the check reports of the event at position `i`.
pub open spec fn vocabulary_issue(packs: Seq<(Seq<Seq<char>>, Seq<Seq<char>>)>, evs: Seq<EventView>, i: int) -> Seq<Seq<char>> {
    match ops_of(evs[i]) {
        Some(ops) => gather(ops.len(), |k: int| op_issue(packs, (i + 1) as nat, ops[k])),
        None => seq![],
    }
}

/// The report of check 3, given the packs' vocabularies.
pub open spec fn vocabulary_report(packs: Seq<(Seq<Seq<char>>, Seq<Seq<char>>)>, evs: Seq<EventView>) -> ReportView {
    ReportView {
        number: 3,
        name: "vocabulary"@,
        failures: gather(evs.len(), |i: int| vocabulary_issue(packs, evs, i)),
        notes: seq![],
    }
}

fn in_list(list: &Vec<String>, s: &String) -> (r: bool)
    ensures
        r == strs(list@).contains(s@),
{
    let mut i: usize = 0;
    while i < list.len()
        invariant
            i <= list.len(),
            forall|j: int| 0 <= j < i ==> strs(list@)[j] != s@,
        decreases list.len() - i,
    {
        if str_eq(list[i].as_str(), s.as_str()) {
            assert(strs(list@)[i as int] == s@);
            return true;
        }
        i = i + 1;
    }
    false
}

fn is_declared_kind(packs: &Vec<PackVocabulary>, kind: &String) -> (r: bool)
    ensures
        r == kind_declared(vocab_views(packs@), kind@),
{
    let ghost pv = vocab_views(packs@);
    let mut i: usize = 0;
    while i < 15
        invariant
            i <= 15,
            forall|j: int| 0 <= j < i ==> baseline_node_kinds()[j] != kind@,
        decreases 15 - i,
    {
        if str_eq(baseline_node_kind_at(i), kind.as_str()) {
            assert(baseline_node_kinds()[i as int] == kind@);
            return true;
        }
        i = i + 1;
    }
    let mut p: usize = 0;
    while p < packs.len()
        invariant
            p <= packs.len(),
            pv == vocab_views(packs@),
            !baseline_node_kinds().contains(kind@),
            forall|j: int| 0 <= j < p ==> !(#[trigger] pv[j]).0.contains(kind@),
        decreases packs.len() - p,
    {
        assert(pv[p as int] == vocab_view(packs@[p as int]));
        if in_list(&packs[p].kinds, kind) {
            return true;
        }
        p = p + 1;
    }
    false
}

fn is_declared_rel(packs: &Vec<PackVocabulary>, rel: &String) -> (r: bool)
    ensures
        r == rel_declared(vocab_views(packs@), rel@),
{
    let ghost pv = vocab_views(packs@);
    let mut i: usize = 0;
    while i < 17
        invariant
            i <= 17,
            forall|j: int| 0 <= j < i ==> baseline_rels()[j] != rel@,
        decreases 17 - i,
    {
        if str_eq(baseline_rel_at(i), rel.as_str()) {
            assert(baseline_rels()[i as int] == rel@);
            return true;
        }
        i = i + 1;
    }
    let mut p: usize = 0;
    while p < packs.len()
        invariant
            p <= packs.len(),
            pv == vocab_views(packs@),
            !baseline_rels().contains(rel@),
            forall|j: int| 0 <= j < p ==> !(#[trigger] pv[j]).1.contains(rel@),
        decreases packs.len() - p,
    {
        assert(pv[p as int] == vocab_view(packs@[p as int]));
        if in_list(&packs[p].rels, rel) {
            return true;
        }
        p = p + 1;
    }
    false
}

fn event_vocabulary_msgs(packs: &Vec<PackVocabulary>, events: &[LogEvent], i: usize) -> (r: Vec<String>)
    requires
        i < events.len(),
    ensures
        strs(r@) == vocabulary_issue(vocab_views(packs@), event_views(events@), i as int),
{
    let ghost pv = vocab_views(packs@);
    assert(event_views(events@)[i as int] == events@[i as int]@);
    let ops = match event_ops(&events[i]) {
        None => {
            return Vec::new();
        },
        Some(ops) => ops,
    };
    let ghost ov = op_views(ops@);
    let mut out: Vec<String> = Vec::new();
    let mut k: usize = 0;
    while k < ops.len()
        invariant
            k <= ops.len(),
            i < events.len(),
            pv == vocab_views(packs@),
            ov == op_views(ops@),
            strs(out@) == gather(k as nat, |x: int| op_issue(pv, (i + 1) as nat, ov[x])),
        decreases ops.len() - k,
    {
        assert(ov[k as int] == ops@[k as int]@);
        match &ops[k] {
            OpRecord::CreateNode { id, kind, props } => {
                if !is_declared_kind(packs, kind) {
                    let mut m = line_tag_string(i + 1);
                    m.append("CreateNode ");
                    m.append(id.as_str());
                    m.append(" uses undeclared kind `");
                    m.append(kind.as_str());
                    m.append("`");
                    out.push(m);
                    assert(strs(out@) == strs(out@.drop_last()).push(m@));
                }
            },
            OpRecord::CreateRelation { from, rel, to } => {
                if !is_declared_rel(packs, rel) {
                    let mut m = line_tag_string(i + 1);
                    m.append("CreateRelation from ");
                    m.append(from.as_str());
                    m.append(" uses undeclared rel `");
                    m.append(rel.as_str());
                    m.append("`");
                    out.push(m);
                    assert(strs(out@) == strs(out@.drop_last()).push(m@));
                }
            },
            OpRecord::Other => {},
        }
        k = k + 1;
    }
    out
}

/// Check 3: vocabulary, against the packs that the given pack files yield.
pub fn check_vocabulary(pack_files: &[PackFile], events: &[LogEvent]) -> (r: CheckReport)
    ensures
        r@ == vocabulary_report(loaded_packs(file_views(pack_files@)), event_views(events@)),
{
    let packs = load_packs(pack_files);
    let ghost pv = vocab_views(packs@);
    let ghost evs = event_views(events@);
    let mut report = CheckReport::new(3, "vocabulary");
    let mut i: usize = 0;
    while i < events.len()
        invariant
            i <= events.len(),
            pv == vocab_views(packs@),
            evs == event_views(events@),
            report.number == 3,
            report.name@ == "vocabulary"@,
            report@.notes == Seq::<Seq<char>>::empty(),
            report@.failures == gather(i as nat, |k: int| vocabulary_issue(pv, evs, k)),
        decreases events.len() - i,
    {
        let msgs = event_vocabulary_msgs(&packs, events, i);
        report.fail_all(msgs);
        i = i + 1;
    }
    proof {
        assert(report@.notes =~= seq![]);
    }
    report
}

/// An op uses only declared vocabulary.
pub open spec fn op_ok(packs: Seq<(Seq<Seq<char>>, Seq<Seq<char>>)>, op: OpView) -> bool {
    match op {
        OpView::CreateNode { kind, .. } => kind_declared(packs, kind),
        OpView::CreateRelation { rel, .. } => rel_declared(packs, rel),
        OpView::Other => true,
    }
}

/// Every op the event carries uses declared vocabulary.
pub open spec fn event_vocabulary_ok(packs: Seq<(Seq<Seq<char>>, Seq<Seq<char>>)>, e: EventView) -> bool {
    match ops_of(e) {
        Some(ops) => forall|k: int| 0 <= k < ops.len() ==> op_ok(packs, #[trigger] ops[k]),
        None => true,
    }
}

proof fn lemma_event_vocabulary(packs: Seq<(Seq<Seq<char>>, Seq<Seq<char>>)>, evs: Seq<EventView>, i: int)
    requires
        0 <= i < evs.len(),
    ensures
        vocabulary_issue(packs, evs, i).len() == 0 <==> event_vocabulary_ok(packs, evs[i]),
{
    if let Some(ops) = ops_of(evs[i]) {
        let f = |k: int| op_issue(packs, (i + 1) as nat, ops[k]);
        lemma_gather_empty(ops.len(), f);
        assert(vocabulary_issue(packs, evs, i) == gather(ops.len(), f));
        if vocabulary_issue(packs, evs, i).len() == 0 {
            assert forall|k: int| 0 <= k < ops.len() implies op_ok(packs, #[trigger] ops[k]) by {
                assert(f(k).len() == 0);
            }
        }
        if event_vocabulary_ok(packs, evs[i]) {
            assert forall|k: int| 0 <= k < ops.len() implies #[trigger] f(k).len() == 0 by {
                assert(op_ok(packs, ops[k]));
            }
        }
    }
}

/// Check 3 passes exactly when every node kind the ops create is a baseline
/// kind or declared by a pack, and every relation kind likewise.
pub proof fn lemma_vocabulary_passes(packs: Seq<(Seq<Seq<char>>, Seq<Seq<char>>)>, evs: Seq<EventView>)
    ensures
        vocabulary_report(packs, evs).failures.len() == 0 <==> forall|i: int|
            0 <= i < evs.len() ==> event_vocabulary_ok(packs, #[trigger] evs[i]),
{
    let f = |i: int| vocabulary_issue(packs, evs, i);
    lemma_gather_empty(evs.len(), f);
    assert forall|i: int| 0 <= i < evs.len() implies (#[trigger] f(i).len() == 0 <==> event_vocabulary_ok(
        packs,
        evs[i],
    )) by {
        lemma_event_vocabulary(packs, evs, i);
    }
    if vocabulary_report(packs, evs).failures.len() == 0 {
        assert forall|i: int| 0 <= i < evs.len() implies event_vocabulary_ok(packs, #[trigger] evs[i]) by {
            assert(f(i).len() == 0);
        }
    }
    if forall|i: int| 0 <= i < evs.len() ==> event_vocabulary_ok(packs, #[trigger] evs[i]) {
        assert forall|i: int| 0 <= i < evs.len() implies #[trigger] f(i).len() == 0 by {
            assert(event_vocabulary_ok(packs, evs[i]));
        }
    }
}

/// Every pack that the files yield comes from one of them, and every file
/// that yields a pack has it among the loaded packs.
proof fn lemma_loaded_packs_members(files: Seq<(Seq<char>, Option<Seq<char>>)>)
    ensures
        forall|i: int|
            0 <= i < files.len() && #[trigger] pack_of_file(files[i].0, files[i].1) is Some ==> loaded_packs(
                files,
            ).contains(pack_of_file(files[i].0, files[i].1)->0),
        forall|q: (Seq<Seq<char>>, Seq<Seq<char>>)|
            #[trigger] loaded_packs(files).contains(q) ==> exists|i: int|
                0 <= i < files.len() && pack_of_file(files[i].0, files[i].1) == Some(q),
    decreases files.len(),
{
    if files.len() > 0 {
        let init = files.drop_last();
        lemma_loaded_packs_members(init);
        let rest = loaded_packs(init);
        let last = files.last();
        assert forall|i: int|
            0 <= i < files.len() && #[trigger] pack_of_file(files[i].0, files[i].1) is Some implies loaded_packs(
                files,
            ).contains(pack_of_file(files[i].0, files[i].1)->0) by {
            let p = pack_of_file(files[i].0, files[i].1)->0;
            if i < init.len() {
                assert(init[i] == files[i]);
                assert(rest.contains(p));
                let k = choose|k: int| 0 <= k < rest.len() && rest[k] == p;
                assert(loaded_packs(files)[k] == p);
            } else {
                assert(loaded_packs(files) == rest.push(p));
                assert(loaded_packs(files)[rest.len() as int] == p);
            }
        }
        assert forall|q: (Seq<Seq<char>>, Seq<Seq<char>>)| #[trigger] loaded_packs(files).contains(q) implies exists|i: int|
            0 <= i < files.len() && pack_of_file(files[i].0, files[i].1) == Some(q) by {
            let k = choose|k: int| 0 <= k < loaded_packs(files).len() && loaded_packs(files)[k] == q;
            if k < rest.len() {
                assert(rest[k] == q);
                assert(rest.contains(q));
                let i = choose|i: int| 0 <= i < init.len() && pack_of_file(init[i].0, init[i].1) == Some(q);
                assert(files[i] == init[i]);
            } else {
                assert(pack_of_file(last.0, last.1) == Some(q));
                assert(files[files.len() - 1] == last);
            }
        }
    }
}

/// With every pack of `packs` among `more`, check 3 against `more` reports no
/// failure that it does not report against `packs`.
pub proof fn lemma_more_packs_fewer_failures(
    packs: Seq<(Seq<Seq<char>>, Seq<Seq<char>>)>,
    more: Seq<(Seq<Seq<char>>, Seq<Seq<char>>)>,
    evs: Seq<EventView>,
)
    requires
        forall|p: int| 0 <= p < packs.len() ==> more.contains(#[trigger] packs[p]),
    ensures
        forall|f: Seq<char>| #[trigger] vocabulary_report(more, evs).failures.contains(f) ==> vocabulary_report(
            packs,
            evs,
        ).failures.contains(f),
{
    assert forall|kind: Seq<char>| #[trigger] kind_declared(packs, kind) implies kind_declared(more, kind) by {
        if !baseline_node_kinds().contains(kind) {
            let p = choose|p: int| 0 <= p < packs.len() && (#[trigger] packs[p]).0.contains(kind);
            let q = choose|q: int| 0 <= q < more.len() && more[q] == packs[p];
            assert(more[q].0.contains(kind));
        }
    }
    assert forall|rel: Seq<char>| #[trigger] rel_declared(packs, rel) implies rel_declared(more, rel) by {
        if !baseline_rels().contains(rel) {
            let p = choose|p: int| 0 <= p < packs.len() && (#[trigger] packs[p]).1.contains(rel);
            let q = choose|q: int| 0 <= q < more.len() && more[q] == packs[p];
            assert(more[q].1.contains(rel));
        }
    }
    let fm = |i: int| vocabulary_issue(more, evs, i);
    let fp = |i: int| vocabulary_issue(packs, evs, i);
    assert forall|i: int, x: Seq<char>| 0 <= i < evs.len() && #[trigger] fm(i).contains(x) implies fp(i).contains(x) by {
        if let Some(ops) = ops_of(evs[i]) {
            let gm = |k: int| op_issue(more, (i + 1) as nat, ops[k]);
            let gp = |k: int| op_issue(packs, (i + 1) as nat, ops[k]);
            assert forall|k: int, y: Seq<char>| 0 <= k < ops.len() && #[trigger] gm(k).contains(y) implies gp(
                k,
            ).contains(y) by {
                assert(gm(k).len() > 0);
                assert(gm(k) == gp(k));
            }
            lemma_gather_contains(ops.len(), gm, gp);
            assert(fm(i) == gather(ops.len(), gm));
            assert(fp(i) == gather(ops.len(), gp));
        }
    }
    lemma_gather_contains(evs.len(), fm, fp);
}

/// Adding pack files (in any listing order) never adds a failure to check 3:
/// every failure against `more_files` is one against `files`.
pub proof fn lemma_more_pack_files(
    files: Seq<(Seq<char>, Option<Seq<char>>)>,
    more_files: Seq<(Seq<char>, Option<Seq<char>>)>,
    evs: Seq<EventView>,
)
    requires
        forall|i: int| 0 <= i < files.len() ==> more_files.contains(#[trigger] files[i]),
    ensures
        forall|f: Seq<char>| #[trigger] vocabulary_report(loaded_packs(more_files), evs).failures.contains(f)
            ==> vocabulary_report(loaded_packs(files), evs).failures.contains(f),
{
    lemma_loaded_packs_members(files);
    lemma_loaded_packs_members(more_files);
    let packs = loaded_packs(files);
    let more = loaded_packs(more_files);
    assert forall|p: int| 0 <= p < packs.len() implies more.contains(#[trigger] packs[p]) by {
        assert(packs.contains(packs[p]));
        let i = choose|i: int| 0 <= i < files.len() && pack_of_file(files[i].0, files[i].1) == Some(packs[p]);
        let j = choose|j: int| 0 <= j < more_files.len() && more_files[j] == files[i];
        assert(pack_of_file(more_files[j].0, more_files[j].1) is Some);
    }
    lemma_more_packs_fewer_failures(packs, more, evs);
}

/// One of the baseline relation kinds: serves, blocks, advances, observes,
/// explains, addresses, modifies, validated_by, approved_by, rejected_by,
/// produced_by, derived_from, depends_on, supersedes, contained_in_frame,
/// forked_from, references.
pub open spec fn is_baseline_rel_name(rel: Seq<char>) -> bool {
    rel == "serves"@ ||
    rel == "blocks"@ ||
    rel == "advances"@ ||
    rel == "observes"@ ||
    rel == "explains"@ ||
    rel == "addresses"@ ||
    rel == "modifies"@ ||
    rel == "validated_by"@ ||
    rel == "approved_by"@ ||
    rel == "rejected_by"@ ||
    rel == "produced_by"@ ||
    rel == "derived_from"@ ||
    rel == "depends_on"@ ||
    rel == "supersedes"@ ||
    rel == "contained_in_frame"@ ||
    rel == "forked_from"@ ||
    rel == "references"@
}

/// One of the baseline node kinds: goal, task, run, observation, failure,
/// hypothesis, patch, eval, decision, model_call, tool_call, frame,
/// project_snapshot, policy, behavior.
pub open spec fn is_baseline_kind_name(kind: Seq<char>) -> bool {
    kind == "goal"@ ||
    kind == "task"@ ||
    kind == "run"@ ||
    kind == "observation"@ ||
    kind == "failure"@ ||
    kind == "hypothesis"@ ||
    kind == "patch"@ ||
    kind == "eval"@ ||
    kind == "decision"@ ||
    kind == "model_call"@ ||
    kind == "tool_call"@ ||
    kind == "frame"@ ||
    kind == "project_snapshot"@ ||
    kind == "policy"@ ||
    kind == "behavior"@
}

/// Check 3 accepts a relation exactly when its kind is one of the seventeen
/// baseline relation kinds or a relation type of some pack: whatever the
/// packs, a `CreateRelation` of a baseline kind yields no failure, and one of
/// any other kind that no pack declares is reported.
pub proof fn lemma_relation_accepted(
    packs: Seq<(Seq<Seq<char>>, Seq<Seq<char>>)>,
    n: nat,
    from: Seq<char>,
    rel: Seq<char>,
    to: Seq<char>,
)
    ensures
        op_issue(packs, n, OpView::CreateRelation { from, rel, to }).len() == 0 <==> (is_baseline_rel_name(rel)
            || exists|p: int| 0 <= p < packs.len() && (#[trigger] packs[p]).1.contains(rel)),
{
    let b = baseline_rels();
    if is_baseline_rel_name(rel) {
        assert(b[0] == rel || b[1] == rel || b[2] == rel || b[3] == rel || b[4] == rel || b[5] == rel || b[6] == rel || b[7] == rel || b[8] == rel || b[9] == rel || b[10] == rel || b[11] == rel || b[12] == rel || b[13] == rel || b[14] == rel || b[15] == rel || b[16] == rel);
    }
    if b.contains(rel) {
        let k = choose|k: int| 0 <= k < b.len() && b[k] == rel;
        assert(0 <= k < 17);
    }
}

/// Check 3 accepts a created node exactly when its kind is one of the fifteen
/// baseline node kinds or an object type of some pack.
pub proof fn lemma_node_kind_accepted(
    packs: Seq<(Seq<Seq<char>>, Seq<Seq<char>>)>,
    n: nat,
    id: Seq<char>,
    kind: Seq<char>,
    props: JsonView,
)
    ensures
        op_issue(packs, n, OpView::CreateNode { id, kind, props }).len() == 0 <==> (is_baseline_kind_name(kind)
            || exists|p: int| 0 <= p < packs.len() && (#[trigger] packs[p]).0.contains(kind)),
{
    let b = baseline_node_kinds();
    if is_baseline_kind_name(kind) {
        assert(b[0] == kind || b[1] == kind || b[2] == kind || b[3] == kind || b[4] == kind || b[5] == kind || b[6] == kind || b[7] == kind || b[8] == kind || b[9] == kind || b[10] == kind || b[11] == kind || b[12] == kind || b[13] == kind || b[14] == kind);
    }
    if b.contains(kind) {
        let k = choose|k: int| 0 <= k < b.len() && b[k] == kind;
        assert(0 <= k < 15);
    }
}

} // verus!
