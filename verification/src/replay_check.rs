//! Check 2, replay determinism: the log folds, folding it twice gives equal
//! graphs, and each snapshot under `snapshots/` matches a fold of the log
//! prefix it seals.

use vstd::prelude::*;
use vstd::string::StringExecFns;
use crate::digest::{prefix_digest, prefix_digest_text};
use crate::event::{EventView, LogEvent, event_views};
use crate::graph::{graph_contents, decode_graph, graph_eq, graph_equal, graph_from_json, replay_events, replay_of};
use crate::json::{
    JsonView, parse_value, parsed_json, value_as_str, value_as_u64, value_contents, value_member,
    view_get, view_str, view_u64,
};
use crate::report::{CheckReport, ReportView, gather, lemma_gather_empty};
use crate::text::{decimal, decimal_string, str_eq, strs};

verus! {

/// A snapshot directory's `graph.json`: the directory's name and the file's
/// text, or the message of why it could not be read.
#[derive(Debug)]
pub struct SnapshotFile {
    pub name: String,
    pub contents: Result<String, String>,
}

/// What `snapshots/` holds: nothing, a directory that cannot be listed, or
/// the snapshot files found in it, in listing order.
#[derive(Debug)]
pub enum SnapshotsDir {
    Missing,
    Unlistable,
    Entries(Vec<SnapshotFile>),
}

pub open spec fn snap_tag(name: Seq<char>) -> Seq<char> {
    "snapshot "@ + name + ": "@
}

/// The sealed line count of an `integrity` record: its `line_count` as a
/// `u64` (0 where there is none), cast to `usize`.
pub open spec fn line_count(iv: JsonView) -> usize {
    let c: u64 = match view_u64(view_get(iv, "line_count"@)) {
        Some(u) => u,
        None => 0,
    };
    c as usize
}

/// What the snapshot's record seals, once its `graph` and `integrity`
/// members are found: the number of log lines and their SHA-256.
pub open spec fn sealed_issue(
    evs: Seq<EventView>,
    lines: Seq<Seq<char>>,
    name: Seq<char>,
    gv: JsonView,
    iv: JsonView,
) -> Seq<Seq<char>> {
    let count = line_count(iv);
    let expected = match view_str(view_get(iv, "sha256"@)) {
        Some(s) => s,
        None => seq![],
    };
    if count == 0 || count > lines.len() {
        seq![snap_tag(name) + "line_count "@ + decimal(count as nat) + " out of range"@]
    } else if prefix_digest_text(lines, count as int) != expected {
        seq![snap_tag(name) + "integrity hash mismatch (log prefix changed?)"@]
    } else {
        match graph_from_json(gv) {
            Err(e) => seq![snap_tag(name) + "graph does not parse: "@ + e],
            Ok(sg) => match replay_of(evs.take(count as int)) {
                Err(e) => seq![snap_tag(name) + "prefix fold failed: "@ + e],
                Ok(pg) => if graph_equal(pg, sg) {
                    seq![]
                } else {
                    seq![snap_tag(name) + "snapshot + tail differs from folding from scratch"@]
                },
            },
        }
    }
}

/// What the check reports of one snapshot.
pub open spec fn snapshot_issue(
    evs: Seq<EventView>,
    lines: Seq<Seq<char>>,
    name: Seq<char>,
    contents: Result<Seq<char>, Seq<char>>,
) -> Seq<Seq<char>> {
    match contents {
        Err(e) => seq![snap_tag(name) + "unreadable: "@ + e],
        Ok(raw) => match parsed_json(raw) {
            Err(e) => seq![snap_tag(name) + "not JSON: "@ + e],
            Ok(v) => match (view_get(v, "graph"@), view_get(v, "integrity"@)) {
                (Some(gv), Some(iv)) => sealed_issue(evs, lines, name, gv, iv),
                _ => seq![snap_tag(name) + "missing `graph` or `integrity` record"@],
            },
        },
    }
}

/// The line count of a snapshot whose log prefix the check folds: its record
/// has both members, its line count is in range, its hash matches and its
/// graph decodes.
pub open spec fn folded_count(lines: Seq<Seq<char>>, contents: Result<Seq<char>, Seq<char>>) -> Option<usize> {
    match contents {
        Err(_) => None,
        Ok(raw) => match parsed_json(raw) {
            Err(_) => None,
            Ok(v) => match (view_get(v, "graph"@), view_get(v, "integrity"@)) {
                (Some(gv), Some(iv)) => {
                    let count = line_count(iv);
                    let expected = match view_str(view_get(iv, "sha256"@)) {
                        Some(s) => s,
                        None => seq![],
                    };
                    if count == 0 || count > lines.len() || prefix_digest_text(lines, count as int) != expected
                        || graph_from_json(gv) is Err {
                        None
                    } else {
                        Some(count)
                    }
                },
                _ => None,
            },
        },
    }
}

/// Every log prefix that the check folds for a snapshot is a prefix of the
/// events too (slicing the events there must not go past their end).
pub open spec fn folded_prefixes_fit(n_events: nat, lines: Seq<Seq<char>>, snaps: SnapshotsDir) -> bool {
    match snaps {
        SnapshotsDir::Entries(fs) => forall|k: int|
            0 <= k < fs@.len() ==> match folded_count(lines, file_contents(#[trigger] fs@[k])) {
                Some(c) => c <= n_events,
                None => true,
            },
        _ => true,
    }
}

pub open spec fn file_contents(f: SnapshotFile) -> Result<Seq<char>, Seq<char>> {
    match f.contents {
        Ok(t) => Ok(t@),
        Err(e) => Err(e@),
    }
}

pub open spec fn snapshots_failures(evs: Seq<EventView>, lines: Seq<Seq<char>>, fs: Seq<SnapshotFile>) -> Seq<Seq<char>> {
    gather(fs.len(), |k: int| snapshot_issue(evs, lines, fs[k].name@, file_contents(fs[k])))
}

/// The report of check 2.
pub open spec fn replay_report(evs: Seq<EventView>, lines: Seq<Seq<char>>, snaps: SnapshotsDir) -> ReportView {
    match replay_of(evs) {
        Err(e) => ReportView {
            number: 2,
            name: "replay determinism"@,
            failures: seq!["fold failed: "@ + e],
            notes: seq![],
        },
        Ok(g) => {
            let twice = if graph_equal(g, g) {
                seq![]
            } else {
                seq!["folding the log twice yielded different graphs"@]
            };
            match snaps {
                SnapshotsDir::Missing => ReportView {
                    number: 2,
                    name: "replay determinism"@,
                    failures: twice,
                    notes: seq!["no snapshots/ — skipped seed check"@],
                },
                SnapshotsDir::Unlistable => ReportView {
                    number: 2,
                    name: "replay determinism"@,
                    failures: twice.push("cannot read snapshots/"@),
                    notes: seq![],
                },
                SnapshotsDir::Entries(fs) => ReportView {
                    number: 2,
                    name: "replay determinism"@,
                    failures: twice + snapshots_failures(evs, lines, fs@),
                    notes: seq![],
                },
            }
        },
    }
}

fn snapshot_msg(name: &String, text: &str) -> (r: String)
    ensures
        r@ == snap_tag(name@) + text@,
{
    let mut m = String::from_str("snapshot ");
    m.append(name.as_str());
    m.append(": ");
    m.append(text);
    m
}

fn snapshot_msgs(events: &[LogEvent], lines: &[String], f: &SnapshotFile) -> (r: Vec<String>)
    requires
        match folded_count(strs(lines@), file_contents(*f)) {
            Some(c) => c <= events.len(),
            None => true,
        },
    ensures
        strs(r@) == snapshot_issue(event_views(events@), strs(lines@), f.name@, file_contents(*f)),
{
    let ghost evs = event_views(events@);
    let ghost ls = strs(lines@);
    let name = &f.name;
    let raw = match &f.contents {
        Err(e) => {
            let mut m = snapshot_msg(name, "unreadable: ");
            m.append(e.as_str());
            return vec![m];
        },
        Ok(raw) => raw,
    };
    let value = match parse_value(raw.as_str()) {
        Err(e) => {
            let mut m = snapshot_msg(name, "not JSON: ");
            m.append(e.as_str());
            return vec![m];
        },
        Ok(v) => v,
    };
    let (graph_v, integrity_v) = match (value_member(&value, "graph"), value_member(&value, "integrity")) {
        (Some(g), Some(i)) => (g, i),
        _ => {
            return vec![snapshot_msg(name, "missing `graph` or `integrity` record")];
        },
    };
    let sealed: u64 = match value_member(integrity_v, "line_count") {
        Some(c) => match value_as_u64(c) {
            Some(u) => u,
            None => 0,
        },
        None => 0,
    };
    let count: usize = #[verifier::truncate] (sealed as usize);
    proof {
        reveal_strlit("");
    }
    let expected: &str = match value_member(integrity_v, "sha256") {
        Some(h) => match value_as_str(h) {
            Some(s) => s,
            None => "",
        },
        None => "",
    };
    let ghost gv = value_contents(*graph_v);
    let ghost iv = value_contents(*integrity_v);
    assert(count == line_count(iv));
    assert(expected@ == match view_str(view_get(iv, "sha256"@)) {
        Some(s) => s,
        None => seq![],
    });
    assert(snapshot_issue(evs, ls, name@, file_contents(*f)) == sealed_issue(evs, ls, name@, gv, iv));
    if count == 0 || count > lines.len() {
        let mut m = snapshot_msg(name, "line_count ");
        let d = decimal_string(count as u64);
        m.append(d.as_str());
        m.append(" out of range");
        return vec![m];
    }
    let n = count;
    let actual = prefix_digest(lines, n);
    if !str_eq(actual.as_str(), expected) {
        return vec![snapshot_msg(name, "integrity hash mismatch (log prefix changed?)")];
    }
    let snapshot_graph = match decode_graph(graph_v) {
        Err(e) => {
            let mut m = snapshot_msg(name, "graph does not parse: ");
            m.append(e.as_str());
            return vec![m];
        },
        Ok(g) => g,
    };
    let prefix_fold = match replay_events(events, n) {
        Err(e) => {
            let mut m = snapshot_msg(name, "prefix fold failed: ");
            m.append(e.as_str());
            return vec![m];
        },
        Ok(g) => g,
    };
    if !graph_eq(&prefix_fold, &snapshot_graph) {
        return vec![snapshot_msg(name, "snapshot + tail differs from folding from scratch")];
    }
    Vec::new()
}

/// Check 2: replay determinism and snapshot integrity.
pub fn check_replay(events: &[LogEvent], lines: &[String], snapshots: &SnapshotsDir) -> (r: CheckReport)
    requires
        replay_of(event_views(events@)) is Ok ==> folded_prefixes_fit(events.len() as nat, strs(lines@), *snapshots),
    ensures
        r@ == replay_report(event_views(events@), strs(lines@), *snapshots),
{
    let ghost evs = event_views(events@);
    let mut report = CheckReport::new(2, "replay determinism");
    let first = replay_events(events, events.len());
    let second = replay_events(events, events.len());
    assert(evs.take(events.len() as int) == evs);
    match (first, second) {
        (Ok(a), Ok(b)) => {
            assert(report@.failures =~= seq![]);
            if !graph_eq(&a, &b) {
                report.fail(String::from_str("folding the log twice yielded different graphs"));
            }
            assert(report@.failures =~= (if graph_equal(graph_contents(a), graph_contents(a)) {
                seq![]
            } else {
                seq!["folding the log twice yielded different graphs"@]
            }));
        },
        (Err(e), _) => {
            let mut m = String::from_str("fold failed: ");
            m.append(e.as_str());
            assert(report@.failures =~= seq![]);
            report.fail(m);
            assert(report@.failures =~= seq!["fold failed: "@ + e@]);
            assert(report@.notes =~= seq![]);
            return report;
        },
        (_, Err(e)) => {
            let mut m = String::from_str("fold failed: ");
            m.append(e.as_str());
            assert(report@.failures =~= seq![]);
            report.fail(m);
            assert(report@.failures =~= seq!["fold failed: "@ + e@]);
            assert(report@.notes =~= seq![]);
            return report;
        },
    }
    let ghost twice = report@.failures;
    match snapshots {
        SnapshotsDir::Missing => {
            report.note(String::from_str("no snapshots/ — skipped seed check"));
            assert(report@.notes =~= seq!["no snapshots/ — skipped seed check"@]);
            report
        },
        SnapshotsDir::Unlistable => {
            report.fail(String::from_str("cannot read snapshots/"));
            assert(report@.notes =~= seq![]);
            report
        },
        SnapshotsDir::Entries(fs) => {
            let mut i: usize = 0;
            while i < fs.len()
                invariant
                    i <= fs.len(),
                    folded_prefixes_fit(events.len() as nat, strs(lines@), *snapshots),
                    *snapshots == SnapshotsDir::Entries(*fs),
                    evs == event_views(events@),
                    report.number == 2,
                    report.name@ == "replay determinism"@,
                    report@.notes == Seq::<Seq<char>>::empty(),
                    report@.failures == twice + gather(
                        i as nat,
                        |k: int| snapshot_issue(evs, strs(lines@), fs@[k].name@, file_contents(fs@[k])),
                    ),
                decreases fs.len() - i,
            {
                let msgs = snapshot_msgs(events, lines, &fs[i]);
                report.fail_all(msgs);
                i = i + 1;
            }
            assert(report@.notes =~= seq![]);
            report
        },
    }
}

/// Folding is deterministic: where the log folds, the two folds that check 2
/// compares are equal graphs, so it never reports them as different.
pub proof fn lemma_fold_twice_agrees(evs: Seq<EventView>, lines: Seq<Seq<char>>, snaps: SnapshotsDir)
    ensures
        replay_of(evs) matches Ok(g) ==> graph_equal(g, g),
        replay_of(evs) is Ok ==> replay_report(evs, lines, snaps).failures == match snaps {
            SnapshotsDir::Missing => seq![],
            SnapshotsDir::Unlistable => seq!["cannot read snapshots/"@],
            SnapshotsDir::Entries(fs) => snapshots_failures(evs, lines, fs@),
        },
{
    if let Ok(g) = replay_of(evs) {
        crate::graph::lemma_graph_equal_refl(g);
        assert(Seq::<Seq<char>>::empty().push("cannot read snapshots/"@) =~= seq!["cannot read snapshots/"@]);
        if let SnapshotsDir::Entries(fs) = snaps {
            assert(Seq::<Seq<char>>::empty() + snapshots_failures(evs, lines, fs@) =~= snapshots_failures(evs, lines, fs@));
        }
    }
}

/// A snapshot holds: its file reads and parses, its record has `graph` and
/// `integrity`, it seals a line count in range whose hash matches the log
/// prefix, its graph decodes, and that prefix folds to an equal graph.
pub open spec fn snapshot_ok(
    evs: Seq<EventView>,
    lines: Seq<Seq<char>>,
    contents: Result<Seq<char>, Seq<char>>,
) -> bool {
    match contents {
        Err(_) => false,
        Ok(raw) => match parsed_json(raw) {
            Err(_) => false,
            Ok(v) => match (view_get(v, "graph"@), view_get(v, "integrity"@)) {
                (Some(gv), Some(iv)) => {
                    let count = line_count(iv);
                    let expected = match view_str(view_get(iv, "sha256"@)) {
                        Some(s) => s,
                        None => seq![],
                    };
                    &&& 1 <= count <= lines.len()
                    &&& prefix_digest_text(lines, count as int) == expected
                    &&& match graph_from_json(gv) {
                        Ok(sg) => match replay_of(evs.take(count as int)) {
                            Ok(pg) => graph_equal(pg, sg),
                            Err(_) => false,
                        },
                        Err(_) => false,
                    }
                },
                _ => false,
            },
        },
    }
}

/// Check 2 passes exactly when the log folds, `snapshots/` is missing or
/// can be listed, and every snapshot in it holds.
pub proof fn lemma_replay_passes(evs: Seq<EventView>, lines: Seq<Seq<char>>, snaps: SnapshotsDir)
    ensures
        replay_report(evs, lines, snaps).failures.len() == 0 <==> replay_of(evs) is Ok && match snaps {
            SnapshotsDir::Missing => true,
            SnapshotsDir::Unlistable => false,
            SnapshotsDir::Entries(fs) => forall|k: int|
                0 <= k < fs@.len() ==> snapshot_ok(evs, lines, file_contents(#[trigger] fs@[k])),
        },
{
    lemma_fold_twice_agrees(evs, lines, snaps);
    if let SnapshotsDir::Entries(fs) = snaps {
        let f = |k: int| snapshot_issue(evs, lines, fs@[k].name@, file_contents(fs@[k]));
        lemma_gather_empty(fs@.len(), f);
        assert forall|k: int| 0 <= k < fs@.len() implies (#[trigger] f(k).len() == 0 <==> snapshot_ok(
            evs,
            lines,
            file_contents(fs@[k]),
        )) by {
            assert(f(k) == snapshot_issue(evs, lines, fs@[k].name@, file_contents(fs@[k])));
        }
        if replay_of(evs) is Ok {
            if replay_report(evs, lines, snaps).failures.len() == 0 {
                assert forall|k: int| 0 <= k < fs@.len() implies snapshot_ok(evs, lines, file_contents(#[trigger] fs@[k])) by {
                    assert(f(k).len() == 0);
                }
            }
            if forall|k: int| 0 <= k < fs@.len() ==> snapshot_ok(evs, lines, file_contents(#[trigger] fs@[k])) {
                assert forall|k: int| 0 <= k < fs@.len() implies #[trigger] f(k).len() == 0 by {
                    assert(snapshot_ok(evs, lines, file_contents(fs@[k])));
                }
            }
        }
    }
}

} // verus!
