//! Check 6, restore: the manifest and the identity are present and the log
//! folds; for the canonical fixture, the folded graph holds its facts.

use vstd::prelude::*;
use vstd::string::StringExecFns;
use crate::event::{EventView, LogEvent, event_views};
use crate::graph::{GraphView, RelationView, graph_contents, node_props, rel_targets, relation_targets, replay_events, replay_of};
use crate::json::{JsonView, value_as_str, value_member, view_get};
use crate::report::{CheckReport, ReportView};
use crate::text::{str_eq, strs};

verus! {

/// The graph has node `id`.
pub open spec fn has_node(g: GraphView, id: Seq<char>) -> bool {
    g.nodes.contains_key(id)
}

/// The graph relates `from` to `to` by `rel`.
pub open spec fn has_edge(g: GraphView, from: Seq<char>, rel: Seq<char>, to: Seq<char>) -> bool {
    rel_targets(g.relations, from, rel).contains(to)
}

/// Node `id` has prop `key` equal to the JSON string `value`.
pub open spec fn prop_is(g: GraphView, id: Seq<char>, key: Seq<char>, value: Seq<char>) -> bool {
    g.nodes.contains_key(id) && view_get(g.nodes[id].props, key) == Some(JsonView::Str(value))
}

pub open spec fn fact(ok: bool, msg: Seq<char>) -> Seq<Seq<char>> {
    if ok {
        seq![]
    } else {
        seq![msg]
    }
}

/// The fixture's graph facts: the goal, the patch that advances it and was
/// promoted at a commit, its passed eval and its approving decision.
pub open spec fn fixture_failures(g: GraphView) -> Seq<Seq<char>> {
    fact(has_node(g, "goal_retry"@), "fixture: goal_retry missing"@) + fact(
        has_edge(g, "patch_9"@, "advances"@, "goal_retry"@),
        "fixture: patch_9 --advances--> goal_retry missing"@,
    ) + fact(prop_is(g, "patch_9"@, "status"@, "Promoted"@), "fixture: patch_9.status != Promoted"@)
        + fact(
        prop_is(g, "patch_9"@, "references_commit"@, "abc1234"@),
        "fixture: patch_9.references_commit != abc1234"@,
    ) + fact(
        has_edge(g, "patch_9"@, "validated_by"@, "eval_5"@) && prop_is(g, "eval_5"@, "status"@, "Passed"@),
        "fixture: patch_9 validated_by passed eval_5 missing"@,
    ) + fact(
        has_edge(g, "patch_9"@, "approved_by"@, "decision_3"@) && prop_is(
            g,
            "decision_3"@,
            "status"@,
            "Approved"@,
        ),
        "fixture: patch_9 approved_by approved decision_3 missing"@,
    )
}

/// The report of check 6.
pub open spec fn restore_report(has_manifest: bool, has_identity: bool, evs: Seq<EventView>, fixture_facts: bool) -> ReportView {
    let base = fact(has_manifest, "AGENT.md manifest missing"@) + fact(
        has_identity,
        "no identity/ directory or IDENTITY.md"@,
    );
    let failures = match replay_of(evs) {
        Err(e) => base.push("fold failed: "@ + e),
        Ok(g) => if fixture_facts {
            base + fixture_failures(g)
        } else {
            base
        },
    };
    ReportView { number: 6, name: "restore"@, failures, notes: seq![] }
}

fn node_exists(g: &yoagent_state::Graph, id: &str) -> (r: bool)
    ensures
        r == has_node(graph_contents(*g), id@),
{
    node_props(g, id).is_some()
}

fn edge_exists(g: &yoagent_state::Graph, from: &str, rel: &str, to: &str) -> (r: bool)
    ensures
        r == has_edge(graph_contents(*g), from@, rel@, to@),
{
    let ts = relation_targets(g, from, rel);
    let mut i: usize = 0;
    while i < ts.len()
        invariant
            i <= ts.len(),
            strs(ts@) == rel_targets(graph_contents(*g).relations, from@, rel@),
            forall|j: int| 0 <= j < i ==> strs(ts@)[j] != to@,
        decreases ts.len() - i,
    {
        if str_eq(ts[i].as_str(), to) {
            assert(strs(ts@)[i as int] == to@);
            return true;
        }
        i = i + 1;
    }
    false
}

fn prop_equals(g: &yoagent_state::Graph, id: &str, key: &str, value: &str) -> (r: bool)
    ensures
        r == prop_is(graph_contents(*g), id@, key@, value@),
{
    match node_props(g, id) {
        None => false,
        Some(p) => match value_member(&p, key) {
            Some(v) => match value_as_str(v) {
                Some(s) => str_eq(s, value),
                None => false,
            },
            None => false,
        },
    }
}

fn fact_into(report: &mut CheckReport, ok: bool, msg: &str)
    ensures
        final(report).number == old(report).number,
        final(report).name == old(report).name,
        final(report).notes == old(report).notes,
        final(report)@.failures == old(report)@.failures + fact(ok, msg@),
{
    if !ok {
        report.fail(String::from_str(msg));
    }
    assert(old(report)@.failures + fact(ok, msg@) =~= final(report)@.failures);
}

fn fact_push(out: &mut Vec<String>, ok: bool, msg: &str)
    ensures
        strs(final(out)@) == strs(old(out)@) + fact(ok, msg@),
{
    if !ok {
        out.push(String::from_str(msg));
    }
    assert(strs(old(out)@) + fact(ok, msg@) =~= strs(final(out)@));
}

fn fixture_msgs(g: &yoagent_state::Graph) -> (r: Vec<String>)
    ensures
        strs(r@) == fixture_failures(graph_contents(*g)),
{
    let goal = node_exists(g, "goal_retry");
    let advances = edge_exists(g, "patch_9", "advances", "goal_retry");
    let promoted = prop_equals(g, "patch_9", "status", "Promoted");
    let commit = prop_equals(g, "patch_9", "references_commit", "abc1234");
    let validated = edge_exists(g, "patch_9", "validated_by", "eval_5") && prop_equals(g, "eval_5", "status", "Passed");
    let approved = edge_exists(g, "patch_9", "approved_by", "decision_3") && prop_equals(
        g,
        "decision_3",
        "status",
        "Approved",
    );
    let mut out: Vec<String> = Vec::new();
    assert(strs(out@) =~= seq![]);
    fact_push(&mut out, goal, "fixture: goal_retry missing");
    assert(strs(out@) =~= fact(goal, "fixture: goal_retry missing"@));
    fact_push(&mut out, advances, "fixture: patch_9 --advances--> goal_retry missing");
    fact_push(&mut out, promoted, "fixture: patch_9.status != Promoted");
    fact_push(&mut out, commit, "fixture: patch_9.references_commit != abc1234");
    fact_push(&mut out, validated, "fixture: patch_9 validated_by passed eval_5 missing");
    fact_push(&mut out, approved, "fixture: patch_9 approved_by approved decision_3 missing");
    out
}

/// Check 6: restore. `has_manifest` says whether `AGENT.md` is a file,
/// `has_identity` whether `identity/` is a directory or `IDENTITY.md` a file;
/// with `fixture_facts` the fixture's graph facts are asserted too.
pub fn check_restore(has_manifest: bool, has_identity: bool, events: &[LogEvent], fixture_facts: bool) -> (r: CheckReport)
    ensures
        r@ == restore_report(has_manifest, has_identity, event_views(events@), fixture_facts),
{
    let ghost evs = event_views(events@);
    let mut report = CheckReport::new(6, "restore");
    assert(report@.failures =~= seq![]);
    fact_into(&mut report, has_manifest, "AGENT.md manifest missing");
    fact_into(&mut report, has_identity, "no identity/ directory or IDENTITY.md");
    let ghost base = report@.failures;
    let graph = replay_events(events, events.len());
    assert(evs.take(events.len() as int) == evs);
    let graph = match graph {
        Ok(g) => g,
        Err(e) => {
            let mut m = String::from_str("fold failed: ");
            m.append(e.as_str());
            report.fail(m);
            assert(report@.notes =~= seq![]);
            return report;
        },
    };
    if !fixture_facts {
        assert(report@.notes =~= seq![]);
        return report;
    }
    let msgs = fixture_msgs(&graph);
    report.fail_all(msgs);
    assert(report@.failures =~= base + fixture_failures(graph_contents(graph)));
    assert(report@.notes =~= seq![]);
    report
}

/// Without the fixture's facts, check 6 passes exactly when the manifest and
/// the identity are present and the log folds.
pub proof fn lemma_restore_passes(has_manifest: bool, has_identity: bool, evs: Seq<EventView>)
    ensures
        restore_report(has_manifest, has_identity, evs, false).failures.len() == 0 <==> has_manifest
            && has_identity && replay_of(evs) is Ok,
{
}

/// The folded graph holds every fact of the fixture.
pub open spec fn fixture_holds(g: GraphView) -> bool {
    &&& has_node(g, "goal_retry"@)
    &&& has_edge(g, "patch_9"@, "advances"@, "goal_retry"@)
    &&& prop_is(g, "patch_9"@, "status"@, "Promoted"@)
    &&& prop_is(g, "patch_9"@, "references_commit"@, "abc1234"@)
    &&& has_edge(g, "patch_9"@, "validated_by"@, "eval_5"@)
    &&& prop_is(g, "eval_5"@, "status"@, "Passed"@)
    &&& has_edge(g, "patch_9"@, "approved_by"@, "decision_3"@)
    &&& prop_is(g, "decision_3"@, "status"@, "Approved"@)
}

/// With the fixture's facts, check 6 passes exactly when, besides, the
/// folded graph holds every fact of the fixture.
pub proof fn lemma_restore_fixture_passes(has_manifest: bool, has_identity: bool, evs: Seq<EventView>)
    ensures
        restore_report(has_manifest, has_identity, evs, true).failures.len() == 0 <==> (has_manifest
            && has_identity && match replay_of(evs) {
            Ok(g) => fixture_holds(g),
            Err(_) => false,
        }),
{
}

/// Asking for the fixture's facts only adds failures: without them, check 6
/// reports a prefix of what it reports with them.
pub proof fn lemma_fixture_facts_only_add(has_manifest: bool, has_identity: bool, evs: Seq<EventView>)
    ensures
        restore_report(has_manifest, has_identity, evs, false).failures.is_prefix_of(
            restore_report(has_manifest, has_identity, evs, true).failures,
        ),
        restore_report(has_manifest, has_identity, evs, false).notes == restore_report(
            has_manifest,
            has_identity,
            evs,
            true,
        ).notes,
{
    let without = restore_report(has_manifest, has_identity, evs, false).failures;
    let with = restore_report(has_manifest, has_identity, evs, true).failures;
    assert(with.subrange(0, without.len() as int) =~= without);
}

proof fn lemma_rel_targets(rs: Seq<RelationView>, from: Seq<char>, rel: Seq<char>, to: Seq<char>)
    ensures
        rel_targets(rs, from, rel).contains(to) <==> exists|i: int|
            0 <= i < rs.len() && #[trigger] rs[i].from == from && rs[i].rel == rel && rs[i].to == to,
    decreases rs.len(),
{
    if rs.len() > 0 {
        let init = rs.drop_last();
        lemma_rel_targets(init, from, rel, to);
        let rest = rel_targets(init, from, rel);
        let last = rs.last();
        if rel_targets(rs, from, rel).contains(to) {
            let k = choose|k: int| 0 <= k < rel_targets(rs, from, rel).len() && rel_targets(rs, from, rel)[k] == to;
            if k < rest.len() {
                assert(rest[k] == to);
                assert(rest.contains(to));
                let i = choose|i: int| 0 <= i < init.len() && #[trigger] init[i].from == from && init[i].rel == rel && init[i].to == to;
                assert(rs[i] == init[i]);
            } else {
                assert(rs[rs.len() - 1] == last);
            }
        }
        if exists|i: int| 0 <= i < rs.len() && #[trigger] rs[i].from == from && rs[i].rel == rel && rs[i].to == to {
            let i = choose|i: int| 0 <= i < rs.len() && #[trigger] rs[i].from == from && rs[i].rel == rel && rs[i].to == to;
            if i < rs.len() - 1 {
                assert(init[i] == rs[i]);
                assert(rest.contains(to));
                let k = choose|k: int| 0 <= k < rest.len() && rest[k] == to;
                assert(rel_targets(rs, from, rel)[k] == to);
            } else {
                assert(rel_targets(rs, from, rel) == rest.push(to));
                assert(rel_targets(rs, from, rel)[rest.len() as int] == to);
            }
        }
    }
}

/// The graph relates `from` to `to` by `rel` exactly when one of its
/// relations goes from `from`, has kind `rel` and ends at exactly `to`; a
/// relation of that kind from `from` to any other node does not count.
pub proof fn lemma_edge_is_a_relation(g: GraphView, from: Seq<char>, rel: Seq<char>, to: Seq<char>)
    ensures
        has_edge(g, from, rel, to) <==> exists|i: int|
            0 <= i < g.relations.len() && #[trigger] g.relations[i].from == from && g.relations[i].rel == rel
                && g.relations[i].to == to,
{
    lemma_rel_targets(g.relations, from, rel, to);
}

/// With the fixture's facts asked for, a folded graph with no `advances`
/// relation from `patch_9` to exactly `goal_retry` fails check 6 with that
/// fact's message, whatever other `advances` relations `patch_9` has.
pub proof fn lemma_fixture_needs_the_advances_edge(
    has_manifest: bool,
    has_identity: bool,
    evs: Seq<EventView>,
    g: GraphView,
)
    requires
        replay_of(evs) == Ok::<GraphView, Seq<char>>(g),
        !exists|i: int|
            0 <= i < g.relations.len() && #[trigger] g.relations[i].from == "patch_9"@ && g.relations[i].rel
                == "advances"@ && g.relations[i].to == "goal_retry"@,
    ensures
        restore_report(has_manifest, has_identity, evs, true).failures.contains(
            "fixture: patch_9 --advances--> goal_retry missing"@,
        ),
{
    lemma_edge_is_a_relation(g, "patch_9"@, "advances"@, "goal_retry"@);
    let msg = "fixture: patch_9 --advances--> goal_retry missing"@;
    let base = fact(has_manifest, "AGENT.md manifest missing"@) + fact(has_identity, "no identity/ directory or IDENTITY.md"@);
    let first = fact(has_node(g, "goal_retry"@), "fixture: goal_retry missing"@);
    let all = restore_report(has_manifest, has_identity, evs, true).failures;
    assert(fact(false, msg) == seq![msg]);
    assert(all[(base.len() + first.len()) as int] == msg);
}

} // verus!
