//! Check 5, causation integrity: every non-null `causation_id` names an
//! earlier event, and root events (null causation) are `*.created` or
//! `*.started`.

use vstd::prelude::*;
use vstd::string::StringExecFns;
use crate::event::{EventView, LogEvent, event_views, line_tag, line_tag_string};
use crate::report::{CheckReport, ReportView, gather, lemma_gather_empty, lemma_gather_has_piece};
use crate::text::{ends_with, str_eq};

verus! {

/// A kind that may start a causal chain.
pub open spec fn root_kind(kind: Seq<char>) -> bool {
    ".created"@.is_suffix_of(kind) || ".started"@.is_suffix_of(kind)
}

/// Some event before position `i` has id `id`.
pub open spec fn earlier_id(evs: Seq<EventView>, i: int, id: Seq<char>) -> bool {
    exists|j: int| 0 <= j < i && #[trigger] evs[j].id == id
}

pub open spec fn dangling_msg(n: nat, cause: Seq<char>) -> Seq<char> {
    line_tag(n) + "causation_id "@ + cause + " does not reference an earlier event"@
}

pub open spec fn bad_root_msg(n: nat, kind: Seq<char>) -> Seq<char> {
    line_tag(n) + "root event (null causation) has kind `"@ + kind
        + "`, expected *.created / *.started"@
}

/// What the check reports of the event at position `i`.
pub open spec fn causation_issue(evs: Seq<EventView>, i: int) -> Seq<Seq<char>> {
    match evs[i].causation_id {
        Some(c) => if earlier_id(evs, i, c) {
            seq![]
        } else {
            seq![dangling_msg((i + 1) as nat, c)]
        },
        None => if root_kind(evs[i].kind) {
            seq![]
        } else {
            seq![bad_root_msg((i + 1) as nat, evs[i].kind)]
        },
    }
}

pub open spec fn causation_failures(evs: Seq<EventView>) -> Seq<Seq<char>> {
    gather(evs.len(), |i: int| causation_issue(evs, i))
}

/// The report of check 5 on a sequence of events.
pub open spec fn causation_report(evs: Seq<EventView>) -> ReportView {
    ReportView {
        number: 5,
        name: "causation integrity"@,
        failures: causation_failures(evs),
        notes: seq![],
    }
}

/// The causation rule on one event: a non-null causation names an earlier
/// event; a null one belongs to a root kind.
pub open spec fn causation_ok(evs: Seq<EventView>, i: int) -> bool {
    match evs[i].causation_id {
        Some(c) => earlier_id(evs, i, c),
        None => root_kind(evs[i].kind),
    }
}

fn has_earlier_id(events: &[LogEvent], i: usize, id: &String) -> (r: bool)
    requires
        i <= events.len(),
    ensures
        r == earlier_id(event_views(events@), i as int, id@),
{
    let ghost evs = event_views(events@);
    let mut j: usize = 0;
    while j < i
        invariant
            j <= i <= events.len(),
            evs == event_views(events@),
            forall|k: int| 0 <= k < j ==> #[trigger] evs[k].id != id@,
        decreases i - j,
    {
        assert(evs[j as int] == events@[j as int]@);
        if str_eq(events[j].id().as_str(), id.as_str()) {
            return true;
        }
        j = j + 1;
    }
    false
}

/// Check 5: causation integrity.
pub fn check_causation(events: &[LogEvent]) -> (r: CheckReport)
    ensures
        r@ == causation_report(event_views(events@)),
{
    let ghost evs = event_views(events@);
    let mut report = CheckReport::new(5, "causation integrity");
    let mut i: usize = 0;
    while i < events.len()
        invariant
            i <= events.len(),
            evs == event_views(events@),
            report.number == 5,
            report.name@ == "causation integrity"@,
            report@.notes == Seq::<Seq<char>>::empty(),
            report@.failures == gather(i as nat, |k: int| causation_issue(evs, k)),
        decreases events.len() - i,
    {
        let event = &events[i];
        assert(evs[i as int] == event@);
        let ghost before = report@.failures;
        match event.causation_id() {
            Some(cause) => {
                if !has_earlier_id(events, i, cause) {
                    let mut m = line_tag_string(i + 1);
                    m.append("causation_id ");
                    m.append(cause.as_str());
                    m.append(" does not reference an earlier event");
                    report.fail(m);
                }
            },
            None => {
                let kind = event.kind().as_str();
                if !(ends_with(kind, ".created") || ends_with(kind, ".started")) {
                    let mut m = line_tag_string(i + 1);
                    m.append("root event (null causation) has kind `");
                    m.append(kind);
                    m.append("`, expected *.created / *.started");
                    report.fail(m);
                }
            },
        }
        assert(report@.failures == before + causation_issue(evs, i as int));
        i = i + 1;
    }
    proof {
        assert(report@.notes =~= seq![]);
    }
    report
}

/// Check 5 passes exactly when every event obeys the causation rule.
pub proof fn lemma_causation_passes(evs: Seq<EventView>)
    ensures
        causation_failures(evs).len() == 0 <==> forall|i: int|
            0 <= i < evs.len() ==> #[trigger] causation_ok(evs, i),
{
    let f = |i: int| causation_issue(evs, i);
    lemma_gather_empty(evs.len(), f);
    assert(causation_failures(evs) == gather(evs.len(), f));
    if causation_failures(evs).len() == 0 {
        assert forall|i: int| 0 <= i < evs.len() implies #[trigger] causation_ok(evs, i) by {
            assert(f(i).len() == 0);
        }
    }
    if forall|i: int| 0 <= i < evs.len() ==> #[trigger] causation_ok(evs, i) {
        assert forall|i: int| 0 <= i < evs.len() implies #[trigger] f(i).len() == 0 by {
            assert(causation_ok(evs, i));
        }
    }
}

/// A causation must name an event that comes BEFORE it: where no event at
/// an earlier position has the id that the event at `i` names as its cause
/// (whether or not a later event has it), check 5 reports that line.
pub proof fn lemma_cause_must_be_earlier(evs: Seq<EventView>, i: int, c: Seq<char>)
    requires
        0 <= i < evs.len(),
        evs[i].causation_id == Some(c),
        forall|j: int| 0 <= j < i ==> evs[j].id != c,
    ensures
        causation_report(evs).failures.contains(dangling_msg((i + 1) as nat, c)),
{
    let f = |k: int| causation_issue(evs, k);
    assert(!earlier_id(evs, i, c));
    assert(f(i) == seq![dangling_msg((i + 1) as nat, c)]);
    assert(f(i)[0] == dangling_msg((i + 1) as nat, c));
    lemma_gather_has_piece(evs.len(), f, i, dangling_msg((i + 1) as nat, c));
}

/// Where check 5 passes, every causation names an event at an earlier
/// position.
pub proof fn lemma_passing_causes_are_earlier(evs: Seq<EventView>)
    ensures
        causation_report(evs).failures.len() == 0 ==> forall|i: int|
            0 <= i < evs.len() ==> match (#[trigger] evs[i]).causation_id {
                Some(c) => exists|j: int| 0 <= j < i && #[trigger] evs[j].id == c,
                None => true,
            },
{
    if causation_report(evs).failures.len() == 0 {
        assert forall|i: int| 0 <= i < evs.len() implies match (#[trigger] evs[i]).causation_id {
            Some(c) => exists|j: int| 0 <= j < i && #[trigger] evs[j].id == c,
            None => true,
        } by {
            if let Some(c) = evs[i].causation_id {
                if !exists|j: int| 0 <= j < i && #[trigger] evs[j].id == c {
                    lemma_cause_must_be_earlier(evs, i, c);
                }
            }
        }
    }
}

} // verus!
