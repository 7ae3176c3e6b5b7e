//! Check 7, domain/ops consistency: every entity-creating domain event has a
//! paired `state.ops_applied` event (whose causation is the domain event)
//! that creates the entity with the implied kind and a status that does not
//! contradict the domain event.

use vstd::prelude::*;
use vstd::string::StringExecFns;
use crate::event::{
    EventView, LogEvent, OpRecord, OpView, event_ops, event_views, is_ops_kind, line_tag,
    line_tag_string, op_views, ops_kind, ops_of,
};
use crate::json::{
    JsonView, json_display, json_equal, value_as_str, value_eq, value_member, value_text, view_get,
    view_str,
};
use crate::json::value_contents;
use crate::report::{CheckReport, ReportView, gather, lemma_gather_empty};
use crate::text::{str_eq, strs};

verus! {

/// The domain-event kinds that create an entity, each with the node kind the
/// paired ops event must create.
pub open spec fn paired_kind(kind: Seq<char>) -> Option<Seq<char>> {
    if kind == "goal.created"@ {
        Some("goal"@)
    } else if kind == "task.created"@ {
        Some("task"@)
    } else if kind == "observation.created"@ {
        Some("observation"@)
    } else if kind == "failure.observed"@ {
        Some("failure"@)
    } else if kind == "hypothesis.created"@ {
        Some("hypothesis"@)
    } else if kind == "patch.proposed"@ {
        Some("patch"@)
    } else if kind == "eval.finished"@ {
        Some("eval"@)
    } else if kind == "decision.created"@ {
        Some("decision"@)
    } else if kind == "frame.created"@ {
        Some("frame"@)
    } else {
        None
    }
}

pub fn paired_kind_of(kind: &str) -> (r: Option<&'static str>)
    ensures
        match r {
            Some(k) => paired_kind(kind@) == Some(k@),
            None => paired_kind(kind@) is None,
        },
{
    if str_eq(kind, "goal.created") {
        Some("goal")
    } else if str_eq(kind, "task.created") {
        Some("task")
    } else if str_eq(kind, "observation.created") {
        Some("observation")
    } else if str_eq(kind, "failure.observed") {
        Some("failure")
    } else if str_eq(kind, "hypothesis.created") {
        Some("hypothesis")
    } else if str_eq(kind, "patch.proposed") {
        Some("patch")
    } else if str_eq(kind, "eval.finished") {
        Some("eval")
    } else if str_eq(kind, "decision.created") {
        Some("decision")
    } else if str_eq(kind, "frame.created") {
        Some("frame")
    } else {
        None
    }
}

/// The last ops event among the first `n` whose causation is `id`: the one
/// a map from causation to ops event, filled in log order, keeps.
pub open spec fn last_ops_for(evs: Seq<EventView>, n: int, id: Seq<char>) -> Option<int>
    decreases n,
{
    if n <= 0 {
        None
    } else if evs[n - 1].kind == ops_kind() && evs[n - 1].causation_id == Some(id) {
        Some(n - 1)
    } else {
        last_ops_for(evs, n - 1, id)
    }
}

/// The last event among the first `n` with id `id`: the one a map from id to
/// event, filled in log order, keeps.
pub open spec fn last_with_id(evs: Seq<EventView>, n: int, id: Seq<char>) -> Option<int>
    decreases n,
{
    if n <= 0 {
        None
    } else if evs[n - 1].id == id {
        Some(n - 1)
    } else {
        last_with_id(evs, n - 1, id)
    }
}

/// The kind and props of the first op that creates node `entity`.
pub open spec fn first_create(ops: Seq<OpView>, entity: Seq<char>) -> Option<(Seq<char>, JsonView)>
    decreases ops.len(),
{
    if ops.len() == 0 {
        None
    } else {
        match ops[0] {
            OpView::CreateNode { id, kind, props } => if id == entity {
                Some((kind, props))
            } else {
                first_create(ops.drop_first(), entity)
            },
            _ => first_create(ops.drop_first(), entity),
        }
    }
}

pub open spec fn no_id_msg(n: nat, kind: Seq<char>) -> Seq<char> {
    line_tag(n) + kind + " payload has no `id`"@
}

pub open spec fn unpaired_msg(n: nat, kind: Seq<char>, entity: Seq<char>) -> Seq<char> {
    line_tag(n) + kind + " `"@ + entity + "` has no paired state.ops_applied"@
}

pub open spec fn malformed_msg(n: nat, ops_id: Seq<char>) -> Seq<char> {
    line_tag(n) + "paired ops event "@ + ops_id + " has malformed payload"@
}

pub open spec fn no_create_msg(n: nat, kind: Seq<char>, entity: Seq<char>) -> Seq<char> {
    line_tag(n) + "paired ops for "@ + kind + " do not create node `"@ + entity + "`"@
}

pub open spec fn wrong_kind_msg(n: nat, entity: Seq<char>, kind: Seq<char>, expected: Seq<char>) -> Seq<
    char,
> {
    line_tag(n) + "`"@ + entity + "` created as kind `"@ + kind + "`, domain event implies `"@
        + expected + "`"@
}

pub open spec fn status_msg(n: nat, entity: Seq<char>, es: JsonView, ns: JsonView) -> Seq<char> {
    line_tag(n) + "`"@ + entity + "` status contradicts domain event ("@ + json_display(es) + " vs "@
        + json_display(ns) + ")"@
}

pub open spec fn chained_msg(id: Seq<char>) -> Seq<char> {
    "ops event "@ + id + " chained to another ops event, not a domain event"@
}

/// What the created node says against the domain event: a kind other than the
/// implied one, and a status unequal to the domain event's.
pub open spec fn create_issues(
    n: nat,
    e: EventView,
    entity: Seq<char>,
    expected: Seq<char>,
    kind: Seq<char>,
    props: JsonView,
) -> Seq<Seq<char>> {
    let kind_issue = if kind != expected {
        seq![wrong_kind_msg(n, entity, kind, expected)]
    } else {
        seq![]
    };
    let status_issue = match (view_get(e.payload, "status"@), view_get(props, "status"@)) {
        (Some(es), Some(ns)) => if !json_equal(es, ns) {
            seq![status_msg(n, entity, es, ns)]
        } else {
            seq![]
        },
        _ => seq![],
    };
    kind_issue + status_issue
}

/// What the check reports of the domain event at position `i`.
pub open spec fn domain_issue(evs: Seq<EventView>, i: int) -> Seq<Seq<char>> {
    let e = evs[i];
    let n = (i + 1) as nat;
    match paired_kind(e.kind) {
        None => seq![],
        Some(expected) => match view_str(view_get(e.payload, "id"@)) {
            None => seq![no_id_msg(n, e.kind)],
            Some(entity) => match last_ops_for(evs, evs.len() as int, e.id) {
                None => seq![unpaired_msg(n, e.kind, entity)],
                Some(j) => match ops_of(evs[j]) {
                    None => seq![malformed_msg(n, evs[j].id)],
                    Some(ops) => match first_create(ops, entity) {
                        None => seq![no_create_msg(n, e.kind, entity)],
                        Some((kind, props)) => create_issues(n, e, entity, expected, kind, props),
                    },
                },
            },
        },
    }
}

/// What the check reports of the ops event at position `i`: a causation that
/// names another ops event.
pub open spec fn chain_issue(evs: Seq<EventView>, i: int) -> Seq<Seq<char>> {
    let e = evs[i];
    if e.kind == ops_kind() {
        match e.causation_id {
            Some(c) => match last_with_id(evs, evs.len() as int, c) {
                Some(k) => if evs[k].kind == ops_kind() {
                    seq![chained_msg(e.id)]
                } else {
                    seq![]
                },
                None => seq![],
            },
            None => seq![],
        }
    } else {
        seq![]
    }
}

pub open spec fn pairing_failures(evs: Seq<EventView>) -> Seq<Seq<char>> {
    gather(evs.len(), |i: int| domain_issue(evs, i)) + gather(evs.len(), |i: int| chain_issue(evs, i))
}

/// The report of check 7 on a sequence of events.
pub open spec fn pairing_report(evs: Seq<EventView>) -> ReportView {
    ReportView {
        number: 7,
        name: "domain↔ops consistency"@,
        failures: pairing_failures(evs),
        notes: seq![],
    }
}

fn find_ops_for(events: &[LogEvent], id: &String) -> (r: Option<usize>)
    ensures
        match r {
            Some(j) => j < events.len() && last_ops_for(event_views(events@), events.len() as int, id@)
                == Some(j as int),
            None => last_ops_for(event_views(events@), events.len() as int, id@) is None,
        },
{
    let ghost evs = event_views(events@);
    let mut n: usize = events.len();
    while n > 0
        invariant
            n <= events.len(),
            evs == event_views(events@),
            last_ops_for(evs, events.len() as int, id@) == last_ops_for(evs, n as int, id@),
        decreases n,
    {
        let e = &events[n - 1];
        assert(evs[n - 1] == e@);
        if is_ops_kind(e.kind().as_str()) {
            match e.causation_id() {
                Some(c) => {
                    if str_eq(c.as_str(), id.as_str()) {
                        return Some(n - 1);
                    }
                },
                None => {},
            }
        }
        n = n - 1;
    }
    None
}

fn find_with_id(events: &[LogEvent], id: &String) -> (r: Option<usize>)
    ensures
        match r {
            Some(j) => j < events.len() && last_with_id(event_views(events@), events.len() as int, id@)
                == Some(j as int),
            None => last_with_id(event_views(events@), events.len() as int, id@) is None,
        },
{
    let ghost evs = event_views(events@);
    let mut n: usize = events.len();
    while n > 0
        invariant
            n <= events.len(),
            evs == event_views(events@),
            last_with_id(evs, events.len() as int, id@) == last_with_id(evs, n as int, id@),
        decreases n,
    {
        let e = &events[n - 1];
        assert(evs[n - 1] == e@);
        if str_eq(e.id().as_str(), id.as_str()) {
            return Some(n - 1);
        }
        n = n - 1;
    }
    None
}

fn find_create(ops: &Vec<OpRecord>, entity: &str) -> (r: Option<usize>)
    ensures
        match r {
            Some(k) => k < ops.len() && ops@[k as int] is CreateNode && match first_create(
                op_views(ops@),
                entity@,
            ) {
                Some((kind, props)) => ops@[k as int]@ == OpView::CreateNode {
                    id: entity@,
                    kind,
                    props,
                },
                None => false,
            },
            None => first_create(op_views(ops@), entity@) is None,
        },
{
    let ghost ov = op_views(ops@);
    assert(ov.skip(0) == ov);
    let mut i: usize = 0;
    while i < ops.len()
        invariant
            i <= ops.len(),
            ov == op_views(ops@),
            first_create(ov, entity@) == first_create(ov.skip(i as int), entity@),
        decreases ops.len() - i,
    {
        assert(ov.skip(i as int)[0] == ops@[i as int]@);
        assert(ov.skip(i as int).drop_first() == ov.skip(i + 1));
        match &ops[i] {
            OpRecord::CreateNode { id, kind, props } => {
                if str_eq(id.as_str(), entity) {
                    return Some(i);
                }
            },
            _ => {},
        }
        i = i + 1;
    }
    None
}

fn create_issue_msgs(
    n: usize,
    e: &LogEvent,
    entity: &str,
    expected: &'static str,
    kind: &String,
    props: &serde_json::Value,
) -> (r: Vec<String>)
    ensures
        strs(r@) == create_issues(n as nat, e@, entity@, expected@, kind@, value_contents(*props)),
{
    let mut out: Vec<String> = Vec::new();
    if !str_eq(kind.as_str(), expected) {
        let mut m = line_tag_string(n);
        m.append("`");
        m.append(entity);
        m.append("` created as kind `");
        m.append(kind.as_str());
        m.append("`, domain event implies `");
        m.append(expected);
        m.append("`");
        out.push(m);
    }
    let ghost kind_part = strs(out@);
    let es = value_member(e.payload(), "status");
    let ns = value_member(props, "status");
    match (es, ns) {
        (Some(es), Some(ns)) => {
            if !value_eq(es, ns) {
                let mut m = line_tag_string(n);
                m.append("`");
                m.append(entity);
                m.append("` status contradicts domain event (");
                let et = value_text(es);
                m.append(et.as_str());
                m.append(" vs ");
                let nt = value_text(ns);
                m.append(nt.as_str());
                m.append(")");
                out.push(m);
                assert(strs(out@) == kind_part.push(m@));
            }
        },
        _ => {},
    }
    out
}

fn no_id_string(n: usize, kind: &String) -> (r: String)
    ensures
        r@ == no_id_msg(n as nat, kind@),
{
    let mut m = line_tag_string(n);
    m.append(kind.as_str());
    m.append(" payload has no `id`");
    m
}

fn domain_issue_msgs(events: &[LogEvent], i: usize) -> (r: Vec<String>)
    requires
        i < events.len(),
    ensures
        strs(r@) == domain_issue(event_views(events@), i as int),
{
    let ghost evs = event_views(events@);
    let e = &events[i];
    assert(evs[i as int] == e@);
    let n = i + 1;
    let expected = match paired_kind_of(e.kind().as_str()) {
        None => {
            return Vec::new();
        },
        Some(k) => k,
    };
    let entity: &str = match value_member(e.payload(), "id") {
        Some(v) => match value_as_str(v) {
            Some(s) => s,
            None => {
                return vec![no_id_string(n, e.kind())];
            },
        },
        None => {
            return vec![no_id_string(n, e.kind())];
        },
    };
    let j = match find_ops_for(events, e.id()) {
        None => {
            let mut m = line_tag_string(n);
            m.append(e.kind().as_str());
            m.append(" `");
            m.append(entity);
            m.append("` has no paired state.ops_applied");
            return vec![m];
        },
        Some(j) => j,
    };
    assert(evs[j as int] == events@[j as int]@);
    let ops = match event_ops(&events[j]) {
        None => {
            let mut m = line_tag_string(n);
            m.append("paired ops event ");
            m.append(events[j].id().as_str());
            m.append(" has malformed payload");
            return vec![m];
        },
        Some(ops) => ops,
    };
    let k = match find_create(&ops, entity) {
        None => {
            let mut m = line_tag_string(n);
            m.append("paired ops for ");
            m.append(e.kind().as_str());
            m.append(" do not create node `");
            m.append(entity);
            m.append("`");
            return vec![m];
        },
        Some(k) => k,
    };
    match &ops[k] {
        OpRecord::CreateNode { id, kind, props } => create_issue_msgs(n, e, entity, expected, kind, props),
        _ => Vec::new(),
    }
}

fn chain_issue_msgs(events: &[LogEvent], i: usize) -> (r: Vec<String>)
    requires
        i < events.len(),
    ensures
        strs(r@) == chain_issue(event_views(events@), i as int),
{
    let ghost evs = event_views(events@);
    let e = &events[i];
    assert(evs[i as int] == e@);
    if !is_ops_kind(e.kind().as_str()) {
        return Vec::new();
    }
    match e.causation_id() {
        Some(c) => match find_with_id(events, c) {
            Some(k) => {
                assert(evs[k as int] == events@[k as int]@);
                if is_ops_kind(events[k].kind().as_str()) {
                    let mut m = String::from_str("ops event ");
                    m.append(e.id().as_str());
                    m.append(" chained to another ops event, not a domain event");
                    vec![m]
                } else {
                    Vec::new()
                }
            },
            None => Vec::new(),
        },
        None => Vec::new(),
    }
}

/// Check 7: domain/ops consistency.
pub fn check_pairing(events: &[LogEvent]) -> (r: CheckReport)
    ensures
        r@ == pairing_report(event_views(events@)),
{
    let ghost evs = event_views(events@);
    let mut report = CheckReport::new(7, "domain↔ops consistency");
    let mut i: usize = 0;
    while i < events.len()
        invariant
            i <= events.len(),
            evs == event_views(events@),
            report.number == 7,
            report.name@ == "domain↔ops consistency"@,
            report@.notes == Seq::<Seq<char>>::empty(),
            report@.failures == gather(i as nat, |k: int| domain_issue(evs, k)),
        decreases events.len() - i,
    {
        let msgs = domain_issue_msgs(events, i);
        report.fail_all(msgs);
        i = i + 1;
    }
    let ghost first = report@.failures;
    let mut i: usize = 0;
    while i < events.len()
        invariant
            i <= events.len(),
            evs == event_views(events@),
            report.number == 7,
            report.name@ == "domain↔ops consistency"@,
            report@.notes == Seq::<Seq<char>>::empty(),
            first == gather(evs.len(), |k: int| domain_issue(evs, k)),
            report@.failures == first + gather(i as nat, |k: int| chain_issue(evs, k)),
        decreases events.len() - i,
    {
        let msgs = chain_issue_msgs(events, i);
        report.fail_all(msgs);
        assert(first + gather((i + 1) as nat, |k: int| chain_issue(evs, k)) == first + gather(
            i as nat,
            |k: int| chain_issue(evs, k),
        ) + chain_issue(evs, i as int));
        i = i + 1;
    }
    proof {
        assert(report@.notes =~= seq![]);
    }
    report
}

/// The pairing rule on the event at position `i`. Where its kind creates an
/// entity: its payload names the entity by a string `id`; the last ops event
/// caused by it carries ops that decode; the first of them that creates the
/// entity gives it the implied kind; and where both the domain event and the
/// created node have a status, the two are equal.
pub open spec fn domain_paired(evs: Seq<EventView>, i: int) -> bool {
    let e = evs[i];
    match paired_kind(e.kind) {
        None => true,
        Some(expected) => match view_str(view_get(e.payload, "id"@)) {
            None => false,
            Some(entity) => match last_ops_for(evs, evs.len() as int, e.id) {
                None => false,
                Some(j) => match ops_of(evs[j]) {
                    None => false,
                    Some(ops) => match first_create(ops, entity) {
                        None => false,
                        Some((kind, props)) => kind == expected && match (
                            view_get(e.payload, "status"@),
                            view_get(props, "status"@),
                        ) {
                            (Some(es), Some(ns)) => json_equal(es, ns),
                            _ => true,
                        },
                    },
                },
            },
        },
    }
}

/// The chaining rule on the event at position `i`: an ops event is not
/// caused by another ops event.
pub open spec fn chain_ok(evs: Seq<EventView>, i: int) -> bool {
    evs[i].kind == ops_kind() ==> match evs[i].causation_id {
        Some(c) => match last_with_id(evs, evs.len() as int, c) {
            Some(k) => evs[k].kind != ops_kind(),
            None => true,
        },
        None => true,
    }
}

/// Check 7 passes exactly when every entity-creating domain event has a
/// paired ops event that creates its entity with the implied kind and a
/// status that does not contradict it, and no ops event is caused by another
/// ops event.
pub proof fn lemma_pairing_passes(evs: Seq<EventView>)
    ensures
        pairing_failures(evs).len() == 0 <==> forall|i: int|
            0 <= i < evs.len() ==> #[trigger] domain_paired(evs, i) && chain_ok(evs, i),
{
    let f = |i: int| domain_issue(evs, i);
    let g = |i: int| chain_issue(evs, i);
    lemma_gather_empty(evs.len(), f);
    lemma_gather_empty(evs.len(), g);
    assert forall|i: int| 0 <= i < evs.len() implies (#[trigger] f(i).len() == 0 <==> domain_paired(evs, i))
        && (g(i).len() == 0 <==> chain_ok(evs, i)) by {
        assert(f(i) == domain_issue(evs, i));
        assert(g(i) == chain_issue(evs, i));
    }
    if pairing_failures(evs).len() == 0 {
        assert forall|i: int| 0 <= i < evs.len() implies #[trigger] domain_paired(evs, i) && chain_ok(evs, i) by {
            assert(f(i).len() == 0);
            assert(g(i).len() == 0);
        }
    }
    if forall|i: int| 0 <= i < evs.len() ==> #[trigger] domain_paired(evs, i) && chain_ok(evs, i) {
        assert forall|i: int| 0 <= i < evs.len() implies #[trigger] f(i).len() == 0 by {
            assert(domain_paired(evs, i) && chain_ok(evs, i));
        }
        assert forall|i: int| 0 <= i < evs.len() implies #[trigger] g(i).len() == 0 by {
            assert(domain_paired(evs, i) && chain_ok(evs, i));
            assert(f(i).len() == 0);
        }
    }
}

/// The event at `j` is an ops event caused by `id`.
pub open spec fn ops_caused_by(evs: Seq<EventView>, j: int, id: Seq<char>) -> bool {
    evs[j].kind == ops_kind() && evs[j].causation_id == Some(id)
}

proof fn lemma_last_ops_for(evs: Seq<EventView>, n: int, id: Seq<char>)
    requires
        0 <= n <= evs.len(),
    ensures
        match last_ops_for(evs, n, id) {
            Some(j) => 0 <= j < n && ops_caused_by(evs, j, id),
            None => forall|j: int| 0 <= j < n ==> !#[trigger] ops_caused_by(evs, j, id),
        },
    decreases n,
{
    if n > 0 {
        lemma_last_ops_for(evs, n - 1, id);
    }
}

proof fn lemma_last_with_id(evs: Seq<EventView>, n: int, id: Seq<char>)
    requires
        0 <= n <= evs.len(),
    ensures
        match last_with_id(evs, n, id) {
            Some(j) => 0 <= j < n && evs[j].id == id,
            None => forall|j: int| 0 <= j < n ==> #[trigger] evs[j].id != id,
        },
    decreases n,
{
    if n > 0 {
        lemma_last_with_id(evs, n - 1, id);
    }
}

/// No two events share an id.
pub open spec fn distinct_ids(evs: Seq<EventView>) -> bool {
    forall|i: int, j: int| 0 <= i < evs.len() && 0 <= j < evs.len() && i != j ==> #[trigger] evs[i].id != #[trigger] evs[j].id
}

/// No two ops events name the same cause.
pub open spec fn unique_ops_causes(evs: Seq<EventView>) -> bool {
    forall|i: int, j: int, id: Seq<char>|
        0 <= i < evs.len() && 0 <= j < evs.len() && #[trigger] ops_caused_by(evs, i, id) && #[trigger] ops_caused_by(
            evs,
            j,
            id,
        ) ==> i == j
}

/// `perm` holds the events of `evs` in another order: its event at `i` is the
/// event of `evs` at `to(i)`, and `from` undoes `to`.
pub open spec fn is_reordering(
    evs: Seq<EventView>,
    perm: Seq<EventView>,
    to: spec_fn(int) -> int,
    from: spec_fn(int) -> int,
) -> bool {
    &&& perm.len() == evs.len()
    &&& forall|i: int| 0 <= i < perm.len() ==> 0 <= #[trigger] to(i) < evs.len() && perm[i] == evs[to(i)] && from(to(i)) == i
    &&& forall|j: int| 0 <= j < evs.len() ==> 0 <= #[trigger] from(j) < perm.len() && to(from(j)) == j
}

proof fn lemma_reordered_event(
    evs: Seq<EventView>,
    perm: Seq<EventView>,
    to: spec_fn(int) -> int,
    from: spec_fn(int) -> int,
    i: int,
)
    requires
        distinct_ids(evs),
        unique_ops_causes(evs),
        is_reordering(evs, perm, to, from),
        0 <= i < perm.len(),
    ensures
        domain_paired(perm, i) == domain_paired(evs, to(i)),
        chain_ok(perm, i) == chain_ok(evs, to(i)),
{
    let n = evs.len() as int;
    let e = perm[i];
    assert(e == evs[to(i)]);
    lemma_last_ops_for(perm, n, e.id);
    lemma_last_ops_for(evs, n, e.id);
    match last_ops_for(perm, n, e.id) {
        Some(jp) => {
            assert(perm[jp] == evs[to(jp)]);
            assert(ops_caused_by(evs, to(jp), e.id));
            match last_ops_for(evs, n, e.id) {
                Some(je) => {
                    assert(je == to(jp));
                },
                None => {
                    assert(!ops_caused_by(evs, to(jp), e.id));
                },
            }
        },
        None => {
            if let Some(je) = last_ops_for(evs, n, e.id) {
                let jp = from(je);
                assert(perm[jp] == evs[je]);
                assert(ops_caused_by(perm, jp, e.id));
            }
        },
    }
    if let Some(c) = e.causation_id {
        lemma_last_with_id(perm, n, c);
        lemma_last_with_id(evs, n, c);
        match last_with_id(perm, n, c) {
            Some(kp) => {
                assert(perm[kp] == evs[to(kp)]);
                match last_with_id(evs, n, c) {
                    Some(ke) => {
                        if ke != to(kp) {
                            assert(evs[ke].id != evs[to(kp)].id);
                        }
                    },
                    None => {
                        assert(evs[to(kp)].id != c);
                    },
                }
            },
            None => {
                if let Some(ke) = last_with_id(evs, n, c) {
                    let kp = from(ke);
                    assert(perm[kp] == evs[ke]);
                    assert(perm[kp].id != c);
                }
            },
        }
    }
}

/// Check 7 follows causation, not log position: with distinct event ids and
/// no two ops events naming the same cause, reordering the events does not
/// change whether the check passes.
pub proof fn lemma_pairing_order_free(
    evs: Seq<EventView>,
    perm: Seq<EventView>,
    to: spec_fn(int) -> int,
    from: spec_fn(int) -> int,
)
    requires
        distinct_ids(evs),
        unique_ops_causes(evs),
        is_reordering(evs, perm, to, from),
    ensures
        pairing_failures(perm).len() == 0 <==> pairing_failures(evs).len() == 0,
{
    lemma_pairing_passes(evs);
    lemma_pairing_passes(perm);
    assert forall|i: int| 0 <= i < perm.len() implies (#[trigger] domain_paired(perm, i) && chain_ok(perm, i))
        == (domain_paired(evs, to(i)) && chain_ok(evs, to(i))) by {
        lemma_reordered_event(evs, perm, to, from, i);
    }
    if pairing_failures(perm).len() == 0 {
        assert forall|j: int| 0 <= j < evs.len() implies #[trigger] domain_paired(evs, j) && chain_ok(evs, j) by {
            let i = from(j);
            assert(domain_paired(perm, i) && chain_ok(perm, i));
        }
    }
    if pairing_failures(evs).len() == 0 {
        assert forall|i: int| 0 <= i < perm.len() implies #[trigger] domain_paired(perm, i) && chain_ok(perm, i) by {
            assert(domain_paired(evs, to(i)) && chain_ok(evs, to(i)));
        }
    }
}

/// The op creates node `entity`.
pub open spec fn creates(op: OpView, entity: Seq<char>) -> bool {
    match op {
        OpView::CreateNode { id, .. } => id == entity,
        _ => false,
    }
}

/// The op creates a node of kind `expected` whose status, where both it and
/// the domain payload have one, equals the payload's.
pub open spec fn creates_as(op: OpView, expected: Seq<char>, payload: JsonView) -> bool {
    match op {
        OpView::CreateNode { kind, props, .. } => kind == expected && match (
            view_get(payload, "status"@),
            view_get(props, "status"@),
        ) {
            (Some(a), Some(b)) => json_equal(a, b),
            _ => true,
        },
        _ => false,
    }
}

/// The pairing rule on the event at `i`, in plain terms: where its kind
/// creates an entity of kind `expected`, its payload's `id` is a string
/// `entity`, some ops event at `j` is caused by it with no later one caused by
/// it, its ops decode, and among them some op at `k` creates `entity` (no
/// earlier op does, whatever other ops come before) with the implied kind
/// and an agreeing status.
pub open spec fn paired_plainly(evs: Seq<EventView>, i: int) -> bool {
    let e = evs[i];
    match paired_kind(e.kind) {
        None => true,
        Some(expected) => match view_get(e.payload, "id"@) {
            Some(JsonView::Str(entity)) => exists|j: int, k: int|
                #![trigger ops_caused_by(evs, j, e.id), ops_of(evs[j])->0[k]]
                0 <= j < evs.len() && ops_caused_by(evs, j, e.id) && (forall|j2: int|
                    j < j2 < evs.len() ==> !#[trigger] ops_caused_by(evs, j2, e.id)) && ops_of(evs[j]) is Some
                    && 0 <= k < ops_of(evs[j])->0.len() && creates(ops_of(evs[j])->0[k], entity) && creates_as(
                    ops_of(evs[j])->0[k],
                    expected,
                    e.payload,
                ) && (forall|k2: int| 0 <= k2 < k ==> !creates(#[trigger] ops_of(evs[j])->0[k2], entity)),
            _ => false,
        },
    }
}

proof fn lemma_last_ops_is(evs: Seq<EventView>, n: int, id: Seq<char>, j: int)
    requires
        0 <= j < n <= evs.len(),
        ops_caused_by(evs, j, id),
        forall|j2: int| j < j2 < n ==> !#[trigger] ops_caused_by(evs, j2, id),
    ensures
        last_ops_for(evs, n, id) == Some(j),
    decreases n,
{
    if n - 1 > j {
        assert(!ops_caused_by(evs, n - 1, id));
        lemma_last_ops_is(evs, n - 1, id, j);
    }
}

proof fn lemma_first_create_is(ops: Seq<OpView>, entity: Seq<char>, k: int)
    requires
        0 <= k < ops.len(),
        creates(ops[k], entity),
        forall|k2: int| 0 <= k2 < k ==> !creates(#[trigger] ops[k2], entity),
    ensures
        first_create(ops, entity) == Some((ops[k]->CreateNode_kind, ops[k]->CreateNode_props)),
    decreases k,
{
    if k > 0 {
        assert(!creates(ops[0], entity));
        let rest = ops.drop_first();
        assert forall|k2: int| 0 <= k2 < k - 1 implies !creates(#[trigger] rest[k2], entity) by {
            assert(rest[k2] == ops[k2 + 1]);
        }
        assert(rest[k - 1] == ops[k]);
        lemma_first_create_is(rest, entity, k - 1);
    }
}

/// A log passes check 7 where every entity-creating event is paired in
/// plain terms (the creating op may stand anywhere in its ops list) and no
/// ops event names an ops event as its cause.
pub proof fn lemma_plainly_paired_log_passes(evs: Seq<EventView>)
    requires
        forall|i: int| 0 <= i < evs.len() ==> #[trigger] paired_plainly(evs, i),
        forall|i: int, k: int|
            0 <= i < evs.len() && 0 <= k < evs.len() && (#[trigger] evs[i]).kind == ops_kind()
                && evs[i].causation_id == Some((#[trigger] evs[k]).id) ==> evs[k].kind != ops_kind(),
    ensures
        pairing_report(evs).failures.len() == 0,
{
    lemma_pairing_passes(evs);
    let n = evs.len() as int;
    assert forall|i: int| 0 <= i < evs.len() implies #[trigger] domain_paired(evs, i) && chain_ok(evs, i) by {
        let e = evs[i];
        assert(paired_plainly(evs, i));
        if let Some(expected) = paired_kind(e.kind) {
            let entity = view_get(e.payload, "id"@)->Some_0->Str_0;
            let (j, k) = choose|j: int, k: int|
                #![trigger ops_caused_by(evs, j, e.id), ops_of(evs[j])->0[k]]
                0 <= j < evs.len() && ops_caused_by(evs, j, e.id) && (forall|j2: int|
                    j < j2 < evs.len() ==> !#[trigger] ops_caused_by(evs, j2, e.id)) && ops_of(evs[j]) is Some
                    && 0 <= k < ops_of(evs[j])->0.len() && creates(ops_of(evs[j])->0[k], entity) && creates_as(
                    ops_of(evs[j])->0[k],
                    expected,
                    e.payload,
                ) && (forall|k2: int| 0 <= k2 < k ==> !creates(#[trigger] ops_of(evs[j])->0[k2], entity));
            lemma_last_ops_is(evs, n, e.id, j);
            lemma_first_create_is(ops_of(evs[j])->0, entity, k);
        }
        if e.kind == ops_kind() {
            if let Some(c) = e.causation_id {
                lemma_last_with_id(evs, n, c);
                if let Some(k) = last_with_id(evs, n, c) {
                    assert(evs[k].id == c);
                }
            }
        }
    }
}

} // verus!
