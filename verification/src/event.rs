//! Log events: the envelope of one log line, read with yoagent-state's
//! `Event` decoding, and the state ops an ops event carries.

use vstd::prelude::*;
use vstd::string::StringExecFns;
use crate::json::{JsonView, value_contents};
use crate::text::{decimal, decimal_string, str_eq, strs};
use yoagent_state::{Event, StateOp};

verus! {

/// yoagent-state's `Event`, held opaque.
#[verifier::external_type_specification]
#[verifier::external_body]
pub struct ExEvent(yoagent_state::Event);

/// One event of the log: the envelope's fields as plain values. Only
/// `decode_event` makes one, and it keeps the decoded `Event` beside them.
#[derive(Debug)]
pub struct LogEvent {
    id: String,
    schema_version: u32,
    ts_ms: i64,
    actor_kind: String,
    actor_id: String,
    kind: String,
    payload: serde_json::Value,
    causation_id: Option<String>,
    correlation_id: Option<String>,
    raw: Event,
}

/// An event as values.
pub struct EventView {
    pub id: Seq<char>,
    pub schema_version: u32,
    pub ts_ms: i64,
    pub actor_kind: Seq<char>,
    pub actor_id: Seq<char>,
    pub kind: Seq<char>,
    pub payload: JsonView,
    pub causation_id: Option<Seq<char>>,
    pub correlation_id: Option<Seq<char>>,
}

pub open spec fn opt_str(o: Option<String>) -> Option<Seq<char>> {
    match o {
        Some(s) => Some(s@),
        None => None,
    }
}

impl View for LogEvent {
    type V = EventView;

    closed spec fn view(&self) -> EventView {
        EventView {
            id: self.id@,
            schema_version: self.schema_version,
            ts_ms: self.ts_ms,
            actor_kind: self.actor_kind@,
            actor_id: self.actor_id@,
            kind: self.kind@,
            payload: value_contents(self.payload),
            causation_id: opt_str(self.causation_id),
            correlation_id: opt_str(self.correlation_id),
        }
    }
}

impl LogEvent {
    /// The decoded `Event` whose fields this event holds.
    pub(crate) fn raw(&self) -> &Event {
        &self.raw
    }

    pub fn id(&self) -> (r: &String)
        ensures
            r@ == self@.id,
    {
        &self.id
    }

    pub fn schema_version(&self) -> (r: u32)
        ensures
            r == self@.schema_version,
    {
        self.schema_version
    }

    pub fn ts_ms(&self) -> (r: i64)
        ensures
            r == self@.ts_ms,
    {
        self.ts_ms
    }

    pub fn actor_kind(&self) -> (r: &String)
        ensures
            r@ == self@.actor_kind,
    {
        &self.actor_kind
    }

    pub fn actor_id(&self) -> (r: &String)
        ensures
            r@ == self@.actor_id,
    {
        &self.actor_id
    }

    pub fn kind(&self) -> (r: &String)
        ensures
            r@ == self@.kind,
    {
        &self.kind
    }

    pub fn payload(&self) -> (r: &serde_json::Value)
        ensures
            value_contents(*r) == self@.payload,
    {
        &self.payload
    }

    pub fn causation_id(&self) -> (r: Option<&String>)
        ensures
            match r {
                Some(c) => self@.causation_id == Some(c@),
                None => self@.causation_id is None,
            },
    {
        match &self.causation_id {
            Some(c) => Some(c),
            None => None,
        }
    }

    pub fn correlation_id(&self) -> (r: Option<&String>)
        ensures
            match r {
                Some(c) => self@.correlation_id == Some(c@),
                None => self@.correlation_id is None,
            },
    {
        match &self.correlation_id {
            Some(c) => Some(c),
            None => None,
        }
    }
}

/// The views of a sequence of events.
pub open spec fn event_views(s: Seq<LogEvent>) -> Seq<EventView> {
    s.map_values(|e: LogEvent| e@)
}

/// The outcome of yoagent-state's `Event` decoding
/// (`serde_json::from_str::<Event>`) on a line: the event, or the error's
/// message.
pub uninterp spec fn decoded_event(line: Seq<char>) -> Result<EventView, Seq<char>>;

/// Decodes one log line as yoagent-state's `Event` with
/// `serde_json::from_str::<Event>`, and copies its fields out, keeping the
/// decoded `Event` beside them. The outcome is the named result
/// `decoded_event` of the line.
#[verifier::external_body]
pub(crate) fn decode_event(line: &str) -> (r: Result<LogEvent, String>)
    ensures
        match r {
            Ok(e) => decoded_event(line@) == Ok::<EventView, Seq<char>>(e@),
            Err(m) => decoded_event(line@) == Err::<EventView, Seq<char>>(m@),
        },
{
    serde_json::from_str::<Event>(line).map(|e| LogEvent {
        id: e.id.0.clone(),
        schema_version: e.schema_version,
        ts_ms: e.ts_ms,
        actor_kind: e.actor.kind.clone(),
        actor_id: e.actor.id.clone(),
        kind: e.kind.clone(),
        payload: e.payload.clone(),
        causation_id: e.causation_id.as_ref().map(|c| c.0.clone()),
        correlation_id: e.correlation_id.clone(),
        raw: e,
    }).map_err(|err| err.to_string())
}

/// `line {n}: `
pub open spec fn line_tag(n: nat) -> Seq<char> {
    "line "@ + decimal(n) + ": "@
}

pub fn line_tag_string(n: usize) -> (r: String)
    ensures
        r@ == line_tag(n as nat),
{
    let mut r = String::from_str("line ");
    let d = decimal_string(n as u64);
    r.append(d.as_str());
    r.append(": ");
    r
}

/// Decoding every line in order: the events, or the message of the first line
/// that does not decode, tagged with its line number.
pub open spec fn decode_all(lines: Seq<Seq<char>>) -> Result<Seq<EventView>, Seq<char>>
    decreases lines.len(),
{
    if lines.len() == 0 {
        Ok(seq![])
    } else {
        match decode_all(lines.drop_last()) {
            Err(m) => Err(m),
            Ok(evs) => match decoded_event(lines.last()) {
                Ok(e) => Ok(evs.push(e)),
                Err(m) => Err(line_tag(lines.len()) + m),
            },
        }
    }
}

/// Decodes each log line as an event; the first failure is reported as
/// `line {n}: {error}`.
pub fn parse_events(lines: &[String]) -> (r: Result<Vec<LogEvent>, String>)
    ensures
        match r {
            Ok(evs) => decode_all(strs(lines@)) == Ok::<Seq<EventView>, Seq<char>>(event_views(evs@)),
            Err(m) => decode_all(strs(lines@)) == Err::<Seq<EventView>, Seq<char>>(m@),
        },
{
    let mut out: Vec<LogEvent> = Vec::new();
    let mut i: usize = 0;
    assert(event_views(out@) =~= seq![]);
    while i < lines.len()
        invariant
            i <= lines.len(),
            decode_all(strs(lines@).take(i as int)) == Ok::<Seq<EventView>, Seq<char>>(event_views(out@)),
        decreases lines.len() - i,
    {
        assert(strs(lines@).take(i + 1).drop_last() == strs(lines@).take(i as int));
        assert(strs(lines@).take(i + 1).last() == lines@[i as int]@);
        match decode_event(lines[i].as_str()) {
            Ok(e) => {
                let ghost before = out@;
                out.push(e);
                assert(out@.drop_last() == before);
                assert(event_views(out@) =~= event_views(before).push(e@));
            },
            Err(m) => {
                let mut msg = line_tag_string(i + 1);
                msg.append(m.as_str());
                proof {
                    lemma_decode_all_stops(strs(lines@), (i + 1) as nat);
                }
                return Err(msg);
            },
        }
        i = i + 1;
    }
    assert(strs(lines@).take(lines.len() as int) == strs(lines@));
    Ok(out)
}

/// Once a prefix fails to decode, every longer prefix fails the same way.
pub proof fn lemma_decode_all_stops(lines: Seq<Seq<char>>, k: nat)
    requires
        k <= lines.len(),
        decode_all(lines.take(k as int)) is Err,
    ensures
        decode_all(lines) == decode_all(lines.take(k as int)),
    decreases lines.len() - k,
{
    if k < lines.len() {
        assert(lines.take(k + 1 as int).drop_last() == lines.take(k as int));
        lemma_decode_all_stops(lines, k + 1);
    } else {
        assert(lines.take(k as int) == lines);
    }
}

/// Decoding gives one event per line.
pub proof fn lemma_decode_all_len(lines: Seq<Seq<char>>)
    ensures
        decode_all(lines) matches Ok(evs) ==> evs.len() == lines.len(),
    decreases lines.len(),
{
    if lines.len() > 0 {
        lemma_decode_all_len(lines.drop_last());
    }
}

/// The event kind that carries state ops.
pub open spec fn ops_kind() -> Seq<char> {
    "state.ops_applied"@
}

pub fn is_ops_kind(kind: &str) -> (r: bool)
    ensures
        r == (kind@ == ops_kind()),
{
    str_eq(kind, "state.ops_applied")
}

/// The state ops that the checks read: node creation, relation creation,
/// and the rest.
#[derive(Debug)]
pub enum OpRecord {
    CreateNode { id: String, kind: String, props: serde_json::Value },
    CreateRelation { from: String, rel: String, to: String },
    Other,
}

pub enum OpView {
    CreateNode { id: Seq<char>, kind: Seq<char>, props: JsonView },
    CreateRelation { from: Seq<char>, rel: Seq<char>, to: Seq<char> },
    Other,
}

impl View for OpRecord {
    type V = OpView;

    open spec fn view(&self) -> OpView {
        match self {
            OpRecord::CreateNode { id, kind, props } => OpView::CreateNode {
                id: id@,
                kind: kind@,
                props: value_contents(*props),
            },
            OpRecord::CreateRelation { from, rel, to } => OpView::CreateRelation {
                from: from@,
                rel: rel@,
                to: to@,
            },
            OpRecord::Other => OpView::Other,
        }
    }
}

pub open spec fn op_views(s: Seq<OpRecord>) -> Seq<OpView> {
    s.map_values(|o: OpRecord| o@)
}

/// The outcome of yoagent-state's `StateOp` list decoding
/// (`serde_json::from_value::<Vec<StateOp>>`) on a payload; `None` where it
/// fails.
pub uninterp spec fn decoded_ops(payload: JsonView) -> Option<Seq<OpView>>;

/// Decodes a payload as a list of yoagent-state `StateOp`s with
/// `serde_json::from_value`, keeping node and relation creation and marking
/// the other ops. The outcome is the named result `decoded_ops` of the
/// payload.
#[verifier::external_body]
pub(crate) fn decode_ops(payload: &serde_json::Value) -> (r: Option<Vec<OpRecord>>)
    ensures
        match r {
            Some(ops) => decoded_ops(value_contents(*payload)) == Some(op_views(ops@)),
            None => decoded_ops(value_contents(*payload)) is None,
        },
{
    serde_json::from_value::<Vec<StateOp>>(payload.clone()).ok().map(|ops| ops.into_iter().map(|op| match op {
        StateOp::CreateNode { id, kind, props } => OpRecord::CreateNode { id: id.0, kind, props },
        StateOp::CreateRelation { from, rel, to, .. } => OpRecord::CreateRelation { from: from.0, rel, to: to.0 },
        _ => OpRecord::Other,
    }).collect())
}

/// The ops of an event: those of an ops event whose payload decodes.
pub open spec fn ops_of(e: EventView) -> Option<Seq<OpView>> {
    if e.kind == ops_kind() {
        decoded_ops(e.payload)
    } else {
        None
    }
}

/// The state ops an event carries, if it is an ops event with a decodable
/// payload.
pub fn event_ops(event: &LogEvent) -> (r: Option<Vec<OpRecord>>)
    ensures
        match r {
            Some(ops) => ops_of(event@) == Some(op_views(ops@)),
            None => ops_of(event@) is None,
        },
{
    if !is_ops_kind(event.kind().as_str()) {
        return None;
    }
    decode_ops(event.payload())
}

} // verus!
