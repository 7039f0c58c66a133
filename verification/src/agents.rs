//! Bookkeeping for sub-agents that run on their own threads: the progress
//! records they leave, how a finished job is reported, and how the result
//! that a handle receives is turned into the agent's answer.

use vstd::prelude::*;
use std::time::Instant;

use crate::session::{BlockView, ContentBlock, ConversationMessage, blocks_view};
use crate::text::{append_str, str_eq};
use vstd::string::StringExecFns;

verus! {

/// The result of a non-blocking join is not available yet.
#[derive(Debug, Clone, Copy, PartialEq, Eq, Structural)]
pub struct TryAgain;

/// Lifecycle state of a sub-agent.
#[derive(Debug, Clone, Copy, PartialEq, Eq, Structural)]
pub enum AgentStatus {
    Running,
    Completed,
}

/// A progress event of a sub-agent.
#[derive(Debug)]
pub enum SubagentProgressEvent {
    Completed { result_preview: String },
    StatusChange { status: AgentStatus },
    Failed { error: String },
}

/// What is known of a running or finished sub-agent.
#[derive(Debug)]
pub struct AgentProgress {
    pub agent_id: String,
    pub name: String,
    pub subagent_type: String,
    pub status: AgentStatus,
    pub events: Vec<SubagentProgressEvent>,
    pub started_at: Instant,
    pub iteration_count: usize,
    /// The event that ended the agent's run, once it has ended.
    pub final_event: Option<SubagentProgressEvent>,
    pub current_activity: Option<String>,
}

impl AgentProgress {
    /// The record of an agent that has just been spawned at `started_at`:
    /// running, with no events, no iterations, no final event and no current
    /// activity.
    pub fn started(agent_id: String, name: String, subagent_type: String, started_at: Instant) -> (p:
        Self)
        ensures
            p.agent_id@ == agent_id@,
            p.name@ == name@,
            p.subagent_type@ == subagent_type@,
            p.status == AgentStatus::Running,
            p.events@.len() == 0,
            p.started_at == started_at,
            p.iteration_count == 0,
            p.final_event is None,
            p.current_activity is None,
    {
        AgentProgress {
            agent_id,
            name,
            subagent_type,
            status: AgentStatus::Running,
            events: Vec::new(),
            started_at,
            iteration_count: 0,
            final_event: None,
            current_activity: None,
        }
    }
}

/// The messages of one conversation turn.
#[derive(Debug)]
pub struct TurnSummary {
    pub assistant_messages: Vec<ConversationMessage>,
}

/// The entries of `ps` that do not belong to agent `id`, in order.
pub open spec fn without_agent(ps: Seq<AgentProgress>, id: Seq<char>) -> Seq<AgentProgress>
    decreases ps.len(),
{
    if ps.len() == 0 {
        Seq::empty()
    } else {
        let rest = without_agent(ps.drop_last(), id);
        if ps.last().agent_id@ == id {
            rest
        } else {
            rest.push(ps.last())
        }
    }
}

/// Drop the progress entries of an agent.
pub fn remove_progress_entry(agents: &mut Vec<AgentProgress>, agent_id: &str)
    ensures
        final(agents)@ == without_agent(old(agents)@, agent_id@),
{
    let ghost orig = agents@;
    let mut i: usize = 0;
    let ghost mut k: int = 0;
    while i < agents.len()
        invariant
            0 <= k <= orig.len(),
            i <= agents@.len(),
            agents@ == without_agent(orig.take(k), agent_id@) + orig.skip(k),
            i == without_agent(orig.take(k), agent_id@).len(),
        decreases agents@.len() - i,
    {
        let ghost before = without_agent(orig.take(k), agent_id@);
        assert(orig.take(k + 1).drop_last() =~= orig.take(k));
        assert(agents@[i as int] == orig[k]);
        if str_eq(agents[i].agent_id.as_str(), agent_id) {
            agents.remove(i);
            assert(agents@ =~= before + orig.skip(k + 1));
        } else {
            assert(agents@ =~= before.push(orig[k]) + orig.skip(k + 1));
            i = i + 1;
        }
        proof {
            k = k + 1;
        }
    }
    assert(orig.take(k) =~= orig);
}

/// Position of the first entry of agent `id`.
pub open spec fn first_of(ps: Seq<AgentProgress>, id: Seq<char>) -> Option<int> {
    if exists|i: int| 0 <= i < ps.len() && ps[i].agent_id@ == id {
        Some(
            choose|i: int|
                0 <= i < ps.len() && ps[i].agent_id@ == id && forall|j: int|
                    0 <= j < i ==> ps[j].agent_id@ != id,
        )
    } else {
        None
    }
}

fn find_agent(agents: &Vec<AgentProgress>, agent_id: &str) -> (r: Option<usize>)
    ensures
        match r {
            Some(i) => i < agents@.len() && agents@[i as int].agent_id@ == agent_id@ && forall|
                j: int,
            | 0 <= j < i ==> agents@[j].agent_id@ != agent_id@,
            None => forall|j: int| 0 <= j < agents@.len() ==> agents@[j].agent_id@ != agent_id@,
        },
        match r {
            Some(i) => first_of(agents@, agent_id@) == Some(i as int),
            None => first_of(agents@, agent_id@) is None,
        },
{
    let mut i: usize = 0;
    while i < agents.len()
        invariant
            i <= agents@.len(),
            forall|j: int| 0 <= j < i ==> agents@[j].agent_id@ != agent_id@,
        decreases agents@.len() - i,
    {
        if str_eq(agents[i].agent_id.as_str(), agent_id) {
            proof {
                let c = choose|c: int|
                    0 <= c < agents@.len() && agents@[c].agent_id@ == agent_id@ && forall|j: int|
                        0 <= j < c ==> agents@[j].agent_id@ != agent_id@;
                if c < i {
                } else if c > i {
                }
            }
            return Some(i);
        }
        i = i + 1;
    }
    None
}

/// Append `event` to the events of the first entry of agent `agent_id`
/// (nothing changes without one).
pub fn push_progress_event(
    agents: &mut Vec<AgentProgress>,
    agent_id: &str,
    event: SubagentProgressEvent,
)
    ensures
        final(agents)@.len() == old(agents)@.len(),
        forall|j: int|
            0 <= j < old(agents)@.len() && Some(j) != first_of(old(agents)@, agent_id@)
                ==> #[trigger] final(agents)@[j] == old(agents)@[j],
        first_of(old(agents)@, agent_id@) matches Some(i) ==> {
            &&& final(agents)@[i].events@ == old(agents)@[i].events@.push(event)
            &&& final(agents)@[i].agent_id == old(agents)@[i].agent_id
            &&& final(agents)@[i].name == old(agents)@[i].name
            &&& final(agents)@[i].subagent_type == old(agents)@[i].subagent_type
            &&& final(agents)@[i].status == old(agents)@[i].status
            &&& final(agents)@[i].started_at == old(agents)@[i].started_at
            &&& final(agents)@[i].iteration_count == old(agents)@[i].iteration_count
            &&& final(agents)@[i].final_event == old(agents)@[i].final_event
            &&& final(agents)@[i].current_activity == old(agents)@[i].current_activity
        },
{
    match find_agent(agents, agent_id) {
        Some(i) => {
            agents[i].events.push(event);
        },
        None => {},
    }
}

/// Clear what the first entry of agent `agent_id` reports as its current
/// activity (nothing changes without one).
pub fn clear_current_activity(agents: &mut Vec<AgentProgress>, agent_id: &str)
    ensures
        final(agents)@.len() == old(agents)@.len(),
        forall|j: int|
            0 <= j < old(agents)@.len() && Some(j) != first_of(old(agents)@, agent_id@)
                ==> #[trigger] final(agents)@[j] == old(agents)@[j],
        first_of(old(agents)@, agent_id@) matches Some(i) ==> {
            &&& final(agents)@[i].current_activity is None
            &&& final(agents)@[i].agent_id == old(agents)@[i].agent_id
            &&& final(agents)@[i].name == old(agents)@[i].name
            &&& final(agents)@[i].subagent_type == old(agents)@[i].subagent_type
            &&& final(agents)@[i].status == old(agents)@[i].status
            &&& final(agents)@[i].events == old(agents)@[i].events
            &&& final(agents)@[i].started_at == old(agents)@[i].started_at
            &&& final(agents)@[i].iteration_count == old(agents)@[i].iteration_count
            &&& final(agents)@[i].final_event == old(agents)@[i].final_event
        },
{
    match find_agent(agents, agent_id) {
        Some(i) => {
            agents[i].current_activity = None;
        },
        None => {},
    }
}

/// What a caught panic carried, as far as it can be told apart.
#[derive(Debug)]
pub enum PanicPayload {
    /// A `&'static str` message.
    Str(String),
    /// A `String` message.
    Owned(String),
    /// Anything else.
    Unknown,
}

/// The message of a caught panic.
pub open spec fn panic_text(p: PanicPayload) -> Seq<char> {
    match p {
        PanicPayload::Str(s) => s@,
        PanicPayload::Owned(s) => s@,
        PanicPayload::Unknown => "unknown panic payload"@,
    }
}

/// The message of a caught panic.
pub fn panic_message(payload: &PanicPayload) -> (r: String)
    ensures
        r@ == panic_text(*payload),
{
    match payload {
        PanicPayload::Str(s) => s.clone(),
        PanicPayload::Owned(s) => s.clone(),
        PanicPayload::Unknown => String::from_str("unknown panic payload"),
    }
}

/// The texts of the text blocks, in order.
pub open spec fn block_texts(bs: Seq<BlockView>) -> Seq<Seq<char>>
    decreases bs.len(),
{
    if bs.len() == 0 {
        Seq::empty()
    } else {
        let rest = block_texts(bs.drop_last());
        match bs.last() {
            BlockView::Text { text } => rest.push(text),
            _ => rest,
        }
    }
}

/// The parts joined with `sep` between neighbours.
pub open spec fn join(parts: Seq<Seq<char>>, sep: Seq<char>) -> Seq<char>
    decreases parts.len(),
{
    if parts.len() == 0 {
        Seq::empty()
    } else if parts.len() == 1 {
        parts[0]
    } else {
        join(parts.drop_last(), sep) + sep + parts.last()
    }
}

/// The final answer of a turn: the text blocks of the last assistant
/// message joined by blank lines, or nothing without a message.
pub open spec fn final_text(ms: Seq<ConversationMessage>) -> Seq<char> {
    if ms.len() == 0 {
        Seq::empty()
    } else {
        join(block_texts(blocks_view(ms.last().blocks@)), "\n\n"@)
    }
}

/// The final answer of a turn.
pub fn final_assistant_text(summary: &TurnSummary) -> (r: String)
    ensures
        r@ == final_text(summary.assistant_messages@),
{
    let n = summary.assistant_messages.len();
    if n == 0 {
        return String::new();
    }
    let blocks = &summary.assistant_messages[n - 1].blocks;
    let ghost bs = blocks_view(blocks@);
    let mut out = String::new();
    let mut any = false;
    let mut j: usize = 0;
    while j < blocks.len()
        invariant
            bs == blocks_view(blocks@),
            j <= blocks@.len(),
            any == (block_texts(bs.take(j as int)).len() > 0),
            out@ == join(block_texts(bs.take(j as int)), "\n\n"@),
        decreases blocks@.len() - j,
    {
        assert(bs.take(j + 1).drop_last() =~= bs.take(j as int));
        assert(bs.take(j + 1).last() == blocks@[j as int]@);
        match &blocks[j] {
            ContentBlock::Text { text } => {
                if any {
                    append_str(&mut out, "\n\n");
                }
                append_str(&mut out, text.as_str());
                assert(block_texts(bs.take(j + 1)) == block_texts(bs.take(j as int)).push(text@));
                let ghost parts = block_texts(bs.take(j + 1));
                assert(parts.drop_last() == block_texts(bs.take(j as int)));
                if !any {
                    assert(out@ =~= join(parts, "\n\n"@));
                }
                any = true;
            },
            _ => {},
        }
        j = j + 1;
    }
    assert(bs.take(blocks@.len() as int) =~= bs);
    out
}

/// How a job's thread ended: with the job's own result, or in a panic.
#[derive(Debug)]
pub enum JobEnd {
    Returned(Result<String, String>),
    Panicked(PanicPayload),
}

/// The outcome sent to the handle when a job ends: its own result, or
/// for a panic an error `panic: ` followed by the panic's message.
pub open spec fn job_outcome(end: JobEnd) -> Result<Seq<char>, Seq<char>> {
    match end {
        JobEnd::Returned(r) => outcome_view(r),
        JobEnd::Panicked(p) => Err("panic: "@ + panic_text(p)),
    }
}

/// Progress events for a job that returned: an answer is reported as
/// completed (with the answer as preview) followed by the status change to
/// completed; an error as a failure.
pub open spec fn returned_events(r: Result<String, String>) -> Seq<SubagentProgressEvent> {
    match r {
        Ok(text) => seq![
            SubagentProgressEvent::Completed { result_preview: text },
            SubagentProgressEvent::StatusChange { status: AgentStatus::Completed },
        ],
        Err(e) => seq![SubagentProgressEvent::Failed { error: e }],
    }
}

pub open spec fn outcome_view(r: Result<String, String>) -> Result<Seq<char>, Seq<char>> {
    match r {
        Ok(s) => Ok(s@),
        Err(e) => Err(e@),
    }
}

/// Report how a job ended: the progress events to record, in order, and
/// the outcome to send to the handle.
pub fn job_events(end: JobEnd) -> (r: (Vec<SubagentProgressEvent>, Result<String, String>))
    ensures
        outcome_view(r.1) == job_outcome(end),
        end matches JobEnd::Returned(res) ==> r.0@ == returned_events(res),
        end matches JobEnd::Panicked(_) ==> r.0@.len() == 1 && (r.0@[0] matches SubagentProgressEvent::Failed {
            error,
        } && job_outcome(end) == Err::<Seq<char>, Seq<char>>(error@)),
{
    match end {
        JobEnd::Returned(Ok(text)) => {
            let preview = text.clone();
            let events = vec![
                SubagentProgressEvent::Completed { result_preview: preview },
                SubagentProgressEvent::StatusChange { status: AgentStatus::Completed },
            ];
            (events, Ok(text))
        },
        JobEnd::Returned(Err(error)) => {
            let events = vec![SubagentProgressEvent::Failed { error: error.clone() }];
            (events, Err(error))
        },
        JobEnd::Panicked(p) => {
            let mut msg = String::from_str("panic: ");
            let pm = panic_message(&p);
            append_str(&mut msg, pm.as_str());
            let events = vec![SubagentProgressEvent::Failed { error: msg.clone() }];
            (events, Err(msg))
        },
    }
}

/// What waiting on a job's channel gave.
#[derive(Debug)]
pub enum Received {
    /// The job's outcome.
    Outcome(Result<String, String>),
    /// Nothing arrived in time (or, without waiting, nothing yet).
    Empty,
    /// The job's end of the channel is gone.
    Disconnected,
}

/// The answer of a blocking join: the outcome, or an error for a timeout
/// or a lost job.
pub open spec fn join_answer(r: Received) -> Result<Seq<char>, Seq<char>> {
    match r {
        Received::Outcome(o) => outcome_view(o),
        Received::Empty => Err("agent timed out"@),
        Received::Disconnected => Err("agent disconnected"@),
    }
}

/// The answer of a blocking join.
pub fn join_result(r: Received) -> (a: Result<String, String>)
    ensures
        outcome_view(a) == join_answer(r),
{
    match r {
        Received::Outcome(o) => o,
        Received::Empty => Err(String::from_str("agent timed out")),
        Received::Disconnected => Err(String::from_str("agent disconnected")),
    }
}

/// The answer of a non-blocking join, and whether the agent is now known
/// to be finished: an outcome or a lost job finishes it; nothing yet asks
/// to try again.
pub fn try_join_result(r: Received) -> (a: (Result<Result<String, String>, TryAgain>, bool))
    ensures
        a.1 == !(r is Empty),
        match r {
            Received::Empty => a.0 == Err::<Result<String, String>, TryAgain>(TryAgain),
            _ => a.0 matches Ok(o) && outcome_view(o) == match r {
                Received::Outcome(x) => outcome_view(x),
                _ => Err("agent disconnected"@),
            },
        },
{
    match r {
        Received::Outcome(o) => (Ok(o), true),
        Received::Empty => (Err(TryAgain), false),
        Received::Disconnected => (Ok(Err(String::from_str("agent disconnected"))), true),
    }
}

} // verus!
