use std::time::Instant;

use claw::agents::{
    clear_current_activity, final_assistant_text, job_events, join_result, panic_message,
    push_progress_event, remove_progress_entry, try_join_result, AgentProgress, AgentStatus,
    JobEnd, PanicPayload, Received, SubagentProgressEvent, TryAgain, TurnSummary,
};
use claw::session::{ContentBlock, ConversationMessage, MessageRole};

fn progress(id: &str) -> AgentProgress {
    AgentProgress {
        agent_id: id.to_string(),
        name: format!("agent {id}"),
        subagent_type: String::new(),
        status: AgentStatus::Running,
        events: vec![],
        started_at: Instant::now(),
        iteration_count: 0,
        final_event: None,
        current_activity: Some("reading".to_string()),
    }
}

#[test]
fn removing_progress_keeps_other_agents() {
    let mut agents = vec![progress("a"), progress("b"), progress("a"), progress("c")];
    remove_progress_entry(&mut agents, "a");
    let ids: Vec<&str> = agents.iter().map(|p| p.agent_id.as_str()).collect();
    assert_eq!(ids, vec!["b", "c"]);
    remove_progress_entry(&mut agents, "zzz");
    assert_eq!(agents.len(), 2);
}

#[test]
fn events_go_to_the_agent() {
    let mut agents = vec![progress("a"), progress("b")];
    push_progress_event(&mut agents, "b", SubagentProgressEvent::Failed { error: "e".to_string() });
    assert!(agents[0].events.is_empty());
    assert_eq!(agents[1].events.len(), 1);
    clear_current_activity(&mut agents, "b");
    assert_eq!(agents[1].current_activity, None);
    assert_eq!(agents[0].current_activity, Some("reading".to_string()));
}

#[test]
fn panic_messages() {
    assert_eq!(panic_message(&PanicPayload::Str("boom".to_string())), "boom");
    assert_eq!(panic_message(&PanicPayload::Owned("bang".to_string())), "bang");
    assert_eq!(panic_message(&PanicPayload::Unknown), "unknown panic payload");
}

#[test]
fn final_text_joins_text_blocks_of_last_message() {
    let first = ConversationMessage {
        role: MessageRole::Assistant,
        blocks: vec![ContentBlock::Text { text: "old".to_string() }],
        usage: None,
        created_at: Instant::now(),
        cached_tokens: None,
    };
    let last = ConversationMessage {
        role: MessageRole::Assistant,
        blocks: vec![
            ContentBlock::Text { text: "one".to_string() },
            ContentBlock::Thinking { thinking: "x".to_string(), signature: None },
            ContentBlock::Text { text: "two".to_string() },
        ],
        usage: None,
        created_at: Instant::now(),
        cached_tokens: None,
    };
    let summary = TurnSummary { assistant_messages: vec![first, last] };
    assert_eq!(final_assistant_text(&summary), "one\n\ntwo");
    assert_eq!(final_assistant_text(&TurnSummary { assistant_messages: vec![] }), "");
}

#[test]
fn job_endings_are_reported() {
    let (events, outcome) = job_events(JobEnd::Returned(Ok("done".to_string())));
    assert_eq!(outcome, Ok("done".to_string()));
    assert!(matches!(&events[0], SubagentProgressEvent::Completed { result_preview } if result_preview == "done"));
    assert!(matches!(&events[1], SubagentProgressEvent::StatusChange { status: AgentStatus::Completed }));
    let (events, outcome) = job_events(JobEnd::Returned(Err("bad".to_string())));
    assert_eq!(outcome, Err("bad".to_string()));
    assert_eq!(events.len(), 1);
    let (events, outcome) =
        job_events(JobEnd::Panicked(PanicPayload::Str("oops".to_string())));
    assert_eq!(outcome, Err("panic: oops".to_string()));
    assert!(matches!(&events[0], SubagentProgressEvent::Failed { error } if error == "panic: oops"));
}

#[test]
fn join_answers() {
    assert_eq!(join_result(Received::Outcome(Ok("x".to_string()))), Ok("x".to_string()));
    assert_eq!(join_result(Received::Empty), Err("agent timed out".to_string()));
    assert_eq!(join_result(Received::Disconnected), Err("agent disconnected".to_string()));
    assert_eq!(try_join_result(Received::Empty), (Err(TryAgain), false));
    assert_eq!(
        try_join_result(Received::Disconnected),
        (Ok(Err("agent disconnected".to_string())), true)
    );
    assert_eq!(
        try_join_result(Received::Outcome(Err("e".to_string()))),
        (Ok(Err("e".to_string())), true)
    );
}

#[test]
fn a_started_agent_is_running_with_nothing_recorded() {
    let at = Instant::now();
    let p = AgentProgress::started("a1".to_string(), "helper".to_string(), "explore".to_string(), at);
    assert_eq!(p.agent_id, "a1");
    assert_eq!(p.name, "helper");
    assert_eq!(p.subagent_type, "explore");
    assert_eq!(p.status, AgentStatus::Running);
    assert!(p.events.is_empty());
    assert_eq!(p.started_at, at);
    assert_eq!(p.iteration_count, 0);
    assert!(p.final_event.is_none());
    assert!(p.current_activity.is_none());
}
