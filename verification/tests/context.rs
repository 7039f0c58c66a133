use std::time::{Duration, Instant};

use claw::context::{filter_for_api, filter_for_api_inner};
use claw::session::{ContentBlock, ConversationMessage, MessageRole};
use serde_json::Value;

fn make_thinking_block(content: &str, sig: Option<&str>) -> ContentBlock {
    ContentBlock::Thinking {
        thinking: content.to_string(),
        signature: sig.map(String::from),
    }
}

fn message(role: MessageRole, blocks: Vec<ContentBlock>, created_at: Instant) -> ConversationMessage {
    ConversationMessage {
        role,
        blocks,
        usage: None,
        created_at,
        cached_tokens: None,
    }
}

fn object(entries: Vec<(&str, Value)>) -> Value {
    let mut map = serde_json::Map::new();
    for (k, v) in entries {
        map.insert(k.to_string(), v);
    }
    Value::Object(map)
}

fn text(s: &str) -> Value {
    Value::String(s.to_string())
}

fn search_result(title: &str, link: &str, snippet: &str, source: &str, date: &str) -> Value {
    object(vec![
        ("title", text(title)),
        ("link", text(link)),
        ("snippet", text(snippet)),
        ("source", text(source)),
        ("date", text(date)),
    ])
}

#[test]
fn filter_removes_thinking_content() {
    let msg = message(
        MessageRole::Assistant,
        vec![
            ContentBlock::Text {
                text: "Hello".to_string(),
            },
            make_thinking_block("Long thinking content...", Some("sig123")),
        ],
        Instant::now(),
    );

    let filtered = filter_for_api(&[msg]);
    assert_eq!(filtered.len(), 1);

    let thinking_block = filtered[0]
        .blocks
        .iter()
        .find(|b| matches!(b, ContentBlock::Thinking { .. }));
    assert!(thinking_block.is_some());

    if let ContentBlock::Thinking { thinking, signature } = thinking_block.unwrap() {
        assert_eq!(thinking, "");
        assert_eq!(signature, &Some("sig123".to_string()));
    }
}

#[test]
fn filter_preserves_non_thinking_blocks() {
    let msg = message(
        MessageRole::Assistant,
        vec![
            ContentBlock::Text {
                text: "Answer".to_string(),
            },
            ContentBlock::ToolUse {
                id: "1".to_string(),
                name: "bash".to_string(),
                input: Value::Object(serde_json::Map::new()).to_string(),
            },
        ],
        Instant::now(),
    );

    let filtered = filter_for_api(&[msg]);
    assert_eq!(filtered[0].blocks.len(), 2);
}

#[test]
fn filter_replaces_large_toolresult_with_structured_summary() {
    let json_output = r#"{"filePath":"src/session.rs","lineCount":1200,"bytesRead":45000,"content":"use std::..."}"#;
    let long_output = format!("{json_output}{}", "X".repeat(1000));
    let msg = message(
        MessageRole::Tool,
        vec![ContentBlock::ToolResult {
            tool_use_id: "tu1".to_string(),
            tool_name: "read_file".to_string(),
            output: long_output,
            is_error: false,
        }],
        Instant::now(),
    );

    let filtered = filter_for_api_inner(&[msg], 0);
    if let ContentBlock::ToolResult { output, .. } = &filtered[0].blocks[0] {
        assert!(output.starts_with("[read_file: src/session.rs"));
        assert!(output.contains("1200 lines"));
        assert!(output.contains("45000 bytes"));
        assert!(output.contains("content processed"));
    } else {
        panic!("Expected ToolResult");
    }
}

#[test]
fn filter_replaces_bash_with_exit_code() {
    let json_output = format!(
        r#"{{"stdout":"test result: ok. 42 passed{}","exitCode":0}}"#,
        "X".repeat(600)
    );
    let msg = message(
        MessageRole::Tool,
        vec![ContentBlock::ToolResult {
            tool_use_id: "tu3".to_string(),
            tool_name: "bash".to_string(),
            output: json_output,
            is_error: false,
        }],
        Instant::now(),
    );

    let filtered = filter_for_api_inner(&[msg], 0);
    if let ContentBlock::ToolResult { output, .. } = &filtered[0].blocks[0] {
        assert!(output.starts_with("[bash: exit=0"));
        assert!(output.contains("test result: ok"));
    } else {
        panic!("Expected ToolResult");
    }
}

#[test]
fn filter_preserves_error_results() {
    let msg = message(
        MessageRole::Tool,
        vec![ContentBlock::ToolResult {
            tool_use_id: "tu2".to_string(),
            tool_name: "WebFetch".to_string(),
            output: "Connection refused".to_string(),
            is_error: true,
        }],
        Instant::now(),
    );

    let filtered = filter_for_api(&[msg]);
    if let ContentBlock::ToolResult { output, .. } = &filtered[0].blocks[0] {
        assert_eq!(output, "Connection refused");
    } else {
        panic!("Expected ToolResult");
    }
}

#[test]
fn filter_preserves_recent_tool_results_verbatim() {
    let make_tool_msg = |id: &str, output: &str| {
        message(
            MessageRole::Tool,
            vec![ContentBlock::ToolResult {
                tool_use_id: id.to_string(),
                tool_name: "read_file".to_string(),
                output: output.to_string(),
                is_error: false,
            }],
            Instant::now(),
        )
    };

    let big_output = format!(
        r#"{{"filePath":"big.rs","lineCount":500,"bytesRead":20000,"content":"{}"}}
"#,
        "X".repeat(1000)
    );

    let messages: Vec<ConversationMessage> = (0..8)
        .map(|i| make_tool_msg(&format!("tu{i}"), &big_output))
        .collect();

    let filtered = filter_for_api(&messages);

    if let ContentBlock::ToolResult { output, .. } = &filtered[0].blocks[0] {
        assert!(
            output.starts_with("[read_file:"),
            "old message should be compressed, got: {output}"
        );
    } else {
        panic!("Expected ToolResult at index 0");
    }

    for i in 2..8 {
        if let ContentBlock::ToolResult { output, .. } = &filtered[i].blocks[0] {
            assert!(
                output.contains("\"filePath\":\"big.rs\""),
                "recent message {i} should be preserved verbatim, got: {output}"
            );
        } else {
            panic!("Expected ToolResult at index {i}");
        }
    }
}

#[test]
fn filter_drops_thinking_only_messages() {
    let msg = message(
        MessageRole::Assistant,
        vec![make_thinking_block("some reasoning...", Some("sig_abc"))],
        Instant::now(),
    );

    let filtered = filter_for_api(&[msg]);
    assert!(
        filtered.is_empty(),
        "thinking-only message should be dropped, got {} messages",
        filtered.len()
    );
}

#[test]
fn filter_preserves_assistant_with_text_and_thinking() {
    let msg = message(
        MessageRole::Assistant,
        vec![
            ContentBlock::Text {
                text: "Hello".to_string(),
            },
            make_thinking_block("thinking...", Some("sig1")),
        ],
        Instant::now(),
    );

    let filtered = filter_for_api(&[msg]);
    assert_eq!(filtered.len(), 1, "text+thinking message should be kept");
}

#[test]
fn filter_compresses_websearch_results() {
    let search_output = object(vec![
        ("query", text("rust async runtime")),
        ("provider", text("bing")),
        ("totalResults", Value::from(1234567)),
        ("resultsReturned", Value::from(10)),
        (
            "results",
            Value::Array(vec![
                search_result(
                    "Tokio - An asynchronous Rust runtime",
                    "https://tokio.rs",
                    "Tokio is an asynchronous runtime for the Rust programming language that provides the building blocks needed for writing network applications.",
                    "tokio.rs",
                    "2024-01-15",
                ),
                search_result(
                    "Async programming in Rust",
                    "https://rust-lang.github.io/async-book/",
                    "This book aims to be a thorough guide to asynchronous programming in Rust, covering everything from basic concepts to advanced patterns.",
                    "rust-lang.github.io",
                    "2024-02-20",
                ),
                search_result(
                    "Understanding async/await",
                    "https://example.com/async-await",
                    "A deep dive into how async/await works under the hood in Rust, including the state machine transformation and Future trait.",
                    "example.com",
                    "2024-03-10",
                ),
            ]),
        ),
    ])
    .to_string();

    assert!(search_output.len() > 500, "test data too small: {} bytes", search_output.len());

    let msg = message(
        MessageRole::Tool,
        vec![ContentBlock::ToolResult {
            tool_use_id: "tu_search".to_string(),
            tool_name: "WebSearch".to_string(),
            output: search_output,
            is_error: false,
        }],
        Instant::now(),
    );

    let filtered = filter_for_api_inner(&[msg], 0);

    if let ContentBlock::ToolResult { output, .. } = &filtered[0].blocks[0] {
        assert!(output.starts_with("[WebSearch:"), "got: {output}");
        assert!(output.contains("rust async runtime"), "got: {output}");
        assert!(output.contains("bing"), "got: {output}");
        assert!(output.contains("10 results"), "got: {output}");
        assert!(output.len() < 200, "summary should be short, got {} chars", output.len());
    } else {
        panic!("Expected ToolResult");
    }
}

fn large_websearch_output() -> String {
    object(vec![
        ("query", text("rust async runtime")),
        ("provider", text("bing")),
        ("totalResults", Value::from(1234567)),
        ("resultsReturned", Value::from(10)),
        (
            "results",
            Value::Array(vec![
                search_result(
                    "Tokio",
                    "https://tokio.rs",
                    "Tokio is an asynchronous runtime for the Rust programming language that provides the building blocks needed for writing network applications.",
                    "tokio.rs",
                    "2024-01-15",
                ),
                search_result(
                    "Async book",
                    "https://rust-lang.github.io/async-book/",
                    "This book aims to be a thorough guide to asynchronous programming in Rust, covering everything from basic concepts to advanced patterns.",
                    "rust-lang.github.io",
                    "2024-02-20",
                ),
            ]),
        ),
    ])
    .to_string()
}

#[test]
fn websearch_expires_after_30s() {
    let output = large_websearch_output();
    assert!(output.len() > 500);

    let msg = message(
        MessageRole::Tool,
        vec![ContentBlock::ToolResult {
            tool_use_id: "tu_ws".to_string(),
            tool_name: "WebSearch".to_string(),
            output,
            is_error: false,
        }],
        Instant::now() - Duration::from_secs(31),
    );

    let filtered = filter_for_api_inner(&[msg], 10);
    if let ContentBlock::ToolResult { output, .. } = &filtered[0].blocks[0] {
        assert!(
            output.starts_with("[WebSearch:"),
            "expired WebSearch should be compressed, got: {output}"
        );
    } else {
        panic!("Expected ToolResult");
    }
}

#[test]
fn webfetch_expires_after_60s() {
    let output = object(vec![
        ("url", text("https://example.com")),
        ("content", Value::String("X".repeat(600))),
    ])
    .to_string();
    assert!(output.len() > 500);

    let msg = message(
        MessageRole::Tool,
        vec![ContentBlock::ToolResult {
            tool_use_id: "tu_wf".to_string(),
            tool_name: "WebFetch".to_string(),
            output,
            is_error: false,
        }],
        Instant::now() - Duration::from_secs(61),
    );

    let filtered = filter_for_api_inner(&[msg], 10);
    if let ContentBlock::ToolResult { output, .. } = &filtered[0].blocks[0] {
        assert!(
            output.starts_with("[WebFetch:"),
            "expired WebFetch should be compressed, got: {output}"
        );
    } else {
        panic!("Expected ToolResult");
    }
}

#[test]
fn recent_websearch_preserved_within_ttl() {
    let output = large_websearch_output();
    assert!(output.len() > 500);

    let msg = message(
        MessageRole::Tool,
        vec![ContentBlock::ToolResult {
            tool_use_id: "tu_ws_fresh".to_string(),
            tool_name: "WebSearch".to_string(),
            output,
            is_error: false,
        }],
        Instant::now() - Duration::from_secs(5),
    );

    let filtered = filter_for_api_inner(&[msg], 10);
    if let ContentBlock::ToolResult { output, .. } = &filtered[0].blocks[0] {
        assert!(
            output.contains("rust async runtime"),
            "fresh WebSearch in recent window should be preserved, got: {output}"
        );
    } else {
        panic!("Expected ToolResult");
    }
}
