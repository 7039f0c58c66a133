use std::time::Instant;

use claw::context::{
    estimate_message_tokens, estimate_text_tokens, expired_after, extract_json_num,
    extract_json_str, filter_for_api_at, summarize_tool_result, tool_result_expired,
};
use claw::session::{ContentBlock, ConversationMessage, MessageRole, TokenUsage};

#[test]
fn extracts_string_values_after_white_space() {
    let json = r#"{"a": 1, "path":   "src/lib.rs", "other":"x"}"#;
    assert_eq!(extract_json_str(json, "path"), Some("src/lib.rs".to_string()));
    assert_eq!(extract_json_str(json, "missing"), None);
    // a number is not a string value
    assert_eq!(extract_json_str(json, "a"), None);
    // an unterminated string has no value
    assert_eq!(extract_json_str(r#"{"k":"abc"#, "k"), None);
}

#[test]
fn extracts_numbers_and_null() {
    let json = r#"{"n": -12.5e3, "z":null, "s":"7", "e":}"#;
    assert_eq!(extract_json_num(json, "n"), Some("-12.5".to_string()));
    assert_eq!(extract_json_num(json, "z"), Some("null".to_string()));
    assert_eq!(extract_json_num(json, "s"), None);
    assert_eq!(extract_json_num(json, "e"), None);
    assert_eq!(extract_json_num(json, "absent"), None);
}

#[test]
fn first_occurrence_of_a_key_wins() {
    let json = r#"{"x":"first","x":"second"}"#;
    assert_eq!(extract_json_str(json, "x"), Some("first".to_string()));
}

#[test]
fn summarizes_each_known_tool() {
    assert_eq!(
        summarize_tool_result("read_file", r#"{"filePath":"a.rs","numLines":3,"bytesRead":10}"#),
        "[read_file: a.rs, 3 lines, 10 bytes \u{2014} content processed]"
    );
    assert_eq!(
        summarize_tool_result("new_file", r#"{"path":"b.rs","bytes":5}"#),
        "[new_file: b.rs, 5 bytes written \u{2014} content processed]"
    );
    assert_eq!(
        summarize_tool_result(
            "edit_file",
            r#"{"filePath":"c.rs","linesChanged":4,"diffPath":"/tmp/d"}"#
        ),
        "[edit_file: c.rs, 4 lines changed, diff=/tmp/d \u{2014} content processed]"
    );
    assert_eq!(
        summarize_tool_result("bash", r#"{"output":"hi","code":2}"#),
        "[bash: exit=2, output: hi]"
    );
    assert_eq!(
        summarize_tool_result("WebFetch", r#"{"url":"https://x.org"}"#),
        "[WebFetch: https://x.org \u{2014} content processed]"
    );
    assert_eq!(
        summarize_tool_result(
            "WebSearch",
            r#"{"query":"q","provider":"p","resultsReturned":3}"#
        ),
        "[WebSearch: \"q\" via p, 3 results \u{2014} results reviewed]"
    );
    assert_eq!(
        summarize_tool_result("grep_search", r#"{"num_files":2,"num_lines":9}"#),
        "[grep_search: 2 files, 9 matches \u{2014} content processed]"
    );
}

#[test]
fn summarizes_unknown_tools_by_character_count() {
    assert_eq!(
        summarize_tool_result("custom", "h\u{e9}llo"),
        "[custom: 5 chars \u{2014} content processed]"
    );
    assert_eq!(
        summarize_tool_result("custom", ""),
        "[custom: 0 chars \u{2014} content processed]"
    );
}

#[test]
fn missing_metadata_is_left_empty() {
    assert_eq!(
        summarize_tool_result("read_file", "not json"),
        "[read_file: ,  lines,  bytes \u{2014} content processed]"
    );
}

#[test]
fn bash_preview_is_cut_at_two_hundred_characters() {
    let long = "a".repeat(250);
    let out = summarize_tool_result("bash", &format!(r#"{{"stdout":"{long}","exitCode":1}}"#));
    assert_eq!(out, format!("[bash: exit=1, output: {}...]", "a".repeat(200)));
    // 150 two-byte characters: more than 200 bytes, fewer than 200 characters
    let wide = "\u{e9}".repeat(150);
    let out = summarize_tool_result("bash", &format!(r#"{{"stdout":"{wide}"}}"#));
    assert_eq!(out, format!("[bash: exit=, output: {wide}...]"));
    let short = "b".repeat(200);
    let out = summarize_tool_result("bash", &format!(r#"{{"stdout":"{short}"}}"#));
    assert_eq!(out, format!("[bash: exit=, output: {short}]"));
}

#[test]
fn time_to_live_of_tools() {
    assert!(!expired_after("WebSearch", 29));
    assert!(expired_after("WebSearch", 30));
    assert!(!expired_after("WebFetch", 59));
    assert!(expired_after("WebFetch", 60));
    assert!(!expired_after("read_file", 1_000_000));
    assert!(!tool_result_expired("bash", Instant::now()));
    assert!(!tool_result_expired("WebSearch", Instant::now()));
}

fn tool_msg(name: &str, output: String, is_error: bool) -> ConversationMessage {
    ConversationMessage {
        role: MessageRole::Tool,
        blocks: vec![ContentBlock::ToolResult {
            tool_use_id: "t".to_string(),
            tool_name: name.to_string(),
            output,
            is_error,
        }],
        usage: None,
        created_at: Instant::now(),
        cached_tokens: Some(7),
    }
}

#[test]
fn filtering_with_given_ages() {
    let big = format!(r#"{{"url":"https://a.b","content":"{}"}}"#, "x".repeat(600));
    let small = "y".repeat(500);
    let msgs = vec![
        tool_msg("WebFetch", big.clone(), false),
        tool_msg("WebFetch", small.clone(), false),
        tool_msg("unknown_tool", big.clone(), false),
        tool_msg("WebFetch", big.clone(), false),
        tool_msg("WebFetch", big.clone(), false),
    ];
    // the last two are recent; the first of them is 60 s old, the last 59 s
    let out = filter_for_api_at(&msgs, 2, &[0, 0, 0, 60, 59]);
    assert_eq!(out.len(), 5);
    let outputs: Vec<String> = out
        .iter()
        .map(|m| match &m.blocks[0] {
            ContentBlock::ToolResult { output, .. } => output.clone(),
            _ => panic!("Expected ToolResult"),
        })
        .collect();
    assert_eq!(outputs[0], "[WebFetch: https://a.b \u{2014} content processed]");
    assert_eq!(outputs[1], small);
    assert_eq!(outputs[2], big);
    assert_eq!(outputs[3], "[WebFetch: https://a.b \u{2014} content processed]");
    assert_eq!(outputs[4], big);
    assert_eq!(out[0].cached_tokens, Some(7));
    assert_eq!(out[0].role, MessageRole::Tool);
}

#[test]
fn empty_messages_are_dropped() {
    let msgs = vec![ConversationMessage {
        role: MessageRole::User,
        blocks: vec![],
        usage: None,
        created_at: Instant::now(),
        cached_tokens: None,
    }];
    assert!(filter_for_api_at(&msgs, 6, &[0]).is_empty());
}

#[test]
fn token_estimates() {
    assert_eq!(estimate_text_tokens("abcdefgh"), 2);
    assert_eq!(estimate_text_tokens("abc"), 0);
    let msg = ConversationMessage {
        role: MessageRole::Assistant,
        blocks: vec![
            ContentBlock::Text { text: "x".repeat(40) },
            ContentBlock::ToolUse {
                id: "1".to_string(),
                name: "bash".to_string(),
                input: "{\"cmd\":\"ls\"}".to_string(),
            },
            ContentBlock::ToolResult {
                tool_use_id: "1".to_string(),
                tool_name: "bash".to_string(),
                output: "y".repeat(20),
                is_error: false,
            },
            ContentBlock::Image {
                mime_type: "image/png".to_string(),
                data: "A".repeat(2000),
            },
            ContentBlock::ImageRef {
                hash_hex: "ab".to_string(),
                mime_type: "image/png".to_string(),
            },
            ContentBlock::Thinking {
                thinking: "z".repeat(8),
                signature: None,
            },
        ],
        usage: None,
        created_at: Instant::now(),
        cached_tokens: None,
    };
    // 3 + 10 + (3 + 1 + 3) + (3 + 1 + 5) + (1500 / 750 + 20) + 100 + 2
    assert_eq!(estimate_message_tokens(&msg), 153);
    let cached = ConversationMessage {
        role: MessageRole::User,
        blocks: vec![],
        usage: None,
        created_at: Instant::now(),
        cached_tokens: Some(99),
    };
    assert_eq!(estimate_message_tokens(&cached), 99);
    let empty_tool = ConversationMessage {
        role: MessageRole::Tool,
        blocks: vec![],
        usage: None,
        created_at: Instant::now(),
        cached_tokens: None,
    };
    assert_eq!(estimate_message_tokens(&empty_tool), 5);
}

#[test]
fn filter_carries_usage_through() {
    let usage = TokenUsage {
        input_tokens: 10,
        output_tokens: 20,
        cache_creation_input_tokens: 3,
        cache_read_input_tokens: 4,
    };
    let msg = ConversationMessage {
        role: MessageRole::Assistant,
        blocks: vec![ContentBlock::Text { text: "hi".to_string() }],
        usage: Some(usage),
        created_at: Instant::now(),
        cached_tokens: None,
    };
    let out = filter_for_api_at(&[msg], 6, &[0]);
    assert_eq!(out.len(), 1);
    assert_eq!(out[0].usage, Some(usage));
}

fn result_outputs(out: &[ConversationMessage]) -> Vec<String> {
    out.iter()
        .map(|m| match &m.blocks[0] {
            ContentBlock::ToolResult { output, .. } => output.clone(),
            _ => panic!("Expected ToolResult"),
        })
        .collect()
}

#[test]
fn wider_window_summarizes_less() {
    let big = format!(r#"{{"url":"https://a.b","content":"{}"}}"#, "x".repeat(600));
    let summary = "[WebFetch: https://a.b \u{2014} content processed]".to_string();
    let msgs = vec![
        tool_msg("WebFetch", big.clone(), false),
        tool_msg("read_file", big.clone(), false),
        tool_msg("WebFetch", big.clone(), false),
        tool_msg("WebFetch", big.clone(), false),
    ];
    let ages = [100, 0, 10, 0];
    let narrow = result_outputs(&filter_for_api_at(&msgs, 1, &ages));
    let wide = result_outputs(&filter_for_api_at(&msgs, 3, &ages));
    let all = result_outputs(&filter_for_api_at(&msgs, 4, &ages));
    assert_eq!(narrow.len(), wide.len());
    assert_eq!(narrow, vec![summary.clone(), "[read_file: ,  lines,  bytes \u{2014} content processed]".to_string(), summary.clone(), big.clone()]);
    assert_eq!(wide, vec![summary.clone(), big.clone(), big.clone(), big.clone()]);
    // with every message in the window only the expired WebFetch result is summarized
    assert_eq!(all, vec![summary, big.clone(), big.clone(), big]);
}
