use std::time::Instant;

use claw::convert::{
    convert_messages, has_request_content, ImageTable, InputContentBlock, ToolResultContentBlock,
};
use claw::session::{ContentBlock, ConversationMessage, MessageRole};

fn msg(role: MessageRole, blocks: Vec<ContentBlock>) -> ConversationMessage {
    ConversationMessage { role, blocks, usage: None, created_at: Instant::now(), cached_tokens: None }
}

#[test]
fn converts_blocks_and_roles() {
    let messages = vec![
        msg(
            MessageRole::Assistant,
            vec![
                ContentBlock::Thinking { thinking: "hmm".to_string(), signature: None },
                ContentBlock::Text { text: "hi".to_string() },
                ContentBlock::ToolUse {
                    id: "t1".to_string(),
                    name: "bash".to_string(),
                    input: "{}".to_string(),
                },
            ],
        ),
        msg(
            MessageRole::Tool,
            vec![ContentBlock::ToolResult {
                tool_use_id: "t1".to_string(),
                tool_name: "bash".to_string(),
                output: "ok".to_string(),
                is_error: true,
            }],
        ),
        msg(MessageRole::System, vec![]),
    ];
    let out = convert_messages(&messages, None, None);
    assert_eq!(out.len(), 3);
    assert_eq!(out[0].role, "assistant");
    assert_eq!(out[0].content.len(), 2);
    assert!(matches!(&out[0].content[0], InputContentBlock::Text { text } if text == "hi"));
    assert!(matches!(&out[0].content[1], InputContentBlock::ToolUse { id, .. } if id == "t1"));
    assert_eq!(out[1].role, "user");
    match &out[1].content[0] {
        InputContentBlock::ToolResult { tool_use_id, content, is_error } => {
            assert_eq!(tool_use_id, "t1");
            assert!(*is_error);
            assert!(matches!(&content[0], ToolResultContentBlock::Text { text } if text == "ok"));
        }
        _ => panic!("Expected ToolResult"),
    }
    // a message without content keeps its place with an empty text block
    assert_eq!(out[2].role, "user");
    assert!(matches!(&out[2].content[0], InputContentBlock::Text { text } if text.is_empty()));
}

#[test]
fn thinking_only_message_gets_placeholder() {
    let messages = vec![msg(
        MessageRole::Assistant,
        vec![ContentBlock::Thinking { thinking: "x".to_string(), signature: Some("s".to_string()) }],
    )];
    let out = convert_messages(&messages, None, None);
    assert_eq!(out.len(), 1);
    assert_eq!(out[0].content.len(), 1);
    assert!(matches!(&out[0].content[0], InputContentBlock::Text { text } if text.is_empty()));
}

#[test]
fn image_references_resolve_from_cache_then_store() {
    let mut cache = ImageTable::new();
    cache.insert("h1".to_string(), "CACHED".to_string());
    let mut store = ImageTable::new();
    store.insert("h1".to_string(), "STORED1".to_string());
    store.insert("h2".to_string(), "STORED2".to_string());
    let blocks = vec![
        ContentBlock::ImageRef { hash_hex: "h1".to_string(), mime_type: "image/png".to_string() },
        ContentBlock::ImageRef { hash_hex: "h2".to_string(), mime_type: "image/jpeg".to_string() },
        ContentBlock::ImageRef { hash_hex: "h3".to_string(), mime_type: "image/gif".to_string() },
        ContentBlock::Image { mime_type: "image/webp".to_string(), data: "RAW".to_string() },
    ];
    let out = convert_messages(&[msg(MessageRole::User, blocks)], Some(&cache), Some(&store));
    let datas: Vec<(String, String, String)> = out[0]
        .content
        .iter()
        .map(|b| match b {
            InputContentBlock::Image { source } => (
                source.source_type.clone(),
                source.media_type.clone(),
                source.data.clone(),
            ),
            _ => panic!("Expected Image"),
        })
        .collect();
    assert_eq!(datas[0], ("base64".to_string(), "image/png".to_string(), "CACHED".to_string()));
    assert_eq!(datas[1], ("base64".to_string(), "image/jpeg".to_string(), "STORED2".to_string()));
    assert_eq!(datas[2], ("base64".to_string(), "image/gif".to_string(), String::new()));
    assert_eq!(datas[3], ("base64".to_string(), "image/webp".to_string(), "RAW".to_string()));
}

#[test]
fn image_table_keeps_the_latest_entry() {
    let mut t = ImageTable::new();
    assert_eq!(t.get("a"), None);
    t.insert("a".to_string(), "1".to_string());
    t.insert("a".to_string(), "2".to_string());
    assert_eq!(t.get("a"), Some("2".to_string()));
}

#[test]
fn request_content_of_messages() {
    assert!(!has_request_content(&msg(MessageRole::User, vec![])));
    assert!(!has_request_content(&msg(
        MessageRole::Assistant,
        vec![ContentBlock::Thinking { thinking: "t".to_string(), signature: None }],
    )));
    assert!(has_request_content(&msg(
        MessageRole::Assistant,
        vec![
            ContentBlock::Thinking { thinking: "t".to_string(), signature: None },
            ContentBlock::Text { text: String::new() },
        ],
    )));
}

#[test]
fn filtered_conversation_converts_without_placeholders() {
    let messages = vec![
        msg(
            MessageRole::Assistant,
            vec![ContentBlock::Thinking { thinking: "x".to_string(), signature: None }],
        ),
        msg(MessageRole::User, vec![ContentBlock::Text { text: "q".to_string() }]),
        msg(
            MessageRole::Assistant,
            vec![
                ContentBlock::Thinking { thinking: "y".to_string(), signature: None },
                ContentBlock::Text { text: "a".to_string() },
            ],
        ),
    ];
    let filtered = claw::context::filter_for_api(&messages);
    assert_eq!(filtered.len(), 2);
    let out = convert_messages(&filtered, None, None);
    assert_eq!(out.len(), 2);
    for (m, f) in out.iter().zip(filtered.iter()) {
        assert!(has_request_content(f));
        assert!(!matches!(&m.content[0], InputContentBlock::Text { text } if text.is_empty()));
    }
}
