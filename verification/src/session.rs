//! Conversation messages as the session keeps them.

use vstd::prelude::*;
use std::time::{Duration, Instant};

verus! {

/// `std::time::Instant`, carried through as an opaque value.
#[verifier::external_type_specification]
#[verifier::external_body]
pub struct ExInstant(Instant);

/// Time elapsed since `t` (`Instant::elapsed`). The value depends on the
/// clock, so nothing is claimed of it.
#[verifier::external_body]
pub(crate) fn elapsed_since(t: &Instant) -> Duration {
    t.elapsed()
}

/// Whole seconds of a duration (`Duration::as_secs`). Nothing is claimed
/// of the value: durations are opaque here.
#[verifier::external_body]
pub(crate) fn whole_secs(d: &Duration) -> u64 {
    d.as_secs()
}

/// Whole seconds elapsed since `t`, read from the monotonic clock. The
/// value depends on when the call is made, so every `u64` is a possible
/// result and no clause is stated; callers take it as an argument of their
/// own verified logic (an age in seconds).
pub(crate) fn elapsed_secs(t: &Instant) -> u64 {
    let d = elapsed_since(t);
    whole_secs(&d)
}

/// Who sent a message.
#[derive(Clone, Copy, Debug, PartialEq, Eq, Structural)]
pub enum MessageRole {
    System,
    User,
    Assistant,
    Tool,
}

/// One block of a message. Text is held as `String`s; the input of a tool
/// call is its JSON text.
#[derive(Clone, Debug)]
pub enum ContentBlock {
    Text { text: String },
    ToolUse { id: String, name: String, input: String },
    ToolResult { tool_use_id: String, tool_name: String, output: String, is_error: bool },
    Image { mime_type: String, data: String },
    ImageRef { hash_hex: String, mime_type: String },
    Thinking { thinking: String, signature: Option<String> },
}

/// Token counts that the model reported for a response.
#[derive(Clone, Copy, Debug, PartialEq, Eq, Structural)]
pub struct TokenUsage {
    pub input_tokens: u32,
    pub output_tokens: u32,
    pub cache_creation_input_tokens: u32,
    pub cache_read_input_tokens: u32,
}

/// A message of the session.
#[derive(Debug)]
pub struct ConversationMessage {
    pub role: MessageRole,
    pub blocks: Vec<ContentBlock>,
    /// Token counts reported with this message, if any.
    pub usage: Option<TokenUsage>,
    pub created_at: Instant,
    /// Token estimate filled in by an earlier pass, if any.
    pub cached_tokens: Option<usize>,
}

/// Mathematical view of a block.
pub enum BlockView {
    Text { text: Seq<char> },
    ToolUse { id: Seq<char>, name: Seq<char>, input: Seq<char> },
    ToolResult { tool_use_id: Seq<char>, tool_name: Seq<char>, output: Seq<char>, is_error: bool },
    Image { mime_type: Seq<char>, data: Seq<char> },
    ImageRef { hash_hex: Seq<char>, mime_type: Seq<char> },
    Thinking { thinking: Seq<char>, signature: Option<Seq<char>> },
}

/// Mathematical view of a message.
pub struct MessageView {
    pub role: MessageRole,
    pub blocks: Seq<BlockView>,
    pub usage: Option<TokenUsage>,
    pub created_at: Instant,
    pub cached_tokens: Option<usize>,
}

pub open spec fn opt_view(o: Option<String>) -> Option<Seq<char>> {
    match o {
        Some(s) => Some(s@),
        None => None,
    }
}

impl View for ContentBlock {
    type V = BlockView;

    open spec fn view(&self) -> BlockView {
        match self {
            ContentBlock::Text { text } => BlockView::Text { text: text@ },
            ContentBlock::ToolUse { id, name, input } => BlockView::ToolUse {
                id: id@,
                name: name@,
                input: input@,
            },
            ContentBlock::ToolResult { tool_use_id, tool_name, output, is_error } =>
                BlockView::ToolResult {
                tool_use_id: tool_use_id@,
                tool_name: tool_name@,
                output: output@,
                is_error: *is_error,
            },
            ContentBlock::Image { mime_type, data } => BlockView::Image {
                mime_type: mime_type@,
                data: data@,
            },
            ContentBlock::ImageRef { hash_hex, mime_type } => BlockView::ImageRef {
                hash_hex: hash_hex@,
                mime_type: mime_type@,
            },
            ContentBlock::Thinking { thinking, signature } => BlockView::Thinking {
                thinking: thinking@,
                signature: opt_view(*signature),
            },
        }
    }
}

pub open spec fn blocks_view(bs: Seq<ContentBlock>) -> Seq<BlockView> {
    bs.map_values(|b: ContentBlock| b@)
}

impl View for ConversationMessage {
    type V = MessageView;

    open spec fn view(&self) -> MessageView {
        MessageView {
            role: self.role,
            blocks: blocks_view(self.blocks@),
            usage: self.usage,
            created_at: self.created_at,
            cached_tokens: self.cached_tokens,
        }
    }
}

pub open spec fn messages_view(ms: Seq<ConversationMessage>) -> Seq<MessageView> {
    ms.map_values(|m: ConversationMessage| m@)
}

/// Copy of an optional string.
pub fn clone_opt_string(o: &Option<String>) -> (r: Option<String>)
    ensures
        opt_view(r) == opt_view(*o),
{
    match o {
        Some(s) => Some(s.clone()),
        None => None,
    }
}

/// Copy of a block.
pub fn clone_block(b: &ContentBlock) -> (r: ContentBlock)
    ensures
        r@ == b@,
{
    match b {
        ContentBlock::Text { text } => ContentBlock::Text { text: text.clone() },
        ContentBlock::ToolUse { id, name, input } => ContentBlock::ToolUse {
            id: id.clone(),
            name: name.clone(),
            input: input.clone(),
        },
        ContentBlock::ToolResult { tool_use_id, tool_name, output, is_error } =>
            ContentBlock::ToolResult {
            tool_use_id: tool_use_id.clone(),
            tool_name: tool_name.clone(),
            output: output.clone(),
            is_error: *is_error,
        },
        ContentBlock::Image { mime_type, data } => ContentBlock::Image {
            mime_type: mime_type.clone(),
            data: data.clone(),
        },
        ContentBlock::ImageRef { hash_hex, mime_type } => ContentBlock::ImageRef {
            hash_hex: hash_hex.clone(),
            mime_type: mime_type.clone(),
        },
        ContentBlock::Thinking { thinking, signature } => ContentBlock::Thinking {
            thinking: thinking.clone(),
            signature: clone_opt_string(signature),
        },
    }
}

} // verus!
