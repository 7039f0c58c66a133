//! Conversion of session messages into the messages of a model request.
//!
//! Thinking blocks are dropped, image references are resolved to their
//! base64 data, and a message left without content gets an empty text
//! block so that the request has one message per session message.

use vstd::prelude::*;
use std::sync::Arc;

use crate::session::{BlockView, ContentBlock, ConversationMessage, MessageRole, MessageView, messages_view};
use crate::text::str_eq;

verus! {

/// Base64 image data of an image block.
#[derive(Clone, Debug)]
pub struct ImageSource {
    pub source_type: String,
    pub media_type: String,
    pub data: String,
}

/// Content of a tool result in a request.
#[derive(Clone, Debug)]
pub enum ToolResultContentBlock {
    Text { text: String },
}

/// A block of a request message. The input of a tool call is its JSON text.
#[derive(Clone, Debug)]
pub enum InputContentBlock {
    Text { text: String },
    ToolUse { id: String, name: String, input: String },
    Image { source: ImageSource },
    ToolResult { tool_use_id: String, content: Vec<ToolResultContentBlock>, is_error: bool },
}

/// A message of a request.
#[derive(Clone, Debug)]
pub struct InputMessage {
    pub role: String,
    pub content: Vec<InputContentBlock>,
}

/// Base64 data of images, by hash: a table of distinct keys.
#[derive(Debug)]
pub struct ImageTable {
    entries: Vec<(String, String)>,
}

/// View of a request block.
pub enum InputBlockView {
    Text { text: Seq<char> },
    ToolUse { id: Seq<char>, name: Seq<char>, input: Seq<char> },
    Image { source_type: Seq<char>, media_type: Seq<char>, data: Seq<char> },
    ToolResult { tool_use_id: Seq<char>, content: Seq<Seq<char>>, is_error: bool },
}

/// View of a request message.
pub struct InputMessageView {
    pub role: Seq<char>,
    pub content: Seq<InputBlockView>,
}

pub open spec fn result_texts(c: Seq<ToolResultContentBlock>) -> Seq<Seq<char>> {
    c.map_values(|b: ToolResultContentBlock| match b {
        ToolResultContentBlock::Text { text } => text@,
    })
}

impl View for InputContentBlock {
    type V = InputBlockView;

    open spec fn view(&self) -> InputBlockView {
        match self {
            InputContentBlock::Text { text } => InputBlockView::Text { text: text@ },
            InputContentBlock::ToolUse { id, name, input } => InputBlockView::ToolUse {
                id: id@,
                name: name@,
                input: input@,
            },
            InputContentBlock::Image { source } => InputBlockView::Image {
                source_type: source.source_type@,
                media_type: source.media_type@,
                data: source.data@,
            },
            InputContentBlock::ToolResult { tool_use_id, content, is_error } =>
                InputBlockView::ToolResult {
                tool_use_id: tool_use_id@,
                content: result_texts(content@),
                is_error: *is_error,
            },
        }
    }
}

pub open spec fn input_blocks_view(bs: Seq<InputContentBlock>) -> Seq<InputBlockView> {
    bs.map_values(|b: InputContentBlock| b@)
}

impl View for InputMessage {
    type V = InputMessageView;

    open spec fn view(&self) -> InputMessageView {
        InputMessageView { role: self.role@, content: input_blocks_view(self.content@) }
    }
}

pub open spec fn input_messages_view(ms: Seq<InputMessage>) -> Seq<InputMessageView> {
    ms.map_values(|m: InputMessage| m@)
}

/// The data recorded last for `k` among the entries.
pub open spec fn lookup(e: Seq<(String, String)>, k: Seq<char>) -> Option<Seq<char>>
    decreases e.len(),
{
    if e.len() == 0 {
        None
    } else if e.last().0@ == k {
        Some(e.last().1@)
    } else {
        lookup(e.drop_last(), k)
    }
}

impl View for ImageTable {
    type V = Map<Seq<char>, Seq<char>>;

    closed spec fn view(&self) -> Map<Seq<char>, Seq<char>> {
        Map::new(
            |k: Seq<char>| lookup(self.entries@, k) is Some,
            |k: Seq<char>| lookup(self.entries@, k)->0,
        )
    }
}

impl ImageTable {
    /// An empty table.
    pub fn new() -> (t: Self)
        ensures
            t@ == Map::<Seq<char>, Seq<char>>::empty(),
    {
        let t = ImageTable { entries: Vec::new() };
        assert(t@ =~= Map::<Seq<char>, Seq<char>>::empty());
        t
    }

    /// Record `data` for `hash`, replacing earlier data for it.
    pub fn insert(&mut self, hash: String, data: String)
        ensures
            final(self)@ == old(self)@.insert(hash@, data@),
    {
        let ghost old_e = self.entries@;
        self.entries.push((hash, data));
        assert(self.entries@.drop_last() =~= old_e);
        assert(self@ =~= old(self)@.insert(hash@, data@));
    }

    /// The data recorded for `hash`.
    pub fn get(&self, hash: &str) -> (r: Option<String>)
        ensures
            match r {
                Some(d) => self@.contains_key(hash@) && self@[hash@] == d@,
                None => !self@.contains_key(hash@),
            },
    {
        let mut i = self.entries.len();
        assert(self.entries@.take(i as int) =~= self.entries@);
        while i > 0
            invariant
                i <= self.entries@.len(),
                lookup(self.entries@, hash@) == lookup(self.entries@.take(i as int), hash@),
            decreases i,
        {
            assert(self.entries@.take(i as int).drop_last() =~= self.entries@.take(i - 1));
            if str_eq(self.entries[i - 1].0.as_str(), hash) {
                return Some(self.entries[i - 1].1.clone());
            }
            i = i - 1;
        }
        None
    }
}

/// The data for an image reference: from the cache, else from the store,
/// else empty.
pub open spec fn resolve_image(
    hash: Seq<char>,
    cache: Option<Map<Seq<char>, Seq<char>>>,
    store: Option<Map<Seq<char>, Seq<char>>>,
) -> Seq<char> {
    match cache {
        Some(c) if c.contains_key(hash) => c[hash],
        _ => match store {
            Some(s) if s.contains_key(hash) => s[hash],
            _ => Seq::empty(),
        },
    }
}

/// A session block in a request: thinking is dropped; an image reference
/// becomes a base64 image; a tool result carries its output as text.
pub open spec fn convert_block(
    b: BlockView,
    cache: Option<Map<Seq<char>, Seq<char>>>,
    store: Option<Map<Seq<char>, Seq<char>>>,
) -> Option<InputBlockView> {
    match b {
        BlockView::Thinking { .. } => None,
        BlockView::Text { text } => Some(InputBlockView::Text { text }),
        BlockView::ToolUse { id, name, input } => Some(InputBlockView::ToolUse { id, name, input }),
        BlockView::Image { mime_type, data } => Some(
            InputBlockView::Image { source_type: "base64"@, media_type: mime_type, data },
        ),
        BlockView::ImageRef { hash_hex, mime_type } => Some(
            InputBlockView::Image {
                source_type: "base64"@,
                media_type: mime_type,
                data: resolve_image(hash_hex, cache, store),
            },
        ),
        BlockView::ToolResult { tool_use_id, output, is_error, .. } => Some(
            InputBlockView::ToolResult { tool_use_id, content: seq![output], is_error },
        ),
    }
}

/// The converted blocks of `bs[..n]`, in order.
pub open spec fn convert_blocks(
    bs: Seq<BlockView>,
    cache: Option<Map<Seq<char>, Seq<char>>>,
    store: Option<Map<Seq<char>, Seq<char>>>,
    n: int,
) -> Seq<InputBlockView>
    decreases n,
{
    if n <= 0 {
        Seq::empty()
    } else {
        let prev = convert_blocks(bs, cache, store, n - 1);
        match convert_block(bs[n - 1], cache, store) {
            Some(x) => prev.push(x),
            None => prev,
        }
    }
}

/// The request role of a session role.
pub open spec fn role_name(r: MessageRole) -> Seq<char> {
    match r {
        MessageRole::Assistant => "assistant"@,
        _ => "user"@,
    }
}

/// A session message in a request; without content it carries one empty
/// text block.
pub open spec fn convert_message(
    m: MessageView,
    cache: Option<Map<Seq<char>, Seq<char>>>,
    store: Option<Map<Seq<char>, Seq<char>>>,
) -> InputMessageView {
    let c = convert_blocks(m.blocks, cache, store, m.blocks.len() as int);
    InputMessageView {
        role: role_name(m.role),
        content: if c.len() == 0 {
            seq![InputBlockView::Text { text: Seq::empty() }]
        } else {
            c
        },
    }
}

pub open spec fn table_view(t: Option<&ImageTable>) -> Option<Map<Seq<char>, Seq<char>>> {
    match t {
        Some(t) => Some(t@),
        None => None,
    }
}

fn resolve_image_exec(hash: &str, cache: Option<&ImageTable>, store: Option<&ImageTable>) -> (r:
    String)
    ensures
        r@ == resolve_image(hash@, table_view(cache), table_view(store)),
{
    if let Some(c) = cache {
        if let Some(d) = c.get(hash) {
            return d;
        }
    }
    if let Some(s) = store {
        if let Some(d) = s.get(hash) {
            return d;
        }
    }
    String::new()
}

fn convert_block_exec(b: &ContentBlock, cache: Option<&ImageTable>, store: Option<&ImageTable>) -> (r:
    Option<InputContentBlock>)
    ensures
        match r {
            Some(x) => convert_block(b@, table_view(cache), table_view(store)) == Some(x@),
            None => convert_block(b@, table_view(cache), table_view(store)) is None,
        },
{
    match b {
        ContentBlock::Thinking { .. } => None,
        ContentBlock::Text { text } => Some(InputContentBlock::Text { text: text.clone() }),
        ContentBlock::ToolUse { id, name, input } => Some(
            InputContentBlock::ToolUse { id: id.clone(), name: name.clone(), input: input.clone() },
        ),
        ContentBlock::Image { mime_type, data } => Some(
            InputContentBlock::Image {
                source: ImageSource {
                    source_type: String::from_str("base64"),
                    media_type: mime_type.clone(),
                    data: data.clone(),
                },
            },
        ),
        ContentBlock::ImageRef { hash_hex, mime_type } => Some(
            InputContentBlock::Image {
                source: ImageSource {
                    source_type: String::from_str("base64"),
                    media_type: mime_type.clone(),
                    data: resolve_image_exec(hash_hex.as_str(), cache, store),
                },
            },
        ),
        ContentBlock::ToolResult { tool_use_id, output, is_error, .. } => {
            let content = vec![ToolResultContentBlock::Text { text: output.clone() }];
            let r = InputContentBlock::ToolResult {
                tool_use_id: tool_use_id.clone(),
                content,
                is_error: *is_error,
            };
            assert(result_texts(content@) =~= seq![output@]);
            Some(r)
        },
    }
}

/// Convert one message.
fn convert_message_exec(
    m: &ConversationMessage,
    cache: Option<&ImageTable>,
    store: Option<&ImageTable>,
) -> (r: InputMessage)
    ensures
        r@ == convert_message(m@, table_view(cache), table_view(store)),
{
    let ghost bs = m@.blocks;
    let ghost cv = table_view(cache);
    let ghost sv = table_view(store);
    let mut content: Vec<InputContentBlock> = Vec::new();
    let mut j: usize = 0;
    while j < m.blocks.len()
        invariant
            bs == m@.blocks,
            bs.len() == m.blocks@.len(),
            cv == table_view(cache),
            sv == table_view(store),
            j <= bs.len(),
            input_blocks_view(content@) == convert_blocks(bs, cv, sv, j as int),
        decreases bs.len() - j,
    {
        assert(bs[j as int] == m.blocks@[j as int]@);
        let ghost prev = input_blocks_view(content@);
        match convert_block_exec(&m.blocks[j], cache, store) {
            Some(x) => {
                content.push(x);
                assert(input_blocks_view(content@) =~= prev.push(x@));
            },
            None => {},
        }
        j = j + 1;
    }
    let role = match m.role {
        MessageRole::Assistant => String::from_str("assistant"),
        _ => String::from_str("user"),
    };
    if content.len() == 0 {
        let placeholder = vec![InputContentBlock::Text { text: String::new() }];
        assert(input_blocks_view(placeholder@) =~= seq![InputBlockView::Text { text: Seq::empty() }]);
        InputMessage { role, content: placeholder }
    } else {
        InputMessage { role, content }
    }
}

/// Convert session messages into request messages (one per session
/// message), resolving image references through `image_cache`, then
/// `image_store`.
pub fn convert_messages(
    messages: &[ConversationMessage],
    image_cache: Option<&ImageTable>,
    image_store: Option<&ImageTable>,
) -> (r: Arc<Vec<InputMessage>>)
    ensures
        input_messages_view((*r)@) == messages_view(messages@).map_values(
            |m: MessageView| convert_message(m, table_view(image_cache), table_view(image_store)),
        ),
{
    let mut out: Vec<InputMessage> = Vec::new();
    let mut i: usize = 0;
    while i < messages.len()
        invariant
            i <= messages@.len(),
            out@.len() == i,
            forall|k: int|
                0 <= k < i ==> #[trigger] out@[k]@ == convert_message(
                    messages@[k]@,
                    table_view(image_cache),
                    table_view(image_store),
                ),
        decreases messages@.len() - i,
    {
        let x = convert_message_exec(&messages[i], image_cache, image_store);
        out.push(x);
        i = i + 1;
    }
    assert(input_messages_view(out@) =~= messages_view(messages@).map_values(
        |m: MessageView| convert_message(m, table_view(image_cache), table_view(image_store)),
    ));
    Arc::new(out)
}

/// Whether a message converts to content of its own (it holds a block
/// that is not thinking), rather than to the empty placeholder block.
pub fn has_request_content(m: &ConversationMessage) -> (r: bool)
    ensures
        r == (convert_blocks(m@.blocks, None, None, m@.blocks.len() as int).len() > 0),
{
    let ghost bs = m@.blocks;
    let mut j: usize = 0;
    while j < m.blocks.len()
        invariant
            bs == m@.blocks,
            bs.len() == m.blocks@.len(),
            j <= bs.len(),
            convert_blocks(bs, None, None, j as int).len() == 0,
        decreases bs.len() - j,
    {
        assert(bs[j as int] == m.blocks@[j as int]@);
        match &m.blocks[j] {
            ContentBlock::Thinking { .. } => {},
            _ => {
                proof {
                    lemma_convert_blocks_monotone(bs, j as int + 1, bs.len() as int);
                }
                return true;
            },
        }
        j = j + 1;
    }
    false
}

/// Converting more blocks never yields fewer.
proof fn lemma_convert_blocks_monotone(bs: Seq<BlockView>, m: int, n: int)
    requires
        0 <= m <= n <= bs.len(),
    ensures
        convert_blocks(bs, None, None, m).len() <= convert_blocks(bs, None, None, n).len(),
    decreases n - m,
{
    if m < n {
        lemma_convert_blocks_monotone(bs, m, n - 1);
    }
}

} // verus!
