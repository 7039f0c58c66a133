//! Filtering of session messages before they are sent to the model:
//! thinking text is stripped (its signature kept), large results of
//! known tools are replaced by short summaries unless they are recent,
//! and token usage is estimated.

use vstd::prelude::*;

use crate::session::{
    blocks_view, clone_block, clone_opt_string, elapsed_secs, messages_view, opt_view, BlockView,
    ContentBlock, ConversationMessage, MessageRole, MessageView,
};
use std::time::Instant;
use crate::text::{
    append_chars, append_decimal, append_str, byte_len, byte_len_exceeds, decimal, str_eq, chars_of, find_from, find_seq, first_index, first_index_of, leading_ws,
    occurs_at, push_char, skip_ws, starts_with_seq,
};

verus! {

/// The pattern `"key":` that introduces a key in JSON text.
pub open spec fn key_pattern(key: Seq<char>) -> Seq<char> {
    seq!['"'] + key + seq!['"', ':']
}

/// Where the value of `key` starts: after the first occurrence of its
/// pattern and any white space that follows.
pub open spec fn json_value_start(json: Seq<char>, key: Seq<char>) -> Option<int> {
    match find_from(json, key_pattern(key), 0) {
        Some(i) => {
            let p = i + key_pattern(key).len();
            Some(p + leading_ws(json.skip(p)))
        },
        None => None,
    }
}

/// The string value of `key`: the characters between the opening quote and
/// the next quote (no escape handling).
pub open spec fn json_str(json: Seq<char>, key: Seq<char>) -> Option<Seq<char>> {
    match json_value_start(json, key) {
        Some(r) => if r < json.len() && json[r] == '"' {
            match first_index_of(json, '"', r + 1) {
                Some(e) => Some(json.subrange(r + 1, e)),
                None => None,
            }
        } else {
            None
        },
        None => None,
    }
}

/// Characters that may make up a JSON number here.
pub open spec fn is_numeric_char(c: char) -> bool {
    ('0' <= c && c <= '9') || c == '-' || c == '.'
}

/// First position at or after `from` whose character is not numeric, or
/// the length of `s`.
pub open spec fn numeric_end(s: Seq<char>, from: int) -> int
    decreases s.len() - from,
{
    if from < 0 || from >= s.len() {
        from
    } else if !is_numeric_char(s[from]) {
        from
    } else {
        numeric_end(s, from + 1)
    }
}

/// The numeric value of `key` as written: `null`, or the longest run of
/// digits, `-` and `.` (none if that run is empty).
pub open spec fn json_num(json: Seq<char>, key: Seq<char>) -> Option<Seq<char>> {
    match json_value_start(json, key) {
        Some(r) => if starts_with_seq(json.skip(r), seq!['n', 'u', 'l', 'l']) {
            Some(seq!['n', 'u', 'l', 'l'])
        } else if numeric_end(json, r) > r {
            Some(json.subrange(r, numeric_end(json, r)))
        } else {
            None
        },
        None => None,
    }
}

fn key_pattern_exec(key: &str) -> (p: Vec<char>)
    ensures
        p@ == key_pattern(key@),
{
    let mut p: Vec<char> = Vec::new();
    p.push('"');
    let k = chars_of(key);
    let mut i: usize = 0;
    while i < k.len()
        invariant
            i <= k@.len(),
            p@ == seq!['"'] + k@.take(i as int),
        decreases k@.len() - i,
    {
        p.push(k[i]);
        i = i + 1;
        assert(k@.take(i as int) == k@.take((i - 1) as int).push(k@[i - 1]));
    }
    p.push('"');
    p.push(':');
    assert(k@.take(k@.len() as int) == k@);
    assert(p@ =~= key_pattern(key@));
    p
}

/// Position where the value of `key` starts in `js`.
fn value_start(js: &[char], key: &str) -> (r: Option<usize>)
    ensures
        r is Some == json_value_start(js@, key@) is Some,
        r matches Some(i) ==> json_value_start(js@, key@) == Some(i as int) && i <= js@.len(),
{
    let pat = key_pattern_exec(key);
    let n = js.len();
    match find_seq(js, pat.as_slice(), 0) {
        Some(idx) => {
            proof {
                lemma_find_from_bounds(js@, pat@, 0);
            }
            let start = idx + pat.len();
            let r = skip_ws(js, start);
            assert(json_value_start(js@, key@) == Some(r as int));
            Some(r)
        },
        None => None,
    }
}

/// A position found by `find_from` is an occurrence.
pub proof fn lemma_find_from_bounds(s: Seq<char>, p: Seq<char>, from: int)
    ensures
        find_from(s, p, from) matches Some(i) ==> from <= i && i + p.len() <= s.len()
            && occurs_at(s, p, i),
    decreases s.len() + 1 - from,
{
    if from < 0 || from + p.len() > s.len() {
    } else if occurs_at(s, p, from) {
    } else {
        lemma_find_from_bounds(s, p, from + 1);
    }
}

/// String value of `key` in JSON text, found by pattern search without a
/// full parse.
pub fn extract_json_str(json: &str, key: &str) -> (r: Option<String>)
    ensures
        opt_view(r) == json_str(json@, key@),
{
    let js = chars_of(json);
    match value_start(js.as_slice(), key) {
        Some(r) => {
            if r < js.len() && js[r] == '"' {
                match first_index(js.as_slice(), r + 1, '"') {
                    Some(e) => {
                        let mut s = String::new();
                        append_chars(&mut s, js.as_slice(), r + 1, e);
                        Some(s)
                    },
                    None => None,
                }
            } else {
                None
            }
        },
        None => None,
    }
}

fn numeric_end_exec(s: &[char], from: usize) -> (e: usize)
    requires
        from <= s@.len(),
    ensures
        e == numeric_end(s@, from as int),
        from <= e <= s@.len(),
{
    let mut i = from;
    while i < s.len() && (('0' <= s[i] && s[i] <= '9') || s[i] == '-' || s[i] == '.')
        invariant
            from <= i <= s@.len(),
            numeric_end(s@, from as int) == numeric_end(s@, i as int),
        decreases s@.len() - i,
    {
        i = i + 1;
    }
    i
}

/// Numeric value of `key` in JSON text, as written (`null` included).
pub fn extract_json_num(json: &str, key: &str) -> (r: Option<String>)
    ensures
        opt_view(r) == json_num(json@, key@),
{
    let js = chars_of(json);
    match value_start(js.as_slice(), key) {
        Some(r) => {
            let null_here = js.len() - r >= 4 && js[r] == 'n' && js[r + 1] == 'u' && js[r + 2]
                == 'l' && js[r + 3] == 'l';
            proof {
                let rest = js@.skip(r as int);
                if null_here {
                    assert(rest[0] == js@[r as int]);
                    assert(rest[1] == js@[r + 1]);
                    assert(rest[2] == js@[r + 2]);
                    assert(rest[3] == js@[r + 3]);
                    assert(rest.take(4) =~= seq!['n', 'u', 'l', 'l']);
                } else if starts_with_seq(rest, seq!['n', 'u', 'l', 'l']) {
                    assert(rest.take(4)[0] == js@[r as int]);
                    assert(rest.take(4)[1] == js@[r + 1]);
                    assert(rest.take(4)[2] == js@[r + 2]);
                    assert(rest.take(4)[3] == js@[r + 3]);
                }
            }
            if null_here {
                let mut s = String::new();
                push_char(&mut s, 'n');
                push_char(&mut s, 'u');
                push_char(&mut s, 'l');
                push_char(&mut s, 'l');
                assert(s@ =~= seq!['n', 'u', 'l', 'l']);
                return Some(s);
            }
            let e = numeric_end_exec(js.as_slice(), r);
            if e > r {
                let mut s = String::new();
                append_chars(&mut s, js.as_slice(), r, e);
                Some(s)
            } else {
                None
            }
        },
        None => None,
    }
}

/// The value if present, else the empty text (`unwrap_or_default`).
pub open spec fn or_empty(o: Option<Seq<char>>) -> Seq<char> {
    match o {
        Some(s) => s,
        None => Seq::empty(),
    }
}

/// The first value if present, else the second (`or_else`).
pub open spec fn either(a: Option<Seq<char>>, b: Option<Seq<char>>) -> Option<Seq<char>> {
    match a {
        Some(x) => Some(x),
        None => b,
    }
}

/// Shell output preview: text longer than 200 bytes is cut to its first
/// 200 characters and marked with `...`.
pub open spec fn preview(s: Seq<char>) -> Seq<char> {
    if byte_len(s) > 200 {
        (if s.len() > 200 {
            s.take(200)
        } else {
            s
        }) + "..."@
    } else {
        s
    }
}

/// The summary that replaces the output of a tool, keeping paths, counts,
/// exit codes, URLs and queries.
pub open spec fn summary_of(tool: Seq<char>, out: Seq<char>) -> Seq<char> {
    if tool == "read_file"@ {
        let path = or_empty(json_str(out, "filePath"@));
        let lines = or_empty(either(json_num(out, "numLines"@), json_num(out, "lineCount"@)));
        let bytes = or_empty(json_num(out, "bytesRead"@));
        "[read_file: "@ + path + ", "@ + lines + " lines, "@ + bytes
            + " bytes \u{2014} content processed]"@
    } else if tool == "new_file"@ {
        let path = or_empty(either(json_str(out, "filePath"@), json_str(out, "path"@)));
        let bytes = or_empty(either(json_num(out, "bytesWritten"@), json_num(out, "bytes"@)));
        "[new_file: "@ + path + ", "@ + bytes + " bytes written \u{2014} content processed]"@
    } else if tool == "edit_file"@ {
        let path = or_empty(either(json_str(out, "filePath"@), json_str(out, "path"@)));
        let changed = or_empty(json_num(out, "linesChanged"@));
        let diff = or_empty(json_str(out, "diffPath"@));
        "[edit_file: "@ + path + ", "@ + changed + " lines changed, diff="@ + diff
            + " \u{2014} content processed]"@
    } else if tool == "bash"@ {
        let exit = or_empty(either(json_num(out, "exitCode"@), json_num(out, "code"@)));
        let shown = match either(json_str(out, "stdout"@), json_str(out, "output"@)) {
            Some(s) => preview(s),
            None => Seq::empty(),
        };
        "[bash: exit="@ + exit + ", output: "@ + shown + "]"@
    } else if tool == "WebFetch"@ {
        let url = or_empty(json_str(out, "url"@));
        "[WebFetch: "@ + url + " \u{2014} content processed]"@
    } else if tool == "WebSearch"@ {
        let query = or_empty(json_str(out, "query"@));
        let provider = or_empty(json_str(out, "provider"@));
        let returned = or_empty(json_num(out, "resultsReturned"@));
        "[WebSearch: \""@ + query + "\" via "@ + provider + ", "@ + returned
            + " results \u{2014} results reviewed]"@
    } else if tool == "grep_search"@ {
        let files = or_empty(json_num(out, "num_files"@));
        let lines = or_empty(json_num(out, "num_lines"@));
        "[grep_search: "@ + files + " files, "@ + lines + " matches \u{2014} content processed]"@
    } else {
        "["@ + tool + ": "@ + decimal(out.len()) + " chars \u{2014} content processed]"@
    }
}

fn or_empty_exec(o: Option<String>) -> (s: String)
    ensures
        s@ == or_empty(opt_view(o)),
{
    match o {
        Some(s) => s,
        None => String::new(),
    }
}

fn either_exec(a: Option<String>, b: Option<String>) -> (r: Option<String>)
    ensures
        opt_view(r) == either(opt_view(a), opt_view(b)),
{
    match a {
        Some(x) => Some(x),
        None => b,
    }
}

fn preview_exec(s: String) -> (r: String)
    ensures
        r@ == preview(s@),
{
    let cs = chars_of(s.as_str());
    if byte_len_exceeds(cs.as_slice(), 200) {
        let end = if cs.len() > 200 {
            200
        } else {
            cs.len()
        };
        let mut r = String::new();
        append_chars(&mut r, cs.as_slice(), 0, end);
        append_str(&mut r, "...");
        assert(cs@.subrange(0, 200) == cs@.take(200));
        assert(cs@.subrange(0, cs@.len() as int) == cs@);
        r
    } else {
        s
    }
}

/// Structured summary of a tool result: the metadata that matters (file
/// paths, exit codes, URLs) without the bulk content.
pub fn summarize_tool_result(tool_name: &str, output: &str) -> (r: String)
    ensures
        r@ == summary_of(tool_name@, output@),
{
    let mut s = String::new();
    if str_eq(tool_name, "read_file") {
        let path = or_empty_exec(extract_json_str(output, "filePath"));
        let lines = or_empty_exec(
            either_exec(extract_json_num(output, "numLines"), extract_json_num(output, "lineCount")),
        );
        let bytes = or_empty_exec(extract_json_num(output, "bytesRead"));
        append_str(&mut s, "[read_file: ");
        append_str(&mut s, path.as_str());
        append_str(&mut s, ", ");
        append_str(&mut s, lines.as_str());
        append_str(&mut s, " lines, ");
        append_str(&mut s, bytes.as_str());
        append_str(&mut s, " bytes \u{2014} content processed]");
    } else if str_eq(tool_name, "new_file") {
        let path = or_empty_exec(
            either_exec(extract_json_str(output, "filePath"), extract_json_str(output, "path")),
        );
        let bytes = or_empty_exec(
            either_exec(extract_json_num(output, "bytesWritten"), extract_json_num(output, "bytes")),
        );
        append_str(&mut s, "[new_file: ");
        append_str(&mut s, path.as_str());
        append_str(&mut s, ", ");
        append_str(&mut s, bytes.as_str());
        append_str(&mut s, " bytes written \u{2014} content processed]");
    } else if str_eq(tool_name, "edit_file") {
        let path = or_empty_exec(
            either_exec(extract_json_str(output, "filePath"), extract_json_str(output, "path")),
        );
        let changed = or_empty_exec(extract_json_num(output, "linesChanged"));
        let diff = or_empty_exec(extract_json_str(output, "diffPath"));
        append_str(&mut s, "[edit_file: ");
        append_str(&mut s, path.as_str());
        append_str(&mut s, ", ");
        append_str(&mut s, changed.as_str());
        append_str(&mut s, " lines changed, diff=");
        append_str(&mut s, diff.as_str());
        append_str(&mut s, " \u{2014} content processed]");
    } else if str_eq(tool_name, "bash") {
        let exit = or_empty_exec(
            either_exec(extract_json_num(output, "exitCode"), extract_json_num(output, "code")),
        );
        let shown = match either_exec(
            extract_json_str(output, "stdout"),
            extract_json_str(output, "output"),
        ) {
            Some(t) => preview_exec(t),
            None => String::new(),
        };
        append_str(&mut s, "[bash: exit=");
        append_str(&mut s, exit.as_str());
        append_str(&mut s, ", output: ");
        append_str(&mut s, shown.as_str());
        append_str(&mut s, "]");
    } else if str_eq(tool_name, "WebFetch") {
        let url = or_empty_exec(extract_json_str(output, "url"));
        append_str(&mut s, "[WebFetch: ");
        append_str(&mut s, url.as_str());
        append_str(&mut s, " \u{2014} content processed]");
    } else if str_eq(tool_name, "WebSearch") {
        let query = or_empty_exec(extract_json_str(output, "query"));
        let provider = or_empty_exec(extract_json_str(output, "provider"));
        let returned = or_empty_exec(extract_json_num(output, "resultsReturned"));
        append_str(&mut s, "[WebSearch: \"");
        append_str(&mut s, query.as_str());
        append_str(&mut s, "\" via ");
        append_str(&mut s, provider.as_str());
        append_str(&mut s, ", ");
        append_str(&mut s, returned.as_str());
        append_str(&mut s, " results \u{2014} results reviewed]");
    } else if str_eq(tool_name, "grep_search") {
        let files = or_empty_exec(extract_json_num(output, "num_files"));
        let lines = or_empty_exec(extract_json_num(output, "num_lines"));
        append_str(&mut s, "[grep_search: ");
        append_str(&mut s, files.as_str());
        append_str(&mut s, " files, ");
        append_str(&mut s, lines.as_str());
        append_str(&mut s, " matches \u{2014} content processed]");
    } else {
        let count = chars_of(output).len();
        append_str(&mut s, "[");
        append_str(&mut s, tool_name);
        append_str(&mut s, ": ");
        append_decimal(&mut s, count);
        append_str(&mut s, " chars \u{2014} content processed]");
    }
    s
}

/// Minimum output size in bytes for a tool result to be summarized.
pub const TOOLRESULT_MIN_BYTES: usize = 500;

/// Number of most recent messages whose tool results are kept verbatim.
pub const PRESERVE_RECENT_MESSAGES: usize = 6;

/// WebSearch results expire after 30 seconds.
pub const WEBSEARCH_TTL_SECS: u64 = 30;

/// WebFetch results expire after 60 seconds.
pub const WEBFETCH_TTL_SECS: u64 = 60;

/// Tools whose output is summarized in later requests.
pub open spec fn is_filter_tool(t: Seq<char>) -> bool {
    t == "WebFetch"@ || t == "WebSearch"@ || t == "read_file"@ || t == "new_file"@ || t
        == "edit_file"@ || t == "bash"@ || t == "grep_search"@
}

/// How long the results of a time-sensitive tool stay fresh.
pub open spec fn ttl_of(t: Seq<char>) -> Option<u64> {
    if t == "WebSearch"@ {
        Some(WEBSEARCH_TTL_SECS)
    } else if t == "WebFetch"@ {
        Some(WEBFETCH_TTL_SECS)
    } else {
        None
    }
}

/// Whether a result of tool `t` that is `age` seconds old has expired.
pub open spec fn expired(t: Seq<char>, age: u64) -> bool {
    match ttl_of(t) {
        Some(ttl) => age >= ttl,
        None => false,
    }
}

fn is_filter_tool_exec(t: &str) -> (r: bool)
    ensures
        r == is_filter_tool(t@),
{
    str_eq(t, "WebFetch") || str_eq(t, "WebSearch") || str_eq(t, "read_file") || str_eq(
        t,
        "new_file",
    ) || str_eq(t, "edit_file") || str_eq(t, "bash") || str_eq(t, "grep_search")
}

/// Whether a result of `tool_name` that is `age` seconds old has expired.
pub fn expired_after(tool_name: &str, age: u64) -> (r: bool)
    ensures
        r == expired(tool_name@, age),
{
    if str_eq(tool_name, "WebSearch") {
        age >= WEBSEARCH_TTL_SECS
    } else if str_eq(tool_name, "WebFetch") {
        age >= WEBFETCH_TTL_SECS
    } else {
        false
    }
}

/// Whether a time-sensitive tool result created at `created_at` has
/// outlived its time to live. Tools without one never expire; for the
/// others the answer depends on the clock.
pub fn tool_result_expired(tool_name: &str, created_at: Instant) -> (r: bool)
    ensures
        ttl_of(tool_name@) is None ==> !r,
        exists|age: u64| r == expired(tool_name@, age),
{
    let age = elapsed_secs(&created_at);
    expired_after(tool_name, age)
}

/// Whether a block is summarized: a successful, large result of a known
/// tool that is old or has expired.
pub open spec fn compresses(b: BlockView, recent: bool, age: u64) -> bool {
    match b {
        BlockView::ToolResult { tool_name, output, is_error, .. } => !is_error && byte_len(output)
            > TOOLRESULT_MIN_BYTES && is_filter_tool(tool_name) && (!recent || expired(
            tool_name,
            age,
        )),
        _ => false,
    }
}

/// A block as it is sent: thinking text emptied (signature kept), large old
/// tool results summarized, anything else unchanged.
pub open spec fn filter_block(b: BlockView, recent: bool, age: u64) -> BlockView {
    match b {
        BlockView::Thinking { signature, .. } => BlockView::Thinking {
            thinking: Seq::empty(),
            signature,
        },
        BlockView::ToolResult { tool_use_id, tool_name, output, is_error } => if compresses(
            b,
            recent,
            age,
        ) {
            BlockView::ToolResult {
                tool_use_id,
                tool_name,
                output: summary_of(tool_name, output),
                is_error,
            }
        } else {
            b
        },
        _ => b,
    }
}

pub open spec fn filter_blocks(bs: Seq<BlockView>, recent: bool, age: u64) -> Seq<BlockView> {
    bs.map_values(|b: BlockView| filter_block(b, recent, age))
}

/// Whether some block is not a thinking block.
pub open spec fn has_non_thinking(bs: Seq<BlockView>) -> bool {
    exists|i: int| 0 <= i < bs.len() && !(bs[i] is Thinking)
}

/// A message as it is sent, or `None` when nothing but thinking is left.
pub open spec fn filter_message(m: MessageView, recent: bool, age: u64) -> Option<MessageView> {
    let bs = filter_blocks(m.blocks, recent, age);
    if has_non_thinking(bs) {
        Some(
            MessageView {
                role: m.role,
                blocks: bs,
                usage: m.usage,
                created_at: m.created_at,
                cached_tokens: m.cached_tokens,
            },
        )
    } else {
        None
    }
}

/// The first `n` messages filtered; messages from index `from` on are recent.
pub open spec fn filter_prefix(ms: Seq<MessageView>, ages: Seq<u64>, from: int, n: int) -> Seq<
    MessageView,
>
    decreases n,
{
    if n <= 0 {
        Seq::empty()
    } else {
        let prev = filter_prefix(ms, ages, from, n - 1);
        match filter_message(ms[n - 1], n - 1 >= from, ages[n - 1]) {
            Some(m) => prev.push(m),
            None => prev,
        }
    }
}

/// Index of the first recent message.
pub open spec fn recent_from(len: nat, preserve_recent: nat) -> int {
    if len >= preserve_recent {
        len - preserve_recent
    } else {
        0
    }
}

/// The filtered conversation, given the age in seconds of each message.
pub open spec fn filtered(ms: Seq<MessageView>, ages: Seq<u64>, preserve_recent: nat) -> Seq<
    MessageView,
> {
    filter_prefix(ms, ages, recent_from(ms.len(), preserve_recent), ms.len() as int)
}

fn filter_block_exec(b: &ContentBlock, recent: bool, age: u64) -> (r: ContentBlock)
    ensures
        r@ == filter_block(b@, recent, age),
{
    match b {
        ContentBlock::Thinking { signature, .. } => ContentBlock::Thinking {
            thinking: String::new(),
            signature: clone_opt_string(signature),
        },
        ContentBlock::ToolResult { tool_use_id, tool_name, output, is_error } => {
            let large = byte_len_exceeds(chars_of(output.as_str()).as_slice(), TOOLRESULT_MIN_BYTES);
            if !*is_error && large && is_filter_tool_exec(tool_name.as_str()) && (!recent
                || expired_after(tool_name.as_str(), age)) {
                ContentBlock::ToolResult {
                    tool_use_id: tool_use_id.clone(),
                    tool_name: tool_name.clone(),
                    output: summarize_tool_result(tool_name.as_str(), output.as_str()),
                    is_error: *is_error,
                }
            } else {
                clone_block(b)
            }
        },
        _ => clone_block(b),
    }
}

/// Filters conversation messages for a model request, given the age in
/// seconds of each message: thinking text is removed (signatures kept),
/// large successful results of the known tools are replaced by summaries
/// unless they are among the last `preserve_recent` messages and have not
/// expired, and messages left with thinking blocks only are dropped.
pub fn filter_for_api_at(
    messages: &[ConversationMessage],
    preserve_recent: usize,
    ages: &[u64],
) -> (out: Vec<ConversationMessage>)
    requires
        ages@.len() == messages@.len(),
    ensures
        messages_view(out@) == filtered(messages_view(messages@), ages@, preserve_recent as nat),
{
    let n = messages.len();
    let preserve_from = n.saturating_sub(preserve_recent);
    let ghost ms = messages_view(messages@);
    let mut out: Vec<ConversationMessage> = Vec::new();
    let mut i: usize = 0;
    while i < n
        invariant
            n == messages@.len(),
            ages@.len() == n,
            ms == messages_view(messages@),
            preserve_from == recent_from(n as nat, preserve_recent as nat),
            i <= n,
            messages_view(out@) == filter_prefix(ms, ages@, preserve_from as int, i as int),
        decreases n - i,
    {
        let msg = &messages[i];
        let recent = i >= preserve_from;
        let age = ages[i];
        let mut blocks: Vec<ContentBlock> = Vec::new();
        let mut keep = false;
        let mut j: usize = 0;
        while j < msg.blocks.len()
            invariant
                j <= msg.blocks@.len(),
                blocks_view(blocks@) == filter_blocks(blocks_view(msg.blocks@), recent, age).take(
                    j as int,
                ),
                keep == has_non_thinking(blocks_view(blocks@)),
            decreases msg.blocks@.len() - j,
        {
            let fb = filter_block_exec(&msg.blocks[j], recent, age);
            let is_thinking = match &fb {
                ContentBlock::Thinking { .. } => true,
                _ => false,
            };
            let ghost before = blocks_view(blocks@);
            blocks.push(fb);
            proof {
                assert(blocks_view(blocks@) =~= before.push(fb@));
                assert(filter_blocks(blocks_view(msg.blocks@), recent, age).take(j + 1) =~= before.push(
                    fb@,
                ));
                let bv = blocks_view(blocks@);
                if keep {
                    let w = choose|k: int| 0 <= k < before.len() && !(before[k] is Thinking);
                    assert(bv[w] == before[w]);
                }
                if !is_thinking {
                    assert(bv[j as int] == fb@);
                }
                if has_non_thinking(bv) {
                    let w = choose|k: int| 0 <= k < bv.len() && !(bv[k] is Thinking);
                    if w < j {
                        assert(bv[w] == before[w]);
                    }
                }
            }
            keep = keep || !is_thinking;
            j = j + 1;
        }
        proof {
            assert(filter_blocks(blocks_view(msg.blocks@), recent, age).take(msg.blocks@.len() as int)
                =~= filter_blocks(blocks_view(msg.blocks@), recent, age));
            assert(ms[i as int] == msg@);
        }
        let ghost prev = messages_view(out@);
        if keep {
            let m = ConversationMessage {
                role: msg.role,
                blocks,
                usage: msg.usage,
                created_at: msg.created_at,
                cached_tokens: msg.cached_tokens,
            };
            out.push(m);
            proof {
                assert(messages_view(out@) =~= prev.push(m@));
            }
        }
        i = i + 1;
    }
    out
}

/// Filters conversation messages for a model request, with the last
/// `preserve_recent` messages counted as recent. Whether a recent WebSearch
/// or WebFetch result has expired depends on the clock; every other
/// decision is fixed by the messages.
pub fn filter_for_api_inner(messages: &[ConversationMessage], preserve_recent: usize) -> (out: Vec<
    ConversationMessage,
>)
    ensures
        exists|ages: Seq<u64>|
            ages.len() == messages@.len() && messages_view(out@) == filtered(
                messages_view(messages@),
                ages,
                preserve_recent as nat,
            ),
{
    let mut ages: Vec<u64> = Vec::new();
    let mut i: usize = 0;
    while i < messages.len()
        invariant
            i <= messages@.len(),
            ages@.len() == i,
        decreases messages@.len() - i,
    {
        ages.push(elapsed_secs(&messages[i].created_at));
        i = i + 1;
    }
    let out = filter_for_api_at(messages, preserve_recent, ages.as_slice());
    assert(messages_view(out@) == filtered(messages_view(messages@), ages@, preserve_recent as nat));
    out
}

/// Filters conversation messages for a model request, keeping the last
/// [`PRESERVE_RECENT_MESSAGES`] messages' tool results verbatim.
pub fn filter_for_api(messages: &[ConversationMessage]) -> (out: Vec<ConversationMessage>)
    ensures
        exists|ages: Seq<u64>|
            ages.len() == messages@.len() && messages_view(out@) == filtered(
                messages_view(messages@),
                ages,
                PRESERVE_RECENT_MESSAGES as nat,
            ),
{
    filter_for_api_inner(messages, PRESERVE_RECENT_MESSAGES)
}

/// Token estimate for a piece of text: a quarter of its characters.
pub open spec fn text_tokens(s: Seq<char>) -> nat {
    s.len() / 4
}

/// Estimates the tokens of a piece of text as a quarter of its characters.
/// No tokenizer is used: this is the characters / 4 estimate that a
/// tiktoken `cl100k_base` count falls back to, and it is what every token
/// estimate of this library rests on.
pub fn estimate_text_tokens(text: &str) -> (r: usize)
    ensures
        r == text_tokens(text@),
{
    chars_of(text).len() / 4
}

/// Per-message overhead of each role.
pub open spec fn role_overhead(r: MessageRole) -> nat {
    match r {
        MessageRole::System => 4,
        MessageRole::User => 4,
        MessageRole::Assistant => 3,
        MessageRole::Tool => 5,
    }
}

/// Tokens of one block. An image counts the decoded size of its base64
/// data (three quarters of it) per 750 bytes, plus 20.
pub open spec fn block_tokens(b: BlockView) -> nat {
    match b {
        BlockView::Text { text } => text_tokens(text),
        BlockView::ToolUse { name, input, .. } => 3 + text_tokens(name) + text_tokens(input),
        BlockView::ToolResult { tool_name, output, .. } => 3 + text_tokens(tool_name)
            + text_tokens(output),
        BlockView::Image { data, .. } => (byte_len(data) * 3 / 4) / 750 + 20,
        BlockView::ImageRef { .. } => 100,
        BlockView::Thinking { thinking, .. } => text_tokens(thinking),
    }
}

/// Sum of the tokens of the blocks.
pub open spec fn blocks_tokens(bs: Seq<BlockView>) -> nat
    decreases bs.len(),
{
    if bs.len() == 0 {
        0
    } else {
        blocks_tokens(bs.drop_last()) + block_tokens(bs.last())
    }
}

/// Estimated tokens of a message: the cached value if there is one, else
/// the role overhead plus the tokens of every block.
pub open spec fn message_tokens(m: MessageView) -> nat {
    match m.cached_tokens {
        Some(c) => c as nat,
        None => role_overhead(m.role) + blocks_tokens(m.blocks),
    }
}

/// The estimate and its intermediate values fit in a `usize`.
pub open spec fn tokens_fit(m: MessageView) -> bool {
    m.cached_tokens is None ==> {
        &&& role_overhead(m.role) + blocks_tokens(m.blocks) <= usize::MAX
        &&& forall|i: int|
            0 <= i < m.blocks.len() ==> (#[trigger] m.blocks[i] matches BlockView::Image {
                data,
                ..
            } ==> byte_len(data) * 3 <= usize::MAX)
    }
}

/// A prefix of the blocks never counts more than all of them.
pub proof fn lemma_blocks_tokens_prefix(bs: Seq<BlockView>, n: int)
    requires
        0 <= n <= bs.len(),
    ensures
        blocks_tokens(bs.take(n)) <= blocks_tokens(bs),
    decreases bs.len() - n,
{
    if n < bs.len() {
        lemma_blocks_tokens_prefix(bs, n + 1);
        assert(bs.take(n + 1).drop_last() =~= bs.take(n));
    } else {
        assert(bs.take(n) =~= bs);
    }
}

fn block_tokens_exec(b: &ContentBlock) -> (r: usize)
    requires
        block_tokens(b@) <= usize::MAX,
        b@ matches BlockView::Image { data, .. } ==> byte_len(data) * 3 <= usize::MAX,
    ensures
        r == block_tokens(b@),
{
    match b {
        ContentBlock::Text { text } => estimate_text_tokens(text.as_str()),
        ContentBlock::ToolUse { name, input, .. } => 3 + estimate_text_tokens(name.as_str())
            + estimate_text_tokens(input.as_str()),
        ContentBlock::ToolResult { tool_name, output, .. } => 3 + estimate_text_tokens(
            tool_name.as_str(),
        ) + estimate_text_tokens(output.as_str()),
        ContentBlock::Image { data, .. } => {
            let bytes = data.as_str().len() * 3 / 4;
            bytes / 750 + 20
        },
        ContentBlock::ImageRef { .. } => 100,
        ContentBlock::Thinking { thinking, .. } => estimate_text_tokens(thinking.as_str()),
    }
}

/// Estimates the token count of a message: the cached estimate when one is
/// present, otherwise role overhead plus per-block estimates.
pub fn estimate_message_tokens(message: &ConversationMessage) -> (r: usize)
    requires
        tokens_fit(message@),
    ensures
        r == message_tokens(message@),
{
    if let Some(cached) = message.cached_tokens {
        return cached;
    }
    let mut tokens: usize = match message.role {
        MessageRole::System => 4,
        MessageRole::User => 4,
        MessageRole::Assistant => 3,
        MessageRole::Tool => 5,
    };
    let ghost bs = message@.blocks;
    let mut j: usize = 0;
    while j < message.blocks.len()
        invariant
            message.cached_tokens is None,
            tokens_fit(message@),
            bs == message@.blocks,
            bs.len() == message.blocks@.len(),
            j <= bs.len(),
            tokens == role_overhead(message.role) + blocks_tokens(bs.take(j as int)),
        decreases bs.len() - j,
    {
        proof {
            lemma_blocks_tokens_prefix(bs, j + 1);
            assert(bs.take(j + 1).drop_last() =~= bs.take(j as int));
            assert(bs[j as int] == message.blocks@[j as int]@);
        }
        let t = block_tokens_exec(&message.blocks[j]);
        tokens = tokens + t;
        j = j + 1;
    }
    assert(bs.take(bs.len() as int) =~= bs);
    tokens
}

} // verus!
