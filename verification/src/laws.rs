//! Properties of the library as a whole, proved over the specifications of
//! its functions.

use vstd::prelude::*;

use crate::context::{
    either, is_numeric_char, or_empty, json_num, json_str, json_value_start, key_pattern, numeric_end,
    compresses, expired, filter_block, filter_blocks, filter_message, filter_prefix, filtered,
    has_non_thinking, message_tokens, recent_from, summary_of, PRESERVE_RECENT_MESSAGES,
    TOOLRESULT_MIN_BYTES,
};
use crate::matching::{
    keeps, law_matches_listed_once_in_order, lowercase, matches_of, text_less, MatchHow,
};
use crate::convert::{convert_block, convert_blocks, convert_message, InputBlockView};
use crate::session::{blocks_view, BlockView, ConversationMessage, MessageRole, MessageView};
use crate::text::{
    byte_len, decimal, find_from, first_index_of, has_ws, is_ws, last_index_of, leading_ws, lemma_last_index_of,
    contains_seq, lemma_trim_start, occurs_at, starts_with_seq, trim, trim_end, trim_start,
};
use crate::picker::{
    backspace_filter_op, filter_is_empty, refilter, remove_trigger_op, trigger_of, update_filter_op,
    apply_selection_op, cursor_left_op, cursor_right_op, delete_before_op, display_of,
    history_newer_op, history_older_op, insert_char_op, show_history, picker_down_op, picker_up_op, picker_wf,
    push_history_op, selected_item, step, trigger_word, Key, KeyModifiers, ModeView, PickerEvent,
    PickerKind, PickerView, open_picker, prefix_how, slash_how, slash_query,
    ResultView,
};
use crate::agents::{
    block_texts, final_text, job_outcome, join_answer, outcome_view, returned_events, without_agent,
    AgentStatus, JobEnd, PanicPayload, Received, SubagentProgressEvent,
};
use crate::display::{
    fit_start, highlight_of, input_line_layout, max_visible, overlay, text_room, widths,
    OverlayLine, lemma_widths_concat,
};

verus! {

/// Filtering keeps a block a thinking block exactly when it was one.
pub proof fn law_filter_keeps_block_kinds(b: BlockView, recent: bool, age: u64)
    ensures
        (filter_block(b, recent, age) is Thinking) == (b is Thinking),
        (filter_block(b, recent, age) is ToolResult) == (b is ToolResult),
{
}

/// Some block of the filtered blocks is not thinking exactly when some
/// block of the unfiltered blocks is not.
pub proof fn lemma_has_non_thinking_filtered(bs: Seq<BlockView>, recent: bool, age: u64)
    ensures
        has_non_thinking(filter_blocks(bs, recent, age)) == has_non_thinking(bs),
{
    let fb = filter_blocks(bs, recent, age);
    if has_non_thinking(bs) {
        let i = choose|i: int| 0 <= i < bs.len() && !(bs[i] is Thinking);
        assert(!(fb[i] is Thinking));
    }
    if has_non_thinking(fb) {
        let i = choose|i: int| 0 <= i < fb.len() && !(fb[i] is Thinking);
        assert(!(bs[i] is Thinking));
    }
}

/// A message is dropped exactly when it holds nothing but thinking blocks
/// (or no blocks at all).
pub proof fn law_filter_drops_only_thinking(m: MessageView, recent: bool, age: u64)
    ensures
        (filter_message(m, recent, age) is None) == !has_non_thinking(m.blocks),
{
    lemma_has_non_thinking_filtered(m.blocks, recent, age);
}

/// Every thinking block that is sent has its text removed and keeps its
/// signature; every other block that is not a tool result is sent as it is.
pub proof fn law_thinking_stripped(m: MessageView, recent: bool, age: u64, j: int)
    requires
        filter_message(m, recent, age) is Some,
        0 <= j < m.blocks.len(),
    ensures
        ({
            let out = filter_message(m, recent, age)->Some_0;
            &&& out.blocks.len() == m.blocks.len()
            &&& out.role == m.role
            &&& m.blocks[j] matches BlockView::Thinking { signature, .. } ==> out.blocks[j]
                == (BlockView::Thinking { thinking: Seq::empty(), signature })
            &&& !(m.blocks[j] is Thinking) && !(m.blocks[j] is ToolResult) ==> out.blocks[j]
                == m.blocks[j]
        }),
{
}

/// A tool result is sent verbatim when it is an error, when it is not
/// larger than the threshold, when its tool is not one of the summarized
/// ones, or when its message is recent and the result has not expired.
/// Otherwise its output is replaced by the summary.
pub proof fn law_tool_results(b: BlockView, recent: bool, age: u64)
    requires
        b is ToolResult,
    ensures
        (b->is_error || byte_len(b->output) <= TOOLRESULT_MIN_BYTES || (recent && !expired(
            b->tool_name,
            age,
        ))) ==> filter_block(b, recent, age) == b,
        compresses(b, recent, age) ==> filter_block(b, recent, age) == (BlockView::ToolResult {
            tool_use_id: b->tool_use_id,
            tool_name: b->tool_name,
            output: summary_of(b->tool_name, b->output),
            is_error: b->is_error,
        }),
{
}

/// The filtered conversation is never longer than the input, and every
/// message in it holds a block that is not thinking.
pub proof fn law_filtered_messages_have_content(
    ms: Seq<MessageView>,
    ages: Seq<u64>,
    preserve_recent: nat,
)
    requires
        ages.len() == ms.len(),
    ensures
        filtered(ms, ages, preserve_recent).len() <= ms.len(),
        forall|k: int|
            0 <= k < filtered(ms, ages, preserve_recent).len() ==> has_non_thinking(
                #[trigger] filtered(ms, ages, preserve_recent)[k].blocks,
            ),
{
    lemma_prefix_content(ms, ages, recent_from(ms.len(), preserve_recent), ms.len() as int);
}

/// `a` and `b` are `src` as sent with a narrower and a wider window: the
/// same role and blocks, and every tool result that `a` sends verbatim `b`
/// sends verbatim too.
pub open spec fn results_kept_verbatim(src: MessageView, a: MessageView, b: MessageView) -> bool {
    &&& a.role == src.role && b.role == src.role
    &&& a.blocks.len() == src.blocks.len() && b.blocks.len() == src.blocks.len()
    &&& forall|t: int|
        0 <= t < src.blocks.len() && (#[trigger] src.blocks[t]) is ToolResult && a.blocks[t]
            == src.blocks[t] ==> b.blocks[t] == src.blocks[t]
}

/// Every tool result of `src` that `b` does not send verbatim is one of a
/// time-sensitive tool that has expired at `age`.
pub open spec fn summarized_only_if_expired(src: MessageView, age: u64, b: MessageView) -> bool {
    &&& b.blocks.len() == src.blocks.len()
    &&& forall|t: int|
        0 <= t < src.blocks.len() && (#[trigger] src.blocks[t]) is ToolResult && b.blocks[t]
            != src.blocks[t] ==> expired(src.blocks[t]->tool_name, age)
}

/// A wider window of recent messages never summarizes more. At the same
/// ages the same messages are sent, in the same order; every tool result
/// sent verbatim with the narrower window is sent verbatim with the wider
/// one; and with a window that covers every message, only results of
/// expired WebSearch or WebFetch calls are summarized.
pub proof fn law_wider_window_summarizes_less(
    ms: Seq<MessageView>,
    ages: Seq<u64>,
    narrow: nat,
    wide: nat,
)
    requires
        ages.len() == ms.len(),
        narrow <= wide,
    ensures
        filtered(ms, ages, narrow).len() == filtered(ms, ages, wide).len(),
        forall|j: int|
            0 <= j < filtered(ms, ages, narrow).len() ==> exists|i: int|
                0 <= i < ms.len() && results_kept_verbatim(
                    ms[i],
                    #[trigger] filtered(ms, ages, narrow)[j],
                    filtered(ms, ages, wide)[j],
                ) && (wide >= ms.len() ==> summarized_only_if_expired(
                    ms[i],
                    ages[i],
                    filtered(ms, ages, wide)[j],
                )),
{
    let f1 = recent_from(ms.len(), narrow);
    let f2 = recent_from(ms.len(), wide);
    let n = ms.len() as int;
    lemma_prefix_indices(ms, ages, f1, n);
    lemma_prefix_indices(ms, ages, f2, n);
    let r1 = filtered(ms, ages, narrow);
    let r2 = filtered(ms, ages, wide);
    let ks = kept_indices(ms, n);
    assert forall|j: int| 0 <= j < r1.len() implies exists|i: int|
        0 <= i < ms.len() && results_kept_verbatim(ms[i], #[trigger] r1[j], r2[j]) && (wide
            >= ms.len() ==> summarized_only_if_expired(ms[i], ages[i], r2[j])) by {
        let i = ks[j];
        lemma_prefix_index(ms, ages, f1, n, j);
        lemma_prefix_index(ms, ages, f2, n, j);
        assert(r1[j] == filter_prefix(ms, ages, f1, n)[j]);
        assert(r2[j] == filter_prefix(ms, ages, f2, n)[j]);
        lemma_window_message(ms[i], ages[i], i >= f1, i >= f2, r1[j], r2[j]);
    }
}

proof fn lemma_window_message(
    src: MessageView,
    age: u64,
    rec1: bool,
    rec2: bool,
    a: MessageView,
    b: MessageView,
)
    requires
        filter_message(src, rec1, age) == Some(a),
        filter_message(src, rec2, age) == Some(b),
        rec1 ==> rec2,
    ensures
        results_kept_verbatim(src, a, b),
        rec2 ==> summarized_only_if_expired(src, age, b),
{
    assert forall|t: int|
        0 <= t < src.blocks.len() && (#[trigger] src.blocks[t]) is ToolResult && a.blocks[t]
            == src.blocks[t] implies b.blocks[t] == src.blocks[t] by {
        assert(a.blocks[t] == filter_block(src.blocks[t], rec1, age));
        assert(b.blocks[t] == filter_block(src.blocks[t], rec2, age));
    }
    if rec2 {
        assert forall|t: int|
            0 <= t < src.blocks.len() && (#[trigger] src.blocks[t]) is ToolResult && b.blocks[t]
                != src.blocks[t] implies expired(src.blocks[t]->tool_name, age) by {
            assert(b.blocks[t] == filter_block(src.blocks[t], rec2, age));
        }
    }
}

/// Indices, in order, of the first `n` messages that hold a block that is
/// not thinking: the messages that filtering keeps, whatever the window.
spec fn kept_indices(ms: Seq<MessageView>, n: int) -> Seq<int>
    decreases n,
{
    if n <= 0 {
        Seq::empty()
    } else if has_non_thinking(ms[n - 1].blocks) {
        kept_indices(ms, n - 1).push(n - 1)
    } else {
        kept_indices(ms, n - 1)
    }
}

proof fn lemma_prefix_indices(ms: Seq<MessageView>, ages: Seq<u64>, f: int, n: int)
    requires
        0 <= n <= ms.len(),
        ages.len() == ms.len(),
    ensures
        filter_prefix(ms, ages, f, n).len() == kept_indices(ms, n).len(),
    decreases n,
{
    if n > 0 {
        lemma_prefix_indices(ms, ages, f, n - 1);
        lemma_has_non_thinking_filtered(ms[n - 1].blocks, n - 1 >= f, ages[n - 1]);
    }
}

/// The `j`-th message sent is the filtered form of message
/// `kept_indices(ms, n)[j]`.
proof fn lemma_prefix_index(ms: Seq<MessageView>, ages: Seq<u64>, f: int, n: int, j: int)
    requires
        0 <= n <= ms.len(),
        ages.len() == ms.len(),
        0 <= j < kept_indices(ms, n).len(),
    ensures
        0 <= kept_indices(ms, n)[j] < n,
        filter_message(ms[kept_indices(ms, n)[j]], kept_indices(ms, n)[j] >= f, ages[kept_indices(ms, n)[j]])
            == Some(filter_prefix(ms, ages, f, n)[j]),
    decreases n,
{
    lemma_prefix_indices(ms, ages, f, n - 1);
    lemma_has_non_thinking_filtered(ms[n - 1].blocks, n - 1 >= f, ages[n - 1]);
    let pk = kept_indices(ms, n - 1);
    if j < pk.len() {
        lemma_prefix_index(ms, ages, f, n - 1, j);
        assert(kept_indices(ms, n)[j] == pk[j]);
        assert(filter_prefix(ms, ages, f, n)[j] == filter_prefix(ms, ages, f, n - 1)[j]);
    }
}

proof fn lemma_prefix_content(ms: Seq<MessageView>, ages: Seq<u64>, from: int, n: int)
    requires
        0 <= n <= ms.len(),
        ages.len() == ms.len(),
    ensures
        filter_prefix(ms, ages, from, n).len() <= n,
        forall|k: int|
            0 <= k < filter_prefix(ms, ages, from, n).len() ==> has_non_thinking(
                #[trigger] filter_prefix(ms, ages, from, n)[k].blocks,
            ),
    decreases n,
{
    if n > 0 {
        lemma_prefix_content(ms, ages, from, n - 1);
        let prev = filter_prefix(ms, ages, from, n - 1);
        let m = ms[n - 1];
        lemma_has_non_thinking_filtered(m.blocks, n - 1 >= from, ages[n - 1]);
        match filter_message(m, n - 1 >= from, ages[n - 1]) {
            Some(x) => {
                let cur = filter_prefix(ms, ages, from, n);
                assert(cur == prev.push(x));
                assert forall|k: int| 0 <= k < cur.len() implies has_non_thinking(
                    #[trigger] cur[k].blocks,
                ) by {
                    if k < prev.len() {
                        assert(cur[k] == prev[k]);
                    }
                }
            },
            None => {},
        }
    }
}

/// Blocks that include one that is not thinking convert to some content.
pub proof fn lemma_convert_nonempty(
    bs: Seq<BlockView>,
    cache: Option<Map<Seq<char>, Seq<char>>>,
    store: Option<Map<Seq<char>, Seq<char>>>,
    n: int,
)
    requires
        0 <= n <= bs.len(),
        exists|i: int| 0 <= i < n && !(bs[i] is Thinking),
    ensures
        convert_blocks(bs, cache, store, n).len() > 0,
    decreases n,
{
    if !(bs[n - 1] is Thinking) {
        assert(convert_block(bs[n - 1], cache, store) is Some);
    } else {
        let i = choose|i: int| 0 <= i < n && !(bs[i] is Thinking);
        assert(i < n - 1);
        lemma_convert_nonempty(bs, cache, store, n - 1);
    }
}

/// Every message that filtering keeps converts to request content of its
/// own, so a filtered conversation never needs the empty placeholder block
/// and stays aligned one to one with the request.
pub proof fn law_filtered_messages_convert_to_content(
    ms: Seq<MessageView>,
    ages: Seq<u64>,
    preserve_recent: nat,
    cache: Option<Map<Seq<char>, Seq<char>>>,
    store: Option<Map<Seq<char>, Seq<char>>>,
    k: int,
)
    requires
        ages.len() == ms.len(),
        0 <= k < filtered(ms, ages, preserve_recent).len(),
    ensures
        ({
            let m = filtered(ms, ages, preserve_recent)[k];
            convert_blocks(m.blocks, cache, store, m.blocks.len() as int).len() > 0
        }),
{
    law_filtered_messages_have_content(ms, ages, preserve_recent);
    let m = filtered(ms, ages, preserve_recent)[k];
    assert(has_non_thinking(m.blocks));
    lemma_convert_nonempty(m.blocks, cache, store, m.blocks.len() as int);
}

/// A converted message never carries thinking and always has content.
pub proof fn law_converted_message_shape(
    m: MessageView,
    cache: Option<Map<Seq<char>, Seq<char>>>,
    store: Option<Map<Seq<char>, Seq<char>>>,
)
    ensures
        convert_message(m, cache, store).content.len() > 0,
{
}

// ----- the line editor -----

/// Typing a character and deleting it again restores the buffer and the
/// cursor.
pub proof fn law_insert_then_backspace(v: PickerView, c: char)
    requires
        picker_wf(v),
        v.buffer.len() < usize::MAX,
    ensures
        delete_before_op(insert_char_op(v, c)).buffer == v.buffer,
        delete_before_op(insert_char_op(v, c)).cursor == v.cursor,
{
    assert(v.buffer.insert(v.cursor as int, c).remove(v.cursor as int) =~= v.buffer);
}

/// Moving right and then left returns to the same place, away from the end
/// of the buffer; moving left and then right does, away from its start.
pub proof fn law_cursor_moves_undo(v: PickerView)
    requires
        picker_wf(v),
    ensures
        v.cursor < v.buffer.len() ==> cursor_left_op(cursor_right_op(v)) == v,
        v.cursor > 0 ==> cursor_right_op(cursor_left_op(v)) == v,
{
}

/// Stepping back into the history from an empty line and forward again
/// gives the empty line back.
pub proof fn law_history_round_trip(v: PickerView)
    requires
        picker_wf(v),
        v.history_pos is None,
        v.buffer.len() == 0,
        v.history.len() > 0,
    ensures
        history_newer_op(history_older_op(v)) == v,
{
    assert(history_newer_op(history_older_op(v)).buffer =~= v.buffer);
}

/// Stepping one entry older and one newer within the history shows the
/// same entry again.
pub proof fn law_history_older_newer(v: PickerView)
    requires
        picker_wf(v),
        v.history_pos matches Some(p) && p + 1 < v.history.len(),
    ensures
        history_newer_op(history_older_op(v)).buffer == v.history[v.history.len() - 1
            - v.history_pos->0],
        history_newer_op(history_older_op(v)).history_pos == v.history_pos,
{
}

/// The state after `k` steps to older history entries.
pub open spec fn older_times(v: PickerView, k: nat) -> PickerView
    decreases k,
{
    if k == 0 {
        v
    } else {
        history_older_op(older_times(v, (k - 1) as nat))
    }
}

/// The state after `k` steps to newer history entries.
pub open spec fn newer_times(v: PickerView, k: nat) -> PickerView
    decreases k,
{
    if k == 0 {
        v
    } else {
        history_newer_op(newer_times(v, (k - 1) as nat))
    }
}

/// From an empty line outside the history, `k` steps back (for `k` up to
/// the number of entries) show the `k`-th newest entry with the cursor at
/// its end; `j < k` steps forward from there show the entry `j` places
/// newer, and `k` steps forward give the empty line back. The history and
/// everything else but the line, cursor and position stay as they were.
pub proof fn law_history_steps(v: PickerView, k: nat)
    requires
        picker_wf(v),
        v.history_pos is None,
        v.buffer.len() == 0,
        1 <= k <= v.history.len(),
    ensures
        older_times(v, k) == show_history(v, (k - 1) as usize),
        older_times(v, k).buffer == v.history[v.history.len() - k],
        forall|j: nat|
            j < k ==> #[trigger] newer_times(older_times(v, k), j) == show_history(
                v,
                (k - 1 - j) as usize,
            ),
        forall|j: nat|
            j < k ==> (#[trigger] newer_times(older_times(v, k), j)).buffer == v.history[v.history.len()
                - k + j],
        newer_times(older_times(v, k), k) == v,
{
    lemma_older_times(v, k);
    assert forall|j: nat| j < k implies #[trigger] newer_times(older_times(v, k), j) == show_history(
        v,
        (k - 1 - j) as usize,
    ) by {
        lemma_newer_times(v, k, j);
    }
    lemma_newer_times(v, k, k);
}

proof fn lemma_older_times(v: PickerView, k: nat)
    requires
        picker_wf(v),
        v.history_pos is None,
        v.buffer.len() == 0,
        1 <= k <= v.history.len(),
    ensures
        older_times(v, k) == show_history(v, (k - 1) as usize),
    decreases k,
{
    let prev = older_times(v, (k - 1) as nat);
    if k > 1 {
        lemma_older_times(v, (k - 1) as nat);
        assert(prev.history_pos == Some((k - 2) as usize));
        assert(history_older_op(prev) == show_history(v, (k - 1) as usize));
    } else {
        assert(prev == v);
        assert(history_older_op(v) == show_history(v, 0));
    }
}

proof fn lemma_newer_times(v: PickerView, k: nat, j: nat)
    requires
        picker_wf(v),
        v.history_pos is None,
        v.buffer.len() == 0,
        1 <= k <= v.history.len(),
        j <= k,
    ensures
        j < k ==> newer_times(older_times(v, k), j) == show_history(v, (k - 1 - j) as usize),
        j == k ==> newer_times(older_times(v, k), j) == v,
    decreases j,
{
    lemma_older_times(v, k);
    if j > 0 {
        lemma_newer_times(v, k, (j - 1) as nat);
        if j == k {
            assert(newer_times(older_times(v, k), j).buffer =~= v.buffer);
        }
    }
}

/// In an open picker with matches, moving the highlight up and then down
/// (or down and then up) returns to the same item.
pub proof fn law_picker_up_down_undo(v: PickerView)
    requires
        picker_wf(v),
        v.mode matches ModeView::Picker { matched, selected, .. } && selected < matched.len(),
    ensures
        picker_down_op(picker_up_op(v)) == v,
        picker_up_op(picker_down_op(v)) == v,
{
}

/// The highlighted item is always one of the picker's items, and it is one
/// that the filter kept.
pub proof fn law_selected_item_is_a_match(v: PickerView)
    requires
        picker_wf(v),
        selected_item(v) is Some,
    ensures
        v.mode matches ModeView::Picker { items, matched, .. } && exists|k: int|
            0 <= k < matched.len() && selected_item(v) == Some(items[matched[k] as int]),
{
    if let ModeView::Picker { items, matched, selected, .. } = v.mode {
        let k = if selected < matched.len() {
            selected as int
        } else {
            matched.len() - 1
        };
        assert(selected_item(v) == Some(items[matched[k] as int]));
    }
}

/// Applying a selection always leaves the picker.
pub proof fn law_apply_selection_closes_picker(v: PickerView)
    requires
        selected_item(v) is Some,
    ensures
        apply_selection_op(v).mode is Insert,
{
}

/// Released keys change nothing and end nothing.
pub proof fn law_key_release_ignored(v: PickerView, key: Key, m: KeyModifiers)
    ensures
        step(v, PickerEvent::Key { key, modifiers: m, release: true }) == (v, None::<ResultView>),
{
}

/// Control-C and Control-D end editing with `Exit` in any mode, and Escape
/// cancels it outside a picker; the state is left as it was.
pub proof fn law_exit_and_cancel(v: PickerView)
    ensures
        step(
            v,
            PickerEvent::Key { key: Key::Char('c'), modifiers: KeyModifiers::Control, release: false },
        ) == (v, Some(ResultView::Exit)),
        step(
            v,
            PickerEvent::Key { key: Key::Char('d'), modifiers: KeyModifiers::Control, release: false },
        ) == (v, Some(ResultView::Exit)),
        v.mode is Insert ==> step(
            v,
            PickerEvent::Key { key: Key::Esc, modifiers: KeyModifiers::Plain, release: false },
        ) == (v, Some(ResultView::Cancel)),
{
}

/// Enter with Control (or any modifier other than Shift) outside a picker
/// submits the buffer as it stands and records it in the history unless it
/// is blank.
pub proof fn law_enter_submits_buffer(v: PickerView)
    requires
        v.mode is Insert,
    ensures
        step(
            v,
            PickerEvent::Key { key: Key::Enter, modifiers: KeyModifiers::Control, release: false },
        ) == (push_history_op(v, v.buffer), Some(ResultView::Submit(v.buffer))),
{
}

/// Escape in a picker returns to insertion with the typed characters kept:
/// the buffer becomes what the picker displayed.
pub proof fn law_escape_keeps_typed_text(v: PickerView)
    requires
        v.mode is Picker,
    ensures
        ({
            let (w, r) = step(
                v,
                PickerEvent::Key { key: Key::Esc, modifiers: KeyModifiers::Plain, release: false },
            );
            &&& r is None
            &&& w.mode is Insert
            &&& (w.buffer, w.cursor) == display_of(v)
        }),
{
}

// ----- sub-agents -----

/// Removing an agent's progress leaves no entry of it and every other
/// entry in order.
pub proof fn law_remove_progress(ps: Seq<crate::agents::AgentProgress>, id: Seq<char>)
    ensures
        without_agent(ps, id).len() <= ps.len(),
        forall|k: int|
            0 <= k < without_agent(ps, id).len() ==> #[trigger] without_agent(ps, id)[k].agent_id@
                != id,
        (forall|k: int| 0 <= k < ps.len() ==> #[trigger] ps[k].agent_id@ != id) ==> without_agent(
            ps,
            id,
        ) == ps,
    decreases ps.len(),
{
    if ps.len() > 0 {
        law_remove_progress(ps.drop_last(), id);
        let rest = without_agent(ps.drop_last(), id);
        if ps.last().agent_id@ != id {
            assert forall|k: int| 0 <= k < without_agent(ps, id).len() implies #[trigger] without_agent(
                ps,
                id,
            )[k].agent_id@ != id by {
                if k < rest.len() {
                    assert(without_agent(ps, id)[k] == rest[k]);
                }
            }
        }
        if forall|k: int| 0 <= k < ps.len() ==> #[trigger] ps[k].agent_id@ != id {
            assert forall|k: int| 0 <= k < ps.drop_last().len() implies #[trigger] ps.drop_last()[k].agent_id@
                != id by {
                assert(ps.drop_last()[k] == ps[k]);
            }
            assert(ps.drop_last().push(ps.last()) =~= ps);
        }
    }
}

// ----- display -----

/// The walk from the right only takes characters that fit in the room.
proof fn lemma_fit_start(cs: Seq<char>, i: int, room: int)
    requires
        0 <= i <= cs.len(),
        room >= 0,
    ensures
        0 <= fit_start(cs, i, room) <= i,
        widths(cs.subrange(fit_start(cs, i, room), i)) <= room,
    decreases i,
{
    if i > 0 && crate::display::width0(cs[i - 1]) <= room {
        let w = crate::display::width0(cs[i - 1]);
        lemma_fit_start(cs, i - 1, room - w);
        let f = fit_start(cs, i, room);
        lemma_widths_concat(cs.subrange(f, i - 1), seq![cs[i - 1]]);
        assert(cs.subrange(f, i - 1) + seq![cs[i - 1]] =~= cs.subrange(f, i));
        assert(seq![cs[i - 1]].drop_first() =~= Seq::<char>::empty());
        assert(widths(seq![cs[i - 1]]) == w + widths(Seq::<char>::empty()));
    } else {
        assert(cs.subrange(fit_start(cs, i, room), i) =~= Seq::<char>::empty());
    }
}

/// A line too wide for the terminal is shown as a suffix that fits in the
/// room after the prompt, with the cursor within that room.
pub proof fn law_long_line_fits(prompt_width: usize, line: Seq<char>, cursor: usize, term_cols: usize)
    requires
        crate::display::str_width(line) > text_room(term_cols, prompt_width),
    ensures
        ({
            let (d, col) = input_line_layout(prompt_width, line, cursor, term_cols);
            &&& widths(d) <= text_room(term_cols, prompt_width)
            &&& col <= widths(d)
            &&& line.len() >= d.len()
            &&& d == line.skip(line.len() - d.len())
        }),
{
    let room = text_room(term_cols, prompt_width);
    lemma_fit_start(line, line.len() as int, room);
    let split = fit_start(line, line.len() as int, room);
    let d = line.skip(split);
    assert(line.subrange(split, line.len() as int) =~= d);
    let (d2, col) = input_line_layout(prompt_width, line, cursor, term_cols);
    let shifted0 = if cursor >= split {
        cursor - split
    } else {
        0
    };
    let shifted = if shifted0 <= d.len() {
        shifted0
    } else {
        d.len() as int
    };
    lemma_widths_concat(d.take(shifted), d.skip(shifted));
    assert(d.take(shifted) + d.skip(shifted) =~= d);
    assert(line.skip(line.len() - d.len()) =~= d);
}

/// The list of a picker never takes more than twelve lines, and with room
/// for at least one item the selected match is shown and marked.
pub proof fn law_overlay_shows_selection(count: usize, selected: usize, term_height: usize)
    requires
        count > 0 ==> selected < usize::MAX,
    ensures
        overlay(count, selected, term_height).len() <= 12,
        count > 0 && selected < count && max_visible(term_height) > 0 ==> overlay(
            count,
            selected,
            term_height,
        ).contains(OverlayLine::Item { index: selected, selected: true }),
{
    let o = overlay(count, selected, term_height);
    if count > 0 && selected < count && max_visible(term_height) > 0 {
        let visible = if max_visible(term_height) < count {
            max_visible(term_height)
        } else {
            count as int
        };
        let scroll = if selected >= visible {
            selected - visible + 1
        } else {
            0
        };
        let above_len: int = if scroll > 0 {
            1
        } else {
            0
        };
        let i = selected - scroll;
        assert(o[above_len + i] == (OverlayLine::Item { index: selected, selected: true }));
    }
}

/// The parts of a highlighted text put together give the text back.
pub proof fn law_highlight_parts(text: Seq<char>, query: Seq<char>)
    requires
        highlight_of(text, query) is Some,
    ensures
        ({
            let (a, b, c) = highlight_of(text, query)->0;
            a + b + c == text
        }),
{
    let q = crate::matching::lowercase(query);
    let i = crate::display::first_window(text, q, 0)->0;
    lemma_first_window(text, q, 0);
    let (a, b, c) = highlight_of(text, query)->0;
    assert(a + b + c =~= text);
}

proof fn lemma_first_window(text: Seq<char>, q: Seq<char>, from: int)
    ensures
        crate::display::first_window(text, q, from) matches Some(i) ==> from <= i && i + q.len()
            <= text.len() && 0 <= i,
    decreases text.len() + 1 - from,
{
    if !(from < 0 || from + q.len() > text.len()) && !crate::display::window_matches(text, q, from) {
        lemma_first_window(text, q, from + 1);
    }
}

// ----- what filtering, summaries, conversion and the editor do, by name -----

/// Which tool results filtering replaces by their summary. A result is
/// summarized exactly when it is successful, its output is larger than 500
/// bytes, its tool is one of WebFetch, WebSearch, read_file, new_file,
/// edit_file, bash and grep_search, and its message is not among the recent
/// ones, or the result is a WebSearch result at least 30 seconds old or a
/// WebFetch result at least 60 seconds old. Every other result is sent as
/// it is.
pub proof fn law_which_results_are_summarized(
    id: Seq<char>,
    t: Seq<char>,
    out: Seq<char>,
    is_error: bool,
    recent: bool,
    age: u64,
)
    ensures
        ({
            let b = BlockView::ToolResult { tool_use_id: id, tool_name: t, output: out, is_error };
            let listed = t == "WebFetch"@ || t == "WebSearch"@ || t == "read_file"@ || t
                == "new_file"@ || t == "edit_file"@ || t == "bash"@ || t == "grep_search"@;
            let stale = !recent || (t == "WebSearch"@ && age >= 30) || (t == "WebFetch"@ && age
                >= 60);
            filter_block(b, recent, age) == if !is_error && byte_len(out) > 500 && listed
                && stale {
                BlockView::ToolResult {
                    tool_use_id: id,
                    tool_name: t,
                    output: summary_of(t, out),
                    is_error,
                }
            } else {
                b
            }
        }),
{
}

/// The role a converted message is sent with: `"assistant"` for the
/// model's messages and `"user"` for system, user and tool messages, one
/// request message per session message.
pub proof fn law_converted_roles(
    ms: Seq<MessageView>,
    cache: Option<Map<Seq<char>, Seq<char>>>,
    store: Option<Map<Seq<char>, Seq<char>>>,
)
    ensures
        ({
            let r = ms.map_values(|m: MessageView| convert_message(m, cache, store));
            &&& r.len() == ms.len()
            &&& forall|i: int|
                0 <= i < ms.len() ==> {
                    &&& ms[i].role == MessageRole::Assistant ==> (#[trigger] r[i]).role
                        == "assistant"@
                    &&& ms[i].role == MessageRole::User ==> r[i].role == "user"@
                    &&& ms[i].role == MessageRole::System ==> r[i].role == "user"@
                    &&& ms[i].role == MessageRole::Tool ==> r[i].role == "user"@
                }
        }),
{
}

/// `p` is the last position before `cursor` where `buf` holds `c`.
pub open spec fn last_before(buf: Seq<char>, cursor: int, c: char, p: int) -> bool {
    &&& 0 <= p < cursor
    &&& buf[p] == c
    &&& forall|q: int| p < q < cursor ==> buf[q] != c
}

/// No position before `cursor` holds `c`.
pub open spec fn none_before(buf: Seq<char>, cursor: int, c: char) -> bool {
    forall|q: int| 0 <= q < cursor ==> buf[q] != c
}

/// The text between the last `c` before `cursor` and the cursor is a
/// non-empty word without white space.
pub open spec fn word_after(buf: Seq<char>, cursor: int, c: char) -> bool {
    exists|p: int|
        last_before(buf, cursor, c, p) && p + 1 < cursor && forall|i: int|
            p < i < cursor ==> !is_ws(#[trigger] buf[i])
}

proof fn lemma_last_before(buf: Seq<char>, cursor: int, c: char)
    requires
        0 <= cursor <= buf.len(),
    ensures
        match last_index_of(buf.take(cursor), c) {
            Some(p) => last_before(buf, cursor, c, p),
            None => none_before(buf, cursor, c),
        },
        forall|p: int| #[trigger]
            last_before(buf, cursor, c, p) ==> last_index_of(buf.take(cursor), c) == Some(p),
        none_before(buf, cursor, c) ==> last_index_of(buf.take(cursor), c) is None,
{
    let before = buf.take(cursor);
    lemma_last_index_of(before, c);
    assert forall|q: int| 0 <= q < cursor implies before[q] == buf[q] by {}
    assert forall|p: int| #[trigger]
        last_before(buf, cursor, c, p) implies last_index_of(before, c) == Some(p) by {
        assert(before[p] == c);
        match last_index_of(before, c) {
            Some(i) => {
                if i < p {
                    assert(before[p] == c);
                } else if i > p {
                    assert(buf[i] == c);
                }
            },
            None => {
                assert(before[p] == c);
            },
        }
    }
    if none_before(buf, cursor, c) {
        if let Some(i) = last_index_of(before, c) {
            assert(buf[i] == c);
        }
    }
}

proof fn lemma_word_after(v: PickerView, c: char)
    requires
        v.cursor <= v.buffer.len(),
    ensures
        trigger_word(v, c) == word_after(v.buffer, v.cursor as int, c),
{
    let buf = v.buffer;
    let cur = v.cursor as int;
    let before = buf.take(cur);
    lemma_last_before(buf, cur, c);
    match last_index_of(before, c) {
        Some(p) => {
            let after = before.skip(p + 1);
            assert forall|i: int| 0 <= i < after.len() implies after[i] == buf[p + 1 + i] by {}
            if trigger_word(v, c) {
                assert forall|i: int| p < i < cur implies !is_ws(#[trigger] buf[i]) by {
                    assert(after[i - p - 1] == buf[i]);
                }
            }
            if word_after(buf, cur, c) {
                let q = choose|q: int|
                    last_before(buf, cur, c, q) && q + 1 < cur && forall|i: int|
                        q < i < cur ==> !is_ws(#[trigger] buf[i]);
                assert(q == p);
                if has_ws(after) {
                    let i = choose|i: int| 0 <= i < after.len() && is_ws(#[trigger] after[i]);
                    assert(!is_ws(buf[p + 1 + i]));
                }
            }
        },
        None => {
            if word_after(buf, cur, c) {
                let q = choose|q: int|
                    last_before(buf, cur, c, q) && q + 1 < cur && forall|i: int|
                        q < i < cur ==> !is_ws(#[trigger] buf[i]);
                assert(buf[q] == c);
            }
        },
    }
}

/// Putting the highlighted item of a picker into the line. With `p` the
/// last position before the cursor of the picker's trigger:
/// - a skill replaces the text from its `$`: the line becomes the text
///   before `p`, `$`, the item and a space;
/// - a mention replaces the text from its `@`: the text before `p`, `@`,
///   the item and a space;
/// - a slash command (which carries its own `/`) replaces the text from the
///   `/`: the text before `p` and the item; with no `/` before the cursor
///   the line becomes the item;
/// - a mention or skill without its trigger before the cursor leaves the
///   line and cursor as they were.
/// The cursor ends after the new text, the picker is closed, and nothing
/// else changes.
pub proof fn law_selection_into_line(v: PickerView, item: Seq<char>, p: int)
    requires
        picker_wf(v),
        v.mode matches ModeView::Picker { items, matched, selected, .. } && matched.len() > 0
            && item == items[matched[if selected < matched.len() {
            selected as int
        } else {
            matched.len() - 1
        }] as int],
    ensures
        ({
            let r = apply_selection_op(v);
            let kind = v.mode->kind;
            let buf = v.buffer;
            let cur = v.cursor as int;
            &&& r.mode == ModeView::Insert
            &&& r.history == v.history && r.history_pos == v.history_pos
            &&& r.completions == v.completions && r.mention_names == v.mention_names
                && r.skill_names == v.skill_names
            &&& kind == PickerKind::Skills && last_before(buf, cur, '$', p) ==> r.buffer
                == buf.take(p) + seq!['$'] + item + seq![' '] && r.cursor == r.buffer.len() as usize
            &&& kind == PickerKind::Mentions && last_before(buf, cur, '@', p) ==> r.buffer
                == buf.take(p) + seq!['@'] + item + seq![' '] && r.cursor == r.buffer.len() as usize
            &&& kind == PickerKind::SlashCommands && last_before(buf, cur, '/', p) ==> r.buffer
                == buf.take(p) + item && r.cursor == r.buffer.len() as usize
            &&& kind == PickerKind::SlashCommands && none_before(buf, cur, '/') ==> r.buffer
                == item && r.cursor == item.len() as usize
            &&& kind == PickerKind::Skills && none_before(buf, cur, '$') ==> r.buffer == buf
                && r.cursor == v.cursor
            &&& kind == PickerKind::Mentions && none_before(buf, cur, '@') ==> r.buffer == buf
                && r.cursor == v.cursor
        }),
{
    let cur = v.cursor as int;
    lemma_last_before(v.buffer, cur, '$');
    lemma_last_before(v.buffer, cur, '@');
    lemma_last_before(v.buffer, cur, '/');
    assert(selected_item(v) == Some(item));
    if 0 <= p < cur {
        assert(last_before(v.buffer, cur, '$', p) ==> last_index_of(v.buffer.take(cur), '$')
            == Some(p));
        assert(last_before(v.buffer, cur, '@', p) ==> last_index_of(v.buffer.take(cur), '@')
            == Some(p));
        assert(last_before(v.buffer, cur, '/', p) ==> last_index_of(v.buffer.take(cur), '/')
            == Some(p));
    }
}

/// The Enter key without modifiers in insert mode.
pub open spec fn plain_enter() -> PickerEvent {
    PickerEvent::Key { key: Key::Enter, modifiers: KeyModifiers::Plain, release: false }
}

/// Plain Enter submits the line and records it in the history (unless it is
/// blank) when the line is not a lone `/` and neither the text after the
/// last `@` before the cursor nor the text after the last `$` before it is a
/// non-empty word without white space (for instance when there is no such
/// trigger, or the text after it holds a space). The line, cursor and mode
/// stay as they were.
pub proof fn law_plain_enter_submits(v: PickerView)
    requires
        picker_wf(v),
        v.mode is Insert,
        trim(v.buffer) != seq!['/'],
        !word_after(v.buffer, v.cursor as int, '@'),
        !word_after(v.buffer, v.cursor as int, '$'),
    ensures
        step(v, plain_enter()).1 == Some(ResultView::Submit(v.buffer)),
        step(v, plain_enter()).0.buffer == v.buffer,
        step(v, plain_enter()).0.cursor == v.cursor,
        step(v, plain_enter()).0.mode == v.mode,
        step(v, plain_enter()).0.history == if trim(v.buffer).len() > 0 {
            v.history.push(v.buffer)
        } else {
            v.history
        },
        step(v, plain_enter()).0.history_pos is None,
{
    lemma_word_after(v, '@');
    lemma_word_after(v, '$');
}

/// Plain Enter on a line whose text after the last `@` before the cursor is
/// a non-empty word without white space opens the mention picker instead of
/// submitting; with no such `@` word but such a `$` word it opens the skill
/// picker. A lone `/` opens the slash-command picker.
pub proof fn law_plain_enter_opens_pickers(v: PickerView)
    requires
        picker_wf(v),
        v.mode is Insert,
    ensures
        trim(v.buffer) == seq!['/'] ==> {
            &&& step(v, plain_enter()).1 is None
            &&& step(v, plain_enter()).0.mode is Picker
            &&& step(v, plain_enter()).0.mode->kind == PickerKind::SlashCommands
        },
        trim(v.buffer) != seq!['/'] && word_after(v.buffer, v.cursor as int, '@') ==> {
            &&& step(v, plain_enter()).1 is None
            &&& step(v, plain_enter()).0.mode is Picker
            &&& step(v, plain_enter()).0.mode->kind == PickerKind::Mentions
        },
        trim(v.buffer) != seq!['/'] && !word_after(v.buffer, v.cursor as int, '@') && word_after(
            v.buffer,
            v.cursor as int,
            '$',
        ) ==> {
            &&& step(v, plain_enter()).1 is None
            &&& step(v, plain_enter()).0.mode is Picker
            &&& step(v, plain_enter()).0.mode->kind == PickerKind::Skills
        },
{
    lemma_word_after(v, '@');
    lemma_word_after(v, '$');
}

// ----- reading JSON values -----

proof fn lemma_find_first(s: Seq<char>, p: Seq<char>, from: int, to: int)
    requires
        0 <= from <= to,
        occurs_at(s, p, to),
        forall|i: int| from <= i < to ==> !occurs_at(s, p, i),
    ensures
        find_from(s, p, from) == Some(to),
    decreases to - from,
{
    if from < to {
        assert(!occurs_at(s, p, from));
        lemma_find_first(s, p, from + 1, to);
    }
}

proof fn lemma_leading_ws_prefix(ws: Seq<char>, t: Seq<char>)
    requires
        forall|i: int| 0 <= i < ws.len() ==> is_ws(#[trigger] ws[i]),
        t.len() > 0,
        !is_ws(t[0]),
    ensures
        leading_ws(ws + t) == ws.len(),
    decreases ws.len(),
{
    if ws.len() > 0 {
        assert((ws + t).drop_first() =~= ws.drop_first() + t);
        lemma_leading_ws_prefix(ws.drop_first(), t);
    } else {
        assert(ws + t =~= t);
    }
}

proof fn lemma_first_index_at(s: Seq<char>, c: char, from: int, to: int)
    requires
        0 <= from <= to < s.len(),
        s[to] == c,
        forall|i: int| from <= i < to ==> s[i] != c,
    ensures
        first_index_of(s, c, from) == Some(to),
    decreases to - from,
{
    if from < to {
        lemma_first_index_at(s, c, from + 1, to);
    }
}

proof fn lemma_numeric_run(s: Seq<char>, from: int, to: int)
    requires
        0 <= from <= to <= s.len(),
        forall|i: int| from <= i < to ==> is_numeric_char(#[trigger] s[i]),
        to == s.len() || !is_numeric_char(s[to]),
    ensures
        numeric_end(s, from) == to,
    decreases to - from,
{
    if from < to {
        lemma_numeric_run(s, from + 1, to);
    }
}

/// Where the value of `k` starts in `json` when `json` is `pre`, the key in
/// quotes, `:`, the white space `ws`, then `tail`, and `pre` holds no quote.
proof fn lemma_value_start(pre: Seq<char>, k: Seq<char>, ws: Seq<char>, tail: Seq<char>)
    requires
        forall|i: int| 0 <= i < pre.len() ==> #[trigger] pre[i] != '"',
        forall|i: int| 0 <= i < ws.len() ==> is_ws(#[trigger] ws[i]),
        tail.len() > 0,
        !is_ws(tail[0]),
    ensures
        json_value_start(pre + seq!['"'] + k + seq!['"', ':'] + ws + tail, k) == Some(
            (pre.len() + k.len() + 3 + ws.len()) as int,
        ),
{
    let pat = seq!['"'] + k + seq!['"', ':'];
    let json = pre + seq!['"'] + k + seq!['"', ':'] + ws + tail;
    assert(pat == key_pattern(k));
    assert(json =~= pre + pat + (ws + tail));
    assert(json.subrange(pre.len() as int, pre.len() + pat.len() as int) =~= pat);
    assert forall|i: int| 0 <= i < pre.len() implies !occurs_at(json, pat, i) by {
        if occurs_at(json, pat, i) {
            assert(json.subrange(i, i + pat.len())[0] == pat[0]);
            assert(json[i] == pre[i]);
        }
    }
    lemma_find_first(json, pat, 0, pre.len() as int);
    let p: int = (pre.len() + pat.len()) as int;
    assert(json.skip(p) =~= ws + tail);
    lemma_leading_ws_prefix(ws, tail);
}

/// Reading a string value. When the JSON text is some text `pre` without
/// quotes, then `"key":`, white space, and a string value `v` in quotes
/// (with no quote inside), the value read for the key is `v`, whatever
/// follows.
pub proof fn law_json_string_value(
    pre: Seq<char>,
    k: Seq<char>,
    ws: Seq<char>,
    v: Seq<char>,
    rest: Seq<char>,
)
    requires
        forall|i: int| 0 <= i < pre.len() ==> #[trigger] pre[i] != '"',
        forall|i: int| 0 <= i < ws.len() ==> is_ws(#[trigger] ws[i]),
        forall|i: int| 0 <= i < v.len() ==> #[trigger] v[i] != '"',
    ensures
        json_str(pre + seq!['"'] + k + seq!['"', ':'] + ws + seq!['"'] + v + seq!['"'] + rest, k)
            == Some(v),
{
    let tail = seq!['"'] + v + seq!['"'] + rest;
    let json = pre + seq!['"'] + k + seq!['"', ':'] + ws + tail;
    assert(json =~= pre + seq!['"'] + k + seq!['"', ':'] + ws + seq!['"'] + v + seq!['"'] + rest);
    lemma_value_start(pre, k, ws, tail);
    let r: int = (pre.len() + k.len() + 3 + ws.len()) as int;
    assert(json[r] == '"');
    assert forall|i: int| r + 1 <= i < r + 1 + v.len() implies json[i] != '"' by {
        assert(json[i] == v[i - r - 1]);
    }
    assert(json[r + 1 + v.len()] == '"');
    lemma_first_index_at(json, '"', r + 1, r + 1 + v.len());
    assert(json.subrange(r + 1, r + 1 + v.len()) =~= v);
}

/// Reading a number. When the JSON text is some text `pre` without quotes,
/// then `"key":`, white space, and a non-empty run `d` of digits, `-` and
/// `.` that is not followed by another such character, the value read for
/// the key is `d`; when the value is `null`, it is `null`.
pub proof fn law_json_number_value(
    pre: Seq<char>,
    k: Seq<char>,
    ws: Seq<char>,
    d: Seq<char>,
    rest: Seq<char>,
)
    requires
        forall|i: int| 0 <= i < pre.len() ==> #[trigger] pre[i] != '"',
        forall|i: int| 0 <= i < ws.len() ==> is_ws(#[trigger] ws[i]),
    ensures
        d.len() > 0 && (forall|i: int|
            0 <= i < d.len() ==> ('0' <= #[trigger] d[i] <= '9' || d[i] == '-' || d[i] == '.'))
            && (rest.len() == 0 || !('0' <= rest[0] <= '9' || rest[0] == '-' || rest[0] == '.'))
            ==> json_num(pre + seq!['"'] + k + seq!['"', ':'] + ws + d + rest, k) == Some(d),
        json_num(pre + seq!['"'] + k + seq!['"', ':'] + ws + seq!['n', 'u', 'l', 'l'] + rest, k)
            == Some(seq!['n', 'u', 'l', 'l']),
{
    let r: int = (pre.len() + k.len() + 3 + ws.len()) as int;
    let nul = seq!['n', 'u', 'l', 'l'];
    let jn = pre + seq!['"'] + k + seq!['"', ':'] + ws + nul + rest;
    assert(jn =~= pre + seq!['"'] + k + seq!['"', ':'] + ws + (nul + rest));
    assert(!is_ws((nul + rest)[0]));
    lemma_value_start(pre, k, ws, nul + rest);
    assert(jn.skip(r).take(4) =~= nul);
    if d.len() > 0 && (forall|i: int|
        0 <= i < d.len() ==> ('0' <= #[trigger] d[i] <= '9' || d[i] == '-' || d[i] == '.')) && (
    rest.len() == 0 || !('0' <= rest[0] <= '9' || rest[0] == '-' || rest[0] == '.')) {
        let jd = pre + seq!['"'] + k + seq!['"', ':'] + ws + d + rest;
        assert(jd =~= pre + seq!['"'] + k + seq!['"', ':'] + ws + (d + rest));
        assert(is_numeric_char(d[0]));
        assert(!is_ws((d + rest)[0]));
        lemma_value_start(pre, k, ws, d + rest);
        assert(jd[r] == d[0]);
        if starts_with_seq(jd.skip(r), nul) {
            assert(jd.skip(r).take(4)[0] == jd[r]);
        }
        assert forall|i: int| r <= i < r + d.len() implies is_numeric_char(#[trigger] jd[i]) by {
            assert(jd[i] == d[i - r]);
        }
        if rest.len() > 0 {
            assert(jd[r + d.len()] == rest[0]);
        }
        lemma_numeric_run(jd, r, r + d.len());
        assert(jd.subrange(r, r + d.len()) =~= d);
    }
}

// ----- what each summary is made of -----

/// The string value read for `key`, or the empty text.
pub open spec fn str_value(out: Seq<char>, key: Seq<char>) -> Seq<char> {
    match json_str(out, key) {
        Some(v) => v,
        None => Seq::empty(),
    }
}

/// The string value read for `first`; only when it has none, the one read
/// for `second`; else the empty text.
pub open spec fn str_value_or(out: Seq<char>, first: Seq<char>, second: Seq<char>) -> Seq<char> {
    match json_str(out, first) {
        Some(v) => v,
        None => str_value(out, second),
    }
}

/// The number read for `key` as written, or the empty text.
pub open spec fn num_value(out: Seq<char>, key: Seq<char>) -> Seq<char> {
    match json_num(out, key) {
        Some(v) => v,
        None => Seq::empty(),
    }
}

/// The number read for `first`; only when it has none, the one read for
/// `second`; else the empty text.
pub open spec fn num_value_or(out: Seq<char>, first: Seq<char>, second: Seq<char>) -> Seq<char> {
    match json_num(out, first) {
        Some(v) => v,
        None => num_value(out, second),
    }
}

/// The seven summarized tool names are pairwise different.
proof fn lemma_tool_names_differ()
    ensures
        "read_file"@ != "new_file"@,
        "read_file"@ != "edit_file"@,
        "read_file"@ != "bash"@,
        "read_file"@ != "WebFetch"@,
        "read_file"@ != "WebSearch"@,
        "read_file"@ != "grep_search"@,
        "new_file"@ != "edit_file"@,
        "new_file"@ != "bash"@,
        "new_file"@ != "WebFetch"@,
        "new_file"@ != "WebSearch"@,
        "new_file"@ != "grep_search"@,
        "edit_file"@ != "bash"@,
        "edit_file"@ != "WebFetch"@,
        "edit_file"@ != "WebSearch"@,
        "edit_file"@ != "grep_search"@,
        "bash"@ != "WebFetch"@,
        "bash"@ != "WebSearch"@,
        "bash"@ != "grep_search"@,
        "WebFetch"@ != "WebSearch"@,
        "WebFetch"@ != "grep_search"@,
        "WebSearch"@ != "grep_search"@,
{
    reveal_strlit("read_file");
    reveal_strlit("new_file");
    reveal_strlit("edit_file");
    reveal_strlit("bash");
    reveal_strlit("WebFetch");
    reveal_strlit("WebSearch");
    reveal_strlit("grep_search");
    assert("read_file"@[0] == 'r');
    assert("new_file"@[0] == 'n');
    assert("edit_file"@[0] == 'e');
    assert("bash"@[0] == 'b');
    assert("WebFetch"@[0] == 'W');
    assert("WebSearch"@[0] == 'W');
    assert("grep_search"@[0] == 'g');
    assert("WebFetch"@[3] == 'F');
    assert("WebSearch"@[3] == 'S');
}

/// The read_file summary: the path read from `filePath`, the line count
/// from `numLines` (only without it, from `lineCount`), and the size from
/// `bytesRead`.
pub proof fn law_read_file_summary(out: Seq<char>)
    ensures
        summary_of("read_file"@, out) == "[read_file: "@ + str_value(out, "filePath"@) + ", "@
            + num_value_or(out, "numLines"@, "lineCount"@) + " lines, "@ + num_value(
            out,
            "bytesRead"@,
        ) + " bytes \u{2014} content processed]"@,
{
    assert(num_value_or(out, "numLines"@, "lineCount"@) == or_empty(
        either(json_num(out, "numLines"@), json_num(out, "lineCount"@)),
    ));
}

/// The new_file summary: the path read from `filePath` (only without a
/// string value there, from `path`) and the size from `bytesWritten` (only
/// without it, from `bytes`).
pub proof fn law_new_file_summary(out: Seq<char>)
    ensures
        summary_of("new_file"@, out) == "[new_file: "@ + str_value_or(out, "filePath"@, "path"@)
            + ", "@ + num_value_or(out, "bytesWritten"@, "bytes"@)
            + " bytes written \u{2014} content processed]"@,
        json_str(out, "filePath"@) matches Some(p) ==> summary_of("new_file"@, out).take(
            (12 + p.len()) as int,
        ) == "[new_file: "@ + p + ","@,
{
    lemma_tool_names_differ();
    assert(str_value_or(out, "filePath"@, "path"@) == or_empty(
        either(json_str(out, "filePath"@), json_str(out, "path"@)),
    ));
    assert(num_value_or(out, "bytesWritten"@, "bytes"@) == or_empty(
        either(json_num(out, "bytesWritten"@), json_num(out, "bytes"@)),
    ));
    if let Some(p) = json_str(out, "filePath"@) {
        reveal_strlit("[new_file: ");
        reveal_strlit(", ");
        let full = summary_of("new_file"@, out);
        let head = "[new_file: "@ + p + ","@;
        reveal_strlit(",");
        assert(full.take((12 + p.len()) as int) =~= head);
    }
}

/// The edit_file summary: the path read from `filePath` (only without a
/// string value there, from `path`), the count from `linesChanged`, and the
/// diff from `diffPath`.
pub proof fn law_edit_file_summary(out: Seq<char>)
    ensures
        summary_of("edit_file"@, out) == "[edit_file: "@ + str_value_or(out, "filePath"@, "path"@)
            + ", "@ + num_value(out, "linesChanged"@) + " lines changed, diff="@ + str_value(
            out,
            "diffPath"@,
        ) + " \u{2014} content processed]"@,
{
    lemma_tool_names_differ();
    assert(str_value_or(out, "filePath"@, "path"@) == or_empty(
        either(json_str(out, "filePath"@), json_str(out, "path"@)),
    ));
}

/// The bash summary: the exit code read from `exitCode` (only without it,
/// from `code`), and the output read from `stdout` (only without it, from
/// `output`), cut to its first 200 characters and marked with `...` when it
/// is longer than 200 bytes.
pub proof fn law_bash_summary(out: Seq<char>)
    ensures
        summary_of("bash"@, out) == "[bash: exit="@ + num_value_or(out, "exitCode"@, "code"@)
            + ", output: "@ + match either(json_str(out, "stdout"@), json_str(out, "output"@)) {
            Some(s) => if byte_len(s) > 200 {
                (if s.len() > 200 {
                    s.take(200)
                } else {
                    s
                }) + "..."@
            } else {
                s
            },
            None => Seq::empty(),
        } + "]"@,
{
    lemma_tool_names_differ();
    assert(num_value_or(out, "exitCode"@, "code"@) == or_empty(
        either(json_num(out, "exitCode"@), json_num(out, "code"@)),
    ));
}

/// The WebFetch summary names the URL read from `url`; the WebSearch
/// summary the query from `query`, the provider from `provider` and the
/// count from `resultsReturned`; the grep_search summary the file count
/// from `num_files` and the match count from `num_lines`.
pub proof fn law_web_and_search_summaries(out: Seq<char>)
    ensures
        summary_of("WebFetch"@, out) == "[WebFetch: "@ + str_value(out, "url"@)
            + " \u{2014} content processed]"@,
        summary_of("WebSearch"@, out) == "[WebSearch: \""@ + str_value(out, "query"@)
            + "\" via "@ + str_value(out, "provider"@) + ", "@ + num_value(
            out,
            "resultsReturned"@,
        ) + " results \u{2014} results reviewed]"@,
        summary_of("grep_search"@, out) == "[grep_search: "@ + num_value(out, "num_files"@)
            + " files, "@ + num_value(out, "num_lines"@) + " matches \u{2014} content processed]"@,
{
    lemma_tool_names_differ();
}

/// Any other tool's summary gives the number of characters of its output.
pub proof fn law_other_tool_summary(t: Seq<char>, out: Seq<char>)
    requires
        !(t == "read_file"@ || t == "new_file"@ || t == "edit_file"@ || t == "bash"@ || t
            == "WebFetch"@ || t == "WebSearch"@ || t == "grep_search"@),
    ensures
        summary_of(t, out) == "["@ + t + ": "@ + decimal(out.len())
            + " chars \u{2014} content processed]"@,
{
}

// ----- the window of recent messages, token estimates and request blocks -----

/// `filter_for_api` keeps the tool results of the last six messages: a
/// message at index `i` of `len` messages is recent exactly when it is
/// among the last six.
pub proof fn law_recent_window(len: nat, i: int)
    requires
        0 <= i < len,
    ensures
        (i >= recent_from(len, PRESERVE_RECENT_MESSAGES as nat)) == (i + 6 >= len),
{
}

/// Token estimates: a message with a cached estimate counts that; else
/// 4 tokens for a system or user message, 3 for an assistant message and 5
/// for a tool message, plus for each block: a quarter of the characters of
/// a text or of thinking; 3 plus a quarter of the characters of the name and
/// of the input of a tool call, or of the tool name and of the output of a
/// tool result; for an image, its decoded size (three quarters of its
/// base64 bytes) per 750, plus 20; and 100 for an image reference.
pub proof fn law_token_estimate(m: MessageView, b: BlockView)
    ensures
        m.cached_tokens matches Some(c) ==> message_tokens(m) == c,
        m.cached_tokens is None && m.blocks.len() == 0 ==> message_tokens(m) == match m.role {
            MessageRole::System => 4nat,
            MessageRole::User => 4,
            MessageRole::Assistant => 3,
            MessageRole::Tool => 5,
        },
        m.cached_tokens is None ==> message_tokens(MessageView { blocks: m.blocks.push(b), ..m })
            == message_tokens(m) + match b {
            BlockView::Text { text } => text.len() / 4,
            BlockView::ToolUse { name, input, .. } => 3 + name.len() / 4 + input.len() / 4,
            BlockView::ToolResult { tool_name, output, .. } => 3 + tool_name.len() / 4
                + output.len() / 4,
            BlockView::Image { data, .. } => (byte_len(data) * 3 / 4) / 750 + 20,
            BlockView::ImageRef { .. } => 100,
            BlockView::Thinking { thinking, .. } => thinking.len() / 4,
        },
{
    assert(m.blocks.push(b).drop_last() =~= m.blocks);
}

/// How each session block appears in a request: thinking is left out; a
/// text and a tool call are sent as they are; an image is sent as base64
/// data with its media type; an image reference is sent as a base64 image
/// whose data comes from the cache when the cache holds its hash, else from
/// the store when the store holds it, else is empty; a tool result is sent
/// with its output as its one piece of text and its error flag.
pub proof fn law_request_blocks(
    b: BlockView,
    cache: Option<Map<Seq<char>, Seq<char>>>,
    store: Option<Map<Seq<char>, Seq<char>>>,
)
    ensures
        b is Thinking ==> convert_block(b, cache, store) is None,
        b matches BlockView::Text { text } ==> convert_block(b, cache, store) == Some(
            InputBlockView::Text { text },
        ),
        b matches BlockView::ToolUse { id, name, input } ==> convert_block(b, cache, store)
            == Some(InputBlockView::ToolUse { id, name, input }),
        b matches BlockView::Image { mime_type, data } ==> convert_block(b, cache, store) == Some(
            InputBlockView::Image { source_type: "base64"@, media_type: mime_type, data },
        ),
        b matches BlockView::ImageRef { hash_hex, mime_type } ==> convert_block(b, cache, store)
            == Some(
            InputBlockView::Image {
                source_type: "base64"@,
                media_type: mime_type,
                data: if cache is Some && cache->0.contains_key(hash_hex) {
                    cache->0[hash_hex]
                } else if store is Some && store->0.contains_key(hash_hex) {
                    store->0[hash_hex]
                } else {
                    Seq::empty()
                },
            },
        ),
        b matches BlockView::ToolResult { tool_use_id, output, is_error, .. } ==> convert_block(
            b,
            cache,
            store,
        ) == Some(InputBlockView::ToolResult { tool_use_id, content: seq![output], is_error }),
{
}

// ----- editing the line -----

/// A key press (not a release) with the given modifiers.
pub open spec fn press(key: Key, modifiers: KeyModifiers) -> PickerEvent {
    PickerEvent::Key { key, modifiers, release: false }
}

/// Editing keys in insert mode, with `cur` the cursor:
/// - typing a character other than `/`, `@` and `$` (and other than
///   Control-C and Control-D) puts it at the cursor and moves past it;
/// - Shift+Enter puts a line break at the cursor and moves past it;
/// - Backspace removes the character before the cursor and moves back,
///   and does nothing at the start of the line;
/// - Delete removes the character at the cursor, and does nothing at the
///   end of the line;
/// - Left and Right move by one within the line, Home to its start and End
///   to its end.
/// None of them ends editing or opens a picker, and leaving the cursor
/// aside only the line and the history position change.
pub proof fn law_line_editing(v: PickerView, c: char, m: KeyModifiers)
    requires
        picker_wf(v),
        v.mode is Insert,
        v.buffer.len() < usize::MAX,
    ensures
        ({
            let buf = v.buffer;
            let cur = v.cursor as int;
            let typed = step(v, press(Key::Char(c), m));
            let shift_enter = step(v, press(Key::Enter, KeyModifiers::Shift));
            let back = step(v, press(Key::Backspace, m));
            let del = step(v, press(Key::Delete, m));
            &&& c != '/' && c != '@' && c != '$' && !(m == KeyModifiers::Control && (c == 'c' || c
                == 'd')) ==> typed == (
                PickerView {
                    buffer: buf.take(cur) + seq![c] + buf.skip(cur),
                    cursor: (cur + 1) as usize,
                    history_pos: None,
                    ..v
                },
                None::<ResultView>,
            )
            &&& shift_enter == (
                PickerView {
                    buffer: buf.take(cur) + seq!['\n'] + buf.skip(cur),
                    cursor: (cur + 1) as usize,
                    history_pos: None,
                    ..v
                },
                None::<ResultView>,
            )
            &&& cur > 0 ==> back == (
                PickerView {
                    buffer: buf.take(cur - 1) + buf.skip(cur),
                    cursor: (cur - 1) as usize,
                    history_pos: None,
                    ..v
                },
                None::<ResultView>,
            )
            &&& cur == 0 ==> back == (v, None::<ResultView>)
            &&& cur < buf.len() ==> del == (
                PickerView { buffer: buf.take(cur) + buf.skip(cur + 1), history_pos: None, ..v },
                None::<ResultView>,
            )
            &&& cur == buf.len() ==> del == (v, None::<ResultView>)
            &&& step(v, press(Key::Left, m)) == (
                PickerView { cursor: if cur > 0 { (cur - 1) as usize } else { 0 }, ..v },
                None::<ResultView>,
            )
            &&& step(v, press(Key::Right, m)) == (
                PickerView {
                    cursor: if cur < buf.len() { (cur + 1) as usize } else { v.cursor },
                    ..v
                },
                None::<ResultView>,
            )
            &&& step(v, press(Key::Home, m)) == (PickerView { cursor: 0, ..v }, None::<ResultView>)
            &&& step(v, press(Key::End, m)) == (
                PickerView { cursor: buf.len() as usize, ..v },
                None::<ResultView>,
            )
        }),
{
    let buf = v.buffer;
    let cur = v.cursor as int;
    assert(buf.insert(cur, c) =~= buf.take(cur) + seq![c] + buf.skip(cur));
    assert(buf.insert(cur, '\n') =~= buf.take(cur) + seq!['\n'] + buf.skip(cur));
    if cur > 0 {
        assert(buf.remove(cur - 1) =~= buf.take(cur - 1) + buf.skip(cur));
    }
    if cur < buf.len() {
        assert(buf.remove(cur) =~= buf.take(cur) + buf.skip(cur + 1));
    }
}

/// Typing `@` with no `@` before it opens the mention picker, typing `$`
/// with no `$` before it the skill picker, and typing `/` into an empty
/// line the slash-command picker; the typed character is in the line.
pub proof fn law_typing_opens_pickers(v: PickerView)
    requires
        picker_wf(v),
        v.mode is Insert,
        v.buffer.len() < usize::MAX,
    ensures
        none_before(v.buffer, v.cursor as int, '@') ==> {
            let r = step(v, press(Key::Char('@'), KeyModifiers::Plain));
            &&& r.1 is None
            &&& r.0.mode is Picker && r.0.mode->kind == PickerKind::Mentions
            &&& r.0.buffer == v.buffer.take(v.cursor as int) + seq!['@'] + v.buffer.skip(
                v.cursor as int,
            )
        },
        none_before(v.buffer, v.cursor as int, '$') ==> {
            let r = step(v, press(Key::Char('$'), KeyModifiers::Plain));
            &&& r.1 is None
            &&& r.0.mode is Picker && r.0.mode->kind == PickerKind::Skills
            &&& r.0.buffer == v.buffer.take(v.cursor as int) + seq!['$'] + v.buffer.skip(
                v.cursor as int,
            )
        },
        v.buffer.len() == 0 ==> {
            let r = step(v, press(Key::Char('/'), KeyModifiers::Plain));
            &&& r.1 is None
            &&& r.0.mode is Picker && r.0.mode->kind == PickerKind::SlashCommands
            &&& r.0.buffer == seq!['/']
        },
{
    let buf = v.buffer;
    let cur = v.cursor as int;
    let w1 = insert_char_op(v, '@');
    let w2 = insert_char_op(v, '$');
    assert(w1.buffer.take(w1.cursor - 1) =~= buf.take(cur));
    assert(w2.buffer.take(w2.cursor - 1) =~= buf.take(cur));
    assert(buf.insert(cur, '@') =~= buf.take(cur) + seq!['@'] + buf.skip(cur));
    assert(buf.insert(cur, '$') =~= buf.take(cur) + seq!['$'] + buf.skip(cur));
    if none_before(buf, cur, '@') {
        assert(!buf.take(cur).contains('@'));
    }
    if none_before(buf, cur, '$') {
        assert(!buf.take(cur).contains('$'));
    }
    if buf.len() == 0 {
        assert(buf.insert(cur, '/') =~= seq!['/']);
    }
}

// ----- which names a picker lists -----

/// `name` holds `q` as a substring, ignoring case.
pub open spec fn holds_ignoring_case(name: Seq<char>, q: Seq<char>) -> bool {
    let n = lowercase(name);
    let l = lowercase(q);
    exists|j: int| 0 <= j && j + l.len() <= n.len() && #[trigger] n.subrange(j, j + l.len()) == l
}

/// `name` starts with `q`, ignoring case.
pub open spec fn starts_ignoring_case(name: Seq<char>, q: Seq<char>) -> bool {
    let n = lowercase(name);
    let l = lowercase(q);
    l.len() <= n.len() && n.take(l.len() as int) == l
}

/// Whether a picker of `kind` with `filter` lists `name`: a slash-command
/// picker every name when its filter without a leading `/` is empty, else
/// the names that hold that text anywhere, ignoring case; a mention or
/// skill picker every name when its filter is empty, else the names that
/// start with the filter, ignoring case.
pub open spec fn listed(kind: PickerKind, filter: Seq<char>, name: Seq<char>) -> bool {
    if kind == PickerKind::SlashCommands {
        let q = if filter.len() > 0 && filter[0] == '/' {
            filter.drop_first()
        } else {
            filter
        };
        q.len() == 0 || holds_ignoring_case(name, q)
    } else {
        filter.len() == 0 || starts_ignoring_case(name, filter)
    }
}

/// Which names an opened picker lists, and in what order. A slash-command
/// picker lists every name when its filter without a leading `/` is empty,
/// else the names that hold that text anywhere, ignoring case; a mention or
/// skill picker lists every name when its filter is empty, else the names
/// that start with the filter, ignoring case. Each listed name appears
/// once, the list is sorted by name (equal names in their order), and the
/// first entry is highlighted.
pub proof fn law_picker_lists(v: PickerView, kind: PickerKind, filter: Seq<char>, items: Seq<
    Seq<char>,
>)
    requires
        items.len() <= usize::MAX,
    ensures
        ({
            let r = open_picker(v, kind, filter, items);
            let m = r.mode->matched;
            &&& r.mode is Picker
            &&& r.mode->selected == 0
            &&& r.mode->items == items
            &&& forall|i: int|
                0 <= i < items.len() ==> (m.contains(i as usize) <==> listed(
                    kind,
                    filter,
                    #[trigger] items[i],
                ))
            &&& forall|k: int| 0 <= k < m.len() ==> #[trigger] m[k] < items.len()
            &&& forall|a: int, b: int| 0 <= a < b < m.len() ==> m[a] != m[b]
            &&& forall|a: int, b: int|
                0 <= a < b < m.len() ==> !text_less(items[m[b] as int], items[m[a] as int])
        }),
{
    let (query, how) = if kind == PickerKind::SlashCommands {
        (slash_query(filter), slash_how(filter))
    } else {
        (filter, prefix_how(filter))
    };
    lemma_listed_matches(kind, filter, items, query, how);
    let r = open_picker(v, kind, filter, items);
    assert(r.mode->matched == matches_of(items, query, how));
}

/// The matches of `query` found the way `how` says are the names that
/// `listed` names, each once, in order of name.
proof fn lemma_listed_matches(
    kind: PickerKind,
    filter: Seq<char>,
    items: Seq<Seq<char>>,
    query: Seq<char>,
    how: MatchHow,
)
    requires
        items.len() <= usize::MAX,
        kind == PickerKind::SlashCommands ==> query == slash_query(filter) && how == slash_how(
            filter,
        ),
        kind != PickerKind::SlashCommands ==> query == filter && how == prefix_how(filter),
    ensures
        ({
            let m = matches_of(items, query, how);
            &&& forall|i: int|
                0 <= i < items.len() ==> (m.contains(i as usize) <==> listed(
                    kind,
                    filter,
                    #[trigger] items[i],
                ))
            &&& forall|k: int| 0 <= k < m.len() ==> #[trigger] m[k] < items.len()
            &&& forall|a: int, b: int| 0 <= a < b < m.len() ==> m[a] != m[b]
            &&& forall|a: int, b: int|
                0 <= a < b < m.len() ==> !text_less(items[m[b] as int], items[m[a] as int])
        }),
{
    let q = if filter.len() > 0 && filter[0] == '/' {
        filter.drop_first()
    } else {
        filter
    };
    law_matches_listed_once_in_order(items, query, how);
    let m = matches_of(items, query, how);
    assert forall|i: int| 0 <= i < items.len() implies (m.contains(i as usize) <==> listed(
        kind,
        filter,
        #[trigger] items[i],
    )) by {
        if m.contains(i as usize) {
            let k = choose|k: int| 0 <= k < m.len() && m[k] == i as usize;
            assert(keeps(items[m[k] as int], query, how));
        }
        if kind == PickerKind::SlashCommands {
            assert(query == q);
        }
        let n = lowercase(items[i]);
        let l = lowercase(query);
        if how == MatchHow::Contains {
            if contains_seq(n, l) {
                let j = choose|j: int| occurs_at(n, l, j);
                assert(n.subrange(j, j + l.len()) == l);
            }
            if holds_ignoring_case(items[i], q) {
                let j = choose|j: int|
                    0 <= j && j + l.len() <= n.len() && #[trigger] n.subrange(j, j + l.len()) == l;
                assert(occurs_at(n, l, j));
            }
        }
    }
}

/// Keys in an open picker:
/// - Enter and Tab both put the highlighted name into the line (see
///   `law_selection_into_line`) and end nothing;
/// - typing a character (other than Control-C and Control-D) adds it to the
///   filter, keeps the line and cursor, highlights the first entry, and
///   lists the names that hold the filter without a leading `/` anywhere,
///   ignoring case (every name when that is empty);
/// - Backspace with a non-empty filter (other than a lone `/` in a
///   slash-command picker) removes the filter's last character and lists
///   names the same way;
/// - Backspace with an empty filter closes the picker and removes the
///   picker's trigger (`/`, `@` or `$`) at its last position `p` before the
///   cursor from the line, moving the cursor back by one.
pub proof fn law_picker_keys(v: PickerView, c: char, m: KeyModifiers, p: int)
    requires
        picker_wf(v),
        v.mode is Picker,
    ensures
        ({
            let kind = v.mode->kind;
            let filter = v.mode->filter;
            let items = v.mode->items;
            let trig = if kind == PickerKind::SlashCommands {
                '/'
            } else if kind == PickerKind::Mentions {
                '@'
            } else {
                '$'
            };
            let empty = filter.len() == 0 || (kind == PickerKind::SlashCommands && filter
                == seq!['/']);
            let typed = step(v, press(Key::Char(c), m));
            let back = step(v, press(Key::Backspace, m));
            &&& step(v, press(Key::Enter, m)) == step(v, press(Key::Tab, m))
            &&& step(v, press(Key::Enter, m)).1 is None
            &&& !(m == KeyModifiers::Control && (c == 'c' || c == 'd')) ==> {
                &&& typed.1 is None
                &&& typed.0.buffer == v.buffer && typed.0.cursor == v.cursor
                &&& typed.0.mode is Picker && typed.0.mode->kind == kind
                &&& typed.0.mode->filter == filter.push(c)
                &&& typed.0.mode->items == items
                &&& typed.0.mode->selected == 0
                &&& forall|i: int|
                    0 <= i < items.len() ==> (typed.0.mode->matched.contains(i as usize)
                        <==> listed(PickerKind::SlashCommands, filter.push(c), #[trigger] items[i]))
            }
            &&& !empty ==> {
                &&& back.1 is None
                &&& back.0.buffer == v.buffer && back.0.cursor == v.cursor
                &&& back.0.mode is Picker && back.0.mode->filter == filter.drop_last()
                &&& forall|i: int|
                    0 <= i < items.len() ==> (back.0.mode->matched.contains(i as usize)
                        <==> listed(PickerKind::SlashCommands, filter.drop_last(), #[trigger] items[i]))
            }
            &&& empty && last_before(v.buffer, v.cursor as int, trig, p) ==> {
                &&& back.1 is None
                &&& back.0.mode == ModeView::Insert
                &&& back.0.buffer == v.buffer.take(p) + v.buffer.skip(p + 1)
                &&& back.0.cursor == v.cursor - 1
            }
        }),
{
    let kind = v.mode->kind;
    let filter = v.mode->filter;
    let items = v.mode->items;
    lemma_listed_matches(
        PickerKind::SlashCommands,
        filter.push(c),
        items,
        slash_query(filter.push(c)),
        slash_how(filter.push(c)),
    );
    if filter.len() > 0 {
        lemma_listed_matches(
            PickerKind::SlashCommands,
            filter.drop_last(),
            items,
            slash_query(filter.drop_last()),
            slash_how(filter.drop_last()),
        );
    }
    let cur = v.cursor as int;
    lemma_last_before(v.buffer, cur, '/');
    lemma_last_before(v.buffer, cur, '@');
    lemma_last_before(v.buffer, cur, '$');
    if 0 <= p < cur && p < v.buffer.len() {
        assert(v.buffer.remove(p) =~= v.buffer.take(p) + v.buffer.skip(p + 1));
    }
}

// ----- answers and reports of sub-agents -----

/// No block among `bs` is a text block.
pub open spec fn no_text(bs: Seq<BlockView>) -> bool {
    forall|i: int| 0 <= i < bs.len() ==> !(#[trigger] bs[i] is Text)
}

/// The answer of a turn is made of the text blocks of its last message,
/// separated by blank lines: without messages it is empty; only the last
/// message counts; a block that is not text adds nothing; and a text block
/// `t` after the others adds a blank line and `t`, or is the whole answer
/// when no text came before it.
pub proof fn law_final_answer(
    ms: Seq<ConversationMessage>,
    m1: ConversationMessage,
    m2: ConversationMessage,
    b: BlockView,
)
    requires
        blocks_view(m2.blocks@) == blocks_view(m1.blocks@).push(b),
    ensures
        final_text(Seq::empty()) == Seq::<char>::empty(),
        final_text(ms.push(m1)) == final_text(seq![m1]),
        !(b is Text) ==> final_text(seq![m2]) == final_text(seq![m1]),
        b matches BlockView::Text { text } ==> final_text(seq![m2]) == if no_text(
            blocks_view(m1.blocks@),
        ) {
            text
        } else {
            final_text(seq![m1]) + "\n\n"@ + text
        },
{
    let bs = blocks_view(m1.blocks@);
    let bs2 = blocks_view(m2.blocks@);
    assert(bs2.drop_last() =~= bs);
    assert(ms.push(m1).last() == m1);
    assert(seq![m1].last() == m1);
    assert(seq![m2].last() == m2);
    lemma_no_text(bs);
    if let BlockView::Text { text } = b {
        let parts = block_texts(bs);
        assert(block_texts(bs2) == parts.push(text));
        assert(parts.push(text).drop_last() =~= parts);
        if parts.len() == 0 {
            assert(parts.push(text) =~= seq![text]);
        }
    }
}

proof fn lemma_no_text(bs: Seq<BlockView>)
    ensures
        no_text(bs) == (block_texts(bs).len() == 0),
    decreases bs.len(),
{
    if bs.len() > 0 {
        lemma_no_text(bs.drop_last());
        if no_text(bs) {
            assert(no_text(bs.drop_last())) by {
                assert forall|i: int| 0 <= i < bs.len() - 1 implies !(#[trigger] bs.drop_last()[i] is Text) by {
                    assert(bs[i] == bs.drop_last()[i]);
                }
            }
            assert(!(bs[bs.len() - 1] is Text));
        } else {
            let i = choose|i: int| 0 <= i < bs.len() && (#[trigger] bs[i] is Text);
            if i < bs.len() - 1 {
                assert(bs.drop_last()[i] == bs[i]);
                lemma_block_texts_grow(bs);
            }
        }
    }
}

proof fn lemma_block_texts_grow(bs: Seq<BlockView>)
    requires
        bs.len() > 0,
    ensures
        block_texts(bs.drop_last()).len() <= block_texts(bs).len(),
{
}

/// How a finished job is reported. A job that returned an answer sends it
/// to the handle and records it as completed, then the status change to
/// completed; a job that returned an error sends that error and records it
/// as a failure; a job that panicked sends and records `panic: ` followed by
/// the panic's message, or by `unknown panic payload` when the message
/// cannot be told.
pub proof fn law_job_reports(end: JobEnd)
    ensures
        end matches JobEnd::Returned(Ok(text)) ==> job_outcome(end) == Ok::<Seq<char>, Seq<char>>(
            text@,
        ) && returned_events(Ok(text)) == seq![
            SubagentProgressEvent::Completed { result_preview: text },
            SubagentProgressEvent::StatusChange { status: AgentStatus::Completed },
        ],
        end matches JobEnd::Returned(Err(e)) ==> job_outcome(end) == Err::<Seq<char>, Seq<char>>(
            e@,
        ) && returned_events(Err(e)) == seq![SubagentProgressEvent::Failed { error: e }],
        end matches JobEnd::Panicked(p) ==> job_outcome(end) == Err::<Seq<char>, Seq<char>>(
            "panic: "@ + match p {
                PanicPayload::Str(s) => s@,
                PanicPayload::Owned(s) => s@,
                PanicPayload::Unknown => "unknown panic payload"@,
            },
        ),
{
}

/// What a join answers. Waiting for the job gives the job's own result,
/// or the error `agent timed out` when nothing came in time and `agent
/// disconnected` when the job is gone.
pub proof fn law_join_answers(r: Received)
    ensures
        r matches Received::Outcome(o) ==> join_answer(r) == outcome_view(o),
        r is Empty ==> join_answer(r) == Err::<Seq<char>, Seq<char>>("agent timed out"@),
        r is Disconnected ==> join_answer(r) == Err::<Seq<char>, Seq<char>>(
            "agent disconnected"@,
        ),
{
}

// ----- the input line on screen -----

/// A line that fits in the room after the prompt (the terminal width less
/// the prompt and one spare column) is shown whole. The cursor (at most at
/// the end of the line) then stands, when a line break comes before it, at
/// the width of the text between the last such break and the cursor;
/// otherwise at the prompt's width plus the width of the text before it.
pub proof fn law_short_line_shown_whole(
    prompt_width: usize,
    line: Seq<char>,
    cursor: usize,
    term_cols: usize,
    p: int,
)
    requires
        crate::display::str_width(line) <= (if term_cols >= prompt_width + 1 {
            term_cols - prompt_width - 1
        } else {
            0
        }),
        cursor <= line.len(),
    ensures
        input_line_layout(prompt_width, line, cursor, term_cols).0 == line,
        last_before(line, cursor as int, '\n', p) ==> input_line_layout(
            prompt_width,
            line,
            cursor,
            term_cols,
        ).1 == crate::display::str_width(line.subrange(p + 1, cursor as int)),
        none_before(line, cursor as int, '\n') && prompt_width + crate::display::str_width(
            line.take(cursor as int),
        ) <= usize::MAX ==> input_line_layout(prompt_width, line, cursor, term_cols).1
            == prompt_width + crate::display::str_width(line.take(cursor as int)),
{
    lemma_last_before(line, cursor as int, '\n');
    if last_before(line, cursor as int, '\n', p) {
        assert(line.take(cursor as int).skip(p + 1) =~= line.subrange(p + 1, cursor as int));
    }
}

// ----- highlighting a matched name -----

/// `q` matches `text` at `i`, character by character, ignoring case.
pub open spec fn matches_at(text: Seq<char>, q: Seq<char>, i: int) -> bool {
    0 <= i && i + q.len() <= text.len() && forall|j: int|
        0 <= j < q.len() ==> crate::display::char_lowercase(#[trigger] text[i + j])
            == crate::display::char_lowercase(q[j])
}

proof fn lemma_first_window_exact(text: Seq<char>, q: Seq<char>, from: int)
    requires
        from >= 0,
    ensures
        crate::display::first_window(text, q, from) matches Some(i) ==> from <= i && matches_at(
            text,
            q,
            i,
        ) && forall|k: int| from <= k < i ==> !matches_at(text, q, k),
        crate::display::first_window(text, q, from) is None ==> forall|k: int|
            from <= k ==> !matches_at(text, q, k),
    decreases text.len() + 1 - from,
{
    if from + q.len() > text.len() {
    } else if crate::display::window_matches(text, q, from) {
    } else {
        lemma_first_window_exact(text, q, from + 1);
    }
}

/// Highlighting a name splits it around the first place where the
/// lowercased query matches it character by character, ignoring case: the
/// three parts put together give the name back, the middle part is as long
/// as the lowercased query and matches it, and no earlier place matches.
/// Nothing is highlighted exactly when the lowercased query is empty or
/// matches nowhere.
pub proof fn law_highlight_first_match(text: Seq<char>, query: Seq<char>)
    ensures
        ({
            let l = lowercase(query);
            match highlight_of(text, query) {
                Some((a, b, c)) => {
                    &&& a + b + c == text
                    &&& l.len() > 0
                    &&& matches_at(text, l, a.len() as int)
                    &&& b.len() == l.len()
                    &&& forall|k: int| 0 <= k < a.len() ==> !matches_at(text, l, k)
                },
                None => l.len() == 0 || forall|k: int| 0 <= k ==> !matches_at(text, l, k),
            }
        }),
{
    let l = lowercase(query);
    lemma_first_window_exact(text, l, 0);
    if let Some((a, b, c)) = highlight_of(text, query) {
        law_highlight_parts(text, query);
    }
}

// ----- the list of a picker on screen -----

/// The list of an open picker with `count` matches and the match
/// `selected < count` highlighted. The window holds `vis` rows: ten, or the
/// terminal's height less three when that is smaller, and never more than
/// the matches. It starts at 0, or, when the selection lies below the first
/// window, so that the selection is its last row. The list is: a line
/// counting the matches above the window (only when there are any), one
/// line per match in the window with exactly the selected one marked, and a
/// line counting the matches below it (only when there are any). Without
/// matches the list is the one line saying so.
pub proof fn law_picker_list_rows(count: usize, selected: usize, term_height: usize)
    requires
        count > 0 ==> selected < count,
    ensures
        count == 0 ==> overlay(count, selected, term_height) == seq![OverlayLine::NoMatches],
        count > 0 ==> ({
            let room: int = if term_height >= 13 {
                10
            } else if term_height >= 3 {
                term_height - 3
            } else {
                0
            };
            let vis: int = if room < count {
                room
            } else {
                count as int
            };
            let start: int = if selected >= vis {
                selected - vis + 1
            } else {
                0
            };
            let shown: int = if start + vis <= count {
                vis
            } else {
                count - start
            };
            let above: Seq<OverlayLine> = if start > 0 {
                seq![OverlayLine::More(start as usize)]
            } else {
                Seq::empty()
            };
            let below: Seq<OverlayLine> = if count - start - vis > 0 {
                seq![OverlayLine::More((count - start - vis) as usize)]
            } else {
                Seq::empty()
            };
            overlay(count, selected, term_height) == above + Seq::new(
                shown as nat,
                |i: int| OverlayLine::Item { index: (start + i) as usize, selected: start + i == selected },
            ) + below
        }),
{
    if count > 0 {
        let o = overlay(count, selected, term_height);
        assert(max_visible(term_height) == if term_height >= 13 {
            10
        } else if term_height >= 3 {
            term_height - 3
        } else {
            0
        });
    }
}

// ----- trimming white space -----

proof fn lemma_trim_end_shape(s: Seq<char>)
    ensures
        ({
            let t = trim_end(s);
            &&& t.len() <= s.len()
            &&& t == s.take(t.len() as int)
            &&& forall|j: int| t.len() <= j < s.len() ==> is_ws(#[trigger] s[j])
            &&& t.len() > 0 ==> !is_ws(t.last())
        }),
    decreases s.len(),
{
    if s.len() > 0 && is_ws(s.last()) {
        lemma_trim_end_shape(s.drop_last());
        let t = trim_end(s.drop_last());
        assert(s.drop_last().take(t.len() as int) =~= s.take(t.len() as int));
        assert forall|j: int| t.len() <= j < s.len() implies is_ws(#[trigger] s[j]) by {
            if j < s.len() - 1 {
                assert(s.drop_last()[j] == s[j]);
            }
        }
    } else {
        assert(s.take(s.len() as int) =~= s);
    }
}

/// Trimming removes exactly the white space at both ends: the result is a
/// piece of the text that starts at some `a`, everything before it and
/// after it is white space, and it neither starts nor ends with white
/// space. So the trimmed text is empty exactly when the text is all white
/// space (which is when a submitted line is not kept in the history).
pub proof fn law_trim(s: Seq<char>)
    ensures
        (trim(s).len() == 0) == (forall|i: int| 0 <= i < s.len() ==> is_ws(#[trigger] s[i])),
        trim(s).len() > 0 ==> !is_ws(trim(s)[0]) && !is_ws(trim(s).last()),
        exists|a: int|
            0 <= a && a + trim(s).len() <= s.len() && #[trigger] s.subrange(a, a + trim(s).len())
                == trim(s) && (forall|i: int| 0 <= i < a ==> is_ws(#[trigger] s[i])) && (forall|
                i: int,
            | a + trim(s).len() <= i < s.len() ==> is_ws(#[trigger] s[i])),
{
    lemma_trim_start(s);
    let a = leading_ws(s) as int;
    let u = trim_start(s);
    lemma_trim_end_shape(u);
    let t = trim(s);
    assert(u == s.skip(a));
    assert(t == u.take(t.len() as int));
    assert(s.subrange(a, a + t.len()) =~= t);
    assert forall|i: int| a + t.len() <= i < s.len() implies is_ws(#[trigger] s[i]) by {
        assert(u[i - a] == s[i]);
    }
    if t.len() > 0 {
        assert(t[0] == s[a]);
    }
    if t.len() == 0 {
        assert forall|i: int| 0 <= i < s.len() implies is_ws(#[trigger] s[i]) by {
            if i >= a {
                assert(u[i - a] == s[i]);
            }
        }
    } else {
        assert(!is_ws(s[a]));
    }
    assert(s.subrange(a, a + t.len()) == t);
}

} // verus!
