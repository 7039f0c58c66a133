//! What the prompt shows: the visible part of the input line and where the
//! cursor stands on it, the lines of a picker's list, and the part of an
//! item that matches the query. Display widths come from `unicode-width`.

use vstd::prelude::*;

use crate::matching::lowercase;
use crate::matching::to_lowercase;
use crate::text::{chars_of, last_index, last_index_of, str_eq, string_from_chars};

verus! {

/// What `UnicodeWidthStr::width` returns for a text: its display width in
/// columns (a function of the text alone).
pub uninterp spec fn str_width(s: Seq<char>) -> usize;

/// What `UnicodeWidthChar::width` returns for a character: its display
/// width, or `None` for a control character.
pub uninterp spec fn char_width(c: char) -> Option<usize>;

/// `UnicodeWidthStr::width`. Claims: the result is `str_width` of the text.
#[verifier::external_body]
pub(crate) fn text_width(s: &str) -> (w: usize)
    ensures
        w == str_width(s@),
{
    unicode_width::UnicodeWidthStr::width(s)
}

/// `UnicodeWidthChar::width`. Claims: the result is `char_width` of `c`;
/// printable ASCII (`' '` to `'~'`) is one column wide, and the C0 and C1
/// control characters (below `' '`, and `'\u{7f}'` to `'\u{9f}'`) have no
/// width.
#[verifier::external_body]
pub(crate) fn char_display_width(c: char) -> (w: Option<usize>)
    ensures
        w == char_width(c),
        0x20 <= (c as u32) < 0x7f ==> w == Some(1usize),
        (c as u32) < 0x20 || (0x7f <= (c as u32) < 0xa0) ==> w is None,
{
    unicode_width::UnicodeWidthChar::width(c)
}

/// Width of a character, counting control characters as zero.
pub open spec fn width0(c: char) -> nat {
    match char_width(c) {
        Some(w) => w as nat,
        None => 0,
    }
}

/// Sum of the widths of the characters.
pub open spec fn widths(s: Seq<char>) -> nat
    decreases s.len(),
{
    if s.len() == 0 {
        0
    } else {
        width0(s[0]) + widths(s.drop_first())
    }
}

/// Widths add up over concatenation.
pub proof fn lemma_widths_concat(a: Seq<char>, b: Seq<char>)
    ensures
        widths(a + b) == widths(a) + widths(b),
    decreases a.len(),
{
    if a.len() > 0 {
        lemma_widths_concat(a.drop_first(), b);
        assert((a + b).drop_first() =~= a.drop_first() + b);
    } else {
        assert(a + b =~= b);
    }
}

/// Start of the longest suffix of `cs[..i]` whose widths fit in `room`
/// columns, walking from the right and stopping at the first character
/// that does not fit.
pub open spec fn fit_start(cs: Seq<char>, i: int, room: int) -> int
    decreases i,
{
    if i <= 0 {
        0
    } else if width0(cs[i - 1]) <= room {
        fit_start(cs, i - 1, room - width0(cs[i - 1]))
    } else {
        i
    }
}

/// Columns left for text after a prompt `prompt_width` wide and one spare
/// column.
pub open spec fn text_room(term_cols: usize, prompt_width: usize) -> int {
    if term_cols >= prompt_width + 1 {
        term_cols - prompt_width - 1
    } else {
        0
    }
}

/// Cursor column when the line fits: on a continuation line the width of
/// the text after the last line break before the cursor; on the first line
/// the prompt width plus the width of the text before the cursor (capped at
/// the largest `usize`).
pub open spec fn col_on_last_line(line: Seq<char>, idx: int, prompt_width: usize) -> int {
    let before = line.take(idx);
    match last_index_of(before, '\n') {
        Some(p) => str_width(before.skip(p + 1)) as int,
        None => {
            let sum = prompt_width + str_width(before);
            if sum <= usize::MAX {
                sum
            } else {
                usize::MAX as int
            }
        },
    }
}

/// The visible text of the input line and the cursor column. A line wider
/// than the room after the prompt shows only the suffix that fits (without
/// the prompt) and the cursor's column within it.
pub open spec fn input_line_layout(
    prompt_width: usize,
    line: Seq<char>,
    cursor: usize,
    term_cols: usize,
) -> (Seq<char>, int) {
    let room = text_room(term_cols, prompt_width);
    let idx = if cursor <= line.len() {
        cursor as int
    } else {
        line.len() as int
    };
    if str_width(line) > room {
        let split = fit_start(line, line.len() as int, room);
        let d = line.skip(split);
        let shifted0 = if cursor >= split {
            cursor - split
        } else {
            0
        };
        let shifted = if shifted0 <= d.len() {
            shifted0
        } else {
            d.len() as int
        };
        (d, widths(d.take(shifted)) as int)
    } else {
        (line, col_on_last_line(line, idx, prompt_width))
    }
}

/// Width of a character, counting control characters as zero.
fn width_or_zero(c: char) -> (w: usize)
    ensures
        w == width0(c),
{
    match char_display_width(c) {
        Some(w) => w,
        None => 0,
    }
}

/// Sum of the widths of `cs[from..to]`.
fn widths_exec(cs: &[char], from: usize, to: usize, Ghost(bound): Ghost<nat>) -> (r: usize)
    requires
        from <= to <= cs@.len(),
        widths(cs@.subrange(from as int, to as int)) <= bound,
        bound <= usize::MAX,
    ensures
        r == widths(cs@.subrange(from as int, to as int)),
{
    let mut k = to;
    let mut total: usize = 0;
    assert(cs@.subrange(to as int, to as int) =~= Seq::<char>::empty());
    while k > from
        invariant
            from <= k <= to <= cs@.len(),
            total == widths(cs@.subrange(k as int, to as int)),
            widths(cs@.subrange(from as int, to as int)) <= bound,
            bound <= usize::MAX,
        decreases k,
    {
        proof {
            lemma_widths_concat(
                cs@.subrange(from as int, k - 1),
                cs@.subrange(k - 1, to as int),
            );
            assert(cs@.subrange(from as int, k - 1) + cs@.subrange(k - 1, to as int)
                =~= cs@.subrange(from as int, to as int));
            assert(cs@.subrange(k - 1, to as int).drop_first() =~= cs@.subrange(
                k as int,
                to as int,
            ));
        }
        let w = match char_display_width(cs[k - 1]) {
            Some(w) => w,
            None => 0,
        };
        total = total + w;
        k = k - 1;
    }
    total
}

/// Where the cursor stands when the whole line fits.
fn col_on_last_line_exec(line: &[char], idx: usize, prompt_width: usize) -> (c: usize)
    requires
        idx <= line@.len(),
    ensures
        c == col_on_last_line(line@, idx as int, prompt_width),
{
    let ghost before = line@.take(idx as int);
    match last_index(line, idx, '\n') {
        Some(p) => {
            let after = string_from_chars_range(line, p + 1, idx);
            assert(after@ =~= before.skip(p + 1));
            text_width(after.as_str())
        },
        None => {
            let b = string_from_chars_range(line, 0, idx);
            assert(b@ =~= before);
            prompt_width.saturating_add(text_width(b.as_str()))
        },
    }
}

fn string_from_chars_range(cs: &[char], from: usize, to: usize) -> (s: String)
    requires
        from <= to <= cs@.len(),
    ensures
        s@ == cs@.subrange(from as int, to as int),
{
    let mut s = String::new();
    crate::text::append_chars(&mut s, cs, from, to);
    s
}

/// The visible text of the input line and the cursor column on screen,
/// for a prompt, the buffer and cursor, and a terminal `term_cols` wide.
pub fn layout_input_line(prompt: &str, buffer: &[char], cursor: usize, term_cols: usize) -> (r: (
    String,
    usize,
))
    ensures
        (r.0@, r.1 as int) == input_line_layout(str_width(prompt@), buffer@, cursor, term_cols),
{
    let prompt_width = text_width(prompt);
    let line = string_from_chars(buffer);
    let room: usize = if term_cols > prompt_width {
        term_cols - prompt_width - 1
    } else {
        0
    };
    let idx = if cursor <= buffer.len() {
        cursor
    } else {
        buffer.len()
    };
    if text_width(line.as_str()) > room {
        let n = buffer.len();
        let mut remaining = room;
        let mut split = n;
        let ghost fit = fit_start(buffer@, n as int, room as int);
        assert(buffer@.subrange(n as int, n as int) =~= Seq::<char>::empty());
        while split > 0 && width_or_zero(buffer[split - 1]) <= remaining
            invariant
                split <= n == buffer@.len(),
                remaining <= room,
                fit == fit_start(buffer@, n as int, room as int),
                widths(buffer@.subrange(split as int, n as int)) + remaining == room,
                fit == fit_start(buffer@, split as int, remaining as int),
            decreases split,
        {
            let w = width_or_zero(buffer[split - 1]);
            assert(buffer@.subrange(split - 1, n as int).drop_first() =~= buffer@.subrange(
                split as int,
                n as int,
            ));
            remaining = remaining - w;
            split = split - 1;
        }
        assert(fit == split);
        let d_len = n - split;
        let shifted0 = if cursor >= split {
            cursor - split
        } else {
            0
        };
        let shifted = if shifted0 <= d_len {
            shifted0
        } else {
            d_len
        };
        proof {
            lemma_widths_concat(
                buffer@.subrange(split as int, split + shifted),
                buffer@.subrange(split + shifted, n as int),
            );
            assert(buffer@.subrange(split as int, split + shifted) + buffer@.subrange(
                split + shifted,
                n as int,
            ) =~= buffer@.subrange(split as int, n as int));
            assert(buffer@.skip(split as int).take(shifted as int) =~= buffer@.subrange(
                split as int,
                split + shifted,
            ));
        }
        let vis = widths_exec(buffer, split, split + shifted, Ghost(room as nat));
        let d = string_from_chars_range(buffer, split, n);
        assert(d@ =~= buffer@.skip(split as int));
        (d, vis)
    } else {
        let col = col_on_last_line_exec(buffer, idx, prompt_width);
        (line, col)
    }
}

// ----- the picker's list -----

/// One line of a picker's list.
#[derive(Clone, Copy, Debug, PartialEq, Eq, Structural)]
pub enum OverlayLine {
    /// The list is empty.
    NoMatches,
    /// This many matches are hidden above or below.
    More(usize),
    /// The match at this position of the list, and whether it is selected.
    Item { index: usize, selected: bool },
}

/// Rows the list may use: at most ten, leaving three rows of the terminal.
pub open spec fn max_visible(term_height: usize) -> int {
    let avail = if term_height >= 3 {
        term_height - 3
    } else {
        0
    };
    if avail < 10 {
        avail
    } else {
        10
    }
}

/// The line for the `i`-th shown item of a list scrolled by `scroll`.
pub open spec fn item_line(scroll: int, selected: usize, i: int) -> OverlayLine {
    OverlayLine::Item { index: (scroll + i) as usize, selected: scroll + i == selected }
}

/// Lines of the list for `count` matches with `selected` highlighted: the
/// window of at most `max_visible` items is scrolled so that the selection
/// is its last line when it lies below the first window; hidden matches
/// above and below are counted.
pub open spec fn overlay(count: usize, selected: usize, term_height: usize) -> Seq<OverlayLine> {
    if count == 0 {
        seq![OverlayLine::NoMatches]
    } else {
        let visible = if max_visible(term_height) < count {
            max_visible(term_height)
        } else {
            count as int
        };
        let scroll = if selected >= visible {
            selected - visible + 1
        } else {
            0
        };
        let shown = if scroll + visible <= count {
            visible
        } else if scroll <= count {
            count - scroll
        } else {
            0
        };
        let above = if scroll > 0 {
            seq![OverlayLine::More(scroll as usize)]
        } else {
            Seq::empty()
        };
        let items = Seq::new(shown as nat, |i: int| item_line(scroll, selected, i));
        let below_n = count - (scroll + visible);
        let below = if below_n > 0 {
            seq![OverlayLine::More(below_n as usize)]
        } else {
            Seq::empty()
        };
        above + items + below
    }
}

/// The lines of a picker's list (see [`overlay`]).
pub fn overlay_lines(count: usize, selected: usize, term_height: usize) -> (r: Vec<OverlayLine>)
    requires
        count > 0 ==> selected < usize::MAX,
    ensures
        r@ == overlay(count, selected, term_height),
{
    let mut out: Vec<OverlayLine> = Vec::new();
    if count == 0 {
        out.push(OverlayLine::NoMatches);
        assert(out@ =~= overlay(count, selected, term_height));
        return out;
    }
    let avail = term_height.saturating_sub(3);
    let max_vis = if avail < 10 {
        avail
    } else {
        10
    };
    let visible = if max_vis < count {
        max_vis
    } else {
        count
    };
    let scroll = if selected >= visible {
        selected - visible + 1
    } else {
        0
    };
    if scroll > 0 {
        out.push(OverlayLine::More(scroll));
    }
    let ghost above = out@;
    let mut i: usize = 0;
    while i < visible && scroll + i < count
        invariant
            i <= visible <= count,
            scroll + visible <= usize::MAX,
            out@ == above + Seq::new(i as nat, |k: int| item_line(scroll as int, selected, k)),
            i == 0 || scroll + i <= count,
        decreases visible - i,
    {
        let idx = scroll + i;
        out.push(OverlayLine::Item { index: idx, selected: idx == selected });
        assert(above + Seq::new((i + 1) as nat, |k: int| item_line(scroll as int, selected, k))
            =~= (above + Seq::new(i as nat, |k: int| item_line(scroll as int, selected, k))).push(
            item_line(scroll as int, selected, i as int),
        ));
        i = i + 1;
    }
    let ghost shown = i;
    let below = count.saturating_sub(scroll + visible);
    if below > 0 {
        out.push(OverlayLine::More(below));
    }
    proof {
        let o = overlay(count, selected, term_height);
        assert(shown == if scroll + visible <= count {
            visible as int
        } else if scroll <= count {
            count - scroll
        } else {
            0
        });
        assert(out@ =~= o);
    }
    out
}

// ----- highlighting -----

/// What `char::to_lowercase` yields for a character.
pub uninterp spec fn char_lowercase(c: char) -> Seq<char>;

/// `char::to_lowercase`, collected. Claims: the result is `char_lowercase`
/// of `c`.
#[verifier::external_body]
pub(crate) fn char_to_lowercase(c: char) -> (r: String)
    ensures
        r@ == char_lowercase(c),
{
    c.to_lowercase().collect()
}

/// Whether `text[i..i+q.len()]` matches `q` character by character,
/// ignoring case.
pub open spec fn window_matches(text: Seq<char>, q: Seq<char>, i: int) -> bool {
    0 <= i && i + q.len() <= text.len() && forall|j: int|
        0 <= j < q.len() ==> char_lowercase(#[trigger] text[i + j]) == char_lowercase(q[j])
}

/// The first position at or after `from` where `q` matches ignoring case.
pub open spec fn first_window(text: Seq<char>, q: Seq<char>, from: int) -> Option<int>
    decreases text.len() + 1 - from,
{
    if from < 0 || from + q.len() > text.len() {
        None
    } else if window_matches(text, q, from) {
        Some(from)
    } else {
        first_window(text, q, from + 1)
    }
}

/// The text split around the first case-insensitive match of the
/// lowercased query: before, matched part, after. `None` when the query
/// lowercases to nothing or does not occur.
pub open spec fn highlight_of(text: Seq<char>, query: Seq<char>) -> Option<
    (Seq<char>, Seq<char>, Seq<char>),
> {
    let q = lowercase(query);
    if q.len() == 0 {
        None
    } else {
        match first_window(text, q, 0) {
            Some(i) => Some(
                (text.take(i), text.subrange(i, i + q.len()), text.skip(i + q.len())),
            ),
            None => None,
        }
    }
}

pub open spec fn split_view(r: Option<(String, String, String)>) -> Option<
    (Seq<char>, Seq<char>, Seq<char>),
> {
    match r {
        Some((a, b, c)) => Some((a@, b@, c@)),
        None => None,
    }
}

/// Split `text` around the part that matches `query`, for highlighting.
pub fn highlight_spans(text: &str, query: &str) -> (r: Option<(String, String, String)>)
    ensures
        split_view(r) == highlight_of(text@, query@),
{
    let ql = chars_of(to_lowercase(query).as_str());
    if ql.len() == 0 {
        return None;
    }
    let tc = chars_of(text);
    let mut qlow: Vec<String> = Vec::new();
    let mut k: usize = 0;
    while k < ql.len()
        invariant
            k <= ql@.len(),
            qlow@.len() == k,
            forall|j: int| 0 <= j < k ==> #[trigger] qlow@[j]@ == char_lowercase(ql@[j]),
        decreases ql@.len() - k,
    {
        qlow.push(char_to_lowercase(ql[k]));
        k = k + 1;
    }
    let n = tc.len();
    let m = ql.len();
    let mut i: usize = 0;
    while m <= n && i <= n - m
        invariant
            ql@ == lowercase(query@),
            tc@ == text@,
            n == tc@.len(),
            m == ql@.len(),
            m > 0,
            qlow@.len() == m,
            forall|j: int| 0 <= j < m ==> #[trigger] qlow@[j]@ == char_lowercase(ql@[j]),
            first_window(tc@, ql@, 0) == first_window(tc@, ql@, i as int),
        decreases n - i,
    {
        if window_at(tc.as_slice(), &qlow, i, Ghost(ql@)) {
            let before = string_from_chars_range(tc.as_slice(), 0, i);
            let matched = string_from_chars_range(tc.as_slice(), i, i + m);
            let after = string_from_chars_range(tc.as_slice(), i + m, n);
            assert(before@ =~= tc@.take(i as int));
            assert(after@ =~= tc@.skip(i + m));
            assert(first_window(tc@, ql@, i as int) == Some(i as int));
            assert(highlight_of(text@, query@) == Some((before@, matched@, after@)));
            let r = Some((before, matched, after));
            assert(split_view(r) == Some((before@, matched@, after@)));
            return r;
        }
        i = i + 1;
    }
    None
}

/// Whether `tc[i..]` matches the query whose lowercased characters are
/// `qlow`, ignoring case.
fn window_at(tc: &[char], qlow: &Vec<String>, i: usize, Ghost(q): Ghost<Seq<char>>) -> (r: bool)
    requires
        qlow@.len() == q.len(),
        forall|j: int| 0 <= j < q.len() ==> #[trigger] qlow@[j]@ == char_lowercase(q[j]),
        i + q.len() <= tc@.len(),
    ensures
        r == window_matches(tc@, q, i as int),
{
    let m = qlow.len();
    let n = tc.len();
    let mut j: usize = 0;
    while j < m
        invariant
            n == tc@.len(),
            m == q.len(),
            qlow@.len() == m,
            forall|t: int| 0 <= t < m ==> #[trigger] qlow@[t]@ == char_lowercase(q[t]),
            i + m <= tc@.len(),
            j <= m,
            forall|t: int| 0 <= t < j ==> char_lowercase(#[trigger] tc@[i + t]) == char_lowercase(q[t]),
        decreases m - j,
    {
        let tl = char_to_lowercase(tc[i + j]);
        if !str_eq(tl.as_str(), qlow[j].as_str()) {
            assert(char_lowercase(tc@[i + j as int]) != char_lowercase(q[j as int]));
            return false;
        }
        j = j + 1;
    }
    true
}

} // verus!
