//! The line editor behind the interactive prompt: a text buffer with a
//! cursor and a history, and pickers for slash commands, `@` mentions and
//! `$` skills that filter a list of names as the user types.
//!
//! Every operation is stated over [`PickerView`], the mathematical view of
//! the editor state, and keeps [`picker_wf`].

use vstd::prelude::*;

use crate::matching::{match_items, matches_of, strings_view, MatchHow};
use crate::text::{
    any_whitespace, append_chars, chars_of, clone_chars, contains_char, extend_chars, first_index,
    first_index_of, has_ws, last_index, last_index_of, lemma_last_index_of, pop_char, push_char,
    string_from_chars, trim, trim_bounds,
};

verus! {

/// Which list a picker shows.
#[derive(Clone, Copy, Debug, PartialEq, Eq, Structural)]
pub enum PickerKind {
    SlashCommands,
    Mentions,
    Skills,
}

/// Editing mode: plain insertion, or a picker open over a list of names.
#[derive(Debug)]
pub enum InputMode {
    Insert,
    Picker {
        kind: PickerKind,
        filter: String,
        items: Vec<String>,
        matched: Vec<usize>,
        selected: usize,
    },
}

/// How an editing session ends.
#[derive(Debug)]
pub enum PickerResult {
    Submit(String),
    Cancel,
    Exit,
}

/// State of the line editor.
#[derive(Debug)]
pub struct PickerState {
    buffer: Vec<char>,
    cursor: usize,
    history: Vec<String>,
    history_pos: Option<usize>,
    mode: InputMode,
    completions: Vec<String>,
    mention_names: Vec<String>,
    skill_names: Vec<String>,
}

/// View of the editing mode.
pub enum ModeView {
    Insert,
    Picker {
        kind: PickerKind,
        filter: Seq<char>,
        items: Seq<Seq<char>>,
        matched: Seq<usize>,
        selected: usize,
    },
}

/// View of the editor state.
pub struct PickerView {
    pub buffer: Seq<char>,
    pub cursor: usize,
    pub history: Seq<Seq<char>>,
    pub history_pos: Option<usize>,
    pub mode: ModeView,
    pub completions: Seq<Seq<char>>,
    pub mention_names: Seq<Seq<char>>,
    pub skill_names: Seq<Seq<char>>,
}

/// View of a result.
pub enum ResultView {
    Submit(Seq<char>),
    Cancel,
    Exit,
}

impl View for InputMode {
    type V = ModeView;

    open spec fn view(&self) -> ModeView {
        match self {
            InputMode::Insert => ModeView::Insert,
            InputMode::Picker { kind, filter, items, matched, selected } => ModeView::Picker {
                kind: *kind,
                filter: filter@,
                items: strings_view(items@),
                matched: matched@,
                selected: *selected,
            },
        }
    }
}

impl View for PickerResult {
    type V = ResultView;

    open spec fn view(&self) -> ResultView {
        match self {
            PickerResult::Submit(s) => ResultView::Submit(s@),
            PickerResult::Cancel => ResultView::Cancel,
            PickerResult::Exit => ResultView::Exit,
        }
    }
}

pub open spec fn result_view(r: Option<PickerResult>) -> Option<ResultView> {
    match r {
        Some(x) => Some(x@),
        None => None,
    }
}

impl View for PickerState {
    type V = PickerView;

    closed spec fn view(&self) -> PickerView {
        PickerView {
            buffer: self.buffer@,
            cursor: self.cursor,
            history: strings_view(self.history@),
            history_pos: self.history_pos,
            mode: self.mode@,
            completions: strings_view(self.completions@),
            mention_names: strings_view(self.mention_names@),
            skill_names: strings_view(self.skill_names@),
        }
    }
}

/// Well-formedness: the cursor is within the buffer, a history position
/// names an entry, every match is an index of the picker's items, and every
/// list the editor holds has a length that fits in `usize`.
pub open spec fn picker_wf(v: PickerView) -> bool {
    &&& v.cursor <= v.buffer.len()
    &&& v.history_pos matches Some(p) ==> p < v.history.len()
    &&& v.mode matches ModeView::Picker { items, matched, .. } ==> forall|k: int|
        0 <= k < matched.len() ==> #[trigger] matched[k] < items.len()
    &&& v.buffer.len() <= usize::MAX
    &&& v.history.len() <= usize::MAX
    &&& v.completions.len() <= usize::MAX
    &&& v.mention_names.len() <= usize::MAX
    &&& v.skill_names.len() <= usize::MAX
    &&& v.mode matches ModeView::Picker { items, matched, .. } ==> items.len() <= usize::MAX
        && matched.len() <= usize::MAX
}

// ----- the operations, stated over the view -----

/// Insert `c` at the cursor and move past it.
pub open spec fn insert_char_op(v: PickerView, c: char) -> PickerView {
    PickerView {
        buffer: v.buffer.insert(v.cursor as int, c),
        cursor: (v.cursor + 1) as usize,
        history_pos: None,
        ..v
    }
}

/// Delete the character before the cursor.
pub open spec fn delete_before_op(v: PickerView) -> PickerView {
    if v.cursor > 0 && v.buffer.len() > 0 {
        PickerView {
            buffer: v.buffer.remove(v.cursor - 1),
            cursor: (v.cursor - 1) as usize,
            history_pos: None,
            ..v
        }
    } else {
        v
    }
}

/// Delete the character under the cursor.
pub open spec fn delete_after_op(v: PickerView) -> PickerView {
    if v.cursor < v.buffer.len() {
        PickerView { buffer: v.buffer.remove(v.cursor as int), history_pos: None, ..v }
    } else {
        v
    }
}

pub open spec fn cursor_left_op(v: PickerView) -> PickerView {
    if v.cursor > 0 {
        PickerView { cursor: (v.cursor - 1) as usize, ..v }
    } else {
        v
    }
}

pub open spec fn cursor_right_op(v: PickerView) -> PickerView {
    if v.cursor < v.buffer.len() {
        PickerView { cursor: (v.cursor + 1) as usize, ..v }
    } else {
        v
    }
}

pub open spec fn cursor_home_op(v: PickerView) -> PickerView {
    PickerView { cursor: 0, ..v }
}

pub open spec fn cursor_end_op(v: PickerView) -> PickerView {
    PickerView { cursor: v.buffer.len() as usize, ..v }
}

/// Move to just after the last space before the cursor, or to the start.
pub open spec fn word_left_op(v: PickerView) -> PickerView {
    match last_index_of(v.buffer.take(v.cursor as int), ' ') {
        Some(p) => PickerView { cursor: (p + 1) as usize, ..v },
        None => PickerView { cursor: 0, ..v },
    }
}

/// Move to just after the next space at or after the cursor, or to the end.
pub open spec fn word_right_op(v: PickerView) -> PickerView {
    match first_index_of(v.buffer, ' ', v.cursor as int) {
        Some(p) => PickerView { cursor: (p + 1) as usize, ..v },
        None => PickerView { cursor: v.buffer.len() as usize, ..v },
    }
}

/// Show history entry `pos` (0 is the newest) with the cursor at its end.
pub open spec fn show_history(v: PickerView, pos: usize) -> PickerView {
    let line = v.history[v.history.len() - 1 - pos];
    PickerView { history_pos: Some(pos), buffer: line, cursor: line.len() as usize, ..v }
}

/// Step to the next older history entry; from an empty buffer outside the
/// history, to the newest one.
pub open spec fn history_older_op(v: PickerView) -> PickerView {
    match v.history_pos {
        Some(p) => if p + 1 < v.history.len() {
            show_history(v, (p + 1) as usize)
        } else {
            v
        },
        None => if v.history.len() > 0 && v.buffer.len() == 0 {
            show_history(v, 0)
        } else {
            v
        },
    }
}

/// Step to the next newer history entry; past the newest, to an empty
/// buffer outside the history.
pub open spec fn history_newer_op(v: PickerView) -> PickerView {
    match v.history_pos {
        Some(p) => if p == 0 {
            PickerView { history_pos: None, buffer: Seq::empty(), cursor: 0, ..v }
        } else {
            show_history(v, (p - 1) as usize)
        },
        None => v,
    }
}

/// The slash-command query: the filter without its leading `/`.
pub open spec fn slash_query(f: Seq<char>) -> Seq<char> {
    if f.len() > 0 && f[0] == '/' {
        f.drop_first()
    } else {
        f
    }
}

/// Slash commands are matched by substring unless the query is empty.
pub open spec fn slash_how(f: Seq<char>) -> MatchHow {
    if slash_query(f).len() == 0 {
        MatchHow::All
    } else {
        MatchHow::Contains
    }
}

/// Mentions and skills are matched by prefix unless the filter is empty.
pub open spec fn prefix_how(f: Seq<char>) -> MatchHow {
    if f.len() == 0 {
        MatchHow::All
    } else {
        MatchHow::Prefix
    }
}

/// A picker over `items` with the matches of the filter, first selected.
pub open spec fn open_picker(
    v: PickerView,
    kind: PickerKind,
    filter: Seq<char>,
    items: Seq<Seq<char>>,
) -> PickerView {
    let matched = if kind == PickerKind::SlashCommands {
        matches_of(items, slash_query(filter), slash_how(filter))
    } else {
        matches_of(items, filter, prefix_how(filter))
    };
    PickerView {
        mode: ModeView::Picker { kind, filter, items, matched, selected: 0 },
        ..v
    }
}

/// The text typed after the last `trigger` before the cursor.
pub open spec fn trigger_filter(v: PickerView, trigger: char) -> Seq<char> {
    let before = v.buffer.take(v.cursor as int);
    match last_index_of(before, trigger) {
        Some(p) => if p + 1 < before.len() {
            before.skip(p + 1)
        } else {
            Seq::empty()
        },
        None => Seq::empty(),
    }
}

/// Open the slash-command picker, filtered by the whole buffer.
pub open spec fn slash_picker_op(v: PickerView) -> PickerView {
    open_picker(v, PickerKind::SlashCommands, v.buffer, v.completions)
}

/// Open the mention picker, filtered by the text after the last `@`.
pub open spec fn mention_picker_op(v: PickerView) -> PickerView {
    open_picker(v, PickerKind::Mentions, trigger_filter(v, '@'), v.mention_names)
}

/// Open the skill picker, filtered by the text after the last `$`.
pub open spec fn skill_picker_op(v: PickerView) -> PickerView {
    open_picker(v, PickerKind::Skills, trigger_filter(v, '$'), v.skill_names)
}

/// The highlighted item of an open picker with matches.
pub open spec fn selected_item(v: PickerView) -> Option<Seq<char>> {
    match v.mode {
        ModeView::Picker { items, matched, selected, .. } => if matched.len() == 0 {
            None
        } else {
            let idx = if selected < matched.len() {
                selected as int
            } else {
                matched.len() - 1
            };
            Some(items[matched[idx] as int])
        },
        ModeView::Insert => None,
    }
}

/// Buffer with the text from the last `trigger` before the cursor replaced
/// by `trigger`, the item and a space; `None` without such a trigger.
pub open spec fn replace_trigger(v: PickerView, trigger: char, item: Seq<char>) -> Option<
    Seq<char>,
> {
    match last_index_of(v.buffer.take(v.cursor as int), trigger) {
        Some(p) => Some(v.buffer.take(p) + seq![trigger] + item + seq![' ']),
        None => None,
    }
}

/// Put the highlighted item into the buffer and close the picker. A slash
/// command replaces the text from the last `/` before the cursor (or the
/// whole buffer); a mention or skill replaces the text from its trigger and
/// is followed by a space. Without a highlighted item nothing changes.
pub open spec fn apply_selection_op(v: PickerView) -> PickerView {
    match selected_item(v) {
        None => v,
        Some(item) => {
            let nb: Option<Seq<char>> = match v.mode {
                ModeView::Picker { kind, .. } => if kind == PickerKind::SlashCommands {
                    match last_index_of(v.buffer.take(v.cursor as int), '/') {
                        Some(p) => Some(v.buffer.take(p) + item),
                        None => Some(item),
                    }
                } else if kind == PickerKind::Mentions {
                    replace_trigger(v, '@', item)
                } else {
                    replace_trigger(v, '$', item)
                },
                ModeView::Insert => None,
            };
            match nb {
                Some(b) => PickerView {
                    buffer: b,
                    cursor: b.len() as usize,
                    mode: ModeView::Insert,
                    ..v
                },
                None => PickerView { mode: ModeView::Insert, ..v },
            }
        },
    }
}

/// Move the highlight up, wrapping from the first match to the last.
pub open spec fn picker_up_op(v: PickerView) -> PickerView {
    match v.mode {
        ModeView::Picker { kind, filter, items, matched, selected } => if matched.len() > 0 {
            PickerView {
                mode: ModeView::Picker {
                    kind,
                    filter,
                    items,
                    matched,
                    selected: if selected == 0 {
                        (matched.len() - 1) as usize
                    } else {
                        (selected - 1) as usize
                    },
                },
                ..v
            }
        } else {
            v
        },
        ModeView::Insert => v,
    }
}

/// Move the highlight down, wrapping from the last match to the first.
pub open spec fn picker_down_op(v: PickerView) -> PickerView {
    match v.mode {
        ModeView::Picker { kind, filter, items, matched, selected } => if matched.len() > 0 {
            PickerView {
                mode: ModeView::Picker {
                    kind,
                    filter,
                    items,
                    matched,
                    selected: if selected + 1 >= matched.len() {
                        0
                    } else {
                        (selected + 1) as usize
                    },
                },
                ..v
            }
        } else {
            v
        },
        ModeView::Insert => v,
    }
}

/// Picker with a new filter, matched by substring of its slash query.
pub open spec fn refilter(v: PickerView, f: Seq<char>) -> PickerView {
    match v.mode {
        ModeView::Picker { kind, items, .. } => PickerView {
            mode: ModeView::Picker {
                kind,
                filter: f,
                items,
                matched: matches_of(items, slash_query(f), slash_how(f)),
                selected: 0,
            },
            ..v
        },
        ModeView::Insert => v,
    }
}

/// Type `c` into the picker's filter.
pub open spec fn update_filter_op(v: PickerView, c: char) -> PickerView {
    match v.mode {
        ModeView::Picker { filter, .. } => refilter(v, filter.push(c)),
        ModeView::Insert => v,
    }
}

/// Remove the last character of the picker's filter.
pub open spec fn backspace_filter_op(v: PickerView) -> PickerView {
    match v.mode {
        ModeView::Picker { filter, .. } => refilter(
            v,
            if filter.len() > 0 {
                filter.drop_last()
            } else {
                filter
            },
        ),
        ModeView::Insert => v,
    }
}

/// Record a submitted line (blank lines are not kept) and leave the history.
pub open spec fn push_history_op(v: PickerView, line: Seq<char>) -> PickerView {
    PickerView {
        history: if trim(line).len() > 0 {
            v.history.push(line)
        } else {
            v.history
        },
        history_pos: None,
        ..v
    }
}

/// The fresh editor.
pub open spec fn initial_view(
    completions: Seq<Seq<char>>,
    mention_names: Seq<Seq<char>>,
    skill_names: Seq<Seq<char>>,
    history: Seq<Seq<char>>,
) -> PickerView {
    PickerView {
        buffer: Seq::empty(),
        cursor: 0,
        history,
        history_pos: None,
        mode: ModeView::Insert,
        completions,
        mention_names,
        skill_names,
    }
}

/// Text and cursor to display: in a slash picker its filter; in a mention or
/// skill picker the buffer up to the trigger, the trigger and the filter;
/// otherwise the buffer itself.
pub open spec fn display_of(v: PickerView) -> (Seq<char>, usize) {
    match v.mode {
        ModeView::Picker { kind, filter, .. } => if kind == PickerKind::SlashCommands {
            (filter, filter.len() as usize)
        } else {
            let trigger = if kind == PickerKind::Mentions {
                '@'
            } else {
                '$'
            };
            match last_index_of(v.buffer.take(v.cursor as int), trigger) {
                Some(p) => {
                    let d = v.buffer.take(p) + seq![trigger] + filter;
                    (d, d.len() as usize)
                },
                None => (v.buffer, v.cursor),
            }
        },
        ModeView::Insert => (v.buffer, v.cursor),
    }
}

fn clone_strings(v: &Vec<String>) -> (r: Vec<String>)
    ensures
        strings_view(r@) == strings_view(v@),
{
    let r = v.clone();
    assert(strings_view(r@) =~= strings_view(v@)) by {
        assert forall|k: int| 0 <= k < r@.len() implies r@[k]@ == v@[k]@ by {
            assert(vstd::pervasive::cloned::<String>(v@[k], r@[k]));
        }
    }
    r
}

/// A vector's length fits in `usize`.
proof fn lemma_vec_len<T>(v: &Vec<T>)
    ensures
        v@.len() <= usize::MAX,
{
    assert(v@.len() == v.len());
}

impl PickerState {
    /// Well-formedness of the state.
    pub open spec fn wf(&self) -> bool {
        picker_wf(self@)
    }

    /// A fresh editor with an empty buffer.
    pub fn new(
        completions: Vec<String>,
        mention_names: Vec<String>,
        skill_names: Vec<String>,
        history: &[String],
    ) -> (s: Self)
        ensures
            s.wf(),
            s@ == initial_view(
                strings_view(completions@),
                strings_view(mention_names@),
                strings_view(skill_names@),
                strings_view(history@),
            ),
    {
        let mut h: Vec<String> = Vec::new();
        let mut i: usize = 0;
        while i < history.len()
            invariant
                i <= history@.len(),
                h@.len() == i,
                forall|k: int| 0 <= k < i ==> #[trigger] h@[k]@ == history@[k]@,
            decreases history@.len() - i,
        {
            h.push(history[i].clone());
            i = i + 1;
        }
        assert(strings_view(h@) =~= strings_view(history@));
        proof {
            lemma_vec_len(&h);
            lemma_vec_len(&completions);
            lemma_vec_len(&mention_names);
            lemma_vec_len(&skill_names);
        }
        let s = PickerState {
            buffer: Vec::new(),
            cursor: 0,
            history: h,
            history_pos: None,
            mode: InputMode::Insert,
            completions,
            mention_names,
            skill_names,
        };
        assert(s@ =~= initial_view(
            strings_view(completions@),
            strings_view(mention_names@),
            strings_view(skill_names@),
            strings_view(history@),
        ));
        s
    }

    /// The buffer as a string.
    pub fn buffer_str(&self) -> (s: String)
        ensures
            s@ == self@.buffer,
    {
        string_from_chars(self.buffer.as_slice())
    }

    /// The cursor position.
    pub fn cursor(&self) -> (c: usize)
        ensures
            c == self@.cursor,
    {
        self.cursor
    }

    /// Whether a picker is open.
    pub fn in_picker(&self) -> (b: bool)
        ensures
            b == (self@.mode is Picker),
    {
        match self.mode {
            InputMode::Picker { .. } => true,
            InputMode::Insert => false,
        }
    }

    /// Insert `c` at the cursor.
    pub fn insert_char(&mut self, c: char)
        requires
            old(self).wf(),
        ensures
            final(self).wf(),
            final(self)@ == insert_char_op(old(self)@, c),
            final(self)@.cursor == old(self)@.cursor + 1,
    {
        if self.cursor > self.buffer.len() {
            self.cursor = self.buffer.len();
        }
        self.buffer.insert(self.cursor, c);
        proof {
            lemma_vec_len(&self.buffer);
        }
        self.cursor = self.cursor + 1;
        self.history_pos = None;
    }

    /// Delete the character before the cursor.
    pub fn delete_before(&mut self)
        requires
            old(self).wf(),
        ensures
            final(self).wf(),
            final(self)@ == delete_before_op(old(self)@),
    {
        if self.cursor > 0 && self.buffer.len() > 0 {
            self.cursor = self.cursor - 1;
            self.buffer.remove(self.cursor);
            self.history_pos = None;
        }
    }

    /// Delete the character under the cursor.
    pub fn delete_after(&mut self)
        requires
            old(self).wf(),
        ensures
            final(self).wf(),
            final(self)@ == delete_after_op(old(self)@),
    {
        if self.cursor < self.buffer.len() {
            self.buffer.remove(self.cursor);
            self.history_pos = None;
        }
    }

    pub fn cursor_left(&mut self)
        requires
            old(self).wf(),
        ensures
            final(self).wf(),
            final(self)@ == cursor_left_op(old(self)@),
    {
        if self.cursor > 0 {
            self.cursor = self.cursor - 1;
        }
    }

    pub fn cursor_right(&mut self)
        requires
            old(self).wf(),
        ensures
            final(self).wf(),
            final(self)@ == cursor_right_op(old(self)@),
    {
        if self.cursor < self.buffer.len() {
            self.cursor = self.cursor + 1;
        }
    }

    pub fn cursor_home(&mut self)
        requires
            old(self).wf(),
        ensures
            final(self).wf(),
            final(self)@ == cursor_home_op(old(self)@),
    {
        self.cursor = 0;
    }

    pub fn cursor_end(&mut self)
        requires
            old(self).wf(),
        ensures
            final(self).wf(),
            final(self)@ == cursor_end_op(old(self)@),
    {
        self.cursor = self.buffer.len();
    }

    /// Move to the start of the word before the cursor.
    pub fn word_left(&mut self)
        requires
            old(self).wf(),
        ensures
            final(self).wf(),
            final(self)@ == word_left_op(old(self)@),
    {
        proof {
            lemma_last_index_of(self.buffer@.take(self.cursor as int), ' ');
        }
        match last_index(self.buffer.as_slice(), self.cursor, ' ') {
            Some(pos) => {
                self.cursor = pos + 1;
            },
            None => {
                self.cursor = 0;
            },
        }
    }

    /// Move past the next space after the cursor.
    pub fn word_right(&mut self)
        requires
            old(self).wf(),
        ensures
            final(self).wf(),
            final(self)@ == word_right_op(old(self)@),
    {
        match first_index(self.buffer.as_slice(), self.cursor, ' ') {
            Some(pos) => {
                self.cursor = pos + 1;
            },
            None => {
                self.cursor = self.buffer.len();
            },
        }
    }

    fn show_history_exec(&mut self, pos: usize)
        requires
            old(self).wf(),
            pos < old(self)@.history.len(),
        ensures
            final(self).wf(),
            final(self)@ == show_history(old(self)@, pos),
    {
        self.history_pos = Some(pos);
        let idx = self.history.len() - 1 - pos;
        let line = chars_of(self.history[idx].as_str());
        self.buffer = line;
        self.cursor = self.buffer.len();
    }

    /// Recall the next older history entry.
    pub fn enter_history_older(&mut self)
        requires
            old(self).wf(),
        ensures
            final(self).wf(),
            final(self)@ == history_older_op(old(self)@),
    {
        let pos = match self.history_pos {
            Some(p) => {
                if p + 1 < self.history.len() {
                    p + 1
                } else {
                    return ;
                }
            },
            None => {
                if self.history.len() > 0 && self.buffer.len() == 0 {
                    0
                } else {
                    return ;
                }
            },
        };
        self.show_history_exec(pos);
    }

    /// Recall the next newer history entry.
    pub fn enter_history_newer(&mut self)
        requires
            old(self).wf(),
        ensures
            final(self).wf(),
            final(self)@ == history_newer_op(old(self)@),
    {
        match self.history_pos {
            Some(p) => {
                if p == 0 {
                    self.history_pos = None;
                    self.buffer.clear();
                    self.cursor = 0;
                } else {
                    self.show_history_exec(p - 1);
                }
            },
            None => {},
        }
    }

    /// The picker opened over `items` with `filter`.
    fn open_picker_exec(&mut self, kind: PickerKind, filter: String, items: Vec<String>)
        requires
            old(self).wf(),
        ensures
            final(self).wf(),
            final(self)@ == open_picker(old(self)@, kind, filter@, strings_view(items@)),
    {
        let matched = if kind == PickerKind::SlashCommands {
            let q = slash_query_exec(&filter);
            let how = if q.as_str().is_empty() {
                MatchHow::All
            } else {
                MatchHow::Contains
            };
            match_items(&items, q.as_str(), how)
        } else {
            let how = if filter.as_str().is_empty() {
                MatchHow::All
            } else {
                MatchHow::Prefix
            };
            match_items(&items, filter.as_str(), how)
        };
        proof {
            lemma_vec_len(&items);
            lemma_vec_len(&matched);
        }
        self.mode = InputMode::Picker { kind, filter, items, matched, selected: 0 };
    }

    /// The text after the last `trigger` before the cursor.
    fn trigger_filter_exec(&self, trigger: char) -> (f: String)
        requires
            self.wf(),
        ensures
            f@ == trigger_filter(self@, trigger),
    {
        let ghost before = self.buffer@.take(self.cursor as int);
        match last_index(self.buffer.as_slice(), self.cursor, trigger) {
            Some(pos) => {
                if pos + 1 < self.cursor {
                    let mut f = String::new();
                    append_chars(&mut f, self.buffer.as_slice(), pos + 1, self.cursor);
                    assert(f@ =~= before.skip(pos + 1));
                    f
                } else {
                    String::new()
                }
            },
            None => String::new(),
        }
    }

    /// Open the slash-command picker.
    pub fn enter_slash_picker(&mut self)
        requires
            old(self).wf(),
        ensures
            final(self).wf(),
            final(self)@ == slash_picker_op(old(self)@),
    {
        let filter = self.buffer_str();
        let items = clone_strings(&self.completions);
        self.open_picker_exec(PickerKind::SlashCommands, filter, items);
    }

    /// Open the mention picker.
    pub fn enter_mention_picker(&mut self)
        requires
            old(self).wf(),
        ensures
            final(self).wf(),
            final(self)@ == mention_picker_op(old(self)@),
    {
        let filter = self.trigger_filter_exec('@');
        let items = clone_strings(&self.mention_names);
        self.open_picker_exec(PickerKind::Mentions, filter, items);
    }

    /// Open the skill picker.
    pub fn enter_skill_picker(&mut self)
        requires
            old(self).wf(),
        ensures
            final(self).wf(),
            final(self)@ == skill_picker_op(old(self)@),
    {
        let filter = self.trigger_filter_exec('$');
        let items = clone_strings(&self.skill_names);
        self.open_picker_exec(PickerKind::Skills, filter, items);
    }

    /// The highlighted item of an open picker, if it has matches.
    pub fn picker_selected_item(&self) -> (r: Option<String>)
        requires
            self.wf(),
        ensures
            opt_string_view(r) == selected_item(self@),
    {
        match &self.mode {
            InputMode::Picker { items, matched, selected, .. } => {
                if matched.len() == 0 {
                    return None;
                }
                let idx = if *selected < matched.len() {
                    *selected
                } else {
                    matched.len() - 1
                };
                Some(items[matched[idx]].clone())
            },
            InputMode::Insert => None,
        }
    }

    /// Replace the text from the last `trigger` before the cursor with the
    /// trigger, `item` and a space.
    fn replace_trigger_exec(&mut self, trigger: char, item: &String)
        requires
            old(self).wf(),
        ensures
            final(self).wf(),
            match replace_trigger(old(self)@, trigger, item@) {
                Some(b) => final(self)@ == PickerView {
                    buffer: b,
                    cursor: b.len() as usize,
                    ..old(self)@
                },
                None => final(self)@ == old(self)@,
            },
    {
        match last_index(self.buffer.as_slice(), self.cursor, trigger) {
            Some(pos) => {
                let ic = chars_of(item.as_str());
                let mut nb: Vec<char> = Vec::new();
                extend_chars(&mut nb, self.buffer.as_slice(), 0, pos);
                nb.push(trigger);
                extend_chars(&mut nb, ic.as_slice(), 0, ic.len());
                nb.push(' ');
                assert(ic@.subrange(0, ic@.len() as int) =~= ic@);
                assert(nb@ =~= old(self)@.buffer.take(pos as int) + seq![trigger] + item@ + seq![
                    ' ',
                ]);
                self.buffer = nb;
                self.cursor = self.buffer.len();
            },
            None => {},
        }
    }

    /// Put the highlighted item into the buffer and close the picker.
    pub fn apply_picker_selection(&mut self)
        requires
            old(self).wf(),
        ensures
            final(self).wf(),
            final(self)@ == apply_selection_op(old(self)@),
    {
        let item = match self.picker_selected_item() {
            Some(i) => i,
            None => return ,
        };
        let kind = match &self.mode {
            InputMode::Picker { kind, .. } => *kind,
            InputMode::Insert => {
                return ;
            },
        };
        match kind {
            PickerKind::SlashCommands => {
                let ic = chars_of(item.as_str());
                match last_index(self.buffer.as_slice(), self.cursor, '/') {
                    Some(slash_pos) => {
                        let mut nb: Vec<char> = Vec::new();
                        extend_chars(&mut nb, self.buffer.as_slice(), 0, slash_pos);
                        extend_chars(&mut nb, ic.as_slice(), 0, ic.len());
                        assert(ic@.subrange(0, ic@.len() as int) =~= ic@);
                        assert(nb@ =~= old(self)@.buffer.take(slash_pos as int) + item@);
                        self.buffer = nb;
                    },
                    None => {
                        self.buffer = ic;
                    },
                }
                self.cursor = self.buffer.len();
            },
            PickerKind::Mentions => {
                self.replace_trigger_exec('@', &item);
            },
            PickerKind::Skills => {
                self.replace_trigger_exec('$', &item);
            },
        }
        self.mode = InputMode::Insert;
    }

    /// Move the highlight up, wrapping around.
    pub fn picker_up(&mut self)
        requires
            old(self).wf(),
        ensures
            final(self).wf(),
            final(self)@ == picker_up_op(old(self)@),
    {
        match &mut self.mode {
            InputMode::Picker { selected, matched, .. } => {
                if matched.len() > 0 {
                    *selected = if *selected == 0 {
                        matched.len() - 1
                    } else {
                        *selected - 1
                    };
                }
            },
            InputMode::Insert => {},
        }
    }

    /// Move the highlight down, wrapping around.
    pub fn picker_down(&mut self)
        requires
            old(self).wf(),
        ensures
            final(self).wf(),
            final(self)@ == picker_down_op(old(self)@),
    {
        match &mut self.mode {
            InputMode::Picker { selected, matched, .. } => {
                if matched.len() > 0 {
                    *selected = if *selected >= matched.len() - 1 {
                        0
                    } else {
                        *selected + 1
                    };
                }
            },
            InputMode::Insert => {},
        }
    }

    /// Recompute the matches of an open picker for filter `f`.
    fn refilter_exec(&mut self, f: String)
        requires
            old(self).wf(),
            old(self)@.mode is Picker,
        ensures
            final(self).wf(),
            final(self)@ == refilter(old(self)@, f@),
    {
        match &mut self.mode {
            InputMode::Picker { filter, items, matched, selected, .. } => {
                let q = slash_query_exec(&f);
                let how = if q.as_str().is_empty() {
                    MatchHow::All
                } else {
                    MatchHow::Contains
                };
                let m = match_items(items, q.as_str(), how);
                proof {
                    lemma_vec_len(&m);
                }
                *matched = m;
                *filter = f;
                *selected = 0;
            },
            InputMode::Insert => {},
        }
    }

    /// Type `c` into the picker's filter.
    pub fn picker_update_filter(&mut self, c: char)
        requires
            old(self).wf(),
        ensures
            final(self).wf(),
            final(self)@ == update_filter_op(old(self)@, c),
    {
        let f = match &self.mode {
            InputMode::Picker { filter, .. } => {
                let mut f = filter.clone();
                push_char(&mut f, c);
                f
            },
            InputMode::Insert => {
                return ;
            },
        };
        self.refilter_exec(f);
    }

    /// Remove the last character of the picker's filter.
    pub fn picker_backspace_filter(&mut self)
        requires
            old(self).wf(),
        ensures
            final(self).wf(),
            final(self)@ == backspace_filter_op(old(self)@),
    {
        let f = match &self.mode {
            InputMode::Picker { filter, .. } => {
                let mut f = filter.clone();
                pop_char(&mut f);
                f
            },
            InputMode::Insert => {
                return ;
            },
        };
        self.refilter_exec(f);
    }

    /// Record a submitted line unless it is blank.
    pub fn push_history(&mut self, line: String)
        requires
            old(self).wf(),
        ensures
            final(self).wf(),
            final(self)@ == push_history_op(old(self)@, line@),
    {
        let cs = chars_of(line.as_str());
        let (a, b) = trim_bounds(cs.as_slice());
        if a < b {
            self.history.push(line);
            assert(strings_view(self.history@) =~= old(self)@.history.push(line@));
            proof {
                lemma_vec_len(&self.history);
            }
        }
        self.history_pos = None;
    }
}

/// Text and cursor to display for the editor state.
pub fn build_display(state: &PickerState) -> (r: (Vec<char>, usize))
    requires
        state.wf(),
    ensures
        (r.0@, r.1) == display_of(state@),
{
    match &state.mode {
        InputMode::Picker { kind: PickerKind::SlashCommands, filter, .. } => {
            let chars = chars_of(filter.as_str());
            let cursor = chars.len();
            (chars, cursor)
        },
        InputMode::Picker { kind, filter, .. } => {
            let trigger = if *kind == PickerKind::Mentions {
                '@'
            } else {
                '$'
            };
            match last_index(state.buffer.as_slice(), state.cursor, trigger) {
                Some(pos) => {
                    let fc = chars_of(filter.as_str());
                    let mut display: Vec<char> = Vec::new();
                    extend_chars(&mut display, state.buffer.as_slice(), 0, pos);
                    display.push(trigger);
                    extend_chars(&mut display, fc.as_slice(), 0, fc.len());
                    assert(fc@.subrange(0, fc@.len() as int) =~= fc@);
                    assert(display@ =~= state@.buffer.take(pos as int) + seq![trigger] + filter@);
                    let cursor = display.len();
                    (display, cursor)
                },
                None => (clone_chars(&state.buffer), state.cursor),
            }
        },
        InputMode::Insert => (clone_chars(&state.buffer), state.cursor),
    }
}

pub open spec fn opt_string_view(o: Option<String>) -> Option<Seq<char>> {
    match o {
        Some(s) => Some(s@),
        None => None,
    }
}

/// The filter without its leading `/`.
fn slash_query_exec(f: &String) -> (q: String)
    ensures
        q@ == slash_query(f@),
{
    let cs = chars_of(f.as_str());
    if cs.len() > 0 && cs[0] == '/' {
        let mut q = String::new();
        append_chars(&mut q, cs.as_slice(), 1, cs.len());
        assert(cs@.subrange(1, cs@.len() as int) =~= cs@.drop_first());
        q
    } else {
        f.clone()
    }
}

// ----- events -----

/// A key, as the editor distinguishes keys.
#[derive(Clone, Copy, Debug, PartialEq, Eq, Structural)]
pub enum Key {
    Enter,
    Tab,
    Char(char),
    Backspace,
    Delete,
    Left,
    Right,
    Home,
    End,
    Up,
    Down,
    Esc,
    Other,
}

/// The modifier keys held with a key: none, exactly Shift, exactly Control,
/// or any other combination.
#[derive(Clone, Copy, Debug, PartialEq, Eq, Structural)]
pub enum KeyModifiers {
    Plain,
    Shift,
    Control,
    Other,
}

/// An input event.
#[derive(Debug)]
pub enum PickerEvent {
    /// A key press, repeat or (with `release`) release.
    Key { key: Key, modifiers: KeyModifiers, release: bool },
    /// Pasted text.
    Paste(String),
    /// Anything else (resizes, focus and mouse events).
    Other,
}

/// Whether the text after the last `trigger` before the cursor is a
/// non-empty word without white space.
pub open spec fn trigger_word(v: PickerView, trigger: char) -> bool {
    let before = v.buffer.take(v.cursor as int);
    match last_index_of(before, trigger) {
        Some(p) => {
            let after = before.skip(p + 1);
            after.len() > 0 && !has_ws(after)
        },
        None => false,
    }
}

/// Enter in insert mode: a bare `/` opens the slash picker, a trailing
/// `@word` or `$word` its picker (without modifiers); Shift inserts a new
/// line; otherwise the line is recorded and submitted.
pub open spec fn enter_op(v: PickerView, m: KeyModifiers) -> (PickerView, Option<ResultView>) {
    if m == KeyModifiers::Plain && trim(v.buffer) == seq!['/'] {
        (slash_picker_op(v), None)
    } else if m == KeyModifiers::Plain && trigger_word(v, '@') {
        (mention_picker_op(v), None)
    } else if m == KeyModifiers::Plain && trigger_word(v, '$') {
        (skill_picker_op(v), None)
    } else if m == KeyModifiers::Shift {
        (insert_char_op(v, '\n'), None)
    } else {
        (push_history_op(v, v.buffer), Some(ResultView::Submit(v.buffer)))
    }
}

/// Tab in insert mode opens the picker that the text before the cursor
/// asks for: slash commands after a leading `/`, else mentions after an
/// `@`, else skills after a `$`, else slash commands.
pub open spec fn tab_op(v: PickerView) -> PickerView {
    let before = v.buffer.take(v.cursor as int);
    if before.len() > 0 && before[0] == '/' {
        slash_picker_op(v)
    } else if before.contains('@') {
        mention_picker_op(v)
    } else if before.contains('$') {
        skill_picker_op(v)
    } else {
        slash_picker_op(v)
    }
}

/// Typing `c` in insert mode: the character is inserted; a `/` that makes
/// up the whole buffer opens the slash picker, and the first `@` or `$`
/// before the cursor opens its picker.
pub open spec fn typed_op(v: PickerView, c: char) -> PickerView {
    let w = insert_char_op(v, c);
    if c == '/' && w.buffer.len() == 1 {
        slash_picker_op(w)
    } else if c == '@' {
        if !w.buffer.take(w.cursor - 1).contains('@') {
            mention_picker_op(w)
        } else {
            w
        }
    } else if c == '$' {
        if !w.buffer.take(w.cursor - 1).contains('$') {
            skill_picker_op(w)
        } else {
            w
        }
    } else {
        w
    }
}

/// Insert each pasted character in turn.
pub open spec fn paste_insert(v: PickerView, s: Seq<char>) -> PickerView
    decreases s.len(),
{
    if s.len() == 0 {
        v
    } else {
        paste_insert(insert_char_op(v, s[0]), s.drop_first())
    }
}

/// Type each pasted character into the picker's filter, skipping line
/// breaks.
pub open spec fn paste_filter(v: PickerView, s: Seq<char>) -> PickerView
    decreases s.len(),
{
    if s.len() == 0 {
        v
    } else if s[0] == '\n' || s[0] == '\r' {
        paste_filter(v, s.drop_first())
    } else {
        paste_filter(update_filter_op(v, s[0]), s.drop_first())
    }
}

/// A key in insert mode.
pub open spec fn insert_key_op(v: PickerView, k: Key, m: KeyModifiers) -> (
    PickerView,
    Option<ResultView>,
) {
    match k {
        Key::Enter => enter_op(v, m),
        Key::Tab => (tab_op(v), None),
        Key::Char(c) => if (c == 'c' || c == 'd') && m == KeyModifiers::Control {
            (v, Some(ResultView::Exit))
        } else {
            (typed_op(v, c), None)
        },
        Key::Backspace => (delete_before_op(v), None),
        Key::Delete => (delete_after_op(v), None),
        Key::Left => (cursor_left_op(v), None),
        Key::Right => (cursor_right_op(v), None),
        Key::Home => (cursor_home_op(v), None),
        Key::End => (cursor_end_op(v), None),
        Key::Up => (history_older_op(v), None),
        Key::Down => (history_newer_op(v), None),
        Key::Esc => (v, Some(ResultView::Cancel)),
        Key::Other => (v, None),
    }
}

/// The character that opened a picker of the given kind.
pub open spec fn trigger_of(kind: PickerKind) -> char {
    match kind {
        PickerKind::SlashCommands => '/',
        PickerKind::Mentions => '@',
        PickerKind::Skills => '$',
    }
}

/// Whether the picker's filter holds nothing typed (a slash picker's filter
/// may hold its `/`).
pub open spec fn filter_is_empty(v: PickerView) -> bool {
    match v.mode {
        ModeView::Picker { kind, filter, .. } => if kind == PickerKind::SlashCommands {
            filter.len() == 0 || filter == seq!['/']
        } else {
            filter.len() == 0
        },
        ModeView::Insert => false,
    }
}

/// Close the picker, deleting the last trigger character before the cursor.
pub open spec fn remove_trigger_op(v: PickerView) -> PickerView {
    match v.mode {
        ModeView::Picker { kind, .. } => match last_index_of(
            v.buffer.take(v.cursor as int),
            trigger_of(kind),
        ) {
            Some(p) => PickerView {
                buffer: v.buffer.remove(p),
                cursor: (v.cursor - 1) as usize,
                mode: ModeView::Insert,
                ..v
            },
            None => PickerView { mode: ModeView::Insert, ..v },
        },
        ModeView::Insert => v,
    }
}

/// After a cursor move, a mention or skill picker is filtered by the text
/// between its last trigger and the cursor (unchanged without a trigger).
pub open spec fn retrigger_op(v: PickerView) -> PickerView {
    match v.mode {
        ModeView::Picker { kind, items, .. } => if kind == PickerKind::SlashCommands {
            v
        } else {
            let before = v.buffer.take(v.cursor as int);
            match last_index_of(before, trigger_of(kind)) {
                Some(p) => {
                    let nf = before.skip(p + 1);
                    PickerView {
                        mode: ModeView::Picker {
                            kind,
                            filter: nf,
                            items,
                            matched: matches_of(items, nf, prefix_how(nf)),
                            selected: 0,
                        },
                        ..v
                    }
                },
                None => v,
            }
        },
        ModeView::Insert => v,
    }
}

/// A key while a picker is open.
pub open spec fn picker_key_op(v: PickerView, k: Key, m: KeyModifiers) -> (
    PickerView,
    Option<ResultView>,
) {
    match k {
        Key::Up => (picker_up_op(v), None),
        Key::Down => (picker_down_op(v), None),
        Key::Enter => (apply_selection_op(v), None),
        Key::Tab => (apply_selection_op(v), None),
        Key::Esc => {
            let (b, c) = display_of(v);
            (PickerView { buffer: b, cursor: c, mode: ModeView::Insert, ..v }, None)
        },
        Key::Backspace => if filter_is_empty(v) {
            (remove_trigger_op(v), None)
        } else {
            (backspace_filter_op(v), None)
        },
        Key::Char(c) => if (c == 'c' || c == 'd') && m == KeyModifiers::Control {
            (v, Some(ResultView::Exit))
        } else {
            (update_filter_op(v, c), None)
        },
        Key::Left => (retrigger_op(cursor_left_op(v)), None),
        Key::Right => (retrigger_op(cursor_right_op(v)), None),
        _ => (v, None),
    }
}

/// The editor's response to an event: the next state and, when editing
/// ends, the result.
pub open spec fn step(v: PickerView, e: PickerEvent) -> (PickerView, Option<ResultView>) {
    match e {
        PickerEvent::Key { key, modifiers, release } => if release {
            (v, None)
        } else {
            match v.mode {
                ModeView::Insert => insert_key_op(v, key, modifiers),
                ModeView::Picker { .. } => picker_key_op(v, key, modifiers),
            }
        },
        PickerEvent::Paste(s) => (
            match v.mode {
                ModeView::Insert => paste_insert(v, s@),
                ModeView::Picker { .. } => paste_filter(v, s@),
            },
            None,
        ),
        PickerEvent::Other => (v, None),
    }
}

impl PickerState {
    fn trigger_word_exec(&self, trigger: char) -> (r: bool)
        requires
            self.wf(),
        ensures
            r == trigger_word(self@, trigger),
    {
        let ghost before = self.buffer@.take(self.cursor as int);
        match last_index(self.buffer.as_slice(), self.cursor, trigger) {
            Some(p) => {
                assert(before.skip(p + 1) =~= self.buffer@.subrange(p + 1, self.cursor as int));
                p + 1 < self.cursor && !any_whitespace(self.buffer.as_slice(), p + 1, self.cursor)
            },
            None => false,
        }
    }

    fn enter_key(&mut self, m: KeyModifiers) -> (r: Option<PickerResult>)
        requires
            old(self).wf(),
        ensures
            final(self).wf(),
            (final(self)@, result_view(r)) == enter_op(old(self)@, m),
    {
        let line = self.buffer_str();
        if m == KeyModifiers::Plain {
            let (a, b) = trim_bounds(self.buffer.as_slice());
            let bare_slash = b - a == 1 && self.buffer[a] == '/';
            proof {
                let t = self.buffer@.subrange(a as int, b as int);
                if bare_slash {
                    assert(t =~= seq!['/']);
                } else if t == seq!['/'] {
                    assert(t[0] == self.buffer@[a as int]);
                }
            }
            if bare_slash {
                self.enter_slash_picker();
                return None;
            }
            if self.trigger_word_exec('@') {
                self.enter_mention_picker();
                return None;
            }
            if self.trigger_word_exec('$') {
                self.enter_skill_picker();
                return None;
            }
        }
        if m == KeyModifiers::Shift {
            self.insert_char('\n');
            return None;
        }
        let submitted = line.clone();
        self.push_history(line);
        Some(PickerResult::Submit(submitted))
    }

    fn tab_key(&mut self)
        requires
            old(self).wf(),
        ensures
            final(self).wf(),
            final(self)@ == tab_op(old(self)@),
    {
        let ghost before = self.buffer@.take(self.cursor as int);
        if self.cursor > 0 && self.buffer[0] == '/' {
            self.enter_slash_picker();
        } else if contains_char(self.buffer.as_slice(), self.cursor, '@') {
            self.enter_mention_picker();
        } else if contains_char(self.buffer.as_slice(), self.cursor, '$') {
            self.enter_skill_picker();
        } else {
            self.enter_slash_picker();
        }
    }

    fn typed_key(&mut self, c: char)
        requires
            old(self).wf(),
        ensures
            final(self).wf(),
            final(self)@ == typed_op(old(self)@, c),
    {
        self.insert_char(c);
        if c == '/' && self.buffer.len() == 1 {
            self.enter_slash_picker();
        } else if c == '@' {
            if !contains_char(self.buffer.as_slice(), self.cursor - 1, '@') {
                self.enter_mention_picker();
            }
        } else if c == '$' {
            if !contains_char(self.buffer.as_slice(), self.cursor - 1, '$') {
                self.enter_skill_picker();
            }
        }
    }

    fn paste_insert_exec(&mut self, text: &String)
        requires
            old(self).wf(),
        ensures
            final(self).wf(),
            final(self)@ == paste_insert(old(self)@, text@),
    {
        let cs = chars_of(text.as_str());
        let mut i: usize = 0;
        assert(cs@.skip(0) =~= cs@);
        while i < cs.len()
            invariant
                self.wf(),
                i <= cs@.len(),
                paste_insert(old(self)@, cs@) == paste_insert(self@, cs@.skip(i as int)),
            decreases cs@.len() - i,
        {
            assert(cs@.skip(i as int).drop_first() =~= cs@.skip(i + 1));
            self.insert_char(cs[i]);
            i = i + 1;
        }
    }

    fn paste_filter_exec(&mut self, text: &String)
        requires
            old(self).wf(),
        ensures
            final(self).wf(),
            final(self)@ == paste_filter(old(self)@, text@),
    {
        let cs = chars_of(text.as_str());
        let mut i: usize = 0;
        assert(cs@.skip(0) =~= cs@);
        while i < cs.len()
            invariant
                self.wf(),
                i <= cs@.len(),
                paste_filter(old(self)@, cs@) == paste_filter(self@, cs@.skip(i as int)),
            decreases cs@.len() - i,
        {
            assert(cs@.skip(i as int).drop_first() =~= cs@.skip(i + 1));
            let c = cs[i];
            if c != '\n' && c != '\r' {
                self.picker_update_filter(c);
            }
            i = i + 1;
        }
    }

    fn filter_is_empty_exec(&self) -> (r: bool)
        ensures
            r == filter_is_empty(self@),
    {
        match &self.mode {
            InputMode::Picker { kind, filter, .. } => {
                let fc = chars_of(filter.as_str());
                if *kind == PickerKind::SlashCommands {
                    let r = fc.len() == 0 || (fc.len() == 1 && fc[0] == '/');
                    proof {
                        if fc.len() == 1 && fc[0] == '/' {
                            assert(fc@ =~= seq!['/']);
                        }
                    }
                    r
                } else {
                    fc.len() == 0
                }
            },
            InputMode::Insert => false,
        }
    }

    fn remove_trigger(&mut self)
        requires
            old(self).wf(),
            old(self)@.mode is Picker,
        ensures
            final(self).wf(),
            final(self)@ == remove_trigger_op(old(self)@),
    {
        let trigger = match &self.mode {
            InputMode::Picker { kind, .. } => match kind {
                PickerKind::SlashCommands => '/',
                PickerKind::Mentions => '@',
                PickerKind::Skills => '$',
            },
            InputMode::Insert => {
                return ;
            },
        };
        if let Some(pos) = last_index(self.buffer.as_slice(), self.cursor, trigger) {
            self.buffer.remove(pos);
            if self.cursor > pos {
                self.cursor = self.cursor - 1;
            }
        }
        self.mode = InputMode::Insert;
    }

    fn retrigger(&mut self)
        requires
            old(self).wf(),
        ensures
            final(self).wf(),
            final(self)@ == retrigger_op(old(self)@),
    {
        let trigger = match &self.mode {
            InputMode::Picker { kind: PickerKind::Mentions, .. } => '@',
            InputMode::Picker { kind: PickerKind::Skills, .. } => '$',
            _ => {
                return ;
            },
        };
        let ghost before = self.buffer@.take(self.cursor as int);
        if let Some(p) = last_index(self.buffer.as_slice(), self.cursor, trigger) {
            let mut nf = String::new();
            append_chars(&mut nf, self.buffer.as_slice(), p + 1, self.cursor);
            assert(nf@ =~= before.skip(p + 1));
            match &mut self.mode {
                InputMode::Picker { filter, items, matched, selected, .. } => {
                    let how = if nf.as_str().is_empty() {
                        MatchHow::All
                    } else {
                        MatchHow::Prefix
                    };
                    let m = match_items(items, nf.as_str(), how);
                    proof {
                        lemma_vec_len(&m);
                    }
                    *matched = m;
                    *filter = nf;
                    *selected = 0;
                },
                InputMode::Insert => {},
            }
        }
    }

    /// Apply one input event. Returns how editing ends, if it does.
    pub fn handle_event(&mut self, event: &PickerEvent) -> (r: Option<PickerResult>)
        requires
            old(self).wf(),
        ensures
            final(self).wf(),
            (final(self)@, result_view(r)) == step(old(self)@, *event),
    {
        match event {
            PickerEvent::Key { key, modifiers, release } => {
                if *release {
                    return None;
                }
                if !self.in_picker() {
                    match *key {
                        Key::Enter => self.enter_key(*modifiers),
                        Key::Tab => {
                            self.tab_key();
                            None
                        },
                        Key::Char(c) => {
                            if (c == 'c' || c == 'd') && *modifiers == KeyModifiers::Control {
                                return Some(PickerResult::Exit);
                            }
                            self.typed_key(c);
                            None
                        },
                        Key::Backspace => {
                            self.delete_before();
                            None
                        },
                        Key::Delete => {
                            self.delete_after();
                            None
                        },
                        Key::Left => {
                            self.cursor_left();
                            None
                        },
                        Key::Right => {
                            self.cursor_right();
                            None
                        },
                        Key::Home => {
                            self.cursor_home();
                            None
                        },
                        Key::End => {
                            self.cursor_end();
                            None
                        },
                        Key::Up => {
                            self.enter_history_older();
                            None
                        },
                        Key::Down => {
                            self.enter_history_newer();
                            None
                        },
                        Key::Esc => Some(PickerResult::Cancel),
                        Key::Other => None,
                    }
                } else {
                    match *key {
                        Key::Up => {
                            self.picker_up();
                            None
                        },
                        Key::Down => {
                            self.picker_down();
                            None
                        },
                        Key::Enter | Key::Tab => {
                            self.apply_picker_selection();
                            None
                        },
                        Key::Esc => {
                            let (buf, cur) = build_display(self);
                            proof {
                                lemma_vec_len(&buf);
                            }
                            self.buffer = buf;
                            self.cursor = cur;
                            self.mode = InputMode::Insert;
                            None
                        },
                        Key::Backspace => {
                            if self.filter_is_empty_exec() {
                                self.remove_trigger();
                            } else {
                                self.picker_backspace_filter();
                            }
                            None
                        },
                        Key::Char(c) => {
                            if (c == 'c' || c == 'd') && *modifiers == KeyModifiers::Control {
                                return Some(PickerResult::Exit);
                            }
                            self.picker_update_filter(c);
                            None
                        },
                        Key::Left => {
                            self.cursor_left();
                            self.retrigger();
                            None
                        },
                        Key::Right => {
                            self.cursor_right();
                            self.retrigger();
                            None
                        },
                        _ => None,
                    }
                }
            },
            PickerEvent::Paste(text) => {
                if self.in_picker() {
                    self.paste_filter_exec(text);
                } else {
                    self.paste_insert_exec(text);
                }
                None
            },
            PickerEvent::Other => None,
        }
    }
}

/// The names an open picker lists, in order, with the highlighted position
/// and the query its names are matched against.
pub open spec fn listing_of(v: PickerView) -> Option<(Seq<Seq<char>>, usize, Seq<char>)> {
    match v.mode {
        ModeView::Picker { filter, items, matched, selected, .. } => Some(
            (
                matched.map_values(|i: usize| items[i as int]),
                selected,
                slash_query(filter),
            ),
        ),
        ModeView::Insert => None,
    }
}

pub open spec fn listing_view(r: Option<(Vec<String>, usize, String)>) -> Option<
    (Seq<Seq<char>>, usize, Seq<char>),
> {
    match r {
        Some((names, sel, q)) => Some((strings_view(names@), sel, q@)),
        None => None,
    }
}

impl PickerState {
    /// What an open picker lists (see [`listing_of`]).
    pub fn picker_listing(&self) -> (r: Option<(Vec<String>, usize, String)>)
        requires
            self.wf(),
        ensures
            listing_view(r) == listing_of(self@),
    {
        match &self.mode {
            InputMode::Picker { filter, items, matched, selected, .. } => {
                let mut names: Vec<String> = Vec::new();
                let mut k: usize = 0;
                while k < matched.len()
                    invariant
                        k <= matched@.len(),
                        forall|j: int| 0 <= j < matched@.len() ==> #[trigger] matched@[j] < items@.len(),
                        names@.len() == k,
                        forall|j: int| 0 <= j < k ==> #[trigger] names@[j]@ == items@[matched@[j] as int]@,
                    decreases matched@.len() - k,
                {
                    names.push(items[matched[k]].clone());
                    k = k + 1;
                }
                let q = slash_query_exec(filter);
                let r = Some((names, *selected, q));
                assert(strings_view(names@) =~= matched@.map_values(
                    |i: usize| strings_view(items@)[i as int],
                ));
                r
            },
            InputMode::Insert => None,
        }
    }
}

} // verus!
