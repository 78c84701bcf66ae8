//! Editor state: tabs, the selection anchor, and reversible edit records.
use vstd::prelude::*;

use crate::document::{lemma_split_nonempty, split_lines, split_text};
use crate::text::{
    lemma_boundary, lemma_boundary_prefix, lemma_boundary_suffix, lemma_byte_len_concat,
    lemma_byte_len_single, lemma_index_of_offset, offset,
    byte_len, byte_length, char_index, char_width, cut, insert_char, insert_text, lemma_byte_len_bounds,
    lemma_pos_order, on_boundary, pos, push_text, remove_char, split_at_byte, substring, width,
};

verus! {

/// The anchor of a selection, set where Select or Select-Line mode began.
pub struct Visual {
    pub v_x: usize,
    pub v_y: usize,
    pub on: bool,
}

impl Visual {
    /// An inactive anchor at the origin.
    pub fn new() -> (v: Self)
        ensures
            v.v_x == 0,
            v.v_y == 0,
            !v.on,
    {
        Visual { v_x: 0, v_y: 0, on: false }
    }
}

/// One open buffer with its cursor, view offsets and edit history.
pub struct Tab {
    pub file_name: String,
    pub saved: bool,
    pub input_box: Vec<String>,
    pub cursor_x: i32,
    pub cursor_y: i32,
    pub scroll_x: u16,
    pub scroll_y: u16,
    pub undo_stack: Vec<EditRecord>,
    pub redo_stack: Vec<EditRecord>,
    /// One flag per record of `undo_stack`, counted from the top: whether
    /// that record removed the only line of the buffer.
    pub undo_emptied: Vec<bool>,
    /// The same flags for `redo_stack`.
    pub redo_emptied: Vec<bool>,
}

/// A tab seen as values: name, saved flag, text, cursor, view offsets and
/// the undo and redo stacks (last element on top).
pub struct TabView {
    pub file_name: Seq<char>,
    pub saved: bool,
    pub text: Seq<Seq<char>>,
    pub cursor_x: int,
    pub cursor_y: int,
    pub scroll_x: int,
    pub scroll_y: int,
    pub undo: Seq<EditOp>,
    pub redo: Seq<EditOp>,
}

impl View for Tab {
    type V = TabView;

    open spec fn view(&self) -> TabView {
        TabView {
            file_name: self.file_name@,
            saved: self.saved,
            text: lines_of(self.input_box@),
            cursor_x: self.cursor_x as int,
            cursor_y: self.cursor_y as int,
            scroll_x: self.scroll_x as int,
            scroll_y: self.scroll_y as int,
            undo: history(self.undo_stack@, self.undo_emptied@),
            redo: history(self.redo_stack@, self.redo_emptied@),
        }
    }
}

/// What the caller does after a key: go on, stop (close the tab or leave
/// the mode, as each handler says), or first write or read a file.
#[derive(Clone, Copy, Debug, PartialEq, Eq, Structural)]
pub enum Effect {
    Continue,
    Stop,
    WriteFile,
    ReadFile,
}

/// The view of a fresh tab.
pub open spec fn fresh_tab() -> TabView {
    TabView {
        file_name: Seq::empty(),
        saved: true,
        text: seq![Seq::empty()],
        cursor_x: 0,
        cursor_y: 0,
        scroll_x: 0,
        scroll_y: 0,
        undo: Seq::empty(),
        redo: Seq::empty(),
    }
}

impl Tab {
    /// The text of this tab, one char sequence per line.
    pub open spec fn text(&self) -> Seq<Seq<char>> {
        lines_of(self.input_box@)
    }

    /// A fresh, unnamed tab holding one empty line.
    pub fn new() -> (t: Self)
        ensures
            t@ == fresh_tab(),
    {
        let t = Self {
            file_name: String::new(),
            saved: true,
            input_box: vec![String::new()],
            cursor_x: 0,
            cursor_y: 0,
            scroll_y: 0,
            scroll_x: 0,
            undo_stack: Vec::new(),
            redo_stack: Vec::new(),
            undo_emptied: Vec::new(),
            redo_emptied: Vec::new(),
        };
        proof {
            assert(t.text() =~= seq![Seq::<char>::empty()]);
            assert(history(t.undo_stack@, t.undo_emptied@) =~= Seq::<EditOp>::empty());
            assert(history(t.redo_stack@, t.redo_emptied@) =~= Seq::<EditOp>::empty());
        }
        t
    }

    /// Marks the tab as holding unsaved changes.
    pub fn unsave(&mut self)
        ensures
            final(self)@ == (TabView { saved: false, ..old(self)@ }),
            final(self).input_box == old(self).input_box,
            final(self).undo_stack == old(self).undo_stack,
            final(self).redo_stack == old(self).redo_stack,
            final(self).undo_emptied == old(self).undo_emptied,
            final(self).redo_emptied == old(self).redo_emptied,
            final(self).file_name == old(self).file_name,
            final(self).cursor_x == old(self).cursor_x,
            final(self).cursor_y == old(self).cursor_y,
    {
        self.saved = false;
    }
}

/// The text of a buffer: one char sequence per line.
pub open spec fn lines_of(v: Seq<String>) -> Seq<Seq<char>> {
    v.map_values(|s: String| s@)
}

/// A reversible edit. Rows are line indices, columns byte offsets.
pub enum EditRecord {
    InsertChar { row: usize, col: usize, ch: char },
    DeleteChar { row: usize, col: usize, ch: char },
    InsertString { row: usize, col: usize, text: String },
    RemoveString { row: usize, col: usize, text: String },
    SplitLine { row: usize, col: usize },
    MergeLine { row: usize, prev_len: usize },
    InsertLine { row: usize },
    RemoveLine { row: usize, content: String },
    RemoveEmptyLine { row: usize },
    MoveLine { from: usize, to: usize },
    Paste { row: usize, col: usize, text: String },
}

/// An edit record with its texts seen as char sequences. `RemoveOnlyLine` is a
/// `RemoveLine` of the only line of a buffer, which leaves one empty line.
pub enum EditOp {
    InsertChar { row: int, col: int, ch: char },
    DeleteChar { row: int, col: int, ch: char },
    InsertString { row: int, col: int, text: Seq<char> },
    RemoveString { row: int, col: int, text: Seq<char> },
    SplitLine { row: int, col: int },
    MergeLine { row: int, prev_len: int },
    InsertLine { row: int },
    RemoveLine { row: int, content: Seq<char> },
    RemoveEmptyLine { row: int },
    RemoveOnlyLine { row: int, content: Seq<char> },
    MoveLine { from: int, to: int },
    Paste { row: int, col: int, text: Seq<char> },
}

impl View for EditRecord {
    type V = EditOp;

    open spec fn view(&self) -> EditOp {
        match self {
            EditRecord::InsertChar { row, col, ch } => EditOp::InsertChar {
                row: *row as int,
                col: *col as int,
                ch: *ch,
            },
            EditRecord::DeleteChar { row, col, ch } => EditOp::DeleteChar {
                row: *row as int,
                col: *col as int,
                ch: *ch,
            },
            EditRecord::InsertString { row, col, text } => EditOp::InsertString {
                row: *row as int,
                col: *col as int,
                text: text@,
            },
            EditRecord::RemoveString { row, col, text } => EditOp::RemoveString {
                row: *row as int,
                col: *col as int,
                text: text@,
            },
            EditRecord::SplitLine { row, col } => EditOp::SplitLine {
                row: *row as int,
                col: *col as int,
            },
            EditRecord::MergeLine { row, prev_len } => EditOp::MergeLine {
                row: *row as int,
                prev_len: *prev_len as int,
            },
            EditRecord::InsertLine { row } => EditOp::InsertLine { row: *row as int },
            EditRecord::RemoveLine { row, content } => EditOp::RemoveLine {
                row: *row as int,
                content: content@,
            },
            EditRecord::RemoveEmptyLine { row } => EditOp::RemoveEmptyLine { row: *row as int },
            EditRecord::MoveLine { from, to } => EditOp::MoveLine {
                from: *from as int,
                to: *to as int,
            },
            EditRecord::Paste { row, col, text } => EditOp::Paste {
                row: *row as int,
                col: *col as int,
                text: text@,
            },
        }
    }
}

/// A record as undo and redo read it, given whether it removed the only
/// line of the buffer.
pub open spec fn tagged(op: EditOp, emptied: bool) -> EditOp {
    match op {
        EditOp::RemoveLine { row, content } => if emptied {
            EditOp::RemoveOnlyLine { row, content }
        } else {
            op
        },
        _ => op,
    }
}

/// The flag of entry `i` of a stack of `n` records, with the flags `m`
/// aligned at the top of the stack; missing flags are unset.
pub open spec fn flag_at(m: Seq<bool>, n: int, i: int) -> bool {
    let j = m.len() - n + i;
    0 <= j && m[j]
}

/// A stack of edit records with their flags, seen as operations.
pub open spec fn history(v: Seq<EditRecord>, m: Seq<bool>) -> Seq<EditOp> {
    Seq::new(v.len(), |i: int| tagged(v[i]@, flag_at(m, v.len() as int, i)))
}

/// Pushing a record and its flag pushes one operation.
pub proof fn lemma_history_push(v: Seq<EditRecord>, m: Seq<bool>, r: EditRecord, e: bool)
    ensures
        history(v.push(r), m.push(e)) == history(v, m).push(tagged(r@, e)),
{
    assert(history(v.push(r), m.push(e)) =~= history(v, m).push(tagged(r@, e)));
}

/// The flag on top of `m`; unset where there is none.
pub open spec fn top_flag(m: Seq<bool>) -> bool {
    m.len() > 0 && m.last()
}

/// `m` without its top flag, if it has one.
pub open spec fn pop_flag(m: Seq<bool>) -> Seq<bool> {
    if m.len() > 0 {
        m.drop_last()
    } else {
        m
    }
}

/// Popping a record and its flag pops one operation.
pub proof fn lemma_history_pop(v: Seq<EditRecord>, m: Seq<bool>)
    requires
        v.len() > 0,
    ensures
        history(v.drop_last(), pop_flag(m)) == history(v, m).drop_last(),
        history(v, m).last() == tagged(v.last()@, top_flag(m)),
{
    assert(history(v.drop_last(), pop_flag(m)) =~= history(v, m).drop_last());
}

/// Each `RemoveOnlyLine` in a tab's history stands for a `RemoveLine`
/// record on its stack, with the same row and content.
pub proof fn law_only_line_removal_is_remove_line(t: Tab, i: int)
    ensures
        0 <= i < t@.undo.len() ==> (t@.undo[i] is RemoveOnlyLine ==> t.undo_stack@[i]@
            == (EditOp::RemoveLine {
            row: t@.undo[i]->RemoveOnlyLine_row,
            content: t@.undo[i]->RemoveOnlyLine_content,
        })),
        0 <= i < t@.redo.len() ==> (t@.redo[i] is RemoveOnlyLine ==> t.redo_stack@[i]@
            == (EditOp::RemoveLine {
            row: t@.redo[i]->RemoveOnlyLine_row,
            content: t@.redo[i]->RemoveOnlyLine_content,
        })),
{
}

/// An empty stack has no operations, whatever flags are left.
pub proof fn lemma_history_empty(v: Seq<EditRecord>, m: Seq<bool>)
    requires
        v.len() == 0,
    ensures
        history(v, m) == Seq::<EditOp>::empty(),
{
    assert(history(v, m) =~= Seq::<EditOp>::empty());
}

/// The positions and texts of `op` are small enough for the cursor arithmetic.
pub open spec fn op_fits(op: EditOp) -> bool {
    match op {
        EditOp::InsertChar { row, col, .. } => row <= i32::MAX && col <= i32::MAX,
        EditOp::DeleteChar { row, col, .. } => row <= i32::MAX && col <= i32::MAX,
        EditOp::InsertString { row, col, text } => row <= i32::MAX && col <= i32::MAX
            && byte_len(text) <= i32::MAX,
        EditOp::RemoveString { row, col, text } => row <= i32::MAX && col <= i32::MAX
            && byte_len(text) <= i32::MAX,
        EditOp::SplitLine { row, col } => row <= i32::MAX && col <= i32::MAX,
        EditOp::MergeLine { row, prev_len } => row <= i32::MAX && prev_len <= i32::MAX,
        EditOp::InsertLine { row } => row <= i32::MAX,
        EditOp::RemoveLine { row, .. } => row <= i32::MAX,
        EditOp::RemoveEmptyLine { row } => row <= i32::MAX,
        EditOp::RemoveOnlyLine { row, .. } => row <= i32::MAX,
        EditOp::MoveLine { from, to } => from <= i32::MAX && to <= i32::MAX,
        EditOp::Paste { row, col, text } => row <= i32::MAX && col <= i32::MAX && paste_end(
            row,
            col,
            text,
        ).0 <= i32::MAX && paste_end(row, col, text).1 <= i32::MAX,
    }
}

/// The lines that replace line `s` when `parts` are pasted at char `k` of
/// it: the first part joins the text before `k`, the last one the text
/// after it.
pub open spec fn pasted_lines(s: Seq<char>, k: int, parts: Seq<Seq<char>>) -> Seq<Seq<char>> {
    let m = parts.update(0, s.take(k) + parts[0]);
    m.update(m.len() - 1, m.last() + s.skip(k))
}

/// Where text pasted at (`row`, byte `col`) ends: the row and byte column
/// just after its last char.
pub open spec fn paste_end(row: int, col: int, text: Seq<char>) -> (int, int) {
    let parts = split_lines(text);
    if parts.len() == 1 {
        (row, col + byte_len(text))
    } else {
        (row + parts.len() - 1, byte_len(parts.last()) as int)
    }
}

/// Redoing `op` on `b` stays within bounds (std would panic otherwise).
pub open spec fn forward_ok(op: EditOp, b: Seq<Seq<char>>) -> bool {
    match op {
        EditOp::InsertChar { row, col, .. } => 0 <= row && row < b.len() && on_boundary(b[row], col),
        EditOp::DeleteChar { row, col, .. } => 0 <= row && row < b.len() && on_boundary(b[row], col)
            && pos(b[row], col) < b[row].len(),
        EditOp::InsertString { row, col, .. } => 0 <= row && row < b.len() && on_boundary(
            b[row],
            col,
        ),
        EditOp::RemoveString { row, col, text } => 0 <= row && row < b.len() && on_boundary(
            b[row],
            col,
        ) && on_boundary(b[row], col + byte_len(text)),
        EditOp::SplitLine { row, col } => 0 <= row && row < b.len() && on_boundary(b[row], col),
        EditOp::MergeLine { row, .. } => 0 <= row && row + 1 < b.len(),
        EditOp::InsertLine { row } => 0 <= row && row <= b.len(),
        EditOp::RemoveLine { row, .. } => 0 <= row && row < b.len(),
        EditOp::RemoveEmptyLine { row } => 0 <= row && row < b.len(),
        EditOp::RemoveOnlyLine { row, .. } => 0 <= row && row < b.len(),
        EditOp::MoveLine { from, to } => 0 <= from < b.len() && 0 <= to < b.len(),
        EditOp::Paste { row, col, .. } => 0 <= row && row < b.len() && on_boundary(b[row], col),
    }
}

/// The text after redoing `op` on `b`.
pub open spec fn forward_lines(op: EditOp, b: Seq<Seq<char>>) -> Seq<Seq<char>> {
    match op {
        EditOp::InsertChar { row, col, ch } => b.update(
            row,
            b[row].insert(pos(b[row], col), ch),
        ),
        EditOp::DeleteChar { row, col, .. } => b.update(
            row,
            b[row].remove(pos(b[row], col)),
        ),
        EditOp::InsertString { row, col, text } => b.update(
            row,
            b[row].take(pos(b[row], col)) + text + b[row].skip(
                pos(b[row], col),
            ),
        ),
        EditOp::RemoveString { row, col, text } => b.update(
            row,
            b[row].take(pos(b[row], col)) + b[row].skip(
                pos(b[row], col + byte_len(text)),
            ),
        ),
        EditOp::SplitLine { row, col } => b.update(
            row,
            b[row].take(pos(b[row], col)),
        ).insert(row + 1, b[row].skip(pos(b[row], col))),
        EditOp::MergeLine { row, .. } => b.remove(row + 1).update(
            row,
            b[row] + b[row + 1],
        ),
        EditOp::InsertLine { row } => b.insert(row, Seq::empty()),
        EditOp::RemoveLine { row, .. } => b.remove(row),
        EditOp::RemoveEmptyLine { row } => b.remove(row),
        EditOp::RemoveOnlyLine { row, .. } => b.update(row, Seq::empty()),
        EditOp::MoveLine { from, to } => b.remove(from).insert(to, b[from]),
        EditOp::Paste { row, col, text } => b.take(row) + pasted_lines(
            b[row],
            pos(b[row], col),
            split_lines(text),
        ) + b.skip(row + 1),
    }
}

/// The cursor (row, byte column) after redoing `op`.
pub open spec fn forward_cursor(op: EditOp) -> (int, int) {
    match op {
        EditOp::InsertChar { row, col, ch } => (row, col + char_width(ch)),
        EditOp::DeleteChar { row, col, .. } => (row, col as int),
        EditOp::InsertString { row, col, text } => (row, col + byte_len(text)),
        EditOp::RemoveString { row, col, .. } => (row, col as int),
        EditOp::SplitLine { row, .. } => (row + 1, 0),
        EditOp::MergeLine { row, prev_len } => (row, prev_len as int),
        EditOp::InsertLine { row } => (row, 0),
        EditOp::RemoveLine { row, .. } => (row, 0),
        EditOp::RemoveEmptyLine { row } => (row, 0),
        EditOp::RemoveOnlyLine { row, .. } => (row, 0),
        EditOp::MoveLine { to, .. } => (to, 0),
        EditOp::Paste { row, col, text } => paste_end(row, col, text),
    }
}

/// Undoing `op` on `b` stays within bounds (std would panic otherwise).
pub open spec fn inverse_ok(op: EditOp, b: Seq<Seq<char>>) -> bool {
    match op {
        EditOp::InsertChar { row, col, .. } => 0 <= row && row < b.len() && on_boundary(b[row], col)
            && pos(b[row], col) < b[row].len(),
        EditOp::DeleteChar { row, col, .. } => 0 <= row && row < b.len() && on_boundary(b[row], col),
        EditOp::InsertString { row, col, text } => 0 <= row && row < b.len() && on_boundary(
            b[row],
            col,
        ) && on_boundary(b[row], col + byte_len(text)),
        EditOp::RemoveString { row, col, .. } => 0 <= row && row < b.len() && on_boundary(
            b[row],
            col,
        ),
        EditOp::SplitLine { row, .. } => 0 <= row && row + 1 < b.len(),
        EditOp::MergeLine { row, prev_len } => 0 <= row && row < b.len() && on_boundary(
            b[row],
            prev_len,
        ),
        EditOp::InsertLine { row } => 0 <= row && row < b.len(),
        EditOp::RemoveLine { row, .. } => 0 <= row && row <= b.len(),
        EditOp::RemoveEmptyLine { row } => 0 <= row && row <= b.len(),
        EditOp::RemoveOnlyLine { row, .. } => 0 <= row && row < b.len(),
        EditOp::MoveLine { from, to } => 0 <= from < b.len() && 0 <= to < b.len(),
        EditOp::Paste { row, col, text } => {
            let (er, ec) = paste_end(row, col, text);
            &&& 0 <= row && er < b.len()
            &&& on_boundary(b[row], col)
            &&& on_boundary(b[er], ec)
        },
    }
}

/// The text after undoing `op` on `b`.
pub open spec fn inverse_lines(op: EditOp, b: Seq<Seq<char>>) -> Seq<Seq<char>> {
    match op {
        EditOp::InsertChar { row, col, .. } => b.update(
            row,
            b[row].remove(pos(b[row], col)),
        ),
        EditOp::DeleteChar { row, col, ch } => b.update(
            row,
            b[row].insert(pos(b[row], col), ch),
        ),
        EditOp::InsertString { row, col, text } => b.update(
            row,
            b[row].take(pos(b[row], col)) + b[row].skip(
                pos(b[row], col + byte_len(text)),
            ),
        ),
        EditOp::RemoveString { row, col, text } => b.update(
            row,
            b[row].take(pos(b[row], col)) + text + b[row].skip(
                pos(b[row], col),
            ),
        ),
        EditOp::SplitLine { row, .. } => b.remove(row + 1).update(
            row,
            b[row] + b[row + 1],
        ),
        EditOp::MergeLine { row, prev_len } => b.update(
            row,
            b[row].take(pos(b[row], prev_len as int)),
        ).insert(row + 1, b[row].skip(pos(b[row], prev_len as int))),
        EditOp::InsertLine { row } => b.remove(row),
        EditOp::RemoveLine { row, content } => b.insert(row, content),
        EditOp::RemoveEmptyLine { row } => b.insert(row, Seq::empty()),
        EditOp::RemoveOnlyLine { row, content } => b.update(row, content),
        EditOp::MoveLine { from, to } => b.remove(to).insert(from, b[to]),
        EditOp::Paste { row, col, text } => {
            let (er, ec) = paste_end(row, col, text);
            b.take(row) + seq![b[row].take(pos(b[row], col)) + b[er].skip(pos(b[er], ec))]
                + b.skip(er + 1)
        },
    }
}

/// The cursor (row, byte column) after undoing `op`.
pub open spec fn inverse_cursor(op: EditOp) -> (int, int) {
    match op {
        EditOp::InsertChar { row, col, .. } => (row, col as int),
        EditOp::DeleteChar { row, col, .. } => (row, col + 1),
        EditOp::InsertString { row, col, .. } => (row, col as int),
        EditOp::RemoveString { row, col, text } => (row, col + byte_len(text)),
        EditOp::SplitLine { row, col } => (row, col as int),
        EditOp::MergeLine { row, .. } => (row + 1, 0),
        EditOp::InsertLine { row } => (row, 0),
        EditOp::RemoveLine { row, .. } => (row, 0),
        EditOp::RemoveEmptyLine { row } => (row, 0),
        EditOp::RemoveOnlyLine { row, .. } => (row, 0),
        EditOp::MoveLine { from, .. } => (from, 0),
        EditOp::Paste { row, col, .. } => (row, col),
    }
}

/// Undoes `record` on `input_box`; returns where the cursor goes.
pub fn apply_inverse(record: &EditRecord, input_box: &mut Vec<String>) -> (r: (usize, usize))
    requires
        inverse_ok(record@, lines_of(old(input_box)@)),
        op_fits(record@),
    ensures
        lines_of(final(input_box)@) == inverse_lines(record@, lines_of(old(input_box)@)),
        (r.0 as int, r.1 as int) == inverse_cursor(record@),
{
    let ghost b = lines_of(input_box@);
    match record {
        EditRecord::InsertChar { row, col, .. } => {
            remove_char(&mut input_box[*row], *col);
            proof {
                assert(lines_of(input_box@) =~= inverse_lines(record@, b));
            }
            (*row, *col)
        },
        EditRecord::DeleteChar { row, col, ch } => {
            insert_char(&mut input_box[*row], *col, *ch);
            proof {
                assert(lines_of(input_box@) =~= inverse_lines(record@, b));
            }
            (*row, *col + 1)
        },
        EditRecord::InsertString { row, col, text } => {
            let end = *col + byte_length(text.as_str());
            proof {
                lemma_pos_order(b[*row as int], *col as int, end as int);
            }
            cut(&mut input_box[*row], *col, end);
            proof {
                assert(lines_of(input_box@) =~= inverse_lines(record@, b));
            }
            (*row, *col)
        },
        EditRecord::RemoveString { row, col, text } => {
            insert_text(&mut input_box[*row], *col, text.as_str());
            proof {
                assert(lines_of(input_box@) =~= inverse_lines(record@, b));
            }
            (*row, *col + byte_length(text.as_str()))
        },
        EditRecord::SplitLine { row, col } => {
            let next_line = input_box.remove(*row + 1);
            push_text(&mut input_box[*row], next_line.as_str());
            proof {
                assert(lines_of(input_box@) =~= inverse_lines(record@, b));
            }
            (*row, *col)
        },
        EditRecord::MergeLine { row, prev_len } => {
            let combined = split_at_byte(&mut input_box[*row], *prev_len);
            input_box.insert(*row + 1, combined);
            proof {
                assert(lines_of(input_box@) =~= inverse_lines(record@, b));
            }
            (*row + 1, 0)
        },
        EditRecord::InsertLine { row } => {
            input_box.remove(*row);
            proof {
                assert(lines_of(input_box@) =~= inverse_lines(record@, b));
            }
            (*row, 0)
        },
        EditRecord::RemoveLine { row, content } => {
            input_box.insert(*row, content.clone());
            proof {
                assert(lines_of(input_box@) =~= inverse_lines(record@, b));
            }
            (*row, 0)
        },
        EditRecord::RemoveEmptyLine { row } => {
            input_box.insert(*row, String::new());
            proof {
                assert(lines_of(input_box@) =~= inverse_lines(record@, b));
            }
            (*row, 0)
        },
        EditRecord::MoveLine { from, to } => {
            let line = input_box.remove(*to);
            input_box.insert(*from, line);
            proof {
                assert(lines_of(input_box@) =~= inverse_lines(record@, b));
            }
            (*from, 0)
        },
        EditRecord::Paste { row, col, text } => {
            unpaste(input_box, *row, *col, text.as_str());
            (*row, *col)
        },
    }
}

/// Redoes `record` on `input_box`; returns where the cursor goes.
pub fn apply_forward(record: &EditRecord, input_box: &mut Vec<String>) -> (r: (usize, usize))
    requires
        forward_ok(record@, lines_of(old(input_box)@)),
        op_fits(record@),
    ensures
        lines_of(final(input_box)@) == forward_lines(record@, lines_of(old(input_box)@)),
        (r.0 as int, r.1 as int) == forward_cursor(record@),
{
    let ghost b = lines_of(input_box@);
    match record {
        EditRecord::InsertChar { row, col, ch } => {
            insert_char(&mut input_box[*row], *col, *ch);
            proof {
                assert(lines_of(input_box@) =~= forward_lines(record@, b));
            }
            (*row, *col + width(*ch))
        },
        EditRecord::DeleteChar { row, col, .. } => {
            remove_char(&mut input_box[*row], *col);
            proof {
                assert(lines_of(input_box@) =~= forward_lines(record@, b));
            }
            (*row, *col)
        },
        EditRecord::InsertString { row, col, text } => {
            insert_text(&mut input_box[*row], *col, text.as_str());
            proof {
                assert(lines_of(input_box@) =~= forward_lines(record@, b));
            }
            (*row, *col + byte_length(text.as_str()))
        },
        EditRecord::RemoveString { row, col, text } => {
            let end = *col + byte_length(text.as_str());
            proof {
                lemma_pos_order(b[*row as int], *col as int, end as int);
            }
            cut(&mut input_box[*row], *col, end);
            proof {
                assert(lines_of(input_box@) =~= forward_lines(record@, b));
            }
            (*row, *col)
        },
        EditRecord::SplitLine { row, col } => {
            let rest = split_at_byte(&mut input_box[*row], *col);
            input_box.insert(*row + 1, rest);
            proof {
                assert(lines_of(input_box@) =~= forward_lines(record@, b));
            }
            (*row + 1, 0)
        },
        EditRecord::MergeLine { row, prev_len } => {
            let combined = input_box.remove(*row + 1);
            push_text(&mut input_box[*row], combined.as_str());
            proof {
                assert(lines_of(input_box@) =~= forward_lines(record@, b));
            }
            (*row, *prev_len)
        },
        EditRecord::InsertLine { row } => {
            input_box.insert(*row, String::new());
            proof {
                assert(lines_of(input_box@) =~= forward_lines(record@, b));
            }
            (*row, 0)
        },
        EditRecord::RemoveLine { row, .. } => {
            input_box.remove(*row);
            proof {
                assert(lines_of(input_box@) =~= forward_lines(record@, b));
            }
            (*row, 0)
        },
        EditRecord::RemoveEmptyLine { row } => {
            input_box.remove(*row);
            proof {
                assert(lines_of(input_box@) =~= forward_lines(record@, b));
            }
            (*row, 0)
        },
        EditRecord::MoveLine { from, to } => {
            let line = input_box.remove(*from);
            input_box.insert(*to, line);
            proof {
                assert(lines_of(input_box@) =~= forward_lines(record@, b));
            }
            (*to, 0)
        },
        EditRecord::Paste { row, col, text } => paste_at(input_box, *row, *col, text.as_str()),
    }
}

/// Undoes `record`, flagged `emptied` where it removed the only line of
/// the buffer: that line then comes back in place of the empty one left.
pub fn undo_record(record: &EditRecord, emptied: bool, input_box: &mut Vec<String>) -> (r: (
    usize,
    usize,
))
    requires
        inverse_ok(tagged(record@, emptied), lines_of(old(input_box)@)),
        op_fits(tagged(record@, emptied)),
    ensures
        lines_of(final(input_box)@) == inverse_lines(
            tagged(record@, emptied),
            lines_of(old(input_box)@),
        ),
        (r.0 as int, r.1 as int) == inverse_cursor(tagged(record@, emptied)),
{
    let ghost b = lines_of(input_box@);
    if emptied {
        if let EditRecord::RemoveLine { row, content } = record {
            input_box.set(*row, content.clone());
            proof {
                assert(lines_of(input_box@) =~= inverse_lines(tagged(record@, emptied), b));
            }
            return (*row, 0);
        }
    }
    assert(tagged(record@, emptied) == record@);
    apply_inverse(record, input_box)
}

/// Redoes `record`, flagged `emptied` where it removed the only line of
/// the buffer: that line is then emptied rather than removed.
pub fn redo_record(record: &EditRecord, emptied: bool, input_box: &mut Vec<String>) -> (r: (
    usize,
    usize,
))
    requires
        forward_ok(tagged(record@, emptied), lines_of(old(input_box)@)),
        op_fits(tagged(record@, emptied)),
    ensures
        lines_of(final(input_box)@) == forward_lines(
            tagged(record@, emptied),
            lines_of(old(input_box)@),
        ),
        (r.0 as int, r.1 as int) == forward_cursor(tagged(record@, emptied)),
{
    let ghost b = lines_of(input_box@);
    if emptied {
        if let EditRecord::RemoveLine { row, .. } = record {
            input_box.set(*row, String::new());
            proof {
                assert(lines_of(input_box@) =~= forward_lines(tagged(record@, emptied), b));
            }
            return (*row, 0);
        }
    }
    assert(tagged(record@, emptied) == record@);
    apply_forward(record, input_box)
}

/// Where a paste of `text` at (`row`, byte `col`) ends.
pub fn paste_end_of(row: usize, col: usize, text: &str, parts: &Vec<String>) -> (r: (usize, usize))
    requires
        lines_of(parts@) == split_lines(text@),
        parts.len() >= 1,
        paste_end(row as int, col as int, text@).0 <= i32::MAX,
        paste_end(row as int, col as int, text@).1 <= i32::MAX,
    ensures
        (r.0 as int, r.1 as int) == paste_end(row as int, col as int, text@),
{
    let n = parts.len();
    if n == 1 {
        (row, col + byte_length(text))
    } else {
        proof {
            assert(parts@[n - 1]@ == split_lines(text@).last());
        }
        (row + (n - 1), byte_length(parts[n - 1].as_str()))
    }
}

/// Pastes `text` at (`row`, byte `col`): its first line joins the text
/// before `col`, its last line the text after it. Returns the end of the
/// paste.
pub fn paste_at(lines: &mut Vec<String>, row: usize, col: usize, text: &str) -> (r: (usize, usize))
    requires
        forward_ok(EditOp::Paste { row: row as int, col: col as int, text: text@ }, lines_of(old(lines)@)),
        op_fits(EditOp::Paste { row: row as int, col: col as int, text: text@ }),
    ensures
        lines_of(final(lines)@) == forward_lines(
            EditOp::Paste { row: row as int, col: col as int, text: text@ },
            lines_of(old(lines)@),
        ),
        (r.0 as int, r.1 as int) == paste_end(row as int, col as int, text@),
{
    let ghost b = lines_of(lines@);
    let ghost s = b[row as int];
    let ghost k = pos(s, col as int);
    let parts = split_text(text);
    let ghost ps = lines_of(parts@);
    proof {
        lemma_split_nonempty(text@);
        lemma_boundary(s, col as int);
        assert(lines@[row as int]@ == s);
    }
    let end = paste_end_of(row, col, text, &parts);
    let tail = split_at_byte(&mut lines[row], col);
    push_text(&mut lines[row], parts[0].as_str());
    proof {
        assert(lines_of(lines@) =~= b.take(row as int) + seq![s.take(k) + ps[0]] + b.skip(row + 1));
    }
    let n = parts.len();
    let mut i: usize = 1;
    while i < n
        invariant
            1 <= i <= n,
            n == parts@.len(),
            ps == lines_of(parts@),
            row < b.len(),
            row + n - 1 <= i32::MAX,
            lines@.len() == b.len() + i - 1,
            lines_of(lines@) == b.take(row as int) + seq![s.take(k) + ps[0]] + ps.subrange(1, i as int)
                + b.skip(row + 1),
        decreases n - i,
    {
        let ghost v0 = lines_of(lines@);
        let piece = parts[i].clone();
        lines.insert(row + i, piece);
        proof {
            assert(lines_of(lines@) =~= v0.insert(row + i, ps[i as int]));
            assert(ps.subrange(1, i + 1) =~= ps.subrange(1, i as int).push(ps[i as int]));
            assert(lines_of(lines@) =~= b.take(row as int) + seq![s.take(k) + ps[0]] + ps.subrange(
                1,
                i + 1,
            ) + b.skip(row + 1));
        }
        i = i + 1;
    }
    let ghost m = ps.update(0, s.take(k) + ps[0]);
    proof {
        assert(seq![s.take(k) + ps[0]] + ps.subrange(1, ps.len() as int) =~= m);
        assert(lines_of(lines@) =~= b.take(row as int) + m + b.skip(row + 1));
        assert(lines_of(lines@)[row + n - 1] == m[n - 1]);
        assert(lines@[row + n - 1]@ == m.last());
    }
    let ghost v1 = lines_of(lines@);
    push_text(&mut lines[row + n - 1], tail.as_str());
    proof {
        assert(lines_of(lines@) =~= v1.update(row + n - 1, m.last() + s.skip(k)));
        assert(lines_of(lines@) =~= b.take(row as int) + pasted_lines(s, k, ps) + b.skip(row + 1));
    }
    end
}

/// Undoes a paste of `text` at (`row`, byte `col`): the text before `col`
/// joins the text after the paste's end, and the lines between go.
fn unpaste(lines: &mut Vec<String>, row: usize, col: usize, text: &str)
    requires
        inverse_ok(EditOp::Paste { row: row as int, col: col as int, text: text@ }, lines_of(old(lines)@)),
        op_fits(EditOp::Paste { row: row as int, col: col as int, text: text@ }),
    ensures
        lines_of(final(lines)@) == inverse_lines(
            EditOp::Paste { row: row as int, col: col as int, text: text@ },
            lines_of(old(lines)@),
        ),
{
    let ghost b = lines_of(lines@);
    let parts = split_text(text);
    proof {
        lemma_split_nonempty(text@);
    }
    let (er, ec) = paste_end_of(row, col, text, &parts);
    proof {
        crate::text::lemma_ends_are_boundaries(b[row as int]);
        crate::text::lemma_ends_are_boundaries(b[er as int]);
        assert(lines@[row as int]@ == b[row as int]);
        assert(lines@[er as int]@ == b[er as int]);
        lemma_boundary(b[row as int], col as int);
        assert(b[row as int].take(0) =~= Seq::<char>::empty());
    }
    let mut head = substring(&lines[row], 0, col);
    let len = byte_length(lines[er].as_str());
    proof {
        lemma_boundary(b[er as int], ec as int);
    }
    let tail = substring(&lines[er], ec, len);
    proof {
        assert(head@ =~= b[row as int].take(pos(b[row as int], col as int)));
        assert(tail@ =~= b[er as int].skip(pos(b[er as int], ec as int)));
    }
    let mut j: usize = 0;
    while j < er - row
        invariant
            row <= er < b.len(),
            j <= er - row,
            lines@.len() == b.len() - j,
            lines_of(lines@) == b.take(row + 1) + b.skip(row + 1 + j),
        decreases er - row - j,
    {
        let ghost v0 = lines_of(lines@);
        lines.remove(row + 1);
        proof {
            assert(lines_of(lines@) =~= v0.remove(row + 1));
            assert(lines_of(lines@) =~= b.take(row + 1) + b.skip(row + 1 + j + 1));
        }
        j = j + 1;
    }
    let ghost hv = head@;
    let ghost tv = tail@;
    push_text(&mut head, tail.as_str());
    let ghost v2 = lines_of(lines@);
    lines.set(row, head);
    proof {
        assert(v2 =~= b.take(row + 1) + b.skip(er + 1));
        assert(lines_of(lines@) =~= v2.update(row as int, hv + tv));
        assert(lines_of(lines@) =~= b.take(row as int) + seq![hv + tv] + b.skip(er + 1));
        assert(lines_of(lines@) =~= inverse_lines(
            EditOp::Paste { row: row as int, col: col as int, text: text@ },
            b,
        ));
    }
}


/// `op` carries what redoing it removes from `b`.
pub open spec fn undoable(op: EditOp, b: Seq<Seq<char>>) -> bool {
    match op {
        EditOp::DeleteChar { row, col, ch } => b[row][pos(b[row], col)] == ch,
        EditOp::RemoveString { row, col, text } => b[row].subrange(
            pos(b[row], col),
            pos(b[row], col + byte_len(text)),
        ) == text,
        EditOp::MergeLine { row, prev_len } => prev_len == byte_len(b[row]),
        EditOp::RemoveLine { row, content } => b[row] == content,
        EditOp::RemoveEmptyLine { row } => b[row].len() == 0,
        EditOp::RemoveOnlyLine { row, content } => b[row] == content,
        _ => true,
    }
}

/// Lines `row` to the end of the paste in `b` hold the pasted `text`
/// between byte `col` of line `row` and the end of the paste.
pub open spec fn pasted_region(b: Seq<Seq<char>>, row: int, col: int, text: Seq<char>) -> bool {
    let parts = split_lines(text);
    let (er, ec) = paste_end(row, col, text);
    if parts.len() == 1 {
        b[row].subrange(pos(b[row], col), pos(b[row], ec)) == text
    } else {
        &&& b[row].skip(pos(b[row], col)) == parts[0]
        &&& b.subrange(row + 1, er) == parts.subrange(1, parts.len() - 1)
        &&& b[er].take(pos(b[er], ec)) == parts.last()
    }
}

/// `op` carries what undoing it removes from `b`.
pub open spec fn redoable(op: EditOp, b: Seq<Seq<char>>) -> bool {
    match op {
        EditOp::InsertChar { row, col, ch } => b[row][pos(b[row], col)] == ch,
        EditOp::InsertString { row, col, text } => b[row].subrange(
            pos(b[row], col),
            pos(b[row], col + byte_len(text)),
        ) == text,
        EditOp::SplitLine { row, col } => col == byte_len(b[row]),
        EditOp::InsertLine { row } => b[row].len() == 0,
        EditOp::RemoveOnlyLine { row, .. } => b[row].len() == 0,
        EditOp::Paste { row, col, text } => pasted_region(b, row, col, text),
        _ => true,
    }
}

/// Inserting `t` at char `k` of `s` keeps the byte boundary of `k`, and the
/// end of the inserted text is a boundary at `offset(s, k) + byte_len(t)`.
pub proof fn lemma_splice(s: Seq<char>, k: int, t: Seq<char>)
    requires
        0 <= k <= s.len(),
    ensures
        char_index(s.take(k) + t + s.skip(k), offset(s, k) as int) == Some(k as nat),
        char_index(s.take(k) + t + s.skip(k), (offset(s, k) + byte_len(t)) as int) == Some(
            (k + t.len()) as nat,
        ),
{
    let a = s.take(k) + t;
    let r = s.skip(k);
    assert(a.take(k) =~= s.take(k));
    lemma_boundary_prefix(a, r, k);
    lemma_byte_len_concat(s.take(k), t);
    assert(a.take(a.len() as int) =~= a);
    lemma_boundary_suffix(a, r, 0);
    assert(r.take(0) =~= Seq::<char>::empty());
}

/// Undoing an edit right after redoing it gives back the text it was applied
/// to, and the undo stays within bounds.
pub proof fn law_undo_after_redo(op: EditOp, b: Seq<Seq<char>>)
    requires
        forward_ok(op, b),
        undoable(op, b),
    ensures
        inverse_ok(op, forward_lines(op, b)),
        inverse_lines(op, forward_lines(op, b)) == b,
{
    let f = forward_lines(op, b);
    match op {
        EditOp::InsertChar { row, col, ch } => {
            let s = b[row];
            lemma_boundary(s, col);
            let k = pos(s, col);
            assert(s.insert(k, ch) =~= s.take(k) + seq![ch] + s.skip(k));
            lemma_splice(s, k, seq![ch]);
            assert(f[row] == s.insert(k, ch));
            lemma_byte_len_single(ch);
            assert(pos(f[row], col) == k);
            assert(s.insert(k, ch).remove(k) =~= s);
            assert(inverse_lines(op, f) =~= b);
        },
        EditOp::DeleteChar { row, col, ch } => {
            let s = b[row];
            lemma_boundary(s, col);
            let k = pos(s, col);
            let t = s.remove(k);
            assert(t.take(k) =~= s.take(k));
            lemma_index_of_offset(t, k);
            assert(t.insert(k, ch) =~= s);
            assert(inverse_lines(op, f) =~= b);
        },
        EditOp::InsertString { row, col, text } => {
            let s = b[row];
            lemma_boundary(s, col);
            let k = pos(s, col);
            lemma_splice(s, k, text);
            let t = f[row];
            assert(t == s.take(k) + text + s.skip(k));
            assert(pos(t, col) == k);
            assert(pos(t, col + byte_len(text)) == k + text.len());
            assert(t.take(k) + t.skip(k + text.len()) =~= s);
            assert(inverse_lines(op, f) =~= b);
        },
        EditOp::RemoveString { row, col, text } => {
            let s = b[row];
            lemma_boundary(s, col);
            lemma_boundary(s, col + byte_len(text));
            let k1 = pos(s, col);
            let k2 = pos(s, col + byte_len(text));
            crate::text::lemma_pos_order(s, col, col + byte_len(text));
            let t = f[row];
            assert(t.take(k1) =~= s.take(k1));
            lemma_index_of_offset(t, k1);
            assert(t.take(k1) + text + t.skip(k1) =~= s);
            assert(inverse_lines(op, f) =~= b);
        },
        EditOp::SplitLine { row, col } => {
            let s = b[row];
            lemma_boundary(s, col);
            let k = pos(s, col);
            assert(s.take(k) + s.skip(k) =~= s);
            assert(inverse_lines(op, f) =~= b);
        },
        EditOp::MergeLine { row, prev_len } => {
            let a = b[row];
            let c = b[row + 1];
            crate::text::lemma_offset_end(a);
            lemma_boundary_prefix(a, c, a.len() as int);
            assert((a + c).take(a.len() as int) =~= a);
            assert((a + c).skip(a.len() as int) =~= c);
            assert(f[row] == a + c);
            assert(pos(f[row], prev_len) == a.len());
            assert(inverse_lines(op, f) =~= b);
        },
        EditOp::InsertLine { row } => {
            assert(inverse_lines(op, f) =~= b);
        },
        EditOp::RemoveLine { row, .. } => {
            assert(inverse_lines(op, f) =~= b);
        },
        EditOp::RemoveEmptyLine { row } => {
            assert(b[row] =~= Seq::<char>::empty());
            assert(inverse_lines(op, f) =~= b);
        },
        EditOp::RemoveOnlyLine { row, .. } => {
            assert(inverse_lines(op, f) =~= b);
        },
        EditOp::MoveLine { from, to } => {
            assert(f[to] == b[from]);
            assert(f.remove(to) =~= b.remove(from));
            assert(inverse_lines(op, f) =~= b);
        },
        EditOp::Paste { row, col, text } => {
            lemma_paste_then_unpaste(b, row, col, text);
        },
    }
}

/// Undoing a paste right after it gives the text back.
proof fn lemma_paste_then_unpaste(b: Seq<Seq<char>>, row: int, col: int, text: Seq<char>)
    requires
        0 <= row < b.len(),
        on_boundary(b[row], col),
    ensures
        inverse_ok(
            EditOp::Paste { row, col, text },
            forward_lines(EditOp::Paste { row, col, text }, b),
        ),
        inverse_lines(
            EditOp::Paste { row, col, text },
            forward_lines(EditOp::Paste { row, col, text }, b),
        ) == b,
{
    let op = EditOp::Paste { row, col, text };
    let f = forward_lines(op, b);
    let s = b[row];
    lemma_boundary(s, col);
    let k = pos(s, col);
    let ps = split_lines(text);
    lemma_split_nonempty(text);
    let n = ps.len();
    let mid = pasted_lines(s, k, ps);
    let (er, ec) = paste_end(row, col, text);
    assert(f.len() == b.len() + n - 1);
    assert(f[row] == mid[0]);
    assert(f[er] == mid.last());
    assert(f.skip(er + 1) =~= b.skip(row + 1));
    assert(offset(s, k) == col);
    if n == 1 {
        crate::document::law_join_split(text);
        assert(ps[0] == text);
        assert(mid[0] =~= s.take(k) + text + s.skip(k));
        lemma_splice(s, k, text);
        let t = mid[0];
        assert(pos(t, col) == k);
        assert(pos(t, ec) == k + text.len());
        assert(t.take(k) =~= s.take(k));
        assert(t.skip(k + text.len()) =~= s.skip(k));
    } else {
        let a = s.take(k);
        assert(mid[0] == a + ps[0]);
        assert(a.take(k) =~= a);
        lemma_boundary_prefix(a, ps[0], k);
        assert((a + ps[0]).take(k) =~= a);
        assert(mid.last() == ps.last() + s.skip(k));
        lemma_boundary_suffix(ps.last(), s.skip(k), 0);
        assert(s.skip(k).take(0) =~= Seq::<char>::empty());
        assert((ps.last() + s.skip(k)).skip(ps.last().len() as int) =~= s.skip(k));
    }
    assert(s.take(k) + s.skip(k) =~= s);
    assert(inverse_lines(op, f) =~= b);
}

/// Redoing an edit right after undoing it gives back the text it was applied
/// to, and the redo stays within bounds.
pub proof fn law_redo_after_undo(op: EditOp, b: Seq<Seq<char>>)
    requires
        inverse_ok(op, b),
        redoable(op, b),
    ensures
        forward_ok(op, inverse_lines(op, b)),
        forward_lines(op, inverse_lines(op, b)) == b,
{
    let u = inverse_lines(op, b);
    match op {
        EditOp::InsertChar { row, col, ch } => {
            let s = b[row];
            lemma_boundary(s, col);
            let k = pos(s, col);
            let t = s.remove(k);
            assert(t.take(k) =~= s.take(k));
            lemma_index_of_offset(t, k);
            assert(t.insert(k, ch) =~= s);
            assert(forward_lines(op, u) =~= b);
        },
        EditOp::DeleteChar { row, col, ch } => {
            let s = b[row];
            lemma_boundary(s, col);
            let k = pos(s, col);
            assert(s.insert(k, ch) =~= s.take(k) + seq![ch] + s.skip(k));
            lemma_splice(s, k, seq![ch]);
            assert(u[row] == s.insert(k, ch));
            assert(pos(u[row], col) == k);
            assert(s.insert(k, ch).remove(k) =~= s);
            assert(forward_lines(op, u) =~= b);
        },
        EditOp::InsertString { row, col, text } => {
            let s = b[row];
            lemma_boundary(s, col);
            lemma_boundary(s, col + byte_len(text));
            let k1 = pos(s, col);
            let k2 = pos(s, col + byte_len(text));
            crate::text::lemma_pos_order(s, col, col + byte_len(text));
            let t = u[row];
            assert(t.take(k1) =~= s.take(k1));
            lemma_index_of_offset(t, k1);
            assert(t.take(k1) + text + t.skip(k1) =~= s);
            assert(forward_lines(op, u) =~= b);
        },
        EditOp::RemoveString { row, col, text } => {
            let s = b[row];
            lemma_boundary(s, col);
            let k = pos(s, col);
            lemma_splice(s, k, text);
            let t = u[row];
            assert(t == s.take(k) + text + s.skip(k));
            assert(pos(t, col) == k);
            assert(pos(t, col + byte_len(text)) == k + text.len());
            assert(t.take(k) + t.skip(k + text.len()) =~= s);
            assert(forward_lines(op, u) =~= b);
        },
        EditOp::SplitLine { row, col } => {
            let a = b[row];
            let c = b[row + 1];
            crate::text::lemma_offset_end(a);
            lemma_boundary_prefix(a, c, a.len() as int);
            assert((a + c).take(a.len() as int) =~= a);
            assert((a + c).skip(a.len() as int) =~= c);
            assert(u[row] == a + c);
            assert(pos(u[row], col) == a.len());
            assert(u.update(row, a) =~= b.remove(row + 1));
            assert(b.remove(row + 1).insert(row + 1, c) =~= b);
            assert(u[row].take(pos(u[row], col)) == a);
            assert(u[row].skip(pos(u[row], col)) == c);
            assert(forward_lines(op, u) == u.update(row, a).insert(row + 1, c));
        },
        EditOp::MergeLine { row, prev_len } => {
            let s = b[row];
            lemma_boundary(s, prev_len);
            let k = pos(s, prev_len);
            assert(u[row] == s.take(k));
            assert(u[row + 1] == s.skip(k));
            assert(s.take(k) + s.skip(k) =~= s);
            assert(forward_lines(op, u) =~= b);
        },
        EditOp::InsertLine { row } => {
            assert(b[row] =~= Seq::<char>::empty());
            assert(forward_lines(op, u) =~= b);
        },
        EditOp::RemoveLine { row, .. } => {
            assert(forward_lines(op, u) =~= b);
        },
        EditOp::RemoveEmptyLine { row } => {
            assert(forward_lines(op, u) =~= b);
        },
        EditOp::RemoveOnlyLine { row, .. } => {
            assert(b[row] =~= Seq::<char>::empty());
            assert(forward_lines(op, u) =~= b);
        },
        EditOp::MoveLine { from, to } => {
            assert(u[from] == b[to]);
            assert(u.remove(from) =~= b.remove(to));
            assert(forward_lines(op, u) =~= b);
        },
        EditOp::Paste { row, col, text } => {
            lemma_unpaste_then_paste(b, row, col, text);
        },
    }
}

/// Redoing a paste right after undoing it gives the text back.
proof fn lemma_unpaste_then_paste(b: Seq<Seq<char>>, row: int, col: int, text: Seq<char>)
    requires
        inverse_ok(EditOp::Paste { row, col, text }, b),
        pasted_region(b, row, col, text),
    ensures
        forward_ok(
            EditOp::Paste { row, col, text },
            inverse_lines(EditOp::Paste { row, col, text }, b),
        ),
        forward_lines(
            EditOp::Paste { row, col, text },
            inverse_lines(EditOp::Paste { row, col, text }, b),
        ) == b,
{
    let op = EditOp::Paste { row, col, text };
    let u = inverse_lines(op, b);
    let ps = split_lines(text);
    lemma_split_nonempty(text);
    let n = ps.len();
    let (er, ec) = paste_end(row, col, text);
    lemma_boundary(b[row], col);
    lemma_boundary(b[er], ec);
    let pc = pos(b[row], col);
    let pe = pos(b[er], ec);
    let h = b[row].take(pc);
    let t = b[er].skip(pe);
    assert(u[row] == h + t);
    assert(h.take(pc) =~= h);
    lemma_boundary_prefix(h, t, pc);
    assert(pos(h + t, col) == pc);
    assert((h + t).take(pc) =~= h);
    assert((h + t).skip(pc) =~= t);
    let mid = pasted_lines(h + t, pc, ps);
    assert(u.take(row) =~= b.take(row));
    assert(u.skip(row + 1) =~= b.skip(er + 1));
    if n == 1 {
        crate::document::law_join_split(text);
        assert(ps[0] == text);
        crate::text::lemma_pos_order(b[row], col, ec);
        assert(b[row] =~= h + b[row].subrange(pc, pe) + t);
        assert(mid =~= seq![b[row]]);
    } else {
        assert(h + ps[0] =~= b[row]);
        assert(ps.last() + t =~= b[er]);
        assert(mid =~= seq![b[row]] + b.subrange(row + 1, er) + seq![b[er]]);
    }
    assert(forward_lines(op, u) =~= b);
}

} // verus!
