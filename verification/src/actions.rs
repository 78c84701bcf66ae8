//! Edits of the current tab that several modes share, each recorded for undo.
use vstd::prelude::*;

use crate::controls::text_fits;
use crate::helpers::{
    forward_cursor, forward_lines, forward_ok, inverse_cursor, inverse_lines, inverse_ok,
    law_redo_after_undo, law_undo_after_redo, lemma_history_empty, lemma_history_pop,
    lemma_history_push, lines_of, op_fits, pop_flag, redo_record, redoable, tagged, top_flag,
    undo_record, undoable, EditOp, EditRecord, Tab, TabView,
};
use crate::text::{
    byte_len, byte_length, char_before, cut, first_non_space, indent, indent_column, insert_text,
    is_indented, lemma_boundary, line_fits, offset, on_boundary, pos, push_text, remove_char,
    starts_with_indent,
};

verus! {

/// The line under the cursor.
pub open spec fn cursor_line(t: TabView) -> Seq<char> {
    t.text[t.cursor_y]
}

/// The cursor row is a line of the text.
pub open spec fn row_ok(t: TabView) -> bool {
    0 <= t.cursor_y < t.text.len()
}

/// The undo stack after recording `op`.
pub open spec fn pushed(t: TabView, op: EditOp) -> Seq<EditOp> {
    t.undo.push(op)
}

/// Four spaces as a `String`.
pub fn indent_string() -> (s: String)
    ensures
        s@ == indent(),
{
    let s = String::from_str("    ");
    proof {
        reveal_strlit("    ");
        assert(s@ =~= indent());
    }
    s
}

/// Records `r` on the undo stack, flagged `emptied` where it removed the
/// only line, and forgets what could be redone.
fn record_flagged(tab: &mut Tab, r: EditRecord, emptied: bool)
    ensures
        final(tab)@ == (TabView {
            undo: old(tab)@.undo.push(tagged(r@, emptied)),
            redo: Seq::empty(),
            ..old(tab)@
        }),
{
    proof {
        lemma_history_push(tab.undo_stack@, tab.undo_emptied@, r, emptied);
    }
    tab.undo_stack.push(r);
    tab.undo_emptied.push(emptied);
    tab.redo_stack.clear();
    tab.redo_emptied.clear();
    proof {
        lemma_history_empty(tab.redo_stack@, tab.redo_emptied@);
    }
}

/// Records `r` on the undo stack and forgets what could be redone.
pub(crate) fn record(tab: &mut Tab, r: EditRecord)
    ensures
        final(tab)@ == (TabView { undo: old(tab)@.undo.push(r@), redo: Seq::empty(), ..old(tab)@ }),
{
    assert(tagged(r@, false) == r@);
    record_flagged(tab, r, false);
}

/// Records the removal of the only line, `content` at `row`, and forgets
/// what could be redone.
pub(crate) fn record_sole_line_removal(tab: &mut Tab, row: usize, content: String)
    ensures
        final(tab)@ == (TabView {
            undo: old(tab)@.undo.push(EditOp::RemoveOnlyLine { row: row as int, content: content@ }),
            redo: Seq::empty(),
            ..old(tab)@
        }),
{
    record_flagged(tab, EditRecord::RemoveLine { row, content }, true);
}

/// The record of deleting the char under the cursor.
pub open spec fn delete_char_op(t: TabView) -> EditOp {
    let s = cursor_line(t);
    EditOp::DeleteChar { row: t.cursor_y, col: t.cursor_x, ch: s[pos(s, t.cursor_x)] }
}

/// The record of removing the char before the cursor.
pub open spec fn backspace_char_op(t: TabView) -> EditOp {
    let s = cursor_line(t);
    let k = pos(s, t.cursor_x);
    EditOp::DeleteChar { row: t.cursor_y, col: offset(s, k - 1) as int, ch: s[k - 1] }
}

/// The record of joining the cursor line to the line above.
pub open spec fn merge_op(t: TabView) -> EditOp {
    EditOp::MergeLine { row: t.cursor_y - 1, prev_len: byte_len(t.text[t.cursor_y - 1]) as int }
}

/// The tab after Delete: an empty line goes away when it is not the only
/// one; else the char under the cursor is removed, if there is one.
pub open spec fn after_delete(t: TabView) -> TabView {
    let y = t.cursor_y;
    let s = cursor_line(t);
    let x = t.cursor_x;
    if s.len() == 0 && t.text.len() > 1 {
        TabView {
            saved: false,
            text: t.text.remove(y),
            cursor_x: 0,
            undo: pushed(t, EditOp::RemoveEmptyLine { row: y }),
            redo: Seq::empty(),
            ..t
        }
    } else if 0 <= x < byte_len(s) {
        TabView {
            saved: false,
            text: t.text.update(y, s.remove(pos(s, x))),
            undo: pushed(t, delete_char_op(t)),
            redo: Seq::empty(),
            ..t
        }
    } else {
        TabView { saved: false, ..t }
    }
}

/// Delete reads only within bounds from this tab.
pub open spec fn delete_safe(t: TabView) -> bool {
    &&& row_ok(t)
    &&& 0 <= t.cursor_x < byte_len(cursor_line(t)) ==> on_boundary(cursor_line(t), t.cursor_x)
}

/// Delete: removes the char under the cursor, or an empty line.
pub fn delete_key(tab: &mut Tab)
    requires
        delete_safe(old(tab)@),
        text_fits(old(tab)@.text),
    ensures
        final(tab)@ == after_delete(old(tab)@),
{
    let ghost t = tab@;
    let x = tab.cursor_x;
    let y = tab.cursor_y as usize;
    tab.unsave();
    proof {
        assert(tab.input_box@[y as int]@ == t.text[y as int]);
    }
    if tab.input_box[y].as_str().is_empty() && tab.input_box.len() > 1 {
        tab.input_box.remove(y);
        tab.cursor_x = 0;
        record(tab, EditRecord::RemoveEmptyLine { row: y });
        proof {
            assert(tab@.text =~= after_delete(t).text);
        }
    } else if x >= 0 && (x as usize) < byte_length(tab.input_box[y].as_str()) {
        proof {
            lemma_boundary(t.text[y as int], x as int);
        }
        let ch = remove_char(&mut tab.input_box[y], x as usize);
        record(tab, EditRecord::DeleteChar { row: y, col: x as usize, ch });
        proof {
            assert(tab@.text =~= after_delete(t).text);
        }
    }
}

/// The tab after Backspace: an empty line (not the first) goes away and the
/// cursor moves to the end of the line above; else the char before the
/// cursor is removed; at the start of a line (not the first) the line is
/// joined to the one above.
pub open spec fn after_backspace(t: TabView) -> TabView {
    let y = t.cursor_y;
    let s = cursor_line(t);
    let x = t.cursor_x;
    if s.len() == 0 && y > 0 {
        TabView {
            saved: false,
            text: t.text.remove(y),
            cursor_y: y - 1,
            cursor_x: byte_len(t.text[y - 1]) as int,
            undo: pushed(t, EditOp::RemoveEmptyLine { row: y }),
            redo: Seq::empty(),
            ..t
        }
    } else if x > 0 {
        let k = pos(s, x);
        TabView {
            saved: false,
            text: t.text.update(y, s.remove(k - 1)),
            cursor_x: offset(s, k - 1) as int,
            undo: pushed(t, backspace_char_op(t)),
            redo: Seq::empty(),
            ..t
        }
    } else if y > 0 {
        let p = t.text[y - 1];
        TabView {
            saved: false,
            text: t.text.remove(y).update(y - 1, p + s),
            cursor_y: y - 1,
            cursor_x: byte_len(p) as int,
            undo: pushed(t, merge_op(t)),
            redo: Seq::empty(),
            ..t
        }
    } else {
        TabView { saved: false, ..t }
    }
}

/// Backspace reads only within bounds from this tab.
pub open spec fn backspace_safe(t: TabView) -> bool {
    &&& row_ok(t)
    &&& !(cursor_line(t).len() == 0 && t.cursor_y > 0) && t.cursor_x > 0 ==> on_boundary(
        cursor_line(t),
        t.cursor_x,
    )
}

/// Backspace: removes the char before the cursor, an empty line, or the
/// line break before the cursor.
pub fn backspace_key(tab: &mut Tab)
    requires
        backspace_safe(old(tab)@),
        text_fits(old(tab)@.text),
    ensures
        final(tab)@ == after_backspace(old(tab)@),
{
    let ghost t = tab@;
    let y = tab.cursor_y as usize;
    tab.unsave();
    proof {
        assert(tab.input_box@[y as int]@ == t.text[y as int]);
    }
    if tab.input_box[y].as_str().is_empty() && y > 0 {
        tab.input_box.remove(y);
        let ghost ib = tab.input_box@;
        proof {
            assert(ib[y - 1]@ == t.text[y - 1]);
        }
        record(tab, EditRecord::RemoveEmptyLine { row: y });
        proof {
            assert(lines_of(tab.input_box@) == lines_of(ib));
            assert(lines_of(tab.input_box@)[y - 1] == tab.input_box@[y - 1]@);
            assert(tab.input_box@[y - 1]@ == t.text[y - 1]);
            assert(line_fits(t.text[y - 1]));
        }
        tab.cursor_y = tab.cursor_y - 1;
        tab.cursor_x = byte_length(tab.input_box[y - 1].as_str()) as i32;
        proof {
            assert(tab@.text =~= after_backspace(t).text);
        }
    } else if tab.cursor_x > 0 {
        let x = tab.cursor_x as usize;
        proof {
            assert(line_fits(t.text[y as int]));
            lemma_boundary(t.text[y as int], x as int);
        }
        if let Some((prev_idx, ch)) = char_before(tab.input_box[y].as_str(), x) {
            remove_char(&mut tab.input_box[y], prev_idx);
            record(tab, EditRecord::DeleteChar { row: y, col: prev_idx, ch });
            tab.cursor_x = prev_idx as i32;
            proof {
                assert(tab@.text =~= after_backspace(t).text);
            }
        }
    } else if y > 0 {
        let current = tab.input_box.remove(y);
        proof {
            assert(tab.input_box@[y - 1]@ == t.text[y - 1]);
            assert(line_fits(t.text[y - 1]));
        }
        let prev_len = byte_length(tab.input_box[y - 1].as_str());
        tab.cursor_y = tab.cursor_y - 1;
        tab.cursor_x = prev_len as i32;
        push_text(&mut tab.input_box[y - 1], current.as_str());
        record(tab, EditRecord::MergeLine { row: y - 1, prev_len });
        proof {
            assert(tab@.text =~= after_backspace(t).text);
        }
    }
}

/// Pops the top flag of `m`; unset where there is none.
fn pop_flag_of(m: &mut Vec<bool>) -> (e: bool)
    ensures
        e == top_flag(old(m)@),
        final(m)@ == pop_flag(old(m)@),
{
    match m.pop() {
        Some(e) => e,
        None => false,
    }
}

/// The tab after undo: the top record is undone and moves to the redo stack.
pub open spec fn after_undo(t: TabView) -> TabView {
    if t.undo.len() > 0 {
        let op = t.undo.last();
        TabView {
            text: inverse_lines(op, t.text),
            saved: false,
            cursor_y: inverse_cursor(op).0 as i32 as int,
            cursor_x: inverse_cursor(op).1 as i32 as int,
            undo: t.undo.drop_last(),
            redo: t.redo.push(op),
            ..t
        }
    } else {
        t
    }
}

/// The tab after redo: the top redo record is redone and moves back to the
/// undo stack.
pub open spec fn after_redo(t: TabView) -> TabView {
    if t.redo.len() > 0 {
        let op = t.redo.last();
        TabView {
            text: forward_lines(op, t.text),
            saved: false,
            cursor_y: forward_cursor(op).0 as i32 as int,
            cursor_x: forward_cursor(op).1 as i32 as int,
            undo: t.undo.push(op),
            redo: t.redo.drop_last(),
            ..t
        }
    } else {
        t
    }
}

/// Undoing the top record stays within bounds.
pub open spec fn undo_safe(t: TabView) -> bool {
    t.undo.len() > 0 ==> inverse_ok(t.undo.last(), t.text) && op_fits(t.undo.last())
}

/// Redoing the top redo record stays within bounds.
pub open spec fn redo_safe(t: TabView) -> bool {
    t.redo.len() > 0 ==> forward_ok(t.redo.last(), t.text) && op_fits(t.redo.last())
}

/// `u`: undoes the last recorded edit.
pub fn undo(tab: &mut Tab)
    requires
        undo_safe(old(tab)@),
    ensures
        final(tab)@ == after_undo(old(tab)@),
{
    proof {
        if tab.undo_stack@.len() > 0 {
            lemma_history_pop(tab.undo_stack@, tab.undo_emptied@);
        }
    }
    if let Some(record) = tab.undo_stack.pop() {
        let emptied = pop_flag_of(&mut tab.undo_emptied);
        let (row, col) = undo_record(&record, emptied, &mut tab.input_box);
        tab.unsave();
        tab.cursor_y = row as i32;
        tab.cursor_x = col as i32;
        proof {
            lemma_history_push(tab.redo_stack@, tab.redo_emptied@, record, emptied);
        }
        tab.redo_stack.push(record);
        tab.redo_emptied.push(emptied);
    }
}

/// `r`: redoes the last undone edit.
pub fn redo(tab: &mut Tab)
    requires
        redo_safe(old(tab)@),
    ensures
        final(tab)@ == after_redo(old(tab)@),
{
    proof {
        if tab.redo_stack@.len() > 0 {
            lemma_history_pop(tab.redo_stack@, tab.redo_emptied@);
        }
    }
    if let Some(record) = tab.redo_stack.pop() {
        let emptied = pop_flag_of(&mut tab.redo_emptied);
        let (row, col) = redo_record(&record, emptied, &mut tab.input_box);
        tab.unsave();
        tab.cursor_y = row as i32;
        tab.cursor_x = col as i32;
        proof {
            lemma_history_push(tab.undo_stack@, tab.undo_emptied@, record, emptied);
        }
        tab.undo_stack.push(record);
        tab.undo_emptied.push(emptied);
    }
}

/// Line `row` indented by one level, the edit recorded.
pub open spec fn indented_row(t: TabView, row: int) -> TabView {
    TabView {
        text: t.text.update(row, indent() + t.text[row]),
        undo: pushed(t, EditOp::InsertString { row, col: 0, text: indent() }),
        redo: Seq::empty(),
        ..t
    }
}

/// Indents line `row` by one level and records it.
pub fn indent_row(tab: &mut Tab, row: usize)
    requires
        row < old(tab)@.text.len(),
    ensures
        final(tab)@ == indented_row(old(tab)@, row as int),
{
    let ghost t = tab@;
    record(tab, EditRecord::InsertString { row, col: 0, text: indent_string() });
    let four = indent_string();
    proof {
        assert(tab.input_box@[row as int]@ == t.text[row as int]);
        crate::text::lemma_ends_are_boundaries(t.text[row as int]);
    }
    insert_text(&mut tab.input_box[row], 0, four.as_str());
    proof {
        assert(t.text[row as int].take(0) =~= Seq::<char>::empty());
        assert(t.text[row as int].skip(0) =~= t.text[row as int]);
        assert(tab@.text =~= indented_row(t, row as int).text);
    }
}

/// Line `row` with one level of indentation removed, if it has one, the
/// edit recorded.
pub open spec fn unindented_row(t: TabView, row: int) -> TabView {
    if is_indented(t.text[row]) {
        TabView {
            text: t.text.update(row, t.text[row].skip(4)),
            undo: pushed(t, EditOp::RemoveString { row, col: 0, text: indent() }),
            redo: Seq::empty(),
            ..t
        }
    } else {
        t
    }
}

/// Removes one level of indentation from line `row`, if it has one, and
/// records it.
pub fn unindent_row(tab: &mut Tab, row: usize)
    requires
        row < old(tab)@.text.len(),
    ensures
        final(tab)@ == unindented_row(old(tab)@, row as int),
{
    let ghost t = tab@;
    proof {
        assert(tab.input_box@[row as int]@ == t.text[row as int]);
    }
    if starts_with_indent(tab.input_box[row].as_str()) {
        let ghost s = t.text[row as int];
        proof {
            crate::text::lemma_ends_are_boundaries(s);
            assert(s =~= indent() + s.skip(4));
            crate::text::lemma_boundary_suffix(indent(), s.skip(4), 0);
            assert(s.skip(4).take(0) =~= Seq::<char>::empty());
            assert(byte_len(indent()) == 4) by {
                reveal_with_fuel(byte_len, 5);
            }
        }
        cut(&mut tab.input_box[row], 0, 4);
        record(tab, EditRecord::RemoveString { row, col: 0, text: indent_string() });
        proof {
            assert(s.take(0) + s.skip(4) =~= s.skip(4));
            assert(tab@.text =~= unindented_row(t, row as int).text);
        }
    }
}

/// The cursor column after (un)indenting the cursor line.
pub fn indent_cursor(tab: &mut Tab)
    requires
        row_ok(old(tab)@),
    ensures
        final(tab)@ == (TabView {
            cursor_x: indent_column(cursor_line(old(tab)@)) as i32 as int,
            ..old(tab)@
        }),
{
    proof {
        assert(tab.input_box@[tab.cursor_y as int]@ == cursor_line(tab@));
    }
    tab.cursor_x = first_non_space(tab.input_box[tab.cursor_y as usize].as_str()) as i32;
}

/// `r` right after `u` gives back the text and both stacks: the record that
/// `u` moved to the redo stack returns to the undo stack.
pub proof fn law_redo_after_undo_key(t: TabView)
    requires
        t.undo.len() > 0,
        inverse_ok(t.undo.last(), t.text),
        redoable(t.undo.last(), t.text),
    ensures
        redo_safe(after_undo(t)) <== op_fits(t.undo.last()),
        after_redo(after_undo(t)).text == t.text,
        after_redo(after_undo(t)).undo == t.undo,
        after_redo(after_undo(t)).redo == t.redo,
{
    let op = t.undo.last();
    law_redo_after_undo(op, t.text);
    let u = after_undo(t);
    assert(u.redo.last() == op);
    assert(u.undo.push(op) =~= t.undo);
    assert(u.redo.drop_last() =~= t.redo);
}

/// `u` right after `r` gives back the text and both stacks: the record that
/// `r` moved to the undo stack returns to the redo stack.
pub proof fn law_undo_after_redo_key(t: TabView)
    requires
        t.redo.len() > 0,
        forward_ok(t.redo.last(), t.text),
        undoable(t.redo.last(), t.text),
    ensures
        undo_safe(after_redo(t)) <== op_fits(t.redo.last()),
        after_undo(after_redo(t)).text == t.text,
        after_undo(after_redo(t)).undo == t.undo,
        after_undo(after_redo(t)).redo == t.redo,
{
    let op = t.redo.last();
    law_undo_after_redo(op, t.text);
    let r = after_redo(t);
    assert(r.undo.last() == op);
    assert(r.redo.push(op) =~= t.redo);
    assert(r.undo.drop_last() =~= t.undo);
}

/// Unindenting a line right after indenting it gives back the text.
pub proof fn law_unindent_after_indent(t: TabView, row: int)
    requires
        0 <= row < t.text.len(),
    ensures
        unindented_row(indented_row(t, row), row).text == t.text,
{
    let s = t.text[row];
    let u = indented_row(t, row);
    assert((indent() + s).take(4) =~= indent());
    assert(is_indented(u.text[row]));
    assert((indent() + s).skip(4) =~= s);
    assert(u.text.update(row, u.text[row].skip(4)) =~= t.text);
}
/// `r` replays exactly the record on top of the redo stack and moves it to
/// the undo stack; `u` undoes exactly the record on top of the undo stack
/// and moves it to the redo stack.
pub proof fn law_redo_replays_recorded_edit(t: TabView)
    ensures
        t.redo.len() > 0 ==> {
            &&& after_redo(t).text == forward_lines(t.redo.last(), t.text)
            &&& after_redo(t).undo == t.undo.push(t.redo.last())
            &&& after_redo(t).redo == t.redo.drop_last()
        },
        t.undo.len() > 0 ==> {
            &&& after_undo(t).text == inverse_lines(t.undo.last(), t.text)
            &&& after_undo(t).redo == t.redo.push(t.undo.last())
            &&& after_undo(t).undo == t.undo.drop_last()
        },
{
}
/// The record that Delete pushes, redone on the text before the key, gives
/// the text and the cursor after it.
pub proof fn lemma_delete_replays(t: TabView)
    requires
        delete_safe(t),
    ensures
        ({
            let d = after_delete(t);
            d.undo.len() == t.undo.len() + 1 ==> {
                &&& forward_ok(d.undo.last(), t.text)
                &&& forward_lines(d.undo.last(), t.text) == d.text
                &&& forward_cursor(d.undo.last()) == (d.cursor_y, d.cursor_x)
            }
        }),
{
    let s = cursor_line(t);
    let x = t.cursor_x;
    let y = t.cursor_y;
    let d = after_delete(t);
    if s.len() == 0 && t.text.len() > 1 {
        let op = EditOp::RemoveEmptyLine { row: y };
        assert(d.undo == t.undo.push(op));
        assert(d.undo.last() == op);
    } else if 0 <= x < byte_len(s) {
        lemma_boundary(s, x);
        let op = delete_char_op(t);
        assert(d.undo == t.undo.push(op));
        assert(d.undo.last() == op);
    }
}

/// The record that Backspace pushes, redone on the text before the key,
/// gives the text after it, and the cursor too unless an empty line went.
pub proof fn lemma_backspace_replays(t: TabView)
    requires
        backspace_safe(t),
    ensures
        ({
            let d = after_backspace(t);
            d.undo.len() == t.undo.len() + 1 ==> {
                &&& forward_ok(d.undo.last(), t.text)
                &&& forward_lines(d.undo.last(), t.text) == d.text
                &&& !(d.undo.last() is RemoveEmptyLine) ==> forward_cursor(d.undo.last()) == (
                    d.cursor_y,
                    d.cursor_x,
                )
            }
        }),
{
    let s = cursor_line(t);
    let x = t.cursor_x;
    let y = t.cursor_y;
    let d = after_backspace(t);
    if s.len() == 0 && y > 0 {
        let op = EditOp::RemoveEmptyLine { row: y };
        assert(d.undo == t.undo.push(op));
        assert(d.undo.last() == op);
    } else if x > 0 {
        lemma_boundary(s, x);
        let k = pos(s, x);
        if k == 0 {
            assert(s.take(0) =~= Seq::<char>::empty());
        }
        crate::text::lemma_index_of_offset(s, k - 1);
        crate::text::lemma_offset_mono(s, k - 1, s.len() as int);
        crate::text::lemma_offset_end(s);
        let op = backspace_char_op(t);
        assert(d.undo == t.undo.push(op));
        assert(d.undo.last() == op);
    } else if y > 0 {
        let op = merge_op(t);
        assert(d.undo == t.undo.push(op));
        assert(d.undo.last() == op);
    }
}

/// The record of indenting line `row`, redone on the text before, gives the
/// indented text.
pub proof fn lemma_indent_replays(t: TabView, row: int)
    requires
        0 <= row < t.text.len(),
    ensures
        forward_ok(EditOp::InsertString { row, col: 0, text: indent() }, t.text),
        forward_lines(EditOp::InsertString { row, col: 0, text: indent() }, t.text) == indented_row(
            t,
            row,
        ).text,
{
    let s = t.text[row];
    assert(s.take(0) + indent() + s.skip(0) =~= indent() + s);
}

/// The record of unindenting line `row`, redone on the text before, gives
/// the unindented text.
pub proof fn lemma_unindent_replays(t: TabView, row: int)
    requires
        0 <= row < t.text.len(),
        is_indented(t.text[row]),
    ensures
        forward_ok(EditOp::RemoveString { row, col: 0, text: indent() }, t.text),
        forward_lines(EditOp::RemoveString { row, col: 0, text: indent() }, t.text)
            == unindented_row(t, row).text,
{
    let s = t.text[row];
    crate::text::lemma_ends_are_boundaries(s);
    assert(s =~= indent() + s.skip(4));
    crate::text::lemma_boundary_suffix(indent(), s.skip(4), 0);
    assert(s.skip(4).take(0) =~= Seq::<char>::empty());
    assert(byte_len(indent()) == 4) by {
        reveal_with_fuel(byte_len, 5);
    }
    assert(s.take(0) + s.skip(4) =~= s.skip(4));
}
} // verus!
