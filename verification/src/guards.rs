//! Checks that tell, before a key or a paste is handled, whether the handler
//! stays within the bounds its contract asks for. The editor's handlers index
//! lines and slice them at byte offsets; where these checks fail, the handler
//! would index out of range or cut a char in two.
use vstd::prelude::*;

use crate::actions::{backspace_safe, cursor_line, delete_safe, redo_safe, row_ok, undo_safe};
use crate::controls::{arrow_safe, text_fits, vim_arrow, Key};
use crate::helpers::{
    forward_ok, inverse_ok, lemma_history_pop, lines_of, op_fits, paste_end, paste_end_of,
    pasted_lines, top_flag, EditRecord, Tab,
};
use crate::document::{lemma_split_nonempty, normalize, normalize_newlines, split_lines, split_text};
use crate::helpers::Visual;
use crate::modes::{insert_safe, paste_safe};
use crate::normal_mode::{normal_safe, reads_text};
use crate::select_modes::{select_char_safe, select_line_safe};
use crate::text::{
    byte_len, byte_length, char_width, is_boundary, lemma_boundary, lemma_byte_len_concat,
    line_fits, on_boundary, pos, remove_char, width,
};

verus! {

/// Whether byte `col` of `s` is a char boundary, for a signed column.
pub fn boundary_at(s: &str, col: i32) -> (b: bool)
    ensures
        b == on_boundary(s@, col as int),
{
    if col < 0 {
        false
    } else {
        is_boundary(s, col as usize)
    }
}

/// Whether byte `a + b` of `s` is a char boundary.
pub fn boundary_at_sum(s: &str, a: usize, b: usize) -> (r: bool)
    ensures
        r == on_boundary(s@, a + b),
{
    let total = byte_length(s);
    if a > total || b > total - a {
        proof {
            if on_boundary(s@, a + b) {
                lemma_boundary(s@, a + b);
            }
        }
        false
    } else {
        is_boundary(s, a + b)
    }
}

/// Whether every line, and their number, fit the editor's `i32` coordinates.
pub fn lines_fit(lines: &Vec<String>) -> (b: bool)
    ensures
        b == text_fits(lines_of(lines@)),
{
    let max: usize = i32::MAX as usize;
    if lines.len() > max {
        return false;
    }
    let mut i: usize = 0;
    while i < lines.len()
        invariant
            i <= lines.len(),
            lines.len() <= max,
            max == i32::MAX,
            forall|j: int| 0 <= j < i ==> line_fits(#[trigger] lines_of(lines@)[j]),
        decreases lines.len() - i,
    {
        if byte_length(lines[i].as_str()) > max {
            proof {
                assert(!line_fits(lines_of(lines@)[i as int]));
            }
            return false;
        }
        i = i + 1;
    }
    true
}

/// The arrow key that a Vim motion key stands for.
pub fn arrow_of(key: Key) -> (k: Key)
    ensures
        k == vim_arrow(key),
{
    match key {
        Key::Char('h') => Key::Left,
        Key::Char('l') => Key::Right,
        Key::Char('k') => Key::Up,
        Key::Char('j') => Key::Down,
        _ => key,
    }
}

/// Whether moving by `key` from (`cy`, `cx`) stays within bounds.
pub fn arrow_ok(key: Key, cy: i32, cx: i32, lines: &Vec<String>) -> (b: bool)
    ensures
        b == arrow_safe(key, cy as int, cx as int, lines_of(lines@)),
{
    let n = lines.len();
    match key {
        Key::Left => {
            if cx == 0 {
                true
            } else if cy < 0 || cy as usize >= n {
                false
            } else {
                boundary_at(lines[cy as usize].as_str(), cx)
            }
        },
        Key::Right => {
            if cy < 0 || cy as usize >= n {
                false
            } else {
                let s = lines[cy as usize].as_str();
                if 0 <= cx && (cx as usize) < byte_length(s) {
                    boundary_at(s, cx)
                } else {
                    true
                }
            }
        },
        Key::Up => 0 <= cy && cy as usize <= n,
        Key::Down => cy != -1,
        _ => true,
    }
}

/// Whether the cursor row is a line of the text.
pub fn row_in(tab: &Tab) -> (b: bool)
    ensures
        b == row_ok(tab@),
{
    tab.cursor_y >= 0 && (tab.cursor_y as usize) < tab.input_box.len()
}

/// The line under the cursor.
pub fn cursor_text(tab: &Tab) -> (s: &str)
    requires
        row_ok(tab@),
    ensures
        s@ == cursor_line(tab@),
{
    tab.input_box[tab.cursor_y as usize].as_str()
}

/// Whether Delete stays within bounds.
pub fn delete_ok(tab: &Tab) -> (b: bool)
    ensures
        b == delete_safe(tab@),
{
    if !row_in(tab) {
        return false;
    }
    let s = cursor_text(tab);
    let x = tab.cursor_x;
    if 0 <= x && (x as usize) < byte_length(s) {
        boundary_at(s, x)
    } else {
        true
    }
}

/// Whether Backspace stays within bounds.
pub fn backspace_ok(tab: &Tab) -> (b: bool)
    ensures
        b == backspace_safe(tab@),
{
    if !row_in(tab) {
        return false;
    }
    let s = cursor_text(tab);
    let x = tab.cursor_x;
    let empty_below_first = s.unicode_len() == 0 && tab.cursor_y > 0;
    if !empty_below_first && x > 0 {
        boundary_at(s, x)
    } else {
        true
    }
}

/// Whether the positions and texts of `r` fit the cursor arithmetic.
pub fn record_fits(r: &EditRecord) -> (b: bool)
    ensures
        b == op_fits(r@),
{
    let max: usize = i32::MAX as usize;
    match r {
        EditRecord::InsertChar { row, col, .. } => *row <= max && *col <= max,
        EditRecord::DeleteChar { row, col, .. } => *row <= max && *col <= max,
        EditRecord::InsertString { row, col, text } => *row <= max && *col <= max && byte_length(
            text.as_str(),
        ) <= max,
        EditRecord::RemoveString { row, col, text } => *row <= max && *col <= max && byte_length(
            text.as_str(),
        ) <= max,
        EditRecord::SplitLine { row, col } => *row <= max && *col <= max,
        EditRecord::MergeLine { row, prev_len } => *row <= max && *prev_len <= max,
        EditRecord::InsertLine { row } => *row <= max,
        EditRecord::RemoveLine { row, .. } => *row <= max,
        EditRecord::RemoveEmptyLine { row } => *row <= max,
        EditRecord::MoveLine { from, to } => *from <= max && *to <= max,
        EditRecord::Paste { row, col, text } => *row <= max && *col <= max && paste_end_fits(
            *row,
            *col,
            text.as_str(),
        ),
    }
}

/// Whether the end of a paste of `text` at (`row`, byte `col`) fits the
/// editor's `i32` coordinates.
pub fn paste_end_fits(row: usize, col: usize, text: &str) -> (b: bool)
    requires
        row <= i32::MAX,
        col <= i32::MAX,
    ensures
        b == (paste_end(row as int, col as int, text@).0 <= i32::MAX && paste_end(
            row as int,
            col as int,
            text@,
        ).1 <= i32::MAX),
{
    let max: usize = i32::MAX as usize;
    let parts = split_text(text);
    proof {
        lemma_split_nonempty(text@);
    }
    let n = parts.len();
    if n == 1 {
        byte_length(text) <= max - col
    } else {
        proof {
            assert(parts@[n - 1]@ == split_lines(text@).last());
        }
        n - 1 <= max - row && byte_length(parts[n - 1].as_str()) <= max
    }
}

/// Whether undoing `r` on `lines` stays within bounds.
pub fn inverse_in_bounds(r: &EditRecord, lines: &Vec<String>) -> (b: bool)
    requires
        op_fits(r@),
    ensures
        b == inverse_ok(r@, lines_of(lines@)),
{
    let n = lines.len();
    match r {
        EditRecord::InsertChar { row, col, .. } => {
            if *row >= n {
                return false;
            }
            let s = lines[*row].as_str();
            if !is_boundary(s, *col) {
                return false;
            }
            proof {
                lemma_boundary(s@, *col as int);
            }
            *col < byte_length(s)
        },
        EditRecord::DeleteChar { row, col, .. } => *row < n && is_boundary(lines[*row].as_str(), *col),
        EditRecord::InsertString { row, col, text } => {
            if *row >= n {
                return false;
            }
            let s = lines[*row].as_str();
            is_boundary(s, *col) && boundary_at_sum(s, *col, byte_length(text.as_str()))
        },
        EditRecord::RemoveString { row, col, .. } => *row < n && is_boundary(
            lines[*row].as_str(),
            *col,
        ),
        EditRecord::SplitLine { row, .. } => n > 0 && *row < n - 1,
        EditRecord::MergeLine { row, prev_len } => *row < n && is_boundary(
            lines[*row].as_str(),
            *prev_len,
        ),
        EditRecord::InsertLine { row } => *row < n,
        EditRecord::RemoveLine { row, .. } => *row <= n,
        EditRecord::RemoveEmptyLine { row } => *row <= n,
        EditRecord::MoveLine { from, to } => *from < n && *to < n,
        EditRecord::Paste { row, col, text } => {
            let parts = split_text(text.as_str());
            proof {
                lemma_split_nonempty(text@);
            }
            let (er, ec) = paste_end_of(*row, *col, text.as_str(), &parts);
            er < n && is_boundary(lines[*row].as_str(), *col) && is_boundary(lines[er].as_str(), ec)
        },
    }
}

/// Whether redoing `r` on `lines` stays within bounds.
pub fn forward_in_bounds(r: &EditRecord, lines: &Vec<String>) -> (b: bool)
    requires
        op_fits(r@),
    ensures
        b == forward_ok(r@, lines_of(lines@)),
{
    let n = lines.len();
    match r {
        EditRecord::InsertChar { row, col, .. } => *row < n && is_boundary(lines[*row].as_str(), *col),
        EditRecord::DeleteChar { row, col, .. } => {
            if *row >= n {
                return false;
            }
            let s = lines[*row].as_str();
            if !is_boundary(s, *col) {
                return false;
            }
            proof {
                lemma_boundary(s@, *col as int);
            }
            *col < byte_length(s)
        },
        EditRecord::InsertString { row, col, .. } => *row < n && is_boundary(
            lines[*row].as_str(),
            *col,
        ),
        EditRecord::RemoveString { row, col, text } => {
            if *row >= n {
                return false;
            }
            let s = lines[*row].as_str();
            is_boundary(s, *col) && boundary_at_sum(s, *col, byte_length(text.as_str()))
        },
        EditRecord::SplitLine { row, col } => *row < n && is_boundary(lines[*row].as_str(), *col),
        EditRecord::MergeLine { row, .. } => n > 0 && *row < n - 1,
        EditRecord::InsertLine { row } => *row <= n,
        EditRecord::RemoveLine { row, .. } => *row < n,
        EditRecord::RemoveEmptyLine { row } => *row < n,
        EditRecord::MoveLine { from, to } => *from < n && *to < n,
        EditRecord::Paste { row, col, .. } => *row < n && is_boundary(lines[*row].as_str(), *col),
    }
}

/// The top flag of `m`; unset where there is none.
fn top_flag_of(m: &Vec<bool>) -> (e: bool)
    ensures
        e == top_flag(m@),
{
    let n = m.len();
    n > 0 && m[n - 1]
}

/// Whether `u` stays within bounds.
pub fn undo_ok(tab: &Tab) -> (b: bool)
    ensures
        b == undo_safe(tab@),
{
    let k = tab.undo_stack.len();
    if k == 0 {
        return true;
    }
    let r = &tab.undo_stack[k - 1];
    let emptied = top_flag_of(&tab.undo_emptied);
    proof {
        lemma_history_pop(tab.undo_stack@, tab.undo_emptied@);
        assert(tab.undo_stack@.last() == *r);
    }
    if !record_fits(r) {
        return false;
    }
    if emptied {
        if let EditRecord::RemoveLine { row, .. } = r {
            return *row < tab.input_box.len();
        }
    }
    inverse_in_bounds(r, &tab.input_box)
}

/// Whether `r` stays within bounds.
pub fn redo_ok(tab: &Tab) -> (b: bool)
    ensures
        b == redo_safe(tab@),
{
    let k = tab.redo_stack.len();
    if k == 0 {
        return true;
    }
    let r = &tab.redo_stack[k - 1];
    let emptied = top_flag_of(&tab.redo_emptied);
    proof {
        lemma_history_pop(tab.redo_stack@, tab.redo_emptied@);
        assert(tab.redo_stack@.last() == *r);
    }
    if !record_fits(r) {
        return false;
    }
    if emptied {
        if let EditRecord::RemoveLine { row, .. } = r {
            return *row < tab.input_box.len();
        }
    }
    forward_in_bounds(r, &tab.input_box)
}

/// Whether a Normal-mode key reads the text or moves over it.
pub fn reads_text_exec(key: Key) -> (b: bool)
    ensures
        b == reads_text(key),
{
    match key {
        Key::Left | Key::Right | Key::Up | Key::Down | Key::Char('h') | Key::Char('j')
        | Key::Char('k') | Key::Char('l') | Key::Delete | Key::Backspace | Key::Char('a')
        | Key::Char('G') | Key::Char('K') | Key::Char('J') | Key::Char('>') | Key::Char('<')
        | Key::Char('e') | Key::Char('b') | Key::Char('E') | Key::Char('o') | Key::Char('d')
        | Key::Char('u') | Key::Char('r') => true,
        _ => false,
    }
}

/// Whether a Normal-mode key stays within bounds.
pub fn normal_key_ok(tab: &Tab, key: Key) -> (b: bool)
    ensures
        b == normal_safe(key, tab@),
{
    if reads_text_exec(key) && !lines_fit(&tab.input_box) {
        return false;
    }
    if !arrow_ok(arrow_of(key), tab.cursor_y, tab.cursor_x, &tab.input_box) {
        return false;
    }
    let y = tab.cursor_y;
    match key {
        Key::Char('a') | Key::Char('>') | Key::Char('<') | Key::Char('E') | Key::Char('o')
        | Key::Char('d') => row_in(tab),
        Key::Char('K') => y == 0 || (0 < y && (y as usize) < tab.input_box.len()),
        Key::Char('J') => tab.input_box.len() >= 1,
        Key::Char('e') | Key::Char('b') => row_in(tab) && boundary_at(cursor_text(tab), tab.cursor_x),
        Key::Delete => delete_ok(tab),
        Key::Backspace => backspace_ok(tab),
        Key::Char('u') => undo_ok(tab),
        Key::Char('r') => redo_ok(tab),
        _ => true,
    }
}

/// Whether an Insert-mode key stays within bounds, with `filled` the chars
/// typed since the last other key.
pub fn insert_key_ok(tab: &Tab, key: Key, filled: &String) -> (b: bool)
    ensures
        b == insert_safe(key, tab@, filled@),
{
    let max: i64 = i32::MAX as i64;
    let f = byte_length(filled.as_str());
    if !lines_fit(&tab.input_box) || f > i32::MAX as usize || !arrow_ok(key, tab.cursor_y, tab.cursor_x, &tab.input_box) {
        return false;
    }
    let x = tab.cursor_x;
    let is_char = match key {
        Key::Char(_) => true,
        _ => false,
    };
    if !is_char && filled.as_str().unicode_len() > 0 && !(0 <= tab.cursor_y && 0 <= x && f <= x as usize) {
        return false;
    }
    match key {
        Key::Char(c) => row_in(tab) && boundary_at(cursor_text(tab), x) && (x as i64) + (width(c) as i64) <= max,
        Key::Enter => row_in(tab) && boundary_at(cursor_text(tab), x),
        Key::Tab => row_in(tab) && boundary_at(cursor_text(tab), x) && (x as i64) + 4 <= max,
        Key::Delete => delete_ok(tab),
        Key::Backspace => backspace_ok(tab),
        _ => true,
    }
}

/// Whether a Select-Line key stays within bounds.
pub fn select_line_key_ok(tab: &Tab, vis: &Visual, key: Key) -> (b: bool)
    ensures
        b == select_line_safe(key, tab@, *vis),
{
    if !lines_fit(&tab.input_box) || !arrow_ok(arrow_of(key), tab.cursor_y, tab.cursor_x, &tab.input_box) {
        return false;
    }
    match key {
        Key::Char('K') | Key::Char('J') | Key::Char('>') | Key::Char('<') | Key::Char('d') => row_in(
            tab,
        ) && vis.v_y < tab.input_box.len(),
        _ => true,
    }
}

/// Whether byte `far` of `s` starts a char, and byte `near` is a char
/// boundary of `s` once that char is taken out.
fn shift_ok(s: &str, far: usize, near: usize) -> (b: bool)
    ensures
        b == (on_boundary(s@, far as int) && pos(s@, far as int) < s@.len() && on_boundary(
            s@.remove(pos(s@, far as int)),
            near as int,
        )),
{
    if !is_boundary(s, far) {
        return false;
    }
    proof {
        lemma_boundary(s@, far as int);
    }
    if far >= byte_length(s) {
        return false;
    }
    let mut r = s.to_string();
    remove_char(&mut r, far);
    is_boundary(r.as_str(), near)
}

/// Whether a Select-mode key stays within bounds.
pub fn select_key_ok(tab: &Tab, vis: &Visual, key: Key) -> (b: bool)
    ensures
        b == select_char_safe(key, tab@, *vis),
{
    let max: usize = i32::MAX as usize;
    if !lines_fit(&tab.input_box) || vis.v_x > max || !arrow_ok(arrow_of(key), tab.cursor_y, tab.cursor_x, &tab.input_box) {
        return false;
    }
    let x = tab.cursor_x;
    let y = tab.cursor_y;
    let vx = vis.v_x;
    match key {
        Key::Char('>') => {
            if x < 0 || (x as usize) < vx {
                row_in(tab) && x >= 1 && shift_ok(cursor_text(tab), vx + 1, x as usize - 1)
            } else if vx < x as usize {
                row_in(tab) && vx >= 1 && shift_ok(cursor_text(tab), x as usize + 1, vx - 1)
            } else {
                true
            }
        },
        Key::Char('e') | Key::Char('b') => row_in(tab) && boundary_at(cursor_text(tab), x),
        Key::Char('E') => row_in(tab),
        Key::Char('d') => {
            if y >= 0 && y as usize == vis.v_y {
                if !row_in(tab) {
                    false
                } else if x >= 0 && x as usize == vx {
                    true
                } else {
                    let s = cursor_text(tab);
                    boundary_at(s, x) && is_boundary(s, vx)
                }
            } else {
                true
            }
        },
        _ => true,
    }
}

/// Whether pasting `text` at the cursor stays within bounds.
pub fn paste_ok(tab: &Tab, text: &str) -> (b: bool)
    ensures
        b == paste_safe(tab@, text@),
{
    let max: usize = i32::MAX as usize;
    if !row_in(tab) {
        return false;
    }
    let s = cursor_text(tab);
    let x = tab.cursor_x;
    if !boundary_at(s, x) {
        return false;
    }
    let ls = byte_length(s);
    if ls > max {
        return false;
    }
    let norm = normalize_newlines(text);
    let parts = split_text(norm.as_str());
    let ghost k = pos(s@, x as int);
    let ghost ps = split_lines(normalize(text@));
    proof {
        lemma_split_nonempty(normalize(text@));
        lemma_boundary(s@, x as int);
        assert(s@ =~= s@.take(k) + s@.skip(k));
        lemma_byte_len_concat(s@.take(k), s@.skip(k));
        assert(lines_of(parts@) == ps);
    }
    let last = byte_length(parts[parts.len() - 1].as_str());
    proof {
        let m = ps.update(0, s@.take(k) + ps[0]);
        let mid = pasted_lines(s@, k, ps);
        if ps.len() == 1 {
            assert(mid.last() =~= s@.take(k) + ps[0] + s@.skip(k));
            lemma_byte_len_concat(s@.take(k), ps[0]);
            lemma_byte_len_concat(s@.take(k) + ps[0], s@.skip(k));
        } else {
            assert(mid.last() =~= ps.last() + s@.skip(k));
            lemma_byte_len_concat(ps.last(), s@.skip(k));
        }
    }
    if parts.len() - 1 > max - tab.cursor_y as usize {
        return false;
    }
    if parts.len() == 1 {
        last <= max - ls
    } else {
        last <= max - (ls - x as usize)
    }
}
} // verus!
