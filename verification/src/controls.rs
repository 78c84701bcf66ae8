//! Keys, and the cursor movement shared by the modes.
use vstd::prelude::*;

use crate::helpers::lines_of;
use crate::text::{
    byte_len, byte_length, char_after, char_before, is_boundary, lemma_boundary,
    lemma_offset_end, lemma_offset_mono, lemma_offset_step, lemma_snap, line_fits, offset,
    on_boundary, pos, snap, width,
};

verus! {

/// A key press, as the editor distinguishes them.
#[derive(Clone, Copy, Debug, PartialEq, Eq, Structural)]
pub enum Key {
    Char(char),
    Left,
    Right,
    Up,
    Down,
    Enter,
    Tab,
    BackTab,
    Backspace,
    Delete,
    Esc,
    Other,
}

/// The lines, and their number, fit the editor's `i32` coordinates.
pub open spec fn text_fits(b: Seq<Seq<char>>) -> bool {
    &&& b.len() <= i32::MAX
    &&& forall|i: int| 0 <= i < b.len() ==> line_fits(#[trigger] b[i])
}

/// The four arrow keys.
pub open spec fn is_arrow(key: Key) -> bool {
    key is Left || key is Right || key is Up || key is Down
}

/// Moving by `key` from (`cy`, `cx`) over `b` indexes and slices only within
/// bounds (std panics otherwise).
pub open spec fn arrow_safe(key: Key, cy: int, cx: int, b: Seq<Seq<char>>) -> bool {
    match key {
        Key::Left => cx != 0 ==> 0 <= cy < b.len() && on_boundary(b[cy], cx),
        Key::Right => 0 <= cy < b.len() && (0 <= cx < byte_len(b[cy]) ==> on_boundary(
            b[cy],
            cx,
        )),
        Key::Up => 0 <= cy <= b.len(),
        Key::Down => cy != -1,
        _ => true,
    }
}

/// The column the cursor takes on line `s` when it arrives from column `cx`
/// of another line: the end of `s` when `cx` lies past it, else the first
/// char boundary at or after `cx`.
pub open spec fn column_on(s: Seq<char>, cx: int) -> int {
    if cx < 0 || cx > byte_len(s) {
        byte_len(s) as int
    } else {
        snap(s, cx)
    }
}

/// The cursor (row, column) after `key` moves it from (`cy`, `cx`).
pub open spec fn arrow_step(key: Key, cy: int, cx: int, b: Seq<Seq<char>>) -> (int, int) {
    match key {
        Key::Left => if cx != 0 {
            (cy, offset(b[cy], pos(b[cy], cx) - 1) as int)
        } else {
            (cy, cx)
        },
        Key::Right => if 0 <= cx < byte_len(b[cy]) {
            (cy, offset(b[cy], pos(b[cy], cx) + 1) as int)
        } else {
            (cy, cx)
        },
        Key::Up => if cy > 0 {
            (cy - 1, column_on(b[cy - 1], cx))
        } else {
            (cy, cx)
        },
        Key::Down => if 0 <= cy && cy + 1 < b.len() {
            (cy + 1, column_on(b[cy + 1], cx))
        } else {
            (cy, cx)
        },
        _ => (cy, cx),
    }
}

/// The column on line `s` for a cursor arriving from column `cx`.
fn arrive(s: &String, cx: i32) -> (c: i32)
    requires
        line_fits(s@),
    ensures
        c == column_on(s@, cx as int),
{
    let len = byte_length(s.as_str());
    if cx < 0 || cx as usize > len {
        len as i32
    } else {
        let mut c = cx as usize;
        proof {
            lemma_snap(s@, cx as int);
        }
        while !is_boundary(s.as_str(), c)
            invariant
                cx <= c <= snap(s@, cx as int),
                snap(s@, cx as int) <= byte_len(s@),
                byte_len(s@) <= i32::MAX,
                on_boundary(s@, snap(s@, cx as int)),
                forall|d: int| cx <= d < snap(s@, cx as int) ==> !on_boundary(s@, d),
            decreases snap(s@, cx as int) - c,
        {
            c = c + 1;
        }
        c as i32
    }
}

/// Moves the cursor for the arrow keys; returns whether `event_key` was one.
pub fn default_controls(
    event_key: Key,
    cursor_y: &mut i32,
    cursor_x: &mut i32,
    text: &Vec<String>,
) -> (moved: bool)
    requires
        arrow_safe(event_key, *old(cursor_y) as int, *old(cursor_x) as int, lines_of(text@)),
        is_arrow(event_key) ==> text_fits(lines_of(text@)),
    ensures
        moved == is_arrow(event_key),
        (*final(cursor_y) as int, *final(cursor_x) as int) == arrow_step(
            event_key,
            *old(cursor_y) as int,
            *old(cursor_x) as int,
            lines_of(text@),
        ),
{
    let ghost b = lines_of(text@);
    let x = *cursor_x;
    let y = *cursor_y;
    match event_key {
        Key::Left => {
            if x != 0 {
                let line = text[y as usize].as_str();
                proof {
                    assert(line@ == b[y as int]);
                    lemma_boundary(line@, x as int);
                }
                if let Some((start, _)) = char_before(line, x as usize) {
                    *cursor_x = start as i32;
                }
            }
        },
        Key::Right => {
            let line = text[y as usize].as_str();
            proof {
                assert(line@ == b[y as int]);
            }
            if x >= 0 && (x as usize) < byte_length(line) {
                proof {
                    lemma_boundary(line@, x as int);
                    lemma_offset_step(line@, pos(line@, x as int));
                    lemma_offset_mono(line@, pos(line@, x as int) + 1, line@.len() as int);
                    lemma_offset_end(line@);
                }
                if let Some(ch) = char_after(line, x as usize) {
                    *cursor_x = x + width(ch) as i32;
                }
            }
        },
        Key::Up => {
            if y != 0 {
                proof {
                    assert(text@[y - 1]@ == b[y - 1]);
                }
                *cursor_x = arrive(&text[(y - 1) as usize], x);
                *cursor_y = y - 1;
            }
        },
        Key::Down => {
            if y >= 0 && (y as usize) + 1 < text.len() {
                proof {
                    assert(text@[y + 1]@ == b[y + 1]);
                }
                *cursor_x = arrive(&text[(y + 1) as usize], x);
                *cursor_y = y + 1;
            }
        },
        _ => {
            return false;
        },
    }
    true
}

/// The arrow key that a Vim motion key stands for.
pub open spec fn vim_arrow(key: Key) -> Key {
    match key {
        Key::Char('h') => Key::Left,
        Key::Char('l') => Key::Right,
        Key::Char('k') => Key::Up,
        Key::Char('j') => Key::Down,
        _ => key,
    }
}

/// Moves the cursor for the arrow keys and `h` `j` `k` `l`; returns whether
/// `event_key` was one of them.
pub fn controls(event_key: Key, cursor_y: &mut i32, cursor_x: &mut i32, text: &Vec<String>) -> (moved: bool)
    requires
        arrow_safe(vim_arrow(event_key), *old(cursor_y) as int, *old(cursor_x) as int, lines_of(text@)),
        is_arrow(vim_arrow(event_key)) ==> text_fits(lines_of(text@)),
    ensures
        moved == is_arrow(vim_arrow(event_key)),
        (*final(cursor_y) as int, *final(cursor_x) as int) == arrow_step(
            vim_arrow(event_key),
            *old(cursor_y) as int,
            *old(cursor_x) as int,
            lines_of(text@),
        ),
{
    if default_controls(event_key, cursor_y, cursor_x, text) {
        return true;
    }
    match event_key {
        Key::Char('h') => default_controls(Key::Left, cursor_y, cursor_x, text),
        Key::Char('l') => default_controls(Key::Right, cursor_y, cursor_x, text),
        Key::Char('k') => default_controls(Key::Up, cursor_y, cursor_x, text),
        Key::Char('j') => default_controls(Key::Down, cursor_y, cursor_x, text),
        _ => false,
    }
}

/// The cursor is on a line of `b`, at a char boundary of it.
pub open spec fn cursor_valid(cy: int, cx: int, b: Seq<Seq<char>>) -> bool {
    0 <= cy < b.len() && on_boundary(b[cy], cx)
}

/// Every arrow move from a valid cursor leaves the cursor valid.
pub proof fn law_arrows_keep_cursor_valid(key: Key, cy: int, cx: int, b: Seq<Seq<char>>)
    requires
        cursor_valid(cy, cx, b),
    ensures
        arrow_safe(key, cy, cx, b),
        cursor_valid(arrow_step(key, cy, cx, b).0, arrow_step(key, cy, cx, b).1, b),
{
    let s = b[cy];
    lemma_boundary(s, cx);
    crate::text::lemma_offset_end(s);
    match key {
        Key::Left => {
            if cx != 0 {
                let k = pos(s, cx);
                if k == 0 {
                    assert(s.take(0) =~= Seq::<char>::empty());
                }
                crate::text::lemma_index_of_offset(s, k - 1);
            }
        },
        Key::Right => {
            if 0 <= cx < byte_len(s) {
                crate::text::lemma_index_of_offset(s, pos(s, cx) + 1);
            }
        },
        Key::Up => {
            if cy > 0 {
                let p = b[cy - 1];
                crate::text::lemma_ends_are_boundaries(p);
                if 0 <= cx <= byte_len(p) {
                    lemma_snap(p, cx);
                }
            }
        },
        Key::Down => {
            if 0 <= cy && cy + 1 < b.len() {
                let p = b[cy + 1];
                crate::text::lemma_ends_are_boundaries(p);
                if 0 <= cx <= byte_len(p) {
                    lemma_snap(p, cx);
                }
            }
        },
        _ => {},
    }
}
} // verus!
