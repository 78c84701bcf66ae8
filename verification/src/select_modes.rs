//! Select-Line mode (whole lines between the anchor and the cursor) and
//! Select mode (chars of the cursor line between the anchor and the cursor).
use vstd::prelude::*;

use crate::actions::{
    cursor_line, indent_cursor, indent_row, indented_row, pushed, record, row_ok, unindent_row,
    unindented_row,
};
use crate::controls::{arrow_safe, arrow_step, controls, is_arrow, text_fits, vim_arrow, Key};
use crate::helpers::{lines_of, EditOp, EditRecord, Tab, TabView, Visual};
use crate::normal_mode::NORMAL;
use crate::text::{
    byte_len, byte_length, cut, find_from, indent_column, insert_char, lemma_boundary,
    lemma_next_char_from, lemma_offset_end, lemma_offset_mono, lemma_pos_order,
    lemma_prev_char_before, next_char_from, offset, on_boundary, pos, prev_char_before,
    remove_char, rfind_before, substring,
};

verus! {

/// Lines `lo` to `hi` indented by one level, one recorded edit per line.
pub open spec fn indent_rows(t: TabView, lo: int, hi: int) -> TabView
    decreases hi - lo + 1,
{
    if lo > hi {
        t
    } else {
        indent_rows(indented_row(t, lo), lo + 1, hi)
    }
}

/// Lines `lo` to `hi` with one level of indentation removed where they have
/// one, one recorded edit per changed line.
pub open spec fn unindent_rows(t: TabView, lo: int, hi: int) -> TabView
    decreases hi - lo + 1,
{
    if lo > hi {
        t
    } else {
        unindent_rows(unindented_row(t, lo), lo + 1, hi)
    }
}

/// `count` lines removed at `row`, each removal recorded.
pub open spec fn removed_rows(t: TabView, row: int, count: int) -> TabView
    decreases count,
{
    if count <= 0 {
        t
    } else {
        removed_rows(
            TabView {
                text: t.text.remove(row),
                undo: pushed(t, EditOp::RemoveLine { row, content: t.text[row] }),
                redo: Seq::empty(),
                ..t
            },
            row,
            count - 1,
        )
    }
}

/// The tab with line `from` taken out and put back at `to` (an index into
/// the text without it).
pub open spec fn moved_line(t: TabView, from: int, to: int) -> Seq<Seq<char>> {
    t.text.remove(from).insert(to, t.text[from])
}

/// Where a Select-Line key leaves the tab, the anchor and the mode, and
/// whether the caller stays in the mode.
pub open spec fn select_line_next(key: Key, t: TabView, vis: Visual, mode: i32) -> (
    TabView,
    Visual,
    i32,
    bool,
) {
    let y = t.cursor_y;
    let v = vis.v_y as int;
    let len = t.text.len();
    let lo = if y > v { v } else { y };
    let hi = if y > v { y } else { v };
    let up = Visual { v_y: (v - 1) as usize, ..vis };
    let down = Visual { v_y: (v + 1) as usize, ..vis };
    if is_arrow(vim_arrow(key)) {
        let (cy, cx) = arrow_step(vim_arrow(key), y, t.cursor_x, t.text);
        (TabView { cursor_y: cy, cursor_x: cx, ..t }, vis, mode, true)
    } else {
        match key {
            Key::Esc => (t, vis, NORMAL, false),
            Key::Char('g') => (TabView { cursor_y: 0, cursor_x: 0, ..t }, vis, mode, true),
            Key::Char('G') => (TabView { cursor_y: len - 1, cursor_x: 0, ..t }, vis, mode, true),
            Key::Char('K') => if y > v {
                if v > 0 {
                    (
                        TabView {
                            text: moved_line(t, v - 1, y),
                            saved: false,
                            cursor_y: y - 1,
                            undo: pushed(t, EditOp::MoveLine { from: v - 1, to: y }),
                            redo: Seq::empty(),
                            ..t
                        },
                        up,
                        mode,
                        true,
                    )
                } else {
                    (t, vis, mode, true)
                }
            } else if v > y {
                if y > 0 {
                    (
                        TabView {
                            text: moved_line(t, y - 1, v),
                            saved: false,
                            cursor_y: y - 1,
                            undo: pushed(t, EditOp::MoveLine { from: y - 1, to: v }),
                            redo: Seq::empty(),
                            ..t
                        },
                        up,
                        mode,
                        true,
                    )
                } else {
                    (t, vis, mode, true)
                }
            } else {
                if y > 0 {
                    (
                        TabView {
                            text: moved_line(t, y, y - 1),
                            saved: false,
                            cursor_y: y - 1,
                            undo: pushed(t, EditOp::MoveLine { from: y, to: y - 1 }),
                            redo: Seq::empty(),
                            ..t
                        },
                        up,
                        mode,
                        true,
                    )
                } else {
                    (t, vis, mode, true)
                }
            },
            Key::Char('J') => if y > v {
                if y < len - 1 {
                    (
                        TabView {
                            text: moved_line(t, y + 1, v),
                            saved: false,
                            cursor_y: y + 1,
                            undo: pushed(t, EditOp::MoveLine { from: y + 1, to: v }),
                            redo: Seq::empty(),
                            ..t
                        },
                        down,
                        mode,
                        true,
                    )
                } else {
                    (t, vis, mode, true)
                }
            } else if v > y {
                if v < len - 1 {
                    (
                        TabView {
                            text: moved_line(t, v + 1, y),
                            saved: false,
                            cursor_y: y + 1,
                            undo: pushed(t, EditOp::MoveLine { from: v + 1, to: y }),
                            redo: Seq::empty(),
                            ..t
                        },
                        down,
                        mode,
                        true,
                    )
                } else {
                    (t, vis, mode, true)
                }
            } else {
                if y < len - 1 {
                    (
                        TabView {
                            text: moved_line(t, y, y + 1),
                            saved: false,
                            cursor_y: y + 1,
                            undo: pushed(t, EditOp::MoveLine { from: y, to: y + 1 }),
                            redo: Seq::empty(),
                            ..t
                        },
                        down,
                        mode,
                        true,
                    )
                } else {
                    (t, vis, mode, true)
                }
            },
            Key::Char('>') => {
                let u = indent_rows(TabView { saved: false, ..t }, lo, hi);
                (
                    TabView { cursor_x: indent_column(cursor_line(u)) as i32 as int, ..u },
                    vis,
                    mode,
                    true,
                )
            },
            Key::Char('<') => {
                let u = unindent_rows(TabView { saved: false, ..t }, lo, hi);
                (
                    TabView { cursor_x: indent_column(cursor_line(u)) as i32 as int, ..u },
                    vis,
                    mode,
                    true,
                )
            },
            Key::Char('d') => {
                let u = TabView { saved: false, ..t };
                (
                    removed_rows(u, lo, hi - lo + 1),
                    vis,
                    mode,
                    false,
                )
            },
            _ => (t, vis, NORMAL, true),
        }
    }
}

/// A Select-Line key reads and writes only within bounds: the commands that
/// change lines need the cursor and the anchor on lines of the text.
pub open spec fn select_line_safe(key: Key, t: TabView, vis: Visual) -> bool {
    &&& text_fits(t.text)
    &&& arrow_safe(vim_arrow(key), t.cursor_y, t.cursor_x, t.text)
    &&& (key == Key::Char('K') || key == Key::Char('J') || key == Key::Char('>') || key
        == Key::Char('<') || key == Key::Char('d')) ==> row_ok(t) && vis.v_y < t.text.len()
}

proof fn lemma_indent_rows_len(t: TabView, lo: int, hi: int)
    requires
        0 <= lo,
        hi < t.text.len(),
    ensures
        indent_rows(t, lo, hi).text.len() == t.text.len(),
        indent_rows(t, lo, hi).cursor_y == t.cursor_y,
    decreases hi - lo + 1,
{
    if lo <= hi {
        lemma_indent_rows_len(indented_row(t, lo), lo + 1, hi);
    }
}

proof fn lemma_unindent_rows_len(t: TabView, lo: int, hi: int)
    requires
        0 <= lo,
        hi < t.text.len(),
    ensures
        unindent_rows(t, lo, hi).text.len() == t.text.len(),
        unindent_rows(t, lo, hi).cursor_y == t.cursor_y,
    decreases hi - lo + 1,
{
    if lo <= hi {
        lemma_unindent_rows_len(unindented_row(t, lo), lo + 1, hi);
    }
}

/// Indents lines `lo` to `hi`.
fn indent_range(tab: &mut Tab, lo: usize, hi: usize)
    requires
        lo <= hi < old(tab)@.text.len(),
    ensures
        final(tab)@ == indent_rows(old(tab)@, lo as int, hi as int),
{
    let ghost t = tab@;
    proof {
        assert(t.text.len() == tab.input_box@.len());
        assert(tab.input_box@.len() == tab.input_box.len());
    }
    let mut i = lo;
    while i <= hi
        invariant
            lo <= i <= hi + 1,
            hi < t.text.len(),
            hi < usize::MAX,
            indent_rows(tab@, i as int, hi as int) == indent_rows(t, lo as int, hi as int),
            tab@.text.len() == t.text.len(),
        decreases hi + 1 - i,
    {
        indent_row(tab, i);
        i = i + 1;
    }
}

/// Unindents lines `lo` to `hi`.
fn unindent_range(tab: &mut Tab, lo: usize, hi: usize)
    requires
        lo <= hi < old(tab)@.text.len(),
    ensures
        final(tab)@ == unindent_rows(old(tab)@, lo as int, hi as int),
{
    let ghost t = tab@;
    proof {
        assert(t.text.len() == tab.input_box@.len());
        assert(tab.input_box@.len() == tab.input_box.len());
    }
    let mut i = lo;
    while i <= hi
        invariant
            lo <= i <= hi + 1,
            hi < t.text.len(),
            hi < usize::MAX,
            unindent_rows(tab@, i as int, hi as int) == unindent_rows(t, lo as int, hi as int),
            tab@.text.len() == t.text.len(),
        decreases hi + 1 - i,
    {
        unindent_row(tab, i);
        i = i + 1;
    }
}

/// Removes `count` lines at `row`, recording each.
fn remove_rows(tab: &mut Tab, row: usize, count: usize)
    requires
        row + count <= old(tab)@.text.len(),
    ensures
        final(tab)@ == removed_rows(old(tab)@, row as int, count as int),
{
    let ghost t = tab@;
    let mut n: usize = 0;
    while n < count
        invariant
            n <= count,
            row + count - n <= tab@.text.len(),
            removed_rows(tab@, row as int, (count - n) as int) == removed_rows(
                t,
                row as int,
                count as int,
            ),
        decreases count - n,
    {
        let ghost before = tab@;
        proof {
            assert(tab.input_box@[row as int]@ == before.text[row as int]);
        }
        let content = tab.input_box[row].clone();
        record(tab, EditRecord::RemoveLine { row, content });
        tab.input_box.remove(row);
        proof {
            assert(tab@.text =~= before.text.remove(row as int));
        }
        n = n + 1;
    }
}

/// Moves line `from` to index `to` of the text without it.
fn move_line(tab: &mut Tab, from: usize, to: usize)
    requires
        from < old(tab)@.text.len(),
        to < old(tab)@.text.len(),
    ensures
        final(tab)@ == (TabView {
            text: moved_line(old(tab)@, from as int, to as int),
            saved: false,
            undo: pushed(old(tab)@, EditOp::MoveLine { from: from as int, to: to as int }),
            redo: Seq::empty(),
            ..old(tab)@
        }),
{
    let ghost t = tab@;
    let line = tab.input_box.remove(from);
    tab.unsave();
    tab.input_box.insert(to, line);
    proof {
        assert(tab@.text =~= moved_line(t, from as int, to as int));
    }
    record(tab, EditRecord::MoveLine { from, to });
}

/// Handles a key in Select-Line mode. `K` and `J` move the line next to the
/// selection across it (or the selected line itself) and the selection with
/// it, recording the move; `>` and `<` (un)indent the selected lines; `d`
/// removes them and leaves the mode. Returns false when the mode is left.
pub fn select_mode_line(tab: &mut Tab, vis: &mut Visual, event_key: Key, mode: &mut i32) -> (stay: bool)
    requires
        select_line_safe(event_key, old(tab)@, *old(vis)),
    ensures
        (final(tab)@, *final(vis), *final(mode), stay) == select_line_next(
            event_key,
            old(tab)@,
            *old(vis),
            *old(mode),
        ),
{
    let ghost t = tab@;
    if controls(event_key, &mut tab.cursor_y, &mut tab.cursor_x, &tab.input_box) {
        return true;
    }
    let y = tab.cursor_y;
    match event_key {
        Key::Esc => {
            *mode = NORMAL;
            return false;
        },
        Key::Char('g') => {
            tab.cursor_y = 0;
            tab.cursor_x = 0;
        },
        Key::Char('G') => {
            tab.cursor_y = tab.input_box.len() as i32 - 1;
            tab.cursor_x = 0;
        },
        Key::Char('K') => {
            let yu = y as usize;
            if yu > vis.v_y {
                if vis.v_y > 0 {
                    move_line(tab, vis.v_y - 1, yu);
                    vis.v_y = vis.v_y - 1;
                    tab.cursor_y = y - 1;
                }
            } else if vis.v_y > yu {
                if y > 0 {
                    move_line(tab, yu - 1, vis.v_y);
                    vis.v_y = vis.v_y - 1;
                    tab.cursor_y = y - 1;
                }
            } else {
                if yu > 0 {
                    move_line(tab, yu, yu - 1);
                    vis.v_y = vis.v_y - 1;
                    tab.cursor_y = y - 1;
                }
            }
        },
        Key::Char('J') => {
            let yu = y as usize;
            let last = tab.input_box.len() - 1;
            if yu > vis.v_y {
                if yu < last {
                    move_line(tab, yu + 1, vis.v_y);
                    vis.v_y = vis.v_y + 1;
                    tab.cursor_y = y + 1;
                }
            } else if vis.v_y > yu {
                if vis.v_y < last {
                    move_line(tab, vis.v_y + 1, yu);
                    vis.v_y = vis.v_y + 1;
                    tab.cursor_y = y + 1;
                }
            } else {
                if yu < last {
                    move_line(tab, yu, yu + 1);
                    vis.v_y = vis.v_y + 1;
                    tab.cursor_y = y + 1;
                }
            }
        },
        Key::Char('>') => {
            tab.unsave();
            let yu = y as usize;
            if yu > vis.v_y {
                indent_range(tab, vis.v_y, yu);
            } else {
                indent_range(tab, yu, vis.v_y);
            }
            proof {
                lemma_indent_rows_len(
                    TabView { saved: false, ..t },
                    if y > vis.v_y { vis.v_y as int } else { y as int },
                    if y > vis.v_y { y as int } else { vis.v_y as int },
                );
            }
            indent_cursor(tab);
        },
        Key::Char('<') => {
            tab.unsave();
            let yu = y as usize;
            if yu > vis.v_y {
                unindent_range(tab, vis.v_y, yu);
            } else {
                unindent_range(tab, yu, vis.v_y);
            }
            proof {
                lemma_unindent_rows_len(
                    TabView { saved: false, ..t },
                    if y > vis.v_y { vis.v_y as int } else { y as int },
                    if y > vis.v_y { y as int } else { vis.v_y as int },
                );
            }
            indent_cursor(tab);
        },
        Key::Char('d') => {
            tab.unsave();
            let yu = y as usize;
            if yu > vis.v_y {
                remove_rows(tab, vis.v_y, yu - vis.v_y + 1);
            } else {
                remove_rows(tab, yu, vis.v_y - yu + 1);
            }
            return false;
        },
        _ => {
            *mode = NORMAL;
        },
    }
    true
}

/// Where a Select-mode key leaves the tab and the mode, and whether the
/// caller stays in the mode.
pub open spec fn select_char_next(key: Key, t: TabView, vis: Visual, mode: i32) -> (
    TabView,
    i32,
    bool,
) {
    let y = t.cursor_y;
    let x = t.cursor_x;
    let vx = vis.v_x as int;
    let s = cursor_line(t);
    if is_arrow(vim_arrow(key)) {
        let (cy, cx) = arrow_step(vim_arrow(key), y, x, t.text);
        (TabView { cursor_y: cy, cursor_x: cx, ..t }, mode, true)
    } else {
        match key {
            Key::Esc => (t, NORMAL, false),
            Key::Char('>') => if x < vx {
                let r = s.remove(pos(s, vx + 1));
                (
                    TabView { text: t.text.update(y, r.insert(pos(r, x - 1), s[pos(s, vx + 1)])), ..t },
                    mode,
                    true,
                )
            } else if vx < x {
                let r = s.remove(pos(s, x + 1));
                (
                    TabView { text: t.text.update(y, r.insert(pos(r, vx - 1), s[pos(s, x + 1)])), ..t },
                    mode,
                    true,
                )
            } else {
                (t, mode, true)
            },
            Key::Char('e') => (
                TabView {
                    cursor_x: match next_char_from(s, pos(s, x), ' ') {
                        Some(j) => offset(s, j) + 1int,
                        None => byte_len(s) as int,
                    },
                    ..t
                },
                mode,
                true,
            ),
            Key::Char('b') => (
                TabView {
                    cursor_x: match prev_char_before(s, pos(s, x), ' ') {
                        Some(j) => offset(s, j) as int,
                        None => 0,
                    },
                    ..t
                },
                mode,
                true,
            ),
            Key::Char('E') => (TabView { cursor_x: byte_len(s) as int, ..t }, mode, true),
            Key::Char('B') => (TabView { cursor_x: 0, ..t }, mode, true),
            Key::Char('d') => if y == vis.v_y as int {
                if x > vx {
                    (
                        TabView {
                            saved: false,
                            text: t.text.update(y, s.take(pos(s, vx)) + s.skip(pos(s, x))),
                            undo: pushed(
                                t,
                                EditOp::RemoveString {
                                    row: y,
                                    col: vx,
                                    text: s.subrange(pos(s, vx), pos(s, x)),
                                },
                            ),
                            redo: Seq::empty(),
                            cursor_x: vx,
                            ..t
                        },
                        mode,
                        false,
                    )
                } else if vx > x {
                    (
                        TabView {
                            saved: false,
                            text: t.text.update(y, s.take(pos(s, x)) + s.skip(pos(s, vx))),
                            undo: pushed(
                                t,
                                EditOp::RemoveString {
                                    row: y,
                                    col: x,
                                    text: s.subrange(pos(s, x), pos(s, vx)),
                                },
                            ),
                            redo: Seq::empty(),
                            ..t
                        },
                        mode,
                        false,
                    )
                } else {
                    (TabView { saved: false, ..t }, mode, false)
                }
            } else {
                (t, mode, false)
            },
            _ => (t, NORMAL, true),
        }
    }
}

/// A Select-mode key reads and writes only within bounds.
pub open spec fn select_char_safe(key: Key, t: TabView, vis: Visual) -> bool {
    let y = t.cursor_y;
    let x = t.cursor_x;
    let vx = vis.v_x as int;
    let s = cursor_line(t);
    &&& text_fits(t.text)
    &&& vx <= i32::MAX
    &&& arrow_safe(vim_arrow(key), y, x, t.text)
    &&& match key {
        Key::Char('>') => if x < vx {
            &&& row_ok(t)
            &&& on_boundary(s, vx + 1)
            &&& pos(s, vx + 1) < s.len()
            &&& x >= 1
            &&& on_boundary(s.remove(pos(s, vx + 1)), x - 1)
        } else if vx < x {
            &&& row_ok(t)
            &&& on_boundary(s, x + 1)
            &&& pos(s, x + 1) < s.len()
            &&& vx >= 1
            &&& on_boundary(s.remove(pos(s, x + 1)), vx - 1)
        } else {
            true
        },
        Key::Char('e') => row_ok(t) && on_boundary(s, x),
        Key::Char('b') => row_ok(t) && on_boundary(s, x),
        Key::Char('E') => row_ok(t),
        Key::Char('d') => y == vis.v_y as int ==> row_ok(t) && (x != vx ==> on_boundary(s, x)
            && on_boundary(s, vx)),
        _ => true,
    }
}

/// Handles a key in Select mode. `d` removes the chars between the anchor
/// and the cursor (when both are on the same line) and leaves the mode;
/// `>` moves the char after the selection's far end next to its near end.
/// Returns false when the mode is left.
pub fn select_mode1(tab: &mut Tab, vis: &mut Visual, event_key: Key, mode: &mut i32) -> (stay: bool)
    requires
        select_char_safe(event_key, old(tab)@, *old(vis)),
    ensures
        *final(vis) == *old(vis),
        (final(tab)@, *final(mode), stay) == select_char_next(
            event_key,
            old(tab)@,
            *old(vis),
            *old(mode),
        ),
{
    let ghost t = tab@;
    if controls(event_key, &mut tab.cursor_y, &mut tab.cursor_x, &tab.input_box) {
        return true;
    }
    let y = tab.cursor_y;
    let x = tab.cursor_x;
    let ghost s = cursor_line(t);
    proof {
        if row_ok(t) {
            assert(tab.input_box@[y as int]@ == s);
        }
    }
    match event_key {
        Key::Esc => {
            *mode = NORMAL;
            return false;
        },
        Key::Char('>') => {
            if x < vis.v_x as i32 {
                let ch = remove_char(&mut tab.input_box[y as usize], vis.v_x + 1);
                insert_char(&mut tab.input_box[y as usize], x as usize - 1, ch);
                proof {
                    assert(tab@.text =~= select_char_next(event_key, t, *vis, *old(mode)).0.text);
                }
            } else if vis.v_x < x as usize {
                let ch = remove_char(&mut tab.input_box[y as usize], x as usize + 1);
                insert_char(&mut tab.input_box[y as usize], vis.v_x - 1, ch);
                proof {
                    assert(tab@.text =~= select_char_next(event_key, t, *vis, *old(mode)).0.text);
                }
            }
        },
        Key::Char('e') => {
            let line = tab.input_box[y as usize].as_str();
            proof {
                lemma_boundary(s, x as int);
                lemma_next_char_from(s, pos(s, x as int), ' ');
                lemma_offset_end(s);
                if let Some(j) = next_char_from(s, pos(s, x as int), ' ') {
                    lemma_offset_mono(s, j, s.len() as int);
                }
            }
            let new_x = match find_from(line, x as usize, ' ') {
                Some(at) => at + 1,
                None => byte_length(line),
            };
            tab.cursor_x = new_x as i32;
        },
        Key::Char('b') => {
            let line = tab.input_box[y as usize].as_str();
            proof {
                lemma_boundary(s, x as int);
                lemma_prev_char_before(s, pos(s, x as int), ' ');
                lemma_offset_end(s);
                if let Some(j) = prev_char_before(s, pos(s, x as int), ' ') {
                    lemma_offset_mono(s, j, s.len() as int);
                }
            }
            let new_x = match rfind_before(line, x as usize, ' ') {
                Some(at) => at,
                None => 0,
            };
            tab.cursor_x = new_x as i32;
        },
        Key::Char('E') => {
            tab.cursor_x = byte_length(tab.input_box[y as usize].as_str()) as i32;
        },
        Key::Char('B') => {
            tab.cursor_x = 0;
        },
        Key::Char('d') => {
            if y >= 0 && y as usize == vis.v_y {
                let row = y as usize;
                tab.saved = false;
                if x as usize > vis.v_x {
                    proof {
                        lemma_pos_order(s, vis.v_x as int, x as int);
                    }
                    let removed = substring(&tab.input_box[row], vis.v_x, x as usize);
                    record(tab, EditRecord::RemoveString { row, col: vis.v_x, text: removed });
                    cut(&mut tab.input_box[row], vis.v_x, x as usize);
                    tab.cursor_x = vis.v_x as i32;
                    proof {
                        assert(tab@.text =~= select_char_next(event_key, t, *vis, *old(mode)).0.text);
                    }
                } else if vis.v_x > x as usize {
                    proof {
                        lemma_pos_order(s, x as int, vis.v_x as int);
                    }
                    let removed = substring(&tab.input_box[row], x as usize, vis.v_x);
                    record(tab, EditRecord::RemoveString { row, col: x as usize, text: removed });
                    cut(&mut tab.input_box[row], x as usize, vis.v_x);
                    proof {
                        assert(tab@.text =~= select_char_next(event_key, t, *vis, *old(mode)).0.text);
                    }
                }
            }
            return false;
        },
        _ => {
            *mode = NORMAL;
        },
    }
    true
}

/// `r` keeps both stacks of `t`, or its redo stack is empty.
pub open spec fn keeps_or_clears(t: TabView, r: TabView) -> bool {
    (r.undo == t.undo && r.redo == t.redo) || r.redo.len() == 0
}

/// Indenting lines records each and so clears the redo stack.
pub proof fn lemma_indent_rows_redo(t: TabView, lo: int, hi: int)
    ensures
        keeps_or_clears(t, indent_rows(t, lo, hi)),
    decreases hi - lo + 1,
{
    if lo <= hi {
        lemma_indent_rows_redo(indented_row(t, lo), lo + 1, hi);
    }
}

/// Unindenting lines records each changed line and so clears the redo
/// stack, unless no line changed.
pub proof fn lemma_unindent_rows_redo(t: TabView, lo: int, hi: int)
    ensures
        keeps_or_clears(t, unindent_rows(t, lo, hi)),
    decreases hi - lo + 1,
{
    if lo <= hi {
        lemma_unindent_rows_redo(unindented_row(t, lo), lo + 1, hi);
    }
}

/// Removing lines records each and so clears the redo stack.
pub proof fn lemma_removed_rows_redo(t: TabView, row: int, count: int)
    ensures
        keeps_or_clears(t, removed_rows(t, row, count)),
    decreases count,
{
    if count > 0 {
        let u = TabView {
            text: t.text.remove(row),
            undo: pushed(t, EditOp::RemoveLine { row, content: t.text[row] }),
            redo: Seq::empty(),
            ..t
        };
        lemma_removed_rows_redo(u, row, count - 1);
    }
}
/// Moving the selected lines up with `K` and then down with `J` gives back
/// the text, the cursor line and the anchor line.
#[verifier::rlimit(40)]
pub proof fn law_block_up_then_down(t: TabView, vis: Visual, mode: i32)
    requires
        0 < t.cursor_y < t.text.len(),
        0 < vis.v_y < t.text.len(),
    ensures
        ({
            let (t1, v1, m1, _s1) = select_line_next(Key::Char('K'), t, vis, mode);
            let (t2, v2, _m2, _s2) = select_line_next(Key::Char('J'), t1, v1, m1);
            &&& t2.text == t.text
            &&& t2.cursor_y == t.cursor_y
            &&& v2.v_y == vis.v_y
        }),
{
    let y = t.cursor_y;
    let v = vis.v_y as int;
    let b = t.text;
    let up = Visual { v_y: (v - 1) as usize, ..vis };
    let r1 = select_line_next(Key::Char('K'), t, vis, mode);
    let (from, to) = if y > v {
        (v - 1, y)
    } else if v > y {
        (y - 1, v)
    } else {
        (y, y - 1)
    };
    let t1 = TabView {
        text: moved_line(t, from, to),
        saved: false,
        cursor_y: y - 1,
        undo: pushed(t, EditOp::MoveLine { from, to }),
        redo: Seq::empty(),
        ..t
    };
    assert(r1 == (t1, up, mode, true));
    let b1 = t1.text;
    assert(b1[to] == b[from]);
    assert(b1.remove(to) =~= b.remove(from));
    assert(b.remove(from).insert(from, b[from]) =~= b);
    let r2 = select_line_next(Key::Char('J'), t1, up, mode);
    assert(r2.0.text == moved_line(t1, to, from));
    assert(r2.0.cursor_y == y);
    assert(r2.1.v_y == v);
}

/// `d` in Select mode removes the same bytes, records the same edit and
/// leaves the cursor at the same place whichever end of the selection the
/// cursor is at.
pub proof fn law_select_delete_symmetric(t: TabView, vis: Visual, mode: i32, a: int, c: int)
    requires
        t.cursor_y == vis.v_y as int,
        0 <= a <= i32::MAX,
        0 <= c <= i32::MAX,
    ensures
        ({
            let r1 = select_char_next(
                Key::Char('d'),
                TabView { cursor_x: c, ..t },
                Visual { v_x: a as usize, ..vis },
                mode,
            );
            let r2 = select_char_next(
                Key::Char('d'),
                TabView { cursor_x: a, ..t },
                Visual { v_x: c as usize, ..vis },
                mode,
            );
            &&& r1.0.text == r2.0.text
            &&& r1.0.undo == r2.0.undo
            &&& r1.0.cursor_x == r2.0.cursor_x
            &&& r1.0.cursor_x == if a < c { a } else { c }
            &&& !r1.2 && !r2.2
        }),
{
}

/// Removing `count` lines at `row` leaves the lines before `row` and those
/// after the removed ones, and records one `RemoveLine` at `row` for each
/// removed line, in order.
proof fn lemma_removed_rows_effect(t: TabView, row: int, count: int)
    requires
        0 <= row,
        0 <= count,
        row + count <= t.text.len(),
    ensures
        ({
            let r = removed_rows(t, row, count);
            &&& r.text == t.text.take(row) + t.text.skip(row + count)
            &&& r.undo.len() == t.undo.len() + count
            &&& r.undo.take(t.undo.len() as int) == t.undo
            &&& forall|i: int|
                0 <= i < count ==> #[trigger] r.undo[t.undo.len() + i] == (EditOp::RemoveLine {
                    row,
                    content: t.text[row + i],
                })
            &&& r.cursor_y == t.cursor_y
            &&& r.cursor_x == t.cursor_x
            &&& r.saved == t.saved
            &&& count > 0 ==> r.redo.len() == 0
        }),
    decreases count,
{
    if count > 0 {
        let t1 = TabView {
            text: t.text.remove(row),
            undo: pushed(t, EditOp::RemoveLine { row, content: t.text[row] }),
            redo: Seq::empty(),
            ..t
        };
        lemma_removed_rows_effect(t1, row, count - 1);
        let r = removed_rows(t, row, count);
        if count == 1 {
            assert(removed_rows(t1, row, 0) == t1);
        }
        assert(t1.text.take(row) =~= t.text.take(row));
        assert(t1.text.skip(row + count - 1) =~= t.text.skip(row + count));
        assert(r.undo.take(t1.undo.len() as int) == t1.undo);
        assert(r.undo.take(t.undo.len() as int) =~= t.undo) by {
            assert forall|i: int| 0 <= i < t.undo.len() implies r.undo[i] == t.undo[i] by {
                assert(r.undo.take(t1.undo.len() as int)[i] == t1.undo[i]);
            }
        }
        assert forall|i: int| 0 <= i < count implies #[trigger] r.undo[t.undo.len() + i] == (
        EditOp::RemoveLine { row, content: t.text[row + i] }) by {
            if i == 0 {
                assert(r.undo.take(t1.undo.len() as int)[t.undo.len() as int] == t1.undo[t.undo.len() as int]);
            } else {
                assert(r.undo[t1.undo.len() + (i - 1)] == EditOp::RemoveLine {
                    row,
                    content: t1.text[row + (i - 1)],
                });
            }
        }
    }
}

/// `d` in Select-Line mode removes exactly the selected lines, from the
/// upper end of the selection to the lower one whichever end the cursor is
/// at, records each removal in order, and leaves the mode; so swapping the
/// cursor and the anchor removes the same lines.
pub proof fn law_select_line_delete_removes_block(t: TabView, vis: Visual, mode: i32)
    requires
        row_ok(t),
        t.cursor_y <= i32::MAX,
        vis.v_y < t.text.len(),
    ensures
        ({
            let y = t.cursor_y;
            let v = vis.v_y as int;
            let lo = if y < v { y } else { v };
            let hi = if y < v { v } else { y };
            let (t2, vis2, mode2, stay) = select_line_next(Key::Char('d'), t, vis, mode);
            &&& t2.text == t.text.take(lo) + t.text.skip(hi + 1)
            &&& t2.text.len() == t.text.len() - (hi - lo + 1)
            &&& t2.undo.len() == t.undo.len() + (hi - lo + 1)
            &&& t2.undo.take(t.undo.len() as int) == t.undo
            &&& forall|i: int|
                0 <= i <= hi - lo ==> #[trigger] t2.undo[t.undo.len() + i] == (EditOp::RemoveLine {
                    row: lo,
                    content: t.text[lo + i],
                })
            &&& t2.redo.len() == 0
            &&& !t2.saved
            &&& vis2 == vis
            &&& mode2 == mode
            &&& !stay
            &&& t2.text == select_line_next(
                Key::Char('d'),
                TabView { cursor_y: v, ..t },
                Visual { v_y: y as usize, ..vis },
                mode,
            ).0.text
        }),
{
    let y = t.cursor_y;
    let v = vis.v_y as int;
    let lo = if y > v { v } else { y };
    let hi = if y > v { y } else { v };
    let u = TabView { saved: false, ..t };
    lemma_removed_rows_effect(u, lo, hi - lo + 1);
    let t_sw = TabView { cursor_y: v, ..t };
    let u_sw = TabView { saved: false, ..t_sw };
    lemma_removed_rows_effect(u_sw, lo, hi - lo + 1);
    let (t2, vis2, mode2, stay) = select_line_next(Key::Char('d'), t, vis, mode);
    assert(t2 == removed_rows(u, lo, hi - lo + 1));
    let (t3, _vis3, _mode3, _stay3) = select_line_next(
        Key::Char('d'),
        t_sw,
        Visual { v_y: y as usize, ..vis },
        mode,
    );
    assert(t3 == removed_rows(u_sw, lo, hi - lo + 1));
}

/// The last char `c` before index `k` of `s`: none when no char before `k`
/// is `c`, else one that is `c` with none after it before `k`.
proof fn lemma_prev_char_is_last(s: Seq<char>, k: int, c: char)
    requires
        0 <= k <= s.len(),
    ensures
        prev_char_before(s, k, c) is None ==> forall|m: int| 0 <= m < k ==> s[m] != c,
        prev_char_before(s, k, c) matches Some(j) ==> 0 <= j < k && s[j] == c && forall|m: int|
            j < m < k ==> s[m] != c,
    decreases k,
{
    if k > 0 && s[k - 1] != c {
        lemma_prev_char_is_last(s, k - 1, c);
    }
}

/// `b` in Select mode moves the cursor to the byte of the last space before
/// it, or to column 0 when there is none; so it moves left whenever the
/// cursor is past column 0, and lands where `b` in Normal mode does.
pub proof fn law_select_word_back(t: TabView, vis: Visual, mode: i32)
    requires
        row_ok(t),
        on_boundary(cursor_line(t), t.cursor_x),
    ensures
        ({
            let s = cursor_line(t);
            let k = pos(s, t.cursor_x);
            let c = select_char_next(Key::Char('b'), t, vis, mode).0.cursor_x;
            &&& (forall|m: int| 0 <= m < k ==> s[m] != ' ') ==> c == 0
            &&& (exists|m: int| 0 <= m < k && s[m] == ' ') ==> exists|j: int|
                0 <= j < k && s[j] == ' ' && c == offset(s, j) && forall|m: int|
                    j < m < k ==> s[m] != ' '
            &&& t.cursor_x > 0 ==> 0 <= c < t.cursor_x
            &&& c == crate::normal_mode::normal_next(
                Key::Char('b'),
                t,
                vis,
                mode,
                Seq::empty(),
            ).0.cursor_x
        }),
{
    let s = cursor_line(t);
    let x = t.cursor_x;
    lemma_boundary(s, x);
    let k = pos(s, x);
    lemma_prev_char_is_last(s, k, ' ');
    match prev_char_before(s, k, ' ') {
        Some(j) => {
            lemma_offset_mono(s, j, k);
        },
        None => {},
    }
}
} // verus!
