//! Normal mode: navigation, line commands, undo and redo, tab switching.
use vstd::prelude::*;

use crate::actions::{
    after_backspace, after_delete, after_redo, after_undo, backspace_key, backspace_safe,
    cursor_line, delete_key, delete_safe, indent_cursor, law_redo_after_undo_key, law_undo_after_redo_key, lemma_backspace_replays,
    lemma_delete_replays, lemma_indent_replays, lemma_unindent_replays, indent_row, indented_row, pushed, redo,
    record, record_sole_line_removal, redo_safe, row_ok, undo, undo_safe, unindent_row, unindented_row,
};
use crate::controls::{arrow_safe, arrow_step, controls, is_arrow, text_fits, vim_arrow, Key};
use crate::helpers::{forward_cursor, forward_lines, forward_ok, fresh_tab, inverse_ok, lines_of, redoable, undoable, EditOp, EditRecord, Effect, Tab, TabView, Visual};
use crate::text::{
    byte_len, byte_length, find_from, indent, indent_column, is_indented, next_char_from, offset, on_boundary, pos,
    prev_char_before, rfind_before,
};

verus! {

/// Mode numbers, as the status bar and the event loop know them.
pub const NORMAL: i32 = 0;
pub const INSERT: i32 = 1;
pub const SELECT: i32 = 2;
pub const SELECT_LINE: i32 = 3;
pub const SAVE_PROMPT: i32 = 10;
pub const OPEN_PROMPT: i32 = 11;
pub const OPEN_FAILED: i32 = 401;
pub const SAVE_FAILED: i32 = 402;
pub const UNSAVED_PROMPT: i32 = 403;

/// The keys that act on the list of tabs rather than on the current tab.
pub open spec fn is_tab_key(key: Key) -> bool {
    key == Key::Char('N') || key is Tab || key == Key::Char('n') || key is BackTab
}

/// Where a Normal-mode key leaves the current tab, the selection anchor, the
/// mode and the command line, and what the caller does next.
pub open spec fn normal_next(key: Key, t: TabView, vis: Visual, mode: i32, cmd: Seq<char>) -> (
    TabView,
    Visual,
    i32,
    Seq<char>,
    Effect,
) {
    let y = t.cursor_y;
    let x = t.cursor_x;
    let s = cursor_line(t);
    let same = (t, vis, mode, cmd, Effect::Continue);
    if is_arrow(vim_arrow(key)) {
        let (cy, cx) = arrow_step(vim_arrow(key), y, x, t.text);
        (TabView { cursor_y: cy, cursor_x: cx, ..t }, vis, mode, cmd, Effect::Continue)
    } else {
        match key {
            Key::Char('q') => if !t.saved {
                (t, vis, UNSAVED_PROMPT, cmd, Effect::Continue)
            } else {
                (t, vis, mode, cmd, Effect::Stop)
            },
            Key::Char('g') => (TabView { cursor_y: 0, cursor_x: 0, ..t }, vis, mode, cmd, Effect::Continue),
            Key::Char('G') => (
                TabView { cursor_y: t.text.len() - 1, cursor_x: 0, ..t },
                vis,
                mode,
                cmd,
                Effect::Continue,
            ),
            Key::Char('a') => (
                TabView { cursor_x: if 0 <= x < byte_len(s) { x + 1 } else { x }, ..t },
                vis,
                INSERT,
                cmd,
                Effect::Continue,
            ),
            Key::Char('i') => (t, vis, INSERT, cmd, Effect::Continue),
            Key::Char('K') => if y > 0 {
                (
                    TabView {
                        text: t.text.remove(y).insert(y - 1, s),
                        saved: false,
                        cursor_y: y - 1,
                        undo: pushed(t, EditOp::MoveLine { from: y, to: y - 1 }),
                        redo: Seq::empty(),
                        ..t
                    },
                    vis,
                    mode,
                    cmd,
                    Effect::Continue,
                )
            } else {
                same
            },
            Key::Char('J') => if 0 <= y < t.text.len() - 1 {
                (
                    TabView {
                        text: t.text.remove(y).insert(y + 1, s),
                        saved: false,
                        cursor_y: y + 1,
                        undo: pushed(t, EditOp::MoveLine { from: y, to: y + 1 }),
                        redo: Seq::empty(),
                        ..t
                    },
                    vis,
                    mode,
                    cmd,
                    Effect::Continue,
                )
            } else {
                same
            },
            Key::Char('>') => {
                let u = indented_row(TabView { saved: false, ..t }, y);
                (
                    TabView { cursor_x: indent_column(cursor_line(u)) as i32 as int, ..u },
                    vis,
                    mode,
                    cmd,
                    Effect::Continue,
                )
            },
            Key::Char('<') => {
                let u = unindented_row(TabView { saved: false, ..t }, y);
                (
                    TabView { cursor_x: indent_column(cursor_line(u)) as i32 as int, ..u },
                    vis,
                    mode,
                    cmd,
                    Effect::Continue,
                )
            },
            Key::Char('e') => (
                TabView {
                    cursor_x: match next_char_from(s, pos(s, x), ' ') {
                        Some(j) => offset(s, j) + 1int,
                        None => byte_len(s) as int,
                    },
                    ..t
                },
                vis,
                mode,
                cmd,
                Effect::Continue,
            ),
            Key::Char('b') => (
                TabView {
                    cursor_x: match prev_char_before(s, pos(s, x), ' ') {
                        Some(j) => offset(s, j) as int,
                        None => 0,
                    },
                    ..t
                },
                vis,
                mode,
                cmd,
                Effect::Continue,
            ),
            Key::Char('E') => (
                TabView { cursor_x: byte_len(s) as int, ..t },
                vis,
                mode,
                cmd,
                Effect::Continue,
            ),
            Key::Char('B') => (TabView { cursor_x: 0, ..t }, vis, mode, cmd, Effect::Continue),
            Key::Char('o') => (
                TabView {
                    saved: false,
                    text: t.text.insert(y + 1, Seq::empty()),
                    undo: pushed(t, EditOp::InsertLine { row: y + 1 }),
                    redo: Seq::empty(),
                    cursor_y: y + 1,
                    cursor_x: 0,
                    ..t
                },
                vis,
                INSERT,
                cmd,
                Effect::Continue,
            ),
            Key::Char('w') => if t.file_name.len() > 0 {
                (t, vis, NORMAL, Seq::empty(), Effect::WriteFile)
            } else {
                (t, vis, SAVE_PROMPT, cmd, Effect::Continue)
            },
            Key::Char('W') => (t, vis, SAVE_PROMPT, cmd, Effect::Continue),
            Key::Char('O') => (t, vis, OPEN_PROMPT, cmd, Effect::Continue),
            Key::Delete => (after_delete(t), vis, mode, cmd, Effect::Continue),
            Key::Backspace => (after_backspace(t), vis, mode, cmd, Effect::Continue),
            Key::Char('d') => (after_delete_line(t), vis, mode, cmd, Effect::Continue),
            Key::Char('u') => (after_undo(t), vis, mode, cmd, Effect::Continue),
            Key::Char('r') => (after_redo(t), vis, mode, cmd, Effect::Continue),
            Key::Char('v') => (
                t,
                Visual { v_x: x as usize, v_y: y as usize, on: true },
                SELECT,
                cmd,
                Effect::Continue,
            ),
            Key::Char('V') => (
                t,
                Visual { v_x: x as usize, v_y: y as usize, on: true },
                SELECT_LINE,
                cmd,
                Effect::Continue,
            ),
            _ => same,
        }
    }
}

/// The tab after `d`: the cursor line goes away and the cursor moves to the
/// start of the line that took its place, or of the new last line. The only
/// line of a tab is emptied instead, so that undo gives it back alone.
pub open spec fn after_delete_line(t: TabView) -> TabView {
    let y = t.cursor_y;
    let rest = t.text.remove(y);
    let text = if rest.len() == 0 {
        seq![Seq::<char>::empty()]
    } else {
        rest
    };
    TabView {
        saved: false,
        text,
        cursor_x: 0,
        cursor_y: if y == text.len() { y - 1 } else { y },
        undo: pushed(
            t,
            if rest.len() == 0 {
                EditOp::RemoveOnlyLine { row: y, content: t.text[y] }
            } else {
                EditOp::RemoveLine { row: y, content: t.text[y] }
            },
        ),
        redo: Seq::empty(),
        ..t
    }
}

/// The Normal-mode keys that read the text or move over it; the others act
/// only on the mode, the prompt line or the selection anchor.
pub open spec fn reads_text(key: Key) -> bool {
    is_arrow(vim_arrow(key)) || key is Delete || key is Backspace || key == Key::Char('a')
        || key == Key::Char('G') || key == Key::Char('K') || key == Key::Char('J') || key
        == Key::Char('>') || key == Key::Char('<') || key == Key::Char('e') || key == Key::Char('b')
        || key == Key::Char('E') || key == Key::Char('o') || key == Key::Char('d') || key
        == Key::Char('u') || key == Key::Char('r')
}

/// A Normal-mode key reads and writes only within bounds.
pub open spec fn normal_safe(key: Key, t: TabView) -> bool {
    let y = t.cursor_y;
    let x = t.cursor_x;
    &&& reads_text(key) ==> text_fits(t.text)
    &&& arrow_safe(vim_arrow(key), y, x, t.text)
    &&& match key {
        Key::Char('a') => row_ok(t),
        Key::Char('K') => y != 0 ==> 0 < y < t.text.len(),
        Key::Char('J') => t.text.len() >= 1,
        Key::Char('>') => row_ok(t),
        Key::Char('<') => row_ok(t),
        Key::Char('e') => row_ok(t) && on_boundary(cursor_line(t), x),
        Key::Char('b') => row_ok(t) && on_boundary(cursor_line(t), x),
        Key::Char('E') => row_ok(t),
        Key::Char('o') => row_ok(t),
        Key::Delete => delete_safe(t),
        Key::Backspace => backspace_safe(t),
        Key::Char('d') => row_ok(t),
        Key::Char('u') => undo_safe(t),
        Key::Char('r') => redo_safe(t),
        _ => true,
    }
}

/// Handles a key that acts on the current tab.
fn normal_edit(
    tab: &mut Tab,
    vis: &mut Visual,
    event_key: Key,
    mode: &mut i32,
    the_command_line: &mut String,
    text: &Vec<String>,
) -> (e: Effect)
    requires
        !is_tab_key(event_key),
        normal_safe(event_key, old(tab)@),
        lines_of(text@) == old(tab)@.text,
    ensures
        (final(tab)@, *final(vis), *final(mode), final(the_command_line)@, e) == normal_next(
            event_key,
            old(tab)@,
            *old(vis),
            *old(mode),
            old(the_command_line)@,
        ),
{
    let ghost t = tab@;
    if controls(event_key, &mut tab.cursor_y, &mut tab.cursor_x, text) {
        return Effect::Continue;
    }
    let y = tab.cursor_y;
    let x = tab.cursor_x;
    proof {
        if 0 <= y < t.text.len() {
            assert(text@[y as int]@ == t.text[y as int]);
            assert(tab.input_box@[y as int]@ == t.text[y as int]);
            if reads_text(event_key) {
                assert(crate::text::line_fits(t.text[y as int]));
            }
        }
    }
    match event_key {
        Key::Char('q') => {
            if !tab.saved {
                *mode = UNSAVED_PROMPT;
            } else {
                return Effect::Stop;
            }
        },
        Key::Char('g') => {
            tab.cursor_y = 0;
            tab.cursor_x = 0;
        },
        Key::Char('G') => {
            tab.cursor_y = tab.input_box.len() as i32 - 1;
            tab.cursor_x = 0;
        },
        Key::Char('a') => {
            if x >= 0 && (x as usize) < byte_length(text[y as usize].as_str()) {
                tab.cursor_x = x + 1;
            }
            *mode = INSERT;
        },
        Key::Char('i') => {
            *mode = INSERT;
        },
        Key::Char('K') => {
            if y > 0 {
                let line = tab.input_box.remove(y as usize);
                tab.unsave();
                tab.input_box.insert(y as usize - 1, line);
                tab.cursor_y = y - 1;
                record(tab, EditRecord::MoveLine { from: y as usize, to: y as usize - 1 });
                proof {
                    assert(tab@.text =~= t.text.remove(y as int).insert(y - 1, t.text[y as int]));
                }
            }
        },
        Key::Char('J') => {
            if y >= 0 && (y as usize) < tab.input_box.len() - 1 {
                let line = tab.input_box.remove(y as usize);
                tab.unsave();
                tab.input_box.insert(y as usize + 1, line);
                tab.cursor_y = y + 1;
                record(tab, EditRecord::MoveLine { from: y as usize, to: y as usize + 1 });
                proof {
                    assert(tab@.text =~= t.text.remove(y as int).insert(y + 1, t.text[y as int]));
                }
            }
        },
        Key::Char('>') => {
            tab.unsave();
            indent_row(tab, y as usize);
            indent_cursor(tab);
        },
        Key::Char('<') => {
            tab.unsave();
            unindent_row(tab, y as usize);
            indent_cursor(tab);
        },
        Key::Char('e') => {
            let line = text[y as usize].as_str();
            proof {
                let s = t.text[y as int];
                crate::text::lemma_boundary(s, x as int);
                crate::text::lemma_next_char_from(s, pos(s, x as int), ' ');
                crate::text::lemma_offset_end(s);
                if let Some(j) = next_char_from(s, pos(s, x as int), ' ') {
                    crate::text::lemma_offset_mono(s, j, s.len() as int);
                }
            }
            let new_x = match find_from(line, x as usize, ' ') {
                Some(at) => at + 1,
                None => byte_length(line),
            };
            tab.cursor_x = new_x as i32;
        },
        Key::Char('b') => {
            let line = text[y as usize].as_str();
            proof {
                let s = t.text[y as int];
                crate::text::lemma_boundary(s, x as int);
                crate::text::lemma_prev_char_before(s, pos(s, x as int), ' ');
                crate::text::lemma_offset_end(s);
                if let Some(j) = prev_char_before(s, pos(s, x as int), ' ') {
                    crate::text::lemma_offset_mono(s, j, s.len() as int);
                }
            }
            let new_x = match rfind_before(line, x as usize, ' ') {
                Some(at) => at,
                None => 0,
            };
            tab.cursor_x = new_x as i32;
        },
        Key::Char('E') => {
            tab.cursor_x = byte_length(tab.input_box[y as usize].as_str()) as i32;
        },
        Key::Char('B') => {
            tab.cursor_x = 0;
        },
        Key::Char('o') => {
            tab.unsave();
            tab.input_box.insert(y as usize + 1, String::new());
            record(tab, EditRecord::InsertLine { row: y as usize + 1 });
            tab.cursor_y = y + 1;
            tab.cursor_x = 0;
            *mode = INSERT;
            proof {
                assert(tab@.text =~= t.text.insert(y + 1, Seq::<char>::empty()));
            }
        },
        Key::Char('w') => {
            if !tab.file_name.as_str().is_empty() {
                *mode = NORMAL;
                *the_command_line = String::new();
                return Effect::WriteFile;
            }
            *mode = SAVE_PROMPT;
        },
        Key::Char('W') => {
            *mode = SAVE_PROMPT;
        },
        Key::Char('O') => {
            *mode = OPEN_PROMPT;
        },
        Key::Delete => {
            delete_key(tab);
        },
        Key::Backspace => {
            backspace_key(tab);
        },
        Key::Char('d') => {
            delete_line(tab);
        },
        Key::Char('u') => {
            undo(tab);
        },
        Key::Char('r') => {
            redo(tab);
        },
        Key::Char('v') => {
            *mode = SELECT;
            vis.v_x = x as usize;
            vis.v_y = y as usize;
            vis.on = true;
        },
        Key::Char('V') => {
            *mode = SELECT_LINE;
            vis.v_x = x as usize;
            vis.v_y = y as usize;
            vis.on = true;
        },
        _ => {},
    }
    Effect::Continue
}

/// `d`: removes the cursor line and records it.
fn delete_line(tab: &mut Tab)
    requires
        row_ok(old(tab)@),
    ensures
        final(tab)@ == after_delete_line(old(tab)@),
{
    let ghost t = tab@;
    let y = tab.cursor_y as usize;
    let line = tab.input_box.remove(y);
    proof {
        assert(lines_of(tab.input_box@) =~= t.text.remove(y as int));
    }
    tab.cursor_x = 0;
    tab.unsave();
    let only = tab.input_box.len() == 0;
    if only {
        tab.input_box.push(String::new());
    }
    if y == tab.input_box.len() {
        tab.cursor_y = tab.cursor_y - 1;
    }
    proof {
        assert(line@ == t.text[y as int]);
        if t.text.remove(y as int).len() == 0 {
            assert(tab@.text =~= seq![Seq::<char>::empty()]);
        } else {
            assert(tab@.text =~= t.text.remove(y as int));
        }
    }
    if only {
        record_sole_line_removal(tab, y, line);
    } else {
        record(tab, EditRecord::RemoveLine { row: y, content: line });
    }
}

/// Handles a key in Normal mode. `text` holds the current tab's lines as
/// they were when the key arrived. Tab keys: `N` opens a fresh tab at the
/// end and selects it; Tab and `n` select the next tab, wrapping
/// to the first; Shift+Tab selects the previous one, wrapping to the last.
/// Every other key acts on the current tab as `normal_next` says.
/// `WriteFile` asks the caller to write the tab to its file and then call
/// `finish_write`; `Stop` asks it to close the tab.
pub fn normal_mode(
    tabs: &mut Vec<Tab>,
    tab_selector: &mut usize,
    vis: &mut Visual,
    event_key: Key,
    mode: &mut i32,
    the_command_line: &mut String,
    text: &mut Vec<String>,
) -> (e: Effect)
    requires
        *old(tab_selector) < old(tabs)@.len(),
        lines_of(old(text)@) == old(tabs)@[*old(tab_selector) as int]@.text,
        is_tab_key(event_key) || normal_safe(event_key, old(tabs)@[*old(tab_selector) as int]@),
    ensures
        *final(text) == *old(text),
        event_key == Key::Char('N') ==> {
            &&& final(tabs)@.len() == old(tabs)@.len() + 1
            &&& forall|i: int| 0 <= i < old(tabs)@.len() ==> #[trigger] final(tabs)@[i] == old(tabs)@[i]
            &&& final(tabs)@.last()@ == fresh_tab()
            &&& *final(tab_selector) == old(tabs)@.len()
            &&& *final(vis) == *old(vis) && *final(mode) == *old(mode)
            &&& *final(the_command_line) == *old(the_command_line)
            &&& e == Effect::Continue
        },
        event_key is Tab || event_key == Key::Char('n') ==> {
            &&& *final(tabs) == *old(tabs)
            &&& *final(tab_selector) == if *old(tab_selector) < old(tabs)@.len() - 1 {
                *old(tab_selector) + 1
            } else {
                0
            }
            &&& *final(vis) == *old(vis) && *final(mode) == *old(mode)
            &&& *final(the_command_line) == *old(the_command_line)
            &&& e == Effect::Continue
        },
        event_key is BackTab ==> {
            &&& *final(tabs) == *old(tabs)
            &&& *final(tab_selector) == if *old(tab_selector) > 0 {
                *old(tab_selector) - 1
            } else {
                old(tabs)@.len() - 1
            }
            &&& *final(vis) == *old(vis) && *final(mode) == *old(mode)
            &&& *final(the_command_line) == *old(the_command_line)
            &&& e == Effect::Continue
        },
        !is_tab_key(event_key) ==> {
            let sel = *old(tab_selector) as int;
            &&& *final(tab_selector) == *old(tab_selector)
            &&& final(tabs)@.len() == old(tabs)@.len()
            &&& forall|i: int|
                0 <= i < old(tabs)@.len() && i != sel ==> #[trigger] final(tabs)@[i] == old(tabs)@[i]
            &&& (final(tabs)@[sel]@, *final(vis), *final(mode), final(the_command_line)@, e)
                == normal_next(event_key, old(tabs)@[sel]@, *old(vis), *old(mode), old(the_command_line)@)
        },
{
    let sel = *tab_selector;
    match event_key {
        Key::Char('N') => {
            *tab_selector = tabs.len();
            tabs.push(Tab::new());
            return Effect::Continue;
        },
        Key::Tab | Key::Char('n') => {
            if sel < tabs.len() - 1 {
                *tab_selector = sel + 1;
            } else {
                *tab_selector = 0;
            }
            return Effect::Continue;
        },
        Key::BackTab => {
            if sel > 0 {
                *tab_selector = sel - 1;
            } else {
                *tab_selector = tabs.len() - 1;
            }
            return Effect::Continue;
        },
        _ => {},
    }
    normal_edit(&mut tabs[sel], vis, event_key, mode, the_command_line, text)
}

/// `J` then `K` puts the line back where it was, and the cursor with it.
pub proof fn law_move_down_then_up(t: TabView, vis: Visual, mode: i32, cmd: Seq<char>)
    requires
        0 <= t.cursor_y < t.text.len() - 1,
    ensures
        ({
            let t1 = normal_next(Key::Char('J'), t, vis, mode, cmd).0;
            let t2 = normal_next(Key::Char('K'), t1, vis, mode, cmd).0;
            t2.text == t.text && t2.cursor_y == t.cursor_y
        }),
{
    let y = t.cursor_y;
    let s = t.text[y];
    let t1 = normal_next(Key::Char('J'), t, vis, mode, cmd).0;
    assert(t1.text == t.text.remove(y).insert(y + 1, s));
    assert(t1.text[y + 1] == s);
    assert(t1.text.remove(y + 1) =~= t.text.remove(y));
    assert(t.text.remove(y).insert(y, s) =~= t.text);
}
/// `u` right after `d` gives the line back.
pub proof fn law_undo_after_delete_line(t: TabView)
    requires
        row_ok(t),
    ensures
        after_undo(after_delete_line(t)).text == t.text,
{
    let y = t.cursor_y;
    let d = after_delete_line(t);
    if t.text.len() == 1 {
        assert(d.undo.last() == EditOp::RemoveOnlyLine { row: y, content: t.text[y] });
        assert(seq![Seq::<char>::empty()].update(0, t.text[0]) =~= t.text);
    } else {
        assert(d.undo.last() == EditOp::RemoveLine { row: y, content: t.text[y] });
        assert(t.text.remove(y).insert(y, t.text[y]) =~= t.text);
    }
}

/// `u` right after `o` takes the opened line away again.
pub proof fn law_undo_after_open_line(t: TabView, vis: Visual, mode: i32, cmd: Seq<char>)
    requires
        row_ok(t),
    ensures
        after_undo(normal_next(Key::Char('o'), t, vis, mode, cmd).0).text == t.text,
{
    let y = t.cursor_y;
    let o = normal_next(Key::Char('o'), t, vis, mode, cmd).0;
    assert(o.undo.last() == EditOp::InsertLine { row: y + 1 });
    assert(t.text.insert(y + 1, Seq::<char>::empty()).remove(y + 1) =~= t.text);
}

/// Every edit that a Normal-mode key records (other than `u` and `r`, which
/// move records between the stacks) replays exactly: redone on the text
/// before the key, the new top record gives the text after it, and the
/// cursor too for a char deletion, a line join or an opened line.
pub proof fn law_normal_edit_replays(key: Key, t: TabView, vis: Visual, mode: i32, cmd: Seq<char>)
    requires
        normal_safe(key, t),
        key != Key::Char('u'),
        key != Key::Char('r'),
    ensures
        ({
            let t2 = normal_next(key, t, vis, mode, cmd).0;
            t2.undo.len() == t.undo.len() + 1 ==> {
                &&& forward_ok(t2.undo.last(), t.text)
                &&& forward_lines(t2.undo.last(), t.text) == t2.text
                &&& (t2.undo.last() is DeleteChar || t2.undo.last() is MergeLine
                    || t2.undo.last() is InsertLine) ==> forward_cursor(t2.undo.last()) == (
                    t2.cursor_y,
                    t2.cursor_x,
                )
            }
        }),
{
    let t2 = normal_next(key, t, vis, mode, cmd).0;
    let y = t.cursor_y;
    let u = TabView { saved: false, ..t };
    if !is_arrow(vim_arrow(key)) {
        if key is Delete {
            lemma_delete_replays(t);
        } else if key is Backspace {
            lemma_backspace_replays(t);
        } else if key == Key::Char('>') {
            lemma_indent_replays(u, y);
            assert(t2.undo.last() == EditOp::InsertString { row: y, col: 0, text: indent() });
        } else if key == Key::Char('<') {
            if is_indented(t.text[y]) {
                lemma_unindent_replays(u, y);
                assert(t2.undo.last() == EditOp::RemoveString { row: y, col: 0, text: indent() });
            }
        } else if key == Key::Char('K') {
            if y > 0 {
                assert(t2.undo.last() == EditOp::MoveLine { from: y, to: y - 1 });
            }
        } else if key == Key::Char('J') {
            if 0 <= y < t.text.len() - 1 {
                assert(t2.undo.last() == EditOp::MoveLine { from: y, to: y + 1 });
            }
        } else if key == Key::Char('o') {
            assert(t2.undo.last() == EditOp::InsertLine { row: y + 1 });
        } else if key == Key::Char('d') {
            if t.text.len() == 1 {
                assert(t2.undo.last() == EditOp::RemoveOnlyLine { row: y, content: t.text[y] });
                assert(t.text.update(y, Seq::<char>::empty()) =~= seq![Seq::<char>::empty()]);
            } else {
                assert(t2.undo.last() == EditOp::RemoveLine { row: y, content: t.text[y] });
            }
        }
    }
}

/// `u` then `r` in Normal mode gives back the text and both stacks, when
/// the top record carries what undoing it removes; and `r` then `u` does,
/// when the top redo record carries what redoing it removes.
pub proof fn law_undo_then_redo_keys(t: TabView, vis: Visual, mode: i32, cmd: Seq<char>)
    ensures
        t.undo.len() > 0 && inverse_ok(t.undo.last(), t.text) && redoable(t.undo.last(), t.text)
            ==> ({
            let t1 = normal_next(Key::Char('u'), t, vis, mode, cmd).0;
            let t2 = normal_next(Key::Char('r'), t1, vis, mode, cmd).0;
            &&& t2.text == t.text
            &&& t2.undo == t.undo
            &&& t2.redo == t.redo
        }),
        t.redo.len() > 0 && forward_ok(t.redo.last(), t.text) && undoable(t.redo.last(), t.text)
            ==> ({
            let t1 = normal_next(Key::Char('r'), t, vis, mode, cmd).0;
            let t2 = normal_next(Key::Char('u'), t1, vis, mode, cmd).0;
            &&& t2.text == t.text
            &&& t2.undo == t.undo
            &&& t2.redo == t.redo
        }),
{
    if t.undo.len() > 0 && inverse_ok(t.undo.last(), t.text) && redoable(t.undo.last(), t.text) {
        law_redo_after_undo_key(t);
    }
    if t.redo.len() > 0 && forward_ok(t.redo.last(), t.text) && undoable(t.redo.last(), t.text) {
        law_undo_after_redo_key(t);
    }
}
} // verus!
