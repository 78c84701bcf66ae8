//! Insert mode, pasting, the save and open prompts, and the unsaved-work
//! prompt.
use vstd::prelude::*;

use crate::actions::{
    after_backspace, after_delete, after_undo, backspace_key, backspace_safe, cursor_line,
    delete_key, delete_safe, indent_string, lemma_backspace_replays, lemma_delete_replays, pushed,
    record, row_ok,
};
use crate::controls::{arrow_safe, arrow_step, default_controls, is_arrow, text_fits, Key};
use crate::document::{
    join_lines, no_newline, law_join_split, lemma_join_prefix, lemma_join_suffix, lemma_split_nonempty,
    normalize, normalize_newlines, split_lines, split_text,
};
use crate::helpers::{
    forward_cursor, forward_lines, forward_ok, law_undo_after_redo, lemma_splice, lines_of, paste_at,
    paste_end, pasted_lines, EditOp, EditRecord, Effect, Tab, TabView,
};
use crate::normal_mode::{INSERT, NORMAL, OPEN_FAILED};
use crate::text::{
    byte_len, byte_length, char_width, indent, insert_char, insert_text, lemma_boundary,
    lemma_byte_len_single,
    lemma_ends_are_boundaries, line_fits, on_boundary, pop_char, pos, push_char, push_text,
    split_at_byte, substring, width,
};

verus! {

/// Where an Insert-mode key leaves the tab, the mode and the run of typed
/// chars not yet recorded, and whether the caller stays in the mode.
/// A key other than a char first records the run, if any, as one
/// insertion ending at the cursor.
pub open spec fn insert_next(key: Key, t: TabView, mode: i32, f: Seq<char>) -> (
    TabView,
    i32,
    Seq<char>,
    bool,
) {
    let flush = !(key is Char);
    let t1 = if flush && f.len() > 0 {
        TabView {
            undo: pushed(
                t,
                EditOp::InsertString { row: t.cursor_y, col: t.cursor_x - byte_len(f), text: f },
            ),
            redo: Seq::empty(),
            ..t
        }
    } else {
        t
    };
    let f1 = if flush {
        Seq::empty()
    } else {
        f
    };
    let y = t.cursor_y;
    let x = t.cursor_x;
    let s = cursor_line(t);
    let k = pos(s, x);
    if is_arrow(key) {
        let (cy, cx) = arrow_step(key, y, x, t.text);
        (TabView { cursor_y: cy, cursor_x: cx, ..t1 }, mode, f1, true)
    } else {
        match key {
            Key::Esc => (t1, NORMAL, f1, false),
            Key::Char(c) => (
                TabView {
                    saved: false,
                    text: t.text.update(y, s.insert(k, c)),
                    redo: Seq::empty(),
                    cursor_x: x + char_width(c),
                    ..t1
                },
                mode,
                f1.push(c),
                true,
            ),
            Key::Enter => (
                TabView {
                    saved: false,
                    text: t.text.update(y, s.take(k)).insert(y + 1, s.skip(k)),
                    undo: pushed(t1, EditOp::SplitLine { row: y, col: x }),
                    redo: Seq::empty(),
                    cursor_x: 0,
                    cursor_y: y + 1,
                    ..t1
                },
                mode,
                f1,
                true,
            ),
            Key::Tab => (
                TabView {
                    saved: false,
                    text: t.text.update(y, s.take(k) + indent() + s.skip(k)),
                    undo: pushed(t1, EditOp::InsertString { row: y, col: x, text: indent() }),
                    redo: Seq::empty(),
                    cursor_x: x + 4,
                    ..t1
                },
                mode,
                f1,
                true,
            ),
            Key::Delete => (after_delete(t1), mode, f1, true),
            Key::Backspace => (after_backspace(t1), mode, f1, true),
            _ => (t1, mode, f1, true),
        }
    }
}

/// An Insert-mode key reads and writes only within bounds, and its cursor
/// arithmetic stays within `i32`.
pub open spec fn insert_safe(key: Key, t: TabView, f: Seq<char>) -> bool {
    let x = t.cursor_x;
    let s = cursor_line(t);
    &&& text_fits(t.text)
    &&& line_fits(f)
    &&& !(key is Char) && f.len() > 0 ==> 0 <= t.cursor_y && byte_len(f) <= x
    &&& arrow_safe(key, t.cursor_y, x, t.text)
    &&& match key {
        Key::Char(c) => row_ok(t) && on_boundary(s, x) && x + char_width(c) <= i32::MAX,
        Key::Enter => row_ok(t) && on_boundary(s, x),
        Key::Tab => row_ok(t) && on_boundary(s, x) && x + 4 <= i32::MAX,
        Key::Delete => delete_safe(t),
        Key::Backspace => backspace_safe(t),
        _ => true,
    }
}

/// Handles a key in Insert mode. `text` holds the tab's lines as they were
/// when the key arrived; `filled_now` gathers the chars typed since the last
/// other key, so that undo takes back a typed word at once. Returns false
/// when the mode is left.
pub fn insert_mode(
    tab: &mut Tab,
    event_key: Key,
    mode: &mut i32,
    text: &mut Vec<String>,
    filled_now: &mut String,
) -> (stay: bool)
    requires
        insert_safe(event_key, old(tab)@, old(filled_now)@),
        lines_of(old(text)@) == old(tab)@.text,
    ensures
        *final(text) == *old(text),
        (final(tab)@, *final(mode), final(filled_now)@, stay) == insert_next(
            event_key,
            old(tab)@,
            *old(mode),
            old(filled_now)@,
        ),
{
    let ghost t = tab@;
    let is_char = match event_key {
        Key::Char(_) => true,
        _ => false,
    };
    if !is_char {
        if !filled_now.as_str().is_empty() {
            let col = tab.cursor_x as usize - byte_length(filled_now.as_str());
            let row = tab.cursor_y as usize;
            record(tab, EditRecord::InsertString { row, col, text: filled_now.clone() });
        }
        *filled_now = String::new();
    }
    if default_controls(event_key, &mut tab.cursor_y, &mut tab.cursor_x, text) {
        return true;
    }
    let y = tab.cursor_y as usize;
    let x = tab.cursor_x;
    proof {
        if row_ok(t) {
            assert(tab.input_box@[y as int]@ == t.text[y as int]);
        }
    }
    match event_key {
        Key::Esc => {
            *mode = NORMAL;
            return false;
        },
        Key::Char(c) => {
            let blen = width(c) as i32;
            tab.unsave();
            insert_char(&mut tab.input_box[y], x as usize, c);
            push_char(filled_now, c);
            tab.redo_stack.clear();
            tab.redo_emptied.clear();
            tab.cursor_x = x + blen;
            proof {
                assert(tab@.text =~= insert_next(event_key, t, *old(mode), old(filled_now)@).0.text);
                assert(tab@.redo =~= Seq::<EditOp>::empty());
            }
        },
        Key::Enter => {
            tab.unsave();
            let rest = split_at_byte(&mut tab.input_box[y], x as usize);
            tab.input_box.insert(y + 1, rest);
            record(tab, EditRecord::SplitLine { row: y, col: x as usize });
            tab.cursor_x = 0;
            tab.cursor_y = tab.cursor_y + 1;
            proof {
                assert(tab@.text =~= insert_next(event_key, t, *old(mode), old(filled_now)@).0.text);
            }
        },
        Key::Tab => {
            tab.unsave();
            let four = indent_string();
            insert_text(&mut tab.input_box[y], x as usize, four.as_str());
            record(tab, EditRecord::InsertString { row: y, col: x as usize, text: indent_string() });
            tab.cursor_x = x + 4;
            proof {
                assert(tab@.text =~= insert_next(event_key, t, *old(mode), old(filled_now)@).0.text);
            }
        },
        Key::Delete => {
            delete_key(tab);
        },
        Key::Backspace => {
            backspace_key(tab);
        },
        _ => {},
    }
    true
}

/// Handles a key at the quit-anyway prompt: `y` quits (returns false), any
/// other key goes back to Normal mode.
pub fn unsaved_work_mode(event_key: Key, mode: &mut i32) -> (stay: bool)
    ensures
        stay == (event_key != Key::Char('y')),
        *final(mode) == if stay {
            NORMAL
        } else {
            *old(mode)
        },
{
    match event_key {
        Key::Char('y') => false,
        _ => {
            *mode = NORMAL;
            true
        },
    }
}

/// The record of pasting `text` at the cursor of `t`, its line breaks of any
/// style made `'\n'`.
pub open spec fn paste_op(t: TabView, text: Seq<char>) -> EditOp {
    EditOp::Paste { row: t.cursor_y, col: t.cursor_x, text: normalize(text) }
}

/// The tab after pasting `text` at the cursor: line breaks of any style
/// split it into lines, the cursor ends after the pasted text, and the
/// paste is recorded for undo.
pub open spec fn after_paste(t: TabView, text: Seq<char>) -> TabView {
    let op = paste_op(t, text);
    TabView {
        saved: false,
        text: forward_lines(op, t.text),
        cursor_y: forward_cursor(op).0,
        cursor_x: forward_cursor(op).1,
        undo: pushed(t, op),
        redo: Seq::empty(),
        ..t
    }
}

/// Pasting reads only within bounds, and the cursor stays in `i32`.
pub open spec fn paste_safe(t: TabView, text: Seq<char>) -> bool {
    let s = cursor_line(t);
    let parts = split_lines(normalize(text));
    &&& row_ok(t)
    &&& on_boundary(s, t.cursor_x)
    &&& line_fits(s)
    &&& byte_len(pasted_lines(s, pos(s, t.cursor_x), parts).last()) <= i32::MAX
    &&& paste_end(t.cursor_y, t.cursor_x, normalize(text)).0 <= i32::MAX
}

/// The end of a paste lies within the last line it leaves.
proof fn lemma_paste_end_within(s: Seq<char>, col: int, text: Seq<char>)
    requires
        on_boundary(s, col),
    ensures
        paste_end(0, col, text).1 <= byte_len(pasted_lines(s, pos(s, col), split_lines(text)).last()),
{
    let ps = split_lines(text);
    lemma_split_nonempty(text);
    lemma_boundary(s, col);
    let k = pos(s, col);
    let mid = pasted_lines(s, k, ps);
    if ps.len() == 1 {
        law_join_split(text);
        assert(ps[0] == text);
        assert(mid.last() == s.take(k) + text + s.skip(k));
        crate::text::lemma_byte_len_concat(s.take(k), text);
        crate::text::lemma_byte_len_concat(s.take(k) + text, s.skip(k));
    } else {
        assert(mid.last() == ps.last() + s.skip(k));
        crate::text::lemma_byte_len_concat(ps.last(), s.skip(k));
    }
}

/// Inserts pasted text at the cursor and records it.
pub fn insert_paste(tab: &mut Tab, text: &str)
    requires
        paste_safe(old(tab)@, text@),
    ensures
        final(tab)@ == after_paste(old(tab)@, text@),
{
    let ghost t = tab@;
    let norm = normalize_newlines(text);
    tab.unsave();
    let y = tab.cursor_y as usize;
    let x = tab.cursor_x as usize;
    proof {
        lemma_paste_end_within(cursor_line(t), x as int, norm@);
    }
    let (er, ec) = paste_at(&mut tab.input_box, y, x, norm.as_str());
    record(tab, EditRecord::Paste { row: y, col: x, text: norm });
    tab.cursor_y = er as i32;
    tab.cursor_x = ec as i32;
}

/// What a key does to a prompt's command line: chars are appended,
/// Backspace takes the last one off.
pub open spec fn prompt_line(key: Key, cmd: Seq<char>) -> Seq<char> {
    match key {
        Key::Char(c) => cmd.push(c),
        Key::Backspace => if cmd.len() > 0 {
            cmd.drop_last()
        } else {
            cmd
        },
        Key::Esc => Seq::empty(),
        _ => cmd,
    }
}

/// Handles a key at the open-file prompt. Enter asks the caller to read the
/// file named on the command line and to hand the outcome to `finish_open`;
/// Esc clears the line and goes back to Normal mode.
pub fn open_mode(tab: &mut Tab, event_key: Key, the_command_line: &mut String, mode: &mut i32) -> (e: Effect)
    ensures
        *final(tab) == *old(tab),
        final(the_command_line)@ == prompt_line(event_key, old(the_command_line)@),
        *final(mode) == if event_key is Esc {
            NORMAL
        } else {
            *old(mode)
        },
        e == if event_key is Enter {
            Effect::ReadFile
        } else {
            Effect::Continue
        },
{
    match event_key {
        Key::Char(c) => {
            push_char(the_command_line, c);
        },
        Key::Backspace => {
            pop_char(the_command_line);
        },
        Key::Enter => {
            return Effect::ReadFile;
        },
        Key::Esc => {
            *the_command_line = String::new();
            *mode = NORMAL;
        },
        _ => {},
    }
    Effect::Continue
}

/// The tab after opening the file named `name`: its lines when it could be
/// read (the history is then forgotten and the tab counts as saved), else
/// one empty line with the saved flag left as it was; the cursor goes to
/// the start.
pub open spec fn opened(t: TabView, name: Seq<char>, content: Option<Seq<char>>) -> TabView {
    match content {
        Some(c) => TabView {
            undo: Seq::empty(),
            redo: Seq::empty(),
            text: split_lines(c),
            saved: true,
            cursor_x: 0,
            cursor_y: 0,
            file_name: name,
            ..t
        },
        None => TabView {
            text: seq![Seq::empty()],
            cursor_x: 0,
            cursor_y: 0,
            file_name: name,
            ..t
        },
    }
}

/// Finishes the open-file prompt with the file's contents, or `None` when
/// it could not be read; then the tab is left empty under that name and the
/// mode reports the failure.
pub fn finish_open(tab: &mut Tab, content: Option<String>, the_command_line: &mut String, mode: &mut i32)
    ensures
        final(tab)@ == opened(
            old(tab)@,
            old(the_command_line)@,
            match content {
                Some(c) => Some(c@),
                None => None,
            },
        ),
        final(the_command_line)@ == Seq::<char>::empty(),
        *final(mode) == if content is Some {
            NORMAL
        } else {
            OPEN_FAILED
        },
{
    let found = content.is_some();
    match content {
        Some(c) => {
            tab.undo_stack.clear();
            tab.redo_stack.clear();
            tab.undo_emptied.clear();
            tab.redo_emptied.clear();
            tab.input_box = split_text(c.as_str());
        },
        None => {
            tab.input_box = vec![String::new()];
        },
    }
    tab.cursor_x = 0;
    tab.cursor_y = 0;
    if found {
        tab.saved = true;
    }
    tab.file_name = the_command_line.clone();
    *the_command_line = String::new();
    *mode = if found {
        NORMAL
    } else {
        OPEN_FAILED
    };
    proof {
        if content is None {
            assert(tab@.text =~= seq![Seq::<char>::empty()]);
        } else {
            assert(tab@.undo =~= Seq::<EditOp>::empty());
            assert(tab@.redo =~= Seq::<EditOp>::empty());
        }
    }
}

/// Handles a key at the save-as prompt. Enter names the tab after the
/// command line and asks the caller to write it, then to call
/// `finish_save`; Esc clears the line and goes back to Normal mode.
pub fn save_mode(tab: &mut Tab, event_key: Key, the_command_line: &mut String, mode: &mut i32) -> (e: Effect)
    ensures
        final(tab)@ == if event_key is Enter {
            TabView { file_name: old(the_command_line)@, ..old(tab)@ }
        } else {
            old(tab)@
        },
        final(the_command_line)@ == prompt_line(event_key, old(the_command_line)@),
        *final(mode) == if event_key is Esc {
            NORMAL
        } else {
            *old(mode)
        },
        e == if event_key is Enter {
            Effect::WriteFile
        } else {
            Effect::Continue
        },
{
    match event_key {
        Key::Char(c) => {
            push_char(the_command_line, c);
        },
        Key::Backspace => {
            pop_char(the_command_line);
        },
        Key::Enter => {
            tab.file_name = the_command_line.clone();
            return Effect::WriteFile;
        },
        Key::Esc => {
            *mode = NORMAL;
            *the_command_line = String::new();
        },
        _ => {},
    }
    Effect::Continue
}

/// Finishes the save-as prompt once the write was tried: the tab counts as
/// saved and Normal mode resumes when it succeeded, else `Stop` (the caller
/// reports the failure).
pub fn finish_save(tab: &mut Tab, written: bool, mode: &mut i32) -> (e: Effect)
    ensures
        final(tab)@ == if written {
            TabView { saved: true, ..old(tab)@ }
        } else {
            old(tab)@
        },
        e == if written {
            Effect::Continue
        } else {
            Effect::Stop
        },
        *final(mode) == if written {
            NORMAL
        } else {
            *old(mode)
        },
{
    if written {
        tab.saved = true;
        *mode = NORMAL;
        Effect::Continue
    } else {
        Effect::Stop
    }
}

/// Finishes `w` in Normal mode once the write was tried: the tab counts as
/// saved when it succeeded.
pub fn finish_write(tab: &mut Tab, written: bool)
    ensures
        final(tab)@ == if written {
            TabView { saved: true, ..old(tab)@ }
        } else {
            old(tab)@
        },
{
    if written {
        tab.saved = true;
    }
}

/// The tab and the run of typed chars after typing the chars `cs` in
/// Insert mode, one key each.
pub open spec fn typed(t: TabView, f: Seq<char>, cs: Seq<char>) -> (TabView, Seq<char>)
    decreases cs.len(),
{
    if cs.len() == 0 {
        (t, f)
    } else {
        let (t1, _m, f1, _stay) = insert_next(Key::Char(cs[0]), t, INSERT, f);
        typed(t1, f1, cs.drop_first())
    }
}

/// Typing `cs` at a char boundary puts them at the cursor, moves the cursor
/// past them and records nothing yet.
pub proof fn lemma_typed(t: TabView, f: Seq<char>, cs: Seq<char>)
    requires
        row_ok(t),
        on_boundary(cursor_line(t), t.cursor_x),
    ensures
        ({
            let (t2, f2) = typed(t, f, cs);
            let s = cursor_line(t);
            let k = pos(s, t.cursor_x);
            &&& t2.text == t.text.update(t.cursor_y, s.take(k) + cs + s.skip(k))
            &&& t2.cursor_x == t.cursor_x + byte_len(cs)
            &&& t2.cursor_y == t.cursor_y
            &&& t2.undo == t.undo
            &&& f2 == f + cs
        }),
    decreases cs.len(),
{
    let s = cursor_line(t);
    let x = t.cursor_x;
    let y = t.cursor_y;
    lemma_boundary(s, x);
    let k = pos(s, x);
    if cs.len() == 0 {
        assert(s.take(k) + cs + s.skip(k) =~= s);
        assert(t.text.update(y, s) =~= t.text);
        assert(f + cs =~= f);
    } else {
        let c = cs[0];
        let (t1, _m, f1, _stay) = insert_next(Key::Char(c), t, INSERT, f);
        let s1 = s.insert(k, c);
        assert(s1 =~= s.take(k) + seq![c] + s.skip(k));
        lemma_splice(s, k, seq![c]);
        lemma_byte_len_single(c);
        assert(t1.text[y] == s1);
        assert(cursor_line(t1) == s1);
        assert(on_boundary(s1, x + char_width(c)));
        assert(pos(s1, x + char_width(c)) == k + 1);
        lemma_typed(t1, f1, cs.drop_first());
        let rest = cs.drop_first();
        assert(s1.take(k + 1) + rest + s1.skip(k + 1) =~= s.take(k) + cs + s.skip(k));
        assert(t1.text.update(y, s.take(k) + cs + s.skip(k)) =~= t.text.update(
            y,
            s.take(k) + cs + s.skip(k),
        ));
        assert(f1 + rest =~= f + cs);
    }
}

/// Chars typed in a row in Insert mode become one undo record when the
/// next other key (here Esc) arrives: the record holds all of them, at the
/// column where typing began, and undoing it takes the whole run back.
pub proof fn law_typed_run_is_one_record(t: TabView, cs: Seq<char>)
    requires
        row_ok(t),
        on_boundary(cursor_line(t), t.cursor_x),
        cs.len() > 0,
    ensures
        ({
            let (t2, f2) = typed(t, Seq::empty(), cs);
            let (t3, m3, f3, _stay) = insert_next(Key::Esc, t2, INSERT, f2);
            let s = cursor_line(t);
            let k = pos(s, t.cursor_x);
            &&& t3.undo == t.undo.push(
                EditOp::InsertString { row: t.cursor_y, col: t.cursor_x, text: cs },
            )
            &&& t3.text == t.text.update(t.cursor_y, s.take(k) + cs + s.skip(k))
            &&& forward_lines(t3.undo.last(), t.text) == t3.text
            &&& forward_cursor(t3.undo.last()) == (t3.cursor_y, t3.cursor_x)
            &&& m3 == NORMAL
            &&& f3.len() == 0
            &&& after_undo(t3).text == t.text
        }),
{
    lemma_typed(t, Seq::empty(), cs);
    assert(Seq::<char>::empty() + cs =~= cs);
    let (t2, f2) = typed(t, Seq::empty(), cs);
    let (t3, m3, f3, _stay) = insert_next(Key::Esc, t2, INSERT, f2);
    let op = EditOp::InsertString { row: t.cursor_y, col: t.cursor_x, text: cs };
    assert(t3.undo == t.undo.push(op));
    lemma_boundary(cursor_line(t), t.cursor_x);
    law_undo_after_redo(op, t.text);
    assert(t3.undo.last() == op);
}
/// Pasting puts the pasted text, its line breaks made `'\n'`, at the cursor:
/// the lines that replace the cursor line, joined, are the text before the
/// cursor, the pasted text and the text after it.
pub proof fn law_paste_inserts_text(s: Seq<char>, k: int, text: Seq<char>)
    requires
        0 <= k <= s.len(),
    ensures
        join_lines(pasted_lines(s, k, split_lines(normalize(text)))) == s.take(k) + normalize(text)
            + s.skip(k),
{
    let parts = split_lines(normalize(text));
    lemma_split_nonempty(normalize(text));
    law_join_split(normalize(text));
    let m = parts.update(0, s.take(k) + parts[0]);
    lemma_join_prefix(parts, s.take(k));
    lemma_join_suffix(m, s.skip(k));
}
/// Opening a file that holds the lines `lines` joined by `'\n'` (as saving
/// writes them) gives back exactly those lines, when none holds a line
/// break.
pub proof fn law_open_reads_back_saved(t: TabView, name: Seq<char>, lines: Seq<Seq<char>>)
    requires
        lines.len() >= 1,
        forall|i: int| 0 <= i < lines.len() ==> no_newline(#[trigger] lines[i]),
    ensures
        opened(t, name, Some(join_lines(lines))).text == lines,
        opened(t, name, Some(join_lines(lines))).file_name == name,
        opened(t, name, Some(join_lines(lines))).saved,
{
    crate::document::law_split_join(lines);
}

/// Every edit that an Insert-mode key records, with no typed run pending,
/// replays exactly: redone on the text before the key, the new top record
/// gives the text after it, and the cursor too unless an empty line went.
pub proof fn law_insert_edit_replays(key: Key, t: TabView, mode: i32)
    requires
        insert_safe(key, t, Seq::empty()),
    ensures
        ({
            let t2 = insert_next(key, t, mode, Seq::empty()).0;
            t2.undo.len() == t.undo.len() + 1 ==> {
                &&& forward_ok(t2.undo.last(), t.text)
                &&& forward_lines(t2.undo.last(), t.text) == t2.text
                &&& !(t2.undo.last() is RemoveEmptyLine) ==> forward_cursor(t2.undo.last()) == (
                    t2.cursor_y,
                    t2.cursor_x,
                )
            }
        }),
{
    let t2 = insert_next(key, t, mode, Seq::empty()).0;
    let y = t.cursor_y;
    let x = t.cursor_x;
    if !is_arrow(key) {
        if key is Delete {
            lemma_delete_replays(t);
        } else if key is Backspace {
            lemma_backspace_replays(t);
        } else if key is Enter {
            assert(t2.undo.last() == EditOp::SplitLine { row: y, col: x });
        } else if key is Tab {
            assert(t2.undo.last() == EditOp::InsertString { row: y, col: x, text: indent() });
            assert(byte_len(indent()) == 4) by {
                reveal_with_fuel(byte_len, 5);
            }
        }
    }
}

/// A typed run that any key other than a char flushes is recorded as one
/// insertion that replays exactly: redone on the text before the run, it
/// gives the text and the cursor that typing left. Records that the key
/// itself pushes come after it.
pub proof fn law_flushed_run_replays(t: TabView, cs: Seq<char>, key: Key)
    requires
        row_ok(t),
        on_boundary(cursor_line(t), t.cursor_x),
        cs.len() > 0,
        !(key is Char),
    ensures
        ({
            let (t2, f2) = typed(t, Seq::empty(), cs);
            let t3 = insert_next(key, t2, INSERT, f2).0;
            let op = t3.undo[t.undo.len() as int];
            &&& t3.undo.len() > t.undo.len()
            &&& t3.undo.take(t.undo.len() as int) == t.undo
            &&& op == EditOp::InsertString { row: t.cursor_y, col: t.cursor_x, text: cs }
            &&& forward_ok(op, t.text)
            &&& forward_lines(op, t.text) == t2.text
            &&& forward_cursor(op) == (t2.cursor_y, t2.cursor_x)
        }),
{
    lemma_typed(t, Seq::empty(), cs);
    assert(Seq::<char>::empty() + cs =~= cs);
    let (t2, f2) = typed(t, Seq::empty(), cs);
    let op = EditOp::InsertString { row: t.cursor_y, col: t.cursor_x, text: cs };
    let t1 = TabView { undo: t.undo.push(op), redo: Seq::empty(), ..t2 };
    let t3 = insert_next(key, t2, INSERT, f2).0;
    assert(t3.undo.len() >= t1.undo.len());
    assert(t3.undo.take(t1.undo.len() as int) =~= t1.undo);
    assert(t3.undo[t.undo.len() as int] == t3.undo.take(t1.undo.len() as int)[t.undo.len() as int]);
    assert(t3.undo.take(t.undo.len() as int) =~= t.undo);
    lemma_boundary(cursor_line(t), t.cursor_x);
}

/// Opening a file that could be read leaves the tab with no history: both
/// stacks are empty, so neither `u` nor `r` changes the opened tab.
pub proof fn law_open_forgets_history(t: TabView, name: Seq<char>, c: Seq<char>)
    ensures
        opened(t, name, Some(c)).undo.len() == 0,
        opened(t, name, Some(c)).redo.len() == 0,
        after_undo(opened(t, name, Some(c))) == opened(t, name, Some(c)),
        crate::actions::after_redo(opened(t, name, Some(c))) == opened(t, name, Some(c)),
{
}
} // verus!
