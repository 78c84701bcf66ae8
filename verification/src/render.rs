//! What the screen shows besides the text: the status bar's labels, the
//! scroll offsets that keep the cursor in view, and where the terminal
//! cursor goes.
use vstd::prelude::*;

use crate::helpers::{lines_of, Tab, TabView};
use crate::normal_mode::{
    INSERT, NORMAL, OPEN_FAILED, OPEN_PROMPT, SAVE_FAILED, SAVE_PROMPT, SELECT, SELECT_LINE,
    UNSAVED_PROMPT,
};
use crate::text::{is_boundary, on_boundary, pos, push_char, push_text, substring};

verus! {

/// Displayed width, in terminal columns, of the chars `s`, as the
/// `unicode-width` crate computes it.
pub uninterp spec fn display_width(s: Seq<char>) -> nat;

/// `UnicodeWidthStr::width` of the `unicode-width` crate: the number of
/// terminal columns `s` takes. The contract only names the result as a
/// function of the chars of `s`; the width tables are not restated.
#[verifier::external_body]
fn str_width(s: &str) -> (w: usize)
    ensures
        w == display_width(s@),
{
    unicode_width::UnicodeWidthStr::width(s)
}

/// The decimal digit `d` as a char.
pub open spec fn digit_char(d: nat) -> char {
    (d + 48) as char
}

/// The decimal digits of `n`, most significant first.
pub open spec fn digits(n: nat) -> Seq<char>
    decreases n,
{
    if n < 10 {
        seq![digit_char(n)]
    } else {
        digits(n / 10).push(digit_char(n % 10))
    }
}

/// `n` written in decimal, with a leading `-` when negative.
pub open spec fn decimal(n: int) -> Seq<char> {
    if n < 0 {
        seq!['-'] + digits((-n) as nat)
    } else {
        digits(n as nat)
    }
}

/// Appends the decimal digits of `n` to `out`.
fn push_digits(out: &mut String, n: u64)
    ensures
        final(out)@ == old(out)@ + digits(n as nat),
    decreases n,
{
    let ghost before = out@;
    if n >= 10 {
        push_digits(out, n / 10);
    }
    let d = (n % 10) as u8;
    let c = (d + 48) as char;
    push_char(out, c);
    proof {
        if n >= 10 {
            assert(before + digits(n as nat) =~= (before + digits((n / 10) as nat)).push(c));
        } else {
            assert(before + digits(n as nat) =~= before.push(c));
        }
    }
}

/// Appends `n` written in decimal to `out`.
pub fn push_decimal(out: &mut String, n: i64)
    ensures
        final(out)@ == old(out)@ + decimal(n as int),
{
    if n < 0 {
        push_char(out, '-');
        let m: u64 = if n == i64::MIN {
            0x8000_0000_0000_0000
        } else {
            (-n) as u64
        };
        let ghost mid = out@;
        push_digits(out, m);
        proof {
            assert(old(out)@ + decimal(n as int) =~= old(out)@.push('-') + digits(m as nat));
        }
    } else {
        push_digits(out, n as u64);
    }
}

/// The label that the status bar shows for `mode`, with the prompt line
/// `cmd` where the mode is a prompt.
pub open spec fn mode_text(mode: i32, cmd: Seq<char>) -> Seq<char> {
    if mode == NORMAL {
        " NORMAL "@
    } else if mode == INSERT {
        " INSERT "@
    } else if mode == SELECT {
        " SELECT "@
    } else if mode == SELECT_LINE {
        " SELECT-LINE "@
    } else if mode == SAVE_PROMPT {
        " Save file into: "@ + cmd + " "@
    } else if mode == OPEN_PROMPT {
        " File to Open: "@ + cmd + " "@
    } else if mode == OPEN_FAILED {
        " Can't open file "@
    } else if mode == SAVE_FAILED {
        " Can't save file "@
    } else if mode == UNSAVED_PROMPT {
        "you have unsaved work, quit anyway? [y/n]"@
    } else {
        "SOME ERRORS, try to relaunch the program                   BLUR V0.1"@
    }
}

/// The status bar's mode label.
pub fn mode_label(mode: i32, cmd: &str) -> (r: String)
    ensures
        r@ == mode_text(mode, cmd@),
{
    if mode == NORMAL {
        String::from_str(" NORMAL ")
    } else if mode == INSERT {
        String::from_str(" INSERT ")
    } else if mode == SELECT {
        String::from_str(" SELECT ")
    } else if mode == SELECT_LINE {
        String::from_str(" SELECT-LINE ")
    } else if mode == SAVE_PROMPT {
        let mut r = String::from_str(" Save file into: ");
        push_text(&mut r, cmd);
        push_text(&mut r, " ");
        r
    } else if mode == OPEN_PROMPT {
        let mut r = String::from_str(" File to Open: ");
        push_text(&mut r, cmd);
        push_text(&mut r, " ");
        r
    } else if mode == OPEN_FAILED {
        String::from_str(" Can't open file ")
    } else if mode == SAVE_FAILED {
        String::from_str(" Can't save file ")
    } else if mode == UNSAVED_PROMPT {
        String::from_str("you have unsaved work, quit anyway? [y/n]")
    } else {
        String::from_str("SOME ERRORS, try to relaunch the program                   BLUR V0.1")
    }
}

/// The status bar's file label: the file name, marked with `*` when the
/// tab holds unsaved changes, or a placeholder for an unnamed tab.
pub open spec fn file_text(name: Seq<char>, saved: bool) -> Seq<char> {
    " "@ + (if name.len() == 0 {
        "[Empty File]*"@
    } else if saved {
        name
    } else {
        seq!['*'] + name
    }) + " "@
}

/// The status bar's file label for `tab`.
pub fn file_label(tab: &Tab) -> (r: String)
    ensures
        r@ == file_text(tab.file_name@, tab.saved),
{
    let mut r = String::from_str(" ");
    if tab.file_name.as_str().unicode_len() == 0 {
        push_text(&mut r, "[Empty File]*");
    } else if tab.saved {
        push_text(&mut r, tab.file_name.as_str());
    } else {
        push_char(&mut r, '*');
        push_text(&mut r, tab.file_name.as_str());
    }
    push_text(&mut r, " ");
    proof {
        if tab.file_name@.len() != 0 && !tab.saved {
            assert(r@ =~= file_text(tab.file_name@, tab.saved));
        }
    }
    r
}

/// The status bar's position label: the cursor's display column under
/// "Row", its line under "Col", and the index of the selected tab.
pub open spec fn position_text(column: u16, row: i32, tab: usize) -> Seq<char> {
    " Row "@ + decimal(column as int) + "; Col "@ + decimal(row as int) + "; Tab "@ + digits(
        tab as nat,
    ) + " "@
}

/// The status bar's position label.
pub fn position_label(column: u16, row: i32, tab: usize) -> (r: String)
    ensures
        r@ == position_text(column, row, tab),
{
    let mut r = String::from_str(" Row ");
    push_decimal(&mut r, column as i64);
    push_text(&mut r, "; Col ");
    push_decimal(&mut r, row as i64);
    push_text(&mut r, "; Tab ");
    push_digits(&mut r, tab as u64);
    push_text(&mut r, " ");
    r
}

/// Where a view of `extent` cells that starts at `scroll` must start to
/// show position `at`: unchanged when it does, else moved just enough.
pub open spec fn follow_spec(at: u16, scroll: u16, extent: u16) -> int {
    if at <= scroll {
        at as int
    } else if at >= scroll + extent {
        at - extent + 1
    } else {
        scroll as int
    }
}

/// Following `at` stays within `u16`.
pub open spec fn follow_ok(at: u16, scroll: u16, extent: u16) -> bool {
    at > scroll ==> scroll + extent <= u16::MAX && follow_spec(at, scroll, extent) <= u16::MAX
}

/// Whether following `at` stays within `u16`.
pub fn follow_fits(at: u16, scroll: u16, extent: u16) -> (b: bool)
    ensures
        b == follow_ok(at, scroll, extent),
{
    if at <= scroll {
        true
    } else if scroll > u16::MAX - extent {
        false
    } else if at >= scroll + extent {
        extent >= 1 || at < u16::MAX
    } else {
        true
    }
}

/// The start of a view of `extent` cells, moved from `scroll` so that it
/// shows `at`.
pub fn follow(at: u16, scroll: u16, extent: u16) -> (r: u16)
    requires
        follow_ok(at, scroll, extent),
    ensures
        r == follow_spec(at, scroll, extent),
{
    if at <= scroll {
        at
    } else if at >= scroll + extent {
        at - extent + 1
    } else {
        scroll
    }
}

/// The line the cursor is on, or an empty line when the row is not one.
pub open spec fn line_at(text: Seq<Seq<char>>, row: i32) -> Seq<char> {
    if 0 <= row < text.len() {
        text[row as int]
    } else {
        Seq::empty()
    }
}

/// The cursor's display column: the display width of its line up to the
/// cursor's byte column `col` (`width`, when `col` is a char boundary of
/// the line), else `col` itself; as a `u16`, cut to its low bits.
pub open spec fn column_spec(width: Option<nat>, col: i32) -> u16 {
    match width {
        Some(w) => w as u16,
        None => (col as usize) as u16,
    }
}

/// The cursor's display column from the display width of its line up to
/// the cursor, if the cursor lies on a char boundary.
pub fn column_from_width(width: Option<usize>, col: i32) -> (r: u16)
    ensures
        r == column_spec(
            match width {
                Some(w) => Some(w as nat),
                None => None,
            },
            col,
        ),
{
    match width {
        Some(w) => w as u16,
        None => (col as usize) as u16,
    }
}

/// The display width of line `row` of `lines` up to byte `col`, when `col`
/// is a char boundary of it.
pub open spec fn width_before(text: Seq<Seq<char>>, row: i32, col: i32) -> Option<nat> {
    let s = line_at(text, row);
    let c = (col as usize) as int;
    if on_boundary(s, c) {
        Some(display_width(s.take(pos(s, c))))
    } else {
        None
    }
}

/// The display column of the cursor at (`row`, `col`) on `lines`.
pub fn visual_column(lines: &Vec<String>, row: i32, col: i32) -> (r: u16)
    ensures
        r == column_spec(width_before(lines_of(lines@), row, col), col),
{
    let c = col as usize;
    let width = if row >= 0 && (row as usize) < lines.len() {
        let s = &lines[row as usize];
        if is_boundary(s.as_str(), c) {
            proof {
                crate::text::lemma_ends_are_boundaries(s@);
                assert(s@.take(0) =~= Seq::<char>::empty());
            }
            let head = substring(s, 0, c);
            proof {
                assert(pos(s@, 0) == 0);
                assert(s@.subrange(0, pos(s@, c as int)) =~= s@.take(pos(s@, c as int)));
            }
            Some(str_width(head.as_str()))
        } else {
            None
        }
    } else {
        let empty = String::new();
        if is_boundary(empty.as_str(), c) {
            proof {
                assert(empty@ =~= Seq::<char>::empty());
                assert(Seq::<char>::empty().take(0) =~= Seq::<char>::empty());
            }
            Some(str_width(empty.as_str()))
        } else {
            None
        }
    };
    column_from_width(width, col)
}

/// The scroll offsets of `t` after following its cursor, with the cursor at
/// display column `column`, in a view of `height` lines and `width` columns.
pub open spec fn scrolled(t: TabView, height: u16, width: u16, column: u16) -> TabView {
    TabView {
        scroll_y: follow_spec(t.cursor_y as u16, t.scroll_y as u16, height),
        scroll_x: follow_spec(column, t.scroll_x as u16, width),
        ..t
    }
}

/// Scrolling to follow the cursor stays within `u16`.
pub open spec fn scroll_ok(t: TabView, height: u16, width: u16, column: u16) -> bool {
    &&& follow_ok(t.cursor_y as u16, t.scroll_y as u16, height)
    &&& follow_ok(column, t.scroll_x as u16, width)
}

/// Whether scrolling to follow the cursor stays within `u16`.
pub fn scroll_fits(tab: &Tab, height: u16, width: u16, column: u16) -> (b: bool)
    ensures
        b == scroll_ok(tab@, height, width, column),
{
    follow_fits(tab.cursor_y as u16, tab.scroll_y, height) && follow_fits(column, tab.scroll_x, width)
}

/// Moves the scroll offsets of `tab` so that the cursor, at display column
/// `column`, lies in a view of `height` lines and `width` columns.
pub fn scroll_to_cursor(tab: &mut Tab, height: u16, width: u16, column: u16)
    requires
        scroll_ok(old(tab)@, height, width, column),
    ensures
        final(tab)@ == scrolled(old(tab)@, height, width, column),
{
    tab.scroll_y = follow(tab.cursor_y as u16, tab.scroll_y, height);
    tab.scroll_x = follow(column, tab.scroll_x, width);
}

/// `a - b`, or 0 when `b` exceeds `a`.
pub open spec fn sat_sub(a: int, b: int) -> int {
    if a > b {
        a - b
    } else {
        0
    }
}

/// The terminal cell of the text cursor, in a text area whose top left cell
/// is (`area_x`, `area_y`).
pub open spec fn cursor_cell_spec(area_x: u16, area_y: u16, column: u16, t: TabView) -> (int, int) {
    (area_x + sat_sub(column as int, t.scroll_x), area_y + sat_sub((t.cursor_y as u16) as int, t.scroll_y))
}

/// The cursor's cell fits `u16` coordinates.
pub open spec fn cursor_cell_ok(area_x: u16, area_y: u16, column: u16, t: TabView) -> bool {
    cursor_cell_spec(area_x, area_y, column, t).0 <= u16::MAX && cursor_cell_spec(
        area_x,
        area_y,
        column,
        t,
    ).1 <= u16::MAX
}

/// Whether the cursor's cell fits `u16` coordinates.
pub fn cursor_cell_fits(area_x: u16, area_y: u16, column: u16, tab: &Tab) -> (b: bool)
    ensures
        b == cursor_cell_ok(area_x, area_y, column, tab@),
{
    let dx = column.saturating_sub(tab.scroll_x);
    let dy = (tab.cursor_y as u16).saturating_sub(tab.scroll_y);
    dx <= u16::MAX - area_x && dy <= u16::MAX - area_y
}

/// The terminal cell of the text cursor.
pub fn cursor_cell(area_x: u16, area_y: u16, column: u16, tab: &Tab) -> (r: (u16, u16))
    requires
        cursor_cell_ok(area_x, area_y, column, tab@),
    ensures
        (r.0 as int, r.1 as int) == cursor_cell_spec(area_x, area_y, column, tab@),
{
    (
        area_x + column.saturating_sub(tab.scroll_x),
        area_y + (tab.cursor_y as u16).saturating_sub(tab.scroll_y),
    )
}

/// The text that precedes the command line in a prompt's label.
pub open spec fn prompt_prefix(mode: i32) -> Seq<char> {
    if mode == SAVE_PROMPT {
        " Save file into: "@
    } else {
        " File to Open: "@
    }
}

/// The column, within the status bar, of the cursor at the end of the
/// command line of a prompt, cut to `u16`.
pub open spec fn prompt_column(mode: i32, cmd: Seq<char>) -> u16 {
    (prompt_prefix(mode).len() + cmd.len()) as u16
}

/// The prompt cursor's column fits: its char count fits `usize` (which any
/// string in memory meets) and its cell fits `u16`.
pub open spec fn prompt_cursor_ok(area_x: u16, mode: i32, cmd: Seq<char>) -> bool {
    &&& prompt_prefix(mode).len() + cmd.len() <= usize::MAX
    &&& area_x + prompt_column(mode, cmd) <= u16::MAX
}

/// The prompt's prefix.
fn prefix_of(mode: i32) -> (p: &'static str)
    ensures
        p@ == prompt_prefix(mode),
{
    if mode == SAVE_PROMPT {
        " Save file into: "
    } else {
        " File to Open: "
    }
}

/// Where the terminal cursor goes at a prompt: after the command line, in
/// the status bar whose first cell is `area_x`.
pub fn prompt_cursor(area_x: u16, mode: i32, cmd: &str) -> (r: u16)
    requires
        prompt_cursor_ok(area_x, mode, cmd@),
    ensures
        r == area_x + prompt_column(mode, cmd@),
{
    let col = prefix_of(mode).unicode_len() + cmd.unicode_len();
    area_x + col as u16
}

/// Whether the prompt cursor's column fits.
pub fn prompt_cursor_fits(area_x: u16, mode: i32, cmd: &str) -> (b: bool)
    ensures
        b == prompt_cursor_ok(area_x, mode, cmd@),
{
    let p = prefix_of(mode).unicode_len();
    let n = cmd.unicode_len();
    if p > usize::MAX - n {
        return false;
    }
    let col = (p + n) as u16;
    col <= u16::MAX - area_x
}

} // verus!
