use blur::controls::{controls, default_controls, Key};
use blur::helpers::{redo_record, EditRecord, Effect, Tab, Visual};
use blur::modes::{
    finish_open, finish_save, finish_write, insert_mode, insert_paste, open_mode, save_mode,
    unsaved_work_mode,
};
use blur::normal_mode::{
    normal_mode, INSERT, NORMAL, OPEN_FAILED, OPEN_PROMPT, SAVE_PROMPT, SELECT, SELECT_LINE,
    UNSAVED_PROMPT,
};
use blur::select_modes::{select_mode1, select_mode_line};

fn lines(v: &[&str]) -> Vec<String> {
    v.iter().map(|s| s.to_string()).collect()
}

fn tab_with(v: &[&str], y: i32, x: i32) -> Tab {
    let mut t = Tab::new();
    t.input_box = lines(v);
    t.cursor_y = y;
    t.cursor_x = x;
    t
}

/// Whether `stack` holds exactly one record: the removal of row 0 holding `text`.
fn only_line_removal(stack: &[EditRecord], text: &str) -> bool {
    match stack {
        [EditRecord::RemoveLine { row: 0, content }] => content == text,
        _ => false,
    }
}

struct Normal {
    tabs: Vec<Tab>,
    sel: usize,
    vis: Visual,
    mode: i32,
    cmd: String,
}

impl Normal {
    fn new(t: Tab) -> Normal {
        Normal { tabs: vec![t], sel: 0, vis: Visual::new(), mode: NORMAL, cmd: String::new() }
    }

    fn key(&mut self, k: Key) -> Effect {
        let mut text = self.tabs[self.sel].input_box.clone();
        normal_mode(
            &mut self.tabs,
            &mut self.sel,
            &mut self.vis,
            k,
            &mut self.mode,
            &mut self.cmd,
            &mut text,
        )
    }

    fn tab(&self) -> &Tab {
        &self.tabs[self.sel]
    }
}

struct Insert {
    tab: Tab,
    mode: i32,
    filled: String,
}

impl Insert {
    fn key(&mut self, k: Key) -> bool {
        let mut text = self.tab.input_box.clone();
        insert_mode(&mut self.tab, k, &mut self.mode, &mut text, &mut self.filled)
    }
}

#[test]
fn arrows_move_by_whole_chars() {
    let text = lines(&["aéb", "xy"]);
    let (mut y, mut x) = (0, 1);
    assert!(default_controls(Key::Right, &mut y, &mut x, &text));
    assert_eq!((y, x), (0, 3));
    assert!(default_controls(Key::Left, &mut y, &mut x, &text));
    assert_eq!((y, x), (0, 1));
    assert!(!default_controls(Key::Char('l'), &mut y, &mut x, &text));
    assert_eq!((y, x), (0, 1));
}

#[test]
fn vertical_moves_keep_column_on_boundaries() {
    let text = lines(&["aéb", "abcd"]);
    let (mut y, mut x) = (1, 2);
    assert!(default_controls(Key::Up, &mut y, &mut x, &text));
    // byte 2 is inside 'é': the cursor snaps to the next boundary
    assert_eq!((y, x), (0, 3));
    let (mut y, mut x) = (1, 4);
    default_controls(Key::Up, &mut y, &mut x, &text);
    assert_eq!((y, x), (0, 4));
    let (mut y, mut x) = (0, 4);
    default_controls(Key::Down, &mut y, &mut x, &text);
    assert_eq!((y, x), (1, 4));
    default_controls(Key::Down, &mut y, &mut x, &text);
    assert_eq!((y, x), (1, 4));
}

#[test]
fn vertical_move_past_line_end_goes_to_end() {
    let text = lines(&["ab", "abcdef"]);
    let (mut y, mut x) = (1, 5);
    default_controls(Key::Up, &mut y, &mut x, &text);
    assert_eq!((y, x), (0, 2));
}

#[test]
fn vim_keys_move_like_arrows() {
    let text = lines(&["abc", "de"]);
    let (mut y, mut x) = (0, 0);
    assert!(controls(Key::Char('l'), &mut y, &mut x, &text));
    assert_eq!((y, x), (0, 1));
    assert!(controls(Key::Char('j'), &mut y, &mut x, &text));
    assert_eq!((y, x), (1, 1));
    assert!(controls(Key::Char('k'), &mut y, &mut x, &text));
    assert!(controls(Key::Char('h'), &mut y, &mut x, &text));
    assert_eq!((y, x), (0, 0));
    assert!(!controls(Key::Char('x'), &mut y, &mut x, &text));
}

#[test]
fn normal_o_opens_line_below_in_insert_mode() {
    let mut n = Normal::new(tab_with(&["ab", "cd"], 0, 1));
    assert_eq!(n.key(Key::Char('o')), Effect::Continue);
    assert_eq!(n.tab().input_box, lines(&["ab", "", "cd"]));
    assert_eq!((n.tab().cursor_y, n.tab().cursor_x), (1, 0));
    assert_eq!(n.mode, INSERT);
    n.key(Key::Char('u'));
    assert_eq!(n.tabs[0].input_box, lines(&["ab", "cd"]));
}

#[test]
fn normal_d_deletes_line_and_undo_restores_it() {
    let mut n = Normal::new(tab_with(&["a", "b", "c"], 1, 0));
    n.key(Key::Char('d'));
    assert_eq!(n.tab().input_box, lines(&["a", "c"]));
    assert_eq!(n.tab().cursor_y, 1);
    n.key(Key::Char('u'));
    assert_eq!(n.tab().input_box, lines(&["a", "b", "c"]));
    n.key(Key::Char('r'));
    assert_eq!(n.tab().input_box, lines(&["a", "c"]));
}

#[test]
fn normal_d_on_last_line_moves_cursor_up() {
    let mut n = Normal::new(tab_with(&["a", "b"], 1, 0));
    n.key(Key::Char('d'));
    assert_eq!(n.tab().input_box, lines(&["a"]));
    assert_eq!(n.tab().cursor_y, 0);
}

#[test]
fn normal_d_on_only_line_leaves_empty_line() {
    let mut n = Normal::new(tab_with(&["abc"], 0, 2));
    n.key(Key::Char('d'));
    assert_eq!(n.tab().input_box, lines(&[""]));
    assert_eq!((n.tab().cursor_y, n.tab().cursor_x), (0, 0));
    n.key(Key::Char('u'));
    assert_eq!(n.tab().input_box, lines(&["abc"]));
    assert_eq!((n.tab().cursor_y, n.tab().cursor_x), (0, 0));
    assert!(n.tab().undo_stack.is_empty());
    assert!(only_line_removal(&n.tab().redo_stack, "abc"));
    n.key(Key::Char('r'));
    assert_eq!(n.tab().input_box, lines(&[""]));
    assert!(only_line_removal(&n.tab().undo_stack, "abc"));
    n.key(Key::Char('u'));
    assert_eq!(n.tab().input_box, lines(&["abc"]));
}

#[test]
fn normal_d_on_first_of_two_lines_undoes_to_both() {
    let mut n = Normal::new(tab_with(&["abc", ""], 0, 0));
    n.key(Key::Char('d'));
    assert_eq!(n.tab().input_box, lines(&[""]));
    assert!(only_line_removal(&n.tab().undo_stack, "abc"));
    n.key(Key::Char('u'));
    assert_eq!(n.tab().input_box, lines(&["abc", ""]));
    n.key(Key::Char('r'));
    assert_eq!(n.tab().input_box, lines(&[""]));
}

#[test]
fn undo_past_later_edits_still_refills_only_line() {
    let mut n = Normal::new(tab_with(&["abc"], 0, 0));
    n.key(Key::Char('d'));
    n.key(Key::Char('o'));
    assert_eq!(n.tab().input_box, lines(&["", ""]));
    n.key(Key::Char('u'));
    assert_eq!(n.tab().input_box, lines(&[""]));
    n.key(Key::Char('u'));
    assert_eq!(n.tab().input_box, lines(&["abc"]));
}

#[test]
fn normal_j_then_k_moves_line_back() {
    let mut n = Normal::new(tab_with(&["a", "b", "c"], 0, 0));
    n.key(Key::Char('J'));
    assert_eq!(n.tab().input_box, lines(&["b", "a", "c"]));
    assert_eq!(n.tab().cursor_y, 1);
    assert!(!n.tab().saved);
    n.key(Key::Char('K'));
    assert_eq!(n.tab().input_box, lines(&["a", "b", "c"]));
    assert_eq!(n.tab().cursor_y, 0);
    assert_eq!(n.tab().undo_stack.len(), 2);
    n.key(Key::Char('u'));
    assert_eq!(n.tab().input_box, lines(&["b", "a", "c"]));
    n.key(Key::Char('u'));
    assert_eq!(n.tab().input_box, lines(&["a", "b", "c"]));
    assert_eq!(n.tab().redo_stack.len(), 2);
}

#[test]
fn normal_k_records_move_and_clears_redo() {
    let mut n = Normal::new(tab_with(&["a", "b", "c"], 2, 0));
    n.tabs[0].redo_stack.push(EditRecord::InsertLine { row: 0 });
    n.key(Key::Char('K'));
    assert_eq!(n.tab().input_box, lines(&["a", "c", "b"]));
    assert_eq!(n.tab().cursor_y, 1);
    assert!(!n.tab().saved);
    assert_eq!(n.tab().undo_stack.len(), 1);
    assert!(n.tab().redo_stack.is_empty());
    n.key(Key::Char('u'));
    assert_eq!(n.tab().input_box, lines(&["a", "b", "c"]));
}

#[test]
fn normal_k_on_first_line_and_j_on_last_do_nothing() {
    let mut n = Normal::new(tab_with(&["a", "b"], 0, 0));
    n.key(Key::Char('K'));
    assert_eq!(n.tab().input_box, lines(&["a", "b"]));
    n.tabs[0].cursor_y = 1;
    n.key(Key::Char('J'));
    assert_eq!(n.tab().input_box, lines(&["a", "b"]));
}

#[test]
fn normal_indent_and_unindent_current_line() {
    let mut n = Normal::new(tab_with(&["x"], 0, 0));
    n.key(Key::Char('>'));
    assert_eq!(n.tab().input_box, lines(&["    x"]));
    assert_eq!(n.tab().cursor_x, 4);
    n.key(Key::Char('>'));
    assert_eq!(n.tab().input_box, lines(&["        x"]));
    n.key(Key::Char('<'));
    assert_eq!(n.tab().input_box, lines(&["    x"]));
    assert_eq!(n.tab().cursor_x, 4);
    n.key(Key::Char('<'));
    assert_eq!(n.tab().input_box, lines(&["x"]));
    assert_eq!(n.tab().cursor_x, 0);
}

#[test]
fn normal_word_motions() {
    let mut n = Normal::new(tab_with(&["foo bar baz"], 0, 0));
    n.key(Key::Char('e'));
    assert_eq!(n.tab().cursor_x, 4);
    n.key(Key::Char('e'));
    assert_eq!(n.tab().cursor_x, 8);
    n.key(Key::Char('e'));
    assert_eq!(n.tab().cursor_x, 11);
    n.key(Key::Char('b'));
    assert_eq!(n.tab().cursor_x, 7);
    n.key(Key::Char('b'));
    assert_eq!(n.tab().cursor_x, 3);
    n.key(Key::Char('B'));
    assert_eq!(n.tab().cursor_x, 0);
    n.key(Key::Char('b'));
    assert_eq!(n.tab().cursor_x, 0);
    n.key(Key::Char('E'));
    assert_eq!(n.tab().cursor_x, 11);
}

#[test]
fn normal_g_and_shift_g_jump() {
    let mut n = Normal::new(tab_with(&["a", "bc", "def"], 1, 1));
    n.key(Key::Char('G'));
    assert_eq!((n.tab().cursor_y, n.tab().cursor_x), (2, 0));
    n.key(Key::Char('g'));
    assert_eq!((n.tab().cursor_y, n.tab().cursor_x), (0, 0));
}

#[test]
fn normal_insert_entries() {
    let mut n = Normal::new(tab_with(&["abc"], 0, 1));
    n.key(Key::Char('a'));
    assert_eq!((n.mode, n.tab().cursor_x), (INSERT, 2));
    let mut n = Normal::new(tab_with(&["abc"], 0, 3));
    n.key(Key::Char('a'));
    assert_eq!((n.mode, n.tab().cursor_x), (INSERT, 3));
    let mut n = Normal::new(tab_with(&["abc"], 0, 1));
    n.key(Key::Char('i'));
    assert_eq!((n.mode, n.tab().cursor_x), (INSERT, 1));
}

#[test]
fn normal_v_and_shift_v_set_anchor() {
    let mut n = Normal::new(tab_with(&["abc", "def"], 1, 2));
    n.key(Key::Char('v'));
    assert_eq!((n.vis.v_x, n.vis.v_y, n.vis.on, n.mode), (2, 1, true, SELECT));
    let mut n = Normal::new(tab_with(&["abc", "def"], 1, 2));
    n.key(Key::Char('V'));
    assert_eq!((n.vis.v_x, n.vis.v_y, n.mode), (2, 1, SELECT_LINE));
}

#[test]
fn normal_w_writes_named_tab_or_prompts() {
    let mut t = tab_with(&["abc"], 0, 0);
    t.file_name = "f.txt".to_string();
    let mut n = Normal::new(t);
    n.cmd = "old".to_string();
    assert_eq!(n.key(Key::Char('w')), Effect::WriteFile);
    assert_eq!((n.mode, n.cmd.as_str()), (NORMAL, ""));
    let mut n = Normal::new(tab_with(&["abc"], 0, 0));
    assert_eq!(n.key(Key::Char('w')), Effect::Continue);
    assert_eq!(n.mode, SAVE_PROMPT);
    let mut n = Normal::new(tab_with(&["abc"], 0, 0));
    n.key(Key::Char('W'));
    assert_eq!(n.mode, SAVE_PROMPT);
    let mut n = Normal::new(tab_with(&["abc"], 0, 0));
    n.key(Key::Char('O'));
    assert_eq!(n.mode, OPEN_PROMPT);
}

#[test]
fn normal_q_closes_saved_tab_or_asks() {
    let mut n = Normal::new(tab_with(&["abc"], 0, 0));
    assert_eq!(n.key(Key::Char('q')), Effect::Stop);
    n.tabs[0].saved = false;
    assert_eq!(n.key(Key::Char('q')), Effect::Continue);
    assert_eq!(n.mode, UNSAVED_PROMPT);
}

#[test]
fn normal_tab_keys_switch_and_open_tabs() {
    let mut n = Normal::new(tab_with(&["a"], 0, 0));
    n.key(Key::Char('N'));
    assert_eq!((n.tabs.len(), n.sel), (2, 1));
    assert_eq!(n.tabs[1].input_box, vec![String::new()]);
    n.key(Key::Tab);
    assert_eq!(n.sel, 0);
    n.key(Key::Char('n'));
    assert_eq!(n.sel, 1);
    n.key(Key::BackTab);
    assert_eq!(n.sel, 0);
    n.key(Key::BackTab);
    assert_eq!(n.sel, 1);
    n.sel = 0;
    n.key(Key::Char('N'));
    assert_eq!((n.tabs.len(), n.sel), (3, 2));
}

#[test]
fn normal_delete_and_backspace_keys() {
    let mut n = Normal::new(tab_with(&["abc"], 0, 1));
    n.key(Key::Delete);
    assert_eq!(n.tab().input_box, lines(&["ac"]));
    n.key(Key::Backspace);
    assert_eq!(n.tab().input_box, lines(&["c"]));
    assert_eq!(n.tab().cursor_x, 0);
}

#[test]
fn typed_word_is_undone_at_once() {
    let mut s = Insert { tab: tab_with(&[""], 0, 0), mode: INSERT, filled: String::new() };
    for c in "hi".chars() {
        assert!(s.key(Key::Char(c)));
    }
    assert_eq!(s.tab.input_box, lines(&["hi"]));
    assert_eq!(s.tab.cursor_x, 2);
    assert!(s.tab.undo_stack.is_empty());
    assert_eq!(s.filled, "hi");
    assert!(!s.key(Key::Esc));
    assert_eq!(s.mode, NORMAL);
    assert_eq!(s.filled, "");
    assert_eq!(s.tab.undo_stack.len(), 1);
    match &s.tab.undo_stack[0] {
        EditRecord::InsertString { row, col, text } => {
            assert_eq!((*row, *col, text.as_str()), (0, 0, "hi"));
        },
        _ => panic!("expected one insertion"),
    }
    blur::actions::undo(&mut s.tab);
    assert_eq!(s.tab.input_box, lines(&[""]));
}

#[test]
fn insert_enter_splits_line() {
    let mut s = Insert { tab: tab_with(&["abcd"], 0, 2), mode: INSERT, filled: String::new() };
    assert!(s.key(Key::Enter));
    assert_eq!(s.tab.input_box, lines(&["ab", "cd"]));
    assert_eq!((s.tab.cursor_y, s.tab.cursor_x), (1, 0));
    assert!(!s.tab.saved);
    assert!(s.tab.redo_stack.is_empty());
    blur::actions::undo(&mut s.tab);
    assert_eq!(s.tab.input_box, lines(&["abcd"]));
}

#[test]
fn insert_tab_adds_four_spaces() {
    let mut s = Insert { tab: tab_with(&["ab"], 0, 1), mode: INSERT, filled: String::new() };
    s.key(Key::Tab);
    assert_eq!(s.tab.input_box, lines(&["a    b"]));
    assert_eq!(s.tab.cursor_x, 5);
}

#[test]
fn insert_multibyte_char_advances_by_its_bytes() {
    let mut s = Insert { tab: tab_with(&["ab"], 0, 1), mode: INSERT, filled: String::new() };
    s.key(Key::Char('日'));
    assert_eq!(s.tab.input_box, lines(&["a日b"]));
    assert_eq!(s.tab.cursor_x, 4);
    s.key(Key::Right);
    assert_eq!(s.tab.cursor_x, 5);
    assert_eq!(s.tab.undo_stack.len(), 1);
}

#[test]
fn paste_splits_lines_at_cursor() {
    let mut t = tab_with(&["ab"], 0, 1);
    t.redo_stack.push(EditRecord::InsertLine { row: 0 });
    insert_paste(&mut t, "x\r\ny\rz");
    assert_eq!(t.input_box, lines(&["ax", "y", "zb"]));
    assert_eq!((t.cursor_y, t.cursor_x), (2, 1));
    assert!(!t.saved);
    assert!(t.redo_stack.is_empty());
    assert_eq!(t.undo_stack.len(), 1);
    blur::actions::undo(&mut t);
    assert_eq!(t.input_box, lines(&["ab"]));
    assert_eq!((t.cursor_y, t.cursor_x), (0, 1));
    blur::actions::redo(&mut t);
    assert_eq!(t.input_box, lines(&["ax", "y", "zb"]));
    assert_eq!((t.cursor_y, t.cursor_x), (2, 1));
    let mut t = tab_with(&["ab"], 0, 1);
    insert_paste(&mut t, "xyz");
    assert_eq!(t.input_box, lines(&["axyzb"]));
    assert_eq!((t.cursor_y, t.cursor_x), (0, 4));
}

#[test]
fn select_d_removes_range_on_one_line() {
    let mut t = tab_with(&["abcdef"], 0, 4);
    let mut vis = Visual { v_x: 1, v_y: 0, on: true };
    let mut mode = SELECT;
    assert!(!select_mode1(&mut t, &mut vis, Key::Char('d'), &mut mode));
    assert_eq!(t.input_box, lines(&["aef"]));
    assert_eq!(t.cursor_x, 1);
    blur::actions::undo(&mut t);
    assert_eq!(t.input_box, lines(&["abcdef"]));
    let mut t = tab_with(&["abcdef"], 0, 1);
    let mut vis = Visual { v_x: 4, v_y: 0, on: true };
    select_mode1(&mut t, &mut vis, Key::Char('d'), &mut mode);
    assert_eq!(t.input_box, lines(&["aef"]));
}

#[test]
fn select_d_across_lines_does_nothing() {
    let mut t = tab_with(&["abc", "def"], 1, 1);
    let mut vis = Visual { v_x: 1, v_y: 0, on: true };
    let mut mode = SELECT;
    assert!(!select_mode1(&mut t, &mut vis, Key::Char('d'), &mut mode));
    assert_eq!(t.input_box, lines(&["abc", "def"]));
}

#[test]
fn select_moves_and_esc() {
    let mut t = tab_with(&["abc def"], 0, 0);
    let mut vis = Visual { v_x: 0, v_y: 0, on: true };
    let mut mode = SELECT;
    assert!(select_mode1(&mut t, &mut vis, Key::Char('l'), &mut mode));
    assert_eq!(t.cursor_x, 1);
    assert!(select_mode1(&mut t, &mut vis, Key::Char('e'), &mut mode));
    assert_eq!(t.cursor_x, 4);
    assert!(!select_mode1(&mut t, &mut vis, Key::Esc, &mut mode));
    assert_eq!(mode, NORMAL);
}

#[test]
fn select_line_d_removes_single_selected_line() {
    let mut t = tab_with(&["a", "b", "c"], 1, 0);
    let mut vis = Visual { v_x: 0, v_y: 1, on: true };
    let mut mode = SELECT_LINE;
    assert!(!select_mode_line(&mut t, &mut vis, Key::Char('d'), &mut mode));
    assert_eq!(t.input_box, lines(&["a", "c"]));
    assert_eq!(t.undo_stack.len(), 1);
    assert!(!t.saved);
    blur::actions::undo(&mut t);
    assert_eq!(t.input_box, lines(&["a", "b", "c"]));
}

#[test]
fn select_line_d_removes_selected_lines() {
    let mut t = tab_with(&["a", "b", "c"], 1, 0);
    let mut vis = Visual { v_x: 0, v_y: 0, on: true };
    let mut mode = SELECT_LINE;
    assert!(!select_mode_line(&mut t, &mut vis, Key::Char('d'), &mut mode));
    assert_eq!(t.input_box, lines(&["c"]));
    assert_eq!(t.undo_stack.len(), 2);
    blur::actions::undo(&mut t);
    blur::actions::undo(&mut t);
    assert_eq!(t.input_box, lines(&["a", "b", "c"]));
}

#[test]
fn select_line_indents_and_unindents_block() {
    let mut t = tab_with(&["a", "b", "c"], 1, 0);
    let mut vis = Visual { v_x: 0, v_y: 0, on: true };
    let mut mode = SELECT_LINE;
    assert!(select_mode_line(&mut t, &mut vis, Key::Char('>'), &mut mode));
    assert_eq!(t.input_box, lines(&["    a", "    b", "c"]));
    assert_eq!(t.cursor_x, 4);
    assert!(select_mode_line(&mut t, &mut vis, Key::Char('<'), &mut mode));
    assert_eq!(t.input_box, lines(&["a", "b", "c"]));
    assert_eq!(t.cursor_x, 0);
}

#[test]
fn select_line_moves_block_up_and_down() {
    let mut t = tab_with(&["a", "b", "c", "d"], 2, 0);
    let mut vis = Visual { v_x: 0, v_y: 1, on: true };
    let mut mode = SELECT_LINE;
    select_mode_line(&mut t, &mut vis, Key::Char('K'), &mut mode);
    assert_eq!(t.input_box, lines(&["b", "c", "a", "d"]));
    assert_eq!((vis.v_y, t.cursor_y), (0, 1));
    select_mode_line(&mut t, &mut vis, Key::Char('J'), &mut mode);
    assert_eq!(t.input_box, lines(&["a", "b", "c", "d"]));
    assert_eq!((vis.v_y, t.cursor_y), (1, 2));
    assert_eq!(t.undo_stack.len(), 2);
    blur::actions::undo(&mut t);
    assert_eq!(t.input_box, lines(&["b", "c", "a", "d"]));
    blur::actions::undo(&mut t);
    assert_eq!(t.input_box, lines(&["a", "b", "c", "d"]));
}

#[test]
fn select_line_jumps() {
    let mut t = tab_with(&["a", "b", "c"], 1, 0);
    let mut vis = Visual { v_x: 0, v_y: 1, on: true };
    let mut mode = SELECT_LINE;
    select_mode_line(&mut t, &mut vis, Key::Char('G'), &mut mode);
    assert_eq!(t.cursor_y, 2);
    select_mode_line(&mut t, &mut vis, Key::Char('g'), &mut mode);
    assert_eq!(t.cursor_y, 0);
    assert!(!select_mode_line(&mut t, &mut vis, Key::Esc, &mut mode));
    assert_eq!(mode, NORMAL);
}

#[test]
fn save_prompt_edits_command_line() {
    let mut t = tab_with(&["abc"], 0, 0);
    let mut cmd = String::new();
    let mut mode = SAVE_PROMPT;
    save_mode(&mut t, Key::Char('a'), &mut cmd, &mut mode);
    save_mode(&mut t, Key::Char('b'), &mut cmd, &mut mode);
    save_mode(&mut t, Key::Backspace, &mut cmd, &mut mode);
    assert_eq!(cmd, "a");
    assert_eq!(save_mode(&mut t, Key::Enter, &mut cmd, &mut mode), Effect::WriteFile);
    assert_eq!(t.file_name, "a");
    t.saved = false;
    assert_eq!(finish_save(&mut t, false, &mut mode), Effect::Stop);
    assert_eq!(mode, SAVE_PROMPT);
    assert!(!t.saved);
    assert_eq!(finish_save(&mut t, true, &mut mode), Effect::Continue);
    assert_eq!(mode, NORMAL);
    assert!(t.saved);
    let mut mode = SAVE_PROMPT;
    save_mode(&mut t, Key::Esc, &mut cmd, &mut mode);
    assert_eq!((cmd.as_str(), mode), ("", NORMAL));
}

#[test]
fn finish_write_marks_saved_on_success() {
    let mut t = tab_with(&["abc"], 0, 0);
    t.saved = false;
    finish_write(&mut t, false);
    assert!(!t.saved);
    finish_write(&mut t, true);
    assert!(t.saved);
}

#[test]
fn open_prompt_reads_named_file() {
    let mut t = tab_with(&["old"], 0, 2);
    t.undo_stack.push(EditRecord::InsertLine { row: 0 });
    let mut cmd = String::new();
    let mut mode = OPEN_PROMPT;
    for c in "f.rs".chars() {
        open_mode(&mut t, Key::Char(c), &mut cmd, &mut mode);
    }
    assert_eq!(open_mode(&mut t, Key::Enter, &mut cmd, &mut mode), Effect::ReadFile);
    t.saved = false;
    finish_open(&mut t, Some("fn a\nb\n".to_string()), &mut cmd, &mut mode);
    assert_eq!(t.input_box, lines(&["fn a", "b", ""]));
    assert!(t.saved);
    assert_eq!(t.file_name, "f.rs");
    assert!(t.undo_stack.is_empty());
    assert_eq!((t.cursor_y, t.cursor_x, mode, cmd.as_str()), (0, 0, NORMAL, ""));
}

#[test]
fn open_prompt_failure_reports_and_empties_tab() {
    let mut t = tab_with(&["old"], 0, 2);
    t.saved = false;
    let mut cmd = "missing".to_string();
    let mut mode = OPEN_PROMPT;
    finish_open(&mut t, None, &mut cmd, &mut mode);
    assert_eq!(t.input_box, lines(&[""]));
    assert!(!t.saved);
    assert_eq!(t.file_name, "missing");
    assert_eq!(mode, OPEN_FAILED);
    let mut mode = OPEN_PROMPT;
    let mut cmd = "x".to_string();
    open_mode(&mut t, Key::Esc, &mut cmd, &mut mode);
    assert_eq!((cmd.as_str(), mode), ("", NORMAL));
}

#[test]
fn unsaved_prompt_answers() {
    let mut mode = UNSAVED_PROMPT;
    assert!(!unsaved_work_mode(Key::Char('y'), &mut mode));
    assert_eq!(mode, UNSAVED_PROMPT);
    assert!(unsaved_work_mode(Key::Char('n'), &mut mode));
    assert_eq!(mode, NORMAL);
    let mut mode = UNSAVED_PROMPT;
    assert!(unsaved_work_mode(Key::Esc, &mut mode));
    assert_eq!(mode, NORMAL);
}

#[test]
fn typed_multibyte_word_is_undone_at_once() {
    let mut s = Insert { tab: tab_with(&["ab"], 0, 1), mode: INSERT, filled: String::new() };
    for c in "日é".chars() {
        assert!(s.key(Key::Char(c)));
    }
    assert!(!s.key(Key::Esc));
    assert_eq!(s.tab.input_box, lines(&["a日éb"]));
    assert_eq!(s.tab.undo_stack.len(), 1);
    blur::actions::undo(&mut s.tab);
    assert_eq!(s.tab.input_box, lines(&["ab"]));
    blur::actions::redo(&mut s.tab);
    assert_eq!(s.tab.input_box, lines(&["a日éb"]));
}

/// The text before a key, the top record and its flag after it, redone
/// on that text, give the text after the key.
fn top_record_replays(before: &[&str], after: &Tab) {
    let r = after.undo_stack.last().unwrap();
    let e = *after.undo_emptied.last().unwrap();
    let mut b = lines(before);
    redo_record(r, e, &mut b);
    assert_eq!(b, after.input_box);
}

#[test]
fn normal_recorded_edits_replay() {
    let cases: Vec<(Vec<&str>, i32, i32, Key)> = vec![
        (vec!["abc", "de"], 0, 1, Key::Delete),
        (vec!["abc", "de"], 1, 0, Key::Backspace),
        (vec!["abc", "de"], 0, 0, Key::Char('>')),
        (vec!["    abc"], 0, 0, Key::Char('<')),
        (vec!["abc", "de"], 0, 0, Key::Char('o')),
        (vec!["abc", "de"], 1, 0, Key::Char('d')),
        (vec!["abc"], 0, 0, Key::Char('d')),
        (vec!["abc", "de"], 1, 0, Key::Char('K')),
        (vec!["abc", "de"], 0, 0, Key::Char('J')),
    ];
    for (before, y, x, k) in cases {
        let mut n = Normal::new(tab_with(&before, y, x));
        n.key(k);
        assert_eq!(n.tab().undo_stack.len(), 1);
        top_record_replays(&before, n.tab());
    }
}

#[test]
fn insert_recorded_edits_replay() {
    let cases: Vec<(Vec<&str>, i32, i32, Key)> = vec![
        (vec!["abc"], 0, 1, Key::Enter),
        (vec!["abc"], 0, 1, Key::Tab),
        (vec!["abc"], 0, 1, Key::Delete),
        (vec!["abc", "de"], 1, 0, Key::Backspace),
    ];
    for (before, y, x, k) in cases {
        let mut ins = Insert { tab: tab_with(&before, y, x), mode: INSERT, filled: String::new() };
        ins.key(k);
        assert_eq!(ins.tab.undo_stack.len(), 1);
        top_record_replays(&before, &ins.tab);
    }
}

#[test]
fn flushed_typed_run_replays() {
    let before = lines(&["xy"]);
    let mut ins = Insert { tab: tab_with(&["xy"], 0, 1), mode: INSERT, filled: String::new() };
    ins.key(Key::Char('é'));
    ins.key(Key::Char('b'));
    let typed = ins.tab.input_box.clone();
    let cursor = (ins.tab.cursor_y, ins.tab.cursor_x);
    ins.key(Key::Enter);
    assert_eq!(ins.tab.undo_stack.len(), 2);
    let mut b = before.clone();
    let (row, col) = redo_record(&ins.tab.undo_stack[0], ins.tab.undo_emptied[0], &mut b);
    assert_eq!(b, typed);
    assert_eq!(b, lines(&["xéby"]));
    assert_eq!((row as i32, col as i32), cursor);
    assert_eq!(cursor, (0, 4));
}
