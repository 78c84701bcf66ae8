use blur::controls::Key;
use blur::editor::{Action, Session};
use blur::normal_mode::{
    INSERT, NORMAL, OPEN_FAILED, OPEN_PROMPT, SAVE_FAILED, SAVE_PROMPT, UNSAVED_PROMPT,
};

fn lines(v: &[&str]) -> Vec<String> {
    v.iter().map(|s| s.to_string()).collect()
}

fn press(s: &mut Session, k: Key) -> Action {
    assert!(s.key_ok(k));
    s.handle_key(k)
}

fn type_str(s: &mut Session, text: &str) {
    for c in text.chars() {
        press(s, Key::Char(c));
    }
}

#[test]
fn start_without_file_has_one_fresh_tab() {
    let s = Session::start(None, None);
    assert_eq!(s.tabs.len(), 1);
    assert_eq!(s.tab_selector, 0);
    assert_eq!(s.mode, NORMAL);
    assert_eq!(s.tabs[0].input_box, vec![String::new()]);
    assert_eq!(s.tabs[0].file_name, "");
}

#[test]
fn start_with_readable_file_splits_it() {
    let s = Session::start(Some("a.txt".to_string()), Some("one\ntwo".to_string()));
    assert_eq!(s.tabs[0].input_box, lines(&["one", "two"]));
    assert_eq!(s.tabs[0].file_name, "a.txt");
    assert!(s.tabs[0].saved);
}

#[test]
fn start_with_missing_file_binds_empty_buffer() {
    let s = Session::start(Some("new.txt".to_string()), None);
    assert_eq!(s.tabs[0].input_box, lines(&[""]));
    assert_eq!(s.tabs[0].file_name, "new.txt");
}

#[test]
fn closing_the_only_tab_quits() {
    let mut s = Session::start(None, None);
    assert_eq!(press(&mut s, Key::Char('q')), Action::Quit);
}

#[test]
fn new_tab_is_selected_and_closing_it_returns() {
    let mut s = Session::start(Some("a".to_string()), Some("x".to_string()));
    assert_eq!(press(&mut s, Key::Char('N')), Action::Continue);
    assert_eq!((s.tabs.len(), s.tab_selector), (2, 1));
    assert_eq!(press(&mut s, Key::Char('q')), Action::Continue);
    assert_eq!((s.tabs.len(), s.tab_selector), (1, 0));
    assert_eq!(s.tabs[0].file_name, "a");
}

#[test]
fn closing_first_tab_keeps_the_others() {
    let mut s = Session::start(Some("a".to_string()), Some("x".to_string()));
    press(&mut s, Key::Char('N'));
    press(&mut s, Key::Tab);
    assert_eq!(s.tab_selector, 0);
    assert_eq!(press(&mut s, Key::Char('q')), Action::Continue);
    assert_eq!((s.tabs.len(), s.tab_selector), (1, 0));
    assert_eq!(s.tabs[0].file_name, "");
}

#[test]
fn closing_a_middle_tab_steps_back() {
    let mut s = Session::start(Some("a".to_string()), Some("x".to_string()));
    press(&mut s, Key::Char('N'));
    press(&mut s, Key::Char('N'));
    assert_eq!((s.tabs.len(), s.tab_selector), (3, 2));
    press(&mut s, Key::BackTab);
    assert_eq!(s.tab_selector, 1);
    press(&mut s, Key::Char('q'));
    assert_eq!((s.tabs.len(), s.tab_selector), (2, 0));
    assert_eq!(s.tabs[0].file_name, "a");
}

#[test]
fn tab_then_back_tab_returns() {
    let mut s = Session::start(None, None);
    press(&mut s, Key::Char('N'));
    press(&mut s, Key::Char('N'));
    for start in 0..3 {
        s.tab_selector = start;
        press(&mut s, Key::Tab);
        press(&mut s, Key::BackTab);
        assert_eq!(s.tab_selector, start);
    }
}

#[test]
fn unsaved_tab_asks_before_closing() {
    let mut s = Session::start(None, None);
    press(&mut s, Key::Char('o'));
    press(&mut s, Key::Esc);
    assert!(!s.tabs[0].saved);
    assert_eq!(press(&mut s, Key::Char('q')), Action::Continue);
    assert_eq!(s.mode, UNSAVED_PROMPT);
    assert_eq!(press(&mut s, Key::Char('x')), Action::Continue);
    assert_eq!(s.mode, NORMAL);
    press(&mut s, Key::Char('q'));
    assert_eq!(press(&mut s, Key::Char('y')), Action::Quit);
}

#[test]
fn typing_then_undo_takes_word_back() {
    let mut s = Session::start(None, None);
    press(&mut s, Key::Char('i'));
    assert_eq!(s.mode, INSERT);
    type_str(&mut s, "hello");
    press(&mut s, Key::Esc);
    assert_eq!(s.tabs[0].input_box, lines(&["hello"]));
    press(&mut s, Key::Char('u'));
    assert_eq!(s.tabs[0].input_box, lines(&[""]));
    press(&mut s, Key::Char('r'));
    assert_eq!(s.tabs[0].input_box, lines(&["hello"]));
}

#[test]
fn new_edit_clears_redo() {
    let mut s = Session::start(None, Some("abc".to_string()));
    s.tabs[0].input_box = lines(&["abc", "def"]);
    press(&mut s, Key::Char('d'));
    press(&mut s, Key::Char('u'));
    assert_eq!(s.tabs[0].redo_stack.len(), 1);
    press(&mut s, Key::Char('>'));
    assert_eq!(s.tabs[0].redo_stack.len(), 0);
}

#[test]
fn w_on_named_tab_asks_for_a_write() {
    let mut s = Session::start(Some("f.txt".to_string()), Some("a".to_string()));
    s.tabs[0].saved = false;
    assert_eq!(press(&mut s, Key::Char('w')), Action::WriteTab);
    s.after_write(false);
    assert!(!s.tabs[0].saved);
    assert_eq!(s.mode, SAVE_FAILED);
    assert_eq!(press(&mut s, Key::Char('x')), Action::AwaitKey);
    s.dismiss(true);
    assert_eq!(s.mode, NORMAL);
    assert_eq!(press(&mut s, Key::Char('w')), Action::WriteTab);
    s.after_write(true);
    assert!(s.tabs[0].saved);
    assert_eq!(s.mode, NORMAL);
}

#[test]
fn save_as_flow_and_failure_report() {
    let mut s = Session::start(None, None);
    press(&mut s, Key::Char('w'));
    assert_eq!(s.mode, SAVE_PROMPT);
    type_str(&mut s, "out.txt");
    assert_eq!(s.the_command_line, "out.txt");
    assert_eq!(press(&mut s, Key::Enter), Action::WriteAs);
    assert_eq!(s.tabs[0].file_name, "out.txt");
    s.after_save_as(false);
    assert_eq!(s.mode, SAVE_FAILED);
    assert_eq!(press(&mut s, Key::Char('z')), Action::AwaitKey);
    s.dismiss(false);
    assert_eq!(s.mode, SAVE_FAILED);
    s.dismiss(true);
    assert_eq!((s.mode, s.the_command_line.as_str()), (NORMAL, ""));
}

#[test]
fn save_as_success_returns_to_normal() {
    let mut s = Session::start(None, None);
    press(&mut s, Key::Char('W'));
    type_str(&mut s, "a");
    press(&mut s, Key::Enter);
    s.tabs[0].saved = false;
    s.after_save_as(true);
    assert_eq!(s.mode, NORMAL);
    assert!(s.tabs[0].saved);
}

#[test]
fn open_flow_loads_file() {
    let mut s = Session::start(None, None);
    press(&mut s, Key::Char('O'));
    assert_eq!(s.mode, OPEN_PROMPT);
    type_str(&mut s, "b.txt");
    assert_eq!(press(&mut s, Key::Enter), Action::ReadFile);
    s.after_open(Some("1\n2".to_string()));
    assert_eq!(s.tabs[0].input_box, lines(&["1", "2"]));
    assert_eq!(s.tabs[0].file_name, "b.txt");
    assert_eq!((s.mode, s.the_command_line.as_str()), (NORMAL, ""));
}

#[test]
fn open_failure_is_reported() {
    let mut s = Session::start(None, None);
    press(&mut s, Key::Char('O'));
    type_str(&mut s, "nope");
    press(&mut s, Key::Enter);
    s.after_open(None);
    assert_eq!(s.mode, OPEN_FAILED);
    assert_eq!(s.tabs[0].file_name, "nope");
}

#[test]
fn paste_goes_to_text_or_prompt() {
    let mut s = Session::start(None, None);
    assert!(s.paste_fits("ignored"));
    s.handle_paste("ignored");
    assert_eq!(s.tabs[0].input_box, lines(&[""]));
    press(&mut s, Key::Char('i'));
    assert!(s.paste_fits("a\nb"));
    s.handle_paste("a\nb");
    assert_eq!(s.tabs[0].input_box, lines(&["a", "b"]));
    press(&mut s, Key::Esc);
    press(&mut s, Key::Char('O'));
    s.handle_paste("x.rs");
    assert_eq!(s.the_command_line, "x.rs");
}

#[test]
fn keys_out_of_bounds_are_refused() {
    let mut s = Session::start(None, Some("abc".to_string()));
    s.tabs[0].cursor_y = 3;
    assert!(!s.key_ok(Key::Char('d')));
    assert!(!s.key_ok(Key::Char('a')));
    assert!(s.key_ok(Key::Tab));
    s.tabs[0].cursor_y = 0;
    s.tabs[0].input_box = lines(&["é"]);
    s.tabs[0].cursor_x = 1;
    assert!(!s.key_ok(Key::Char('e')));
    assert!(!s.key_ok(Key::Delete));
    s.mode = INSERT;
    assert!(!s.key_ok(Key::Char('x')));
    assert!(!s.paste_fits("x"));
    s.tabs[0].cursor_x = 2;
    assert!(s.key_ok(Key::Char('x')));
    assert!(s.paste_fits("x"));
}
