use blur::controls::Key;
use blur::document::{join_text, normalize_newlines, split_text};
use blur::guards::{
    arrow_ok, boundary_at, insert_key_ok, lines_fit, normal_key_ok, paste_ok, redo_ok,
    select_key_ok, select_line_key_ok, undo_ok,
};
use blur::helpers::{EditRecord, Tab, Visual};
use blur::text::{
    byte_length, char_after, char_before, cut, find_from, first_non_space, insert_char,
    insert_text, is_boundary, locate, pop_char, push_char, remove_char, rfind_before,
    split_at_byte, starts_with_indent, substring, width,
};

fn lines(v: &[&str]) -> Vec<String> {
    v.iter().map(|s| s.to_string()).collect()
}

fn tab_with(v: &[&str], y: i32, x: i32) -> Tab {
    let mut t = Tab::new();
    t.input_box = lines(v);
    t.cursor_y = y;
    t.cursor_x = x;
    t
}

#[test]
fn widths_and_lengths() {
    assert_eq!(width('a'), 1);
    assert_eq!(width('é'), 2);
    assert_eq!(width('日'), 3);
    assert_eq!(width('🦀'), 4);
    assert_eq!(byte_length("aé日🦀"), 10);
}

#[test]
fn boundaries_and_char_positions() {
    let s = "aé日";
    assert!(is_boundary(s, 0));
    assert!(is_boundary(s, 1));
    assert!(!is_boundary(s, 2));
    assert!(is_boundary(s, 3));
    assert!(is_boundary(s, 6));
    assert!(!is_boundary(s, 7));
    assert_eq!(locate(s, 3), Some(2));
    assert_eq!(locate(s, 6), Some(3));
    assert_eq!(locate(s, 4), None);
    assert!(!boundary_at(s, -1));
    assert!(boundary_at(s, 3));
}

#[test]
fn finding_spaces() {
    let s = "ab cd ef";
    assert_eq!(find_from(s, 0, ' '), Some(2));
    assert_eq!(find_from(s, 3, ' '), Some(5));
    assert_eq!(find_from(s, 6, ' '), None);
    assert_eq!(rfind_before(s, 8, ' '), Some(5));
    assert_eq!(rfind_before(s, 5, ' '), Some(2));
    assert_eq!(rfind_before(s, 2, ' '), None);
}

#[test]
fn indentation_helpers() {
    assert_eq!(first_non_space("   x y"), 3);
    assert_eq!(first_non_space("    "), 0);
    assert_eq!(first_non_space(""), 0);
    assert!(starts_with_indent("    x"));
    assert!(!starts_with_indent("   x"));
    assert!(!starts_with_indent("\tx"));
}

#[test]
fn editing_strings_by_byte_offsets() {
    let mut s = "aé".to_string();
    insert_char(&mut s, 1, 'x');
    assert_eq!(s, "axé");
    assert_eq!(remove_char(&mut s, 2), 'é');
    assert_eq!(s, "ax");
    insert_text(&mut s, 1, "日本");
    assert_eq!(s, "a日本x");
    let tail = split_at_byte(&mut s, 4);
    assert_eq!((s.as_str(), tail.as_str()), ("a日", "本x"));
    let mut t = "hello world".to_string();
    assert_eq!(substring(&t, 6, 11), "world");
    assert_eq!(cut(&mut t, 5, 11), " world");
    assert_eq!(t, "hello");
    push_char(&mut t, '!');
    assert_eq!(pop_char(&mut t), Some('!'));
    let mut e = String::new();
    assert_eq!(pop_char(&mut e), None);
}

#[test]
fn chars_around_a_column() {
    let s = "aé日";
    assert_eq!(char_before(s, 3), Some((1, 'é')));
    assert_eq!(char_before(s, 0), None);
    assert_eq!(char_after(s, 3), Some('日'));
    assert_eq!(char_after(s, 6), None);
}

#[test]
fn split_and_join_round_trip() {
    assert_eq!(split_text("a\nb\n"), lines(&["a", "b", ""]));
    assert_eq!(split_text(""), lines(&[""]));
    assert_eq!(join_text(&lines(&["a", "b", ""])), "a\nb\n");
    for s in ["", "x", "a\nb", "\n\n", "one\ntwo\nthree"] {
        assert_eq!(join_text(&split_text(s)), s);
    }
    let ls = lines(&["p", "", "q r"]);
    assert_eq!(split_text(&join_text(&ls)), ls);
}

#[test]
fn line_breaks_are_normalised() {
    assert_eq!(normalize_newlines("a\r\nb\rc\n"), "a\nb\nc\n");
    assert_eq!(normalize_newlines("\r\r\n"), "\n\n");
}

#[test]
fn guard_lines_fit_and_arrows() {
    assert!(lines_fit(&lines(&["a", "b"])));
    let t = lines(&["aé", "b"]);
    assert!(arrow_ok(Key::Left, 0, 0, &t));
    assert!(arrow_ok(Key::Left, 0, 3, &t));
    assert!(!arrow_ok(Key::Left, 0, 2, &t));
    assert!(!arrow_ok(Key::Right, 0, 2, &t));
    assert!(arrow_ok(Key::Right, 0, 3, &t));
    assert!(!arrow_ok(Key::Right, 5, 0, &t));
    assert!(arrow_ok(Key::Up, 2, 0, &t));
    assert!(!arrow_ok(Key::Up, 3, 0, &t));
    assert!(!arrow_ok(Key::Down, -1, 0, &t));
}

#[test]
fn guard_normal_keys() {
    let t = tab_with(&["aé b"], 0, 2);
    assert!(!normal_key_ok(&t, Key::Char('e')));
    assert!(normal_key_ok(&t, Key::Char('E')));
    assert!(!normal_key_ok(&t, Key::Char('l')));
    assert!(normal_key_ok(&t, Key::Char('g')));
    let t = tab_with(&["a"], 0, 0);
    assert!(normal_key_ok(&t, Key::Char('K')));
    let mut t = tab_with(&["a"], 0, 0);
    t.undo_stack.push(EditRecord::SplitLine { row: 0, col: 0 });
    assert!(!undo_ok(&t));
    assert!(!normal_key_ok(&t, Key::Char('u')));
    t.redo_stack.push(EditRecord::InsertLine { row: 1 });
    assert!(redo_ok(&t));
    t.redo_stack.push(EditRecord::InsertLine { row: 5 });
    assert!(!redo_ok(&t));
}

#[test]
fn guard_insert_keys() {
    let t = tab_with(&["ab"], 0, 1);
    assert!(insert_key_ok(&t, Key::Char('x'), &String::new()));
    // a run of typed chars longer than the cursor column cannot be recorded
    assert!(!insert_key_ok(&t, Key::Esc, &"abc".to_string()));
    assert!(insert_key_ok(&t, Key::Esc, &"a".to_string()));
    let t = tab_with(&["é"], 0, 1);
    assert!(!insert_key_ok(&t, Key::Enter, &String::new()));
    assert!(!paste_ok(&t, "x"));
    let t = tab_with(&["é"], 0, 2);
    assert!(paste_ok(&t, "x\ny"));
}

#[test]
fn guard_select_keys() {
    let t = tab_with(&["abcdef"], 0, 1);
    let vis = Visual { v_x: 3, v_y: 0, on: true };
    assert!(select_key_ok(&t, &vis, Key::Char('>')));
    assert!(select_key_ok(&t, &vis, Key::Char('d')));
    let far = Visual { v_x: 9, v_y: 0, on: true };
    assert!(!select_key_ok(&t, &far, Key::Char('d')));
    assert!(!select_key_ok(&t, &far, Key::Char('>')));
    let lines_vis = Visual { v_x: 0, v_y: 4, on: true };
    assert!(!select_line_key_ok(&t, &lines_vis, Key::Char('d')));
    assert!(select_line_key_ok(&t, &lines_vis, Key::Char('g')));
}
