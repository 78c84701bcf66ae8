use blur::actions::{backspace_key, delete_key, indent_row, redo, undo, unindent_row};
use blur::helpers::{apply_forward, apply_inverse, redo_record, undo_record, EditRecord, Tab, Visual};

fn lines(v: &[&str]) -> Vec<String> {
    v.iter().map(|s| s.to_string()).collect()
}

fn tab_with(v: &[&str], y: i32, x: i32) -> Tab {
    let mut t = Tab::new();
    t.input_box = lines(v);
    t.cursor_y = y;
    t.cursor_x = x;
    t
}

#[test]
fn visual_new_is_inactive_origin() {
    let v = Visual::new();
    assert_eq!(v.v_x, 0);
    assert_eq!(v.v_y, 0);
    assert!(!v.on);
}

#[test]
fn tab_new_is_one_empty_saved_line() {
    let t = Tab::new();
    assert_eq!(t.input_box, vec![String::new()]);
    assert_eq!(t.file_name, "");
    assert!(t.saved);
    assert_eq!((t.cursor_x, t.cursor_y, t.scroll_x, t.scroll_y), (0, 0, 0, 0));
    assert!(t.undo_stack.is_empty());
    assert!(t.redo_stack.is_empty());
}

#[test]
fn forward_insert_char_moves_past_its_bytes() {
    let mut b = lines(&["ab"]);
    let r = apply_forward(&EditRecord::InsertChar { row: 0, col: 1, ch: 'é' }, &mut b);
    assert_eq!(b, lines(&["aéb"]));
    assert_eq!(r, (0, 3));
}

#[test]
fn inverse_insert_char_removes_it() {
    let mut b = lines(&["aéb"]);
    let r = apply_inverse(&EditRecord::InsertChar { row: 0, col: 1, ch: 'é' }, &mut b);
    assert_eq!(b, lines(&["ab"]));
    assert_eq!(r, (0, 1));
}

#[test]
fn forward_and_inverse_delete_char() {
    let mut b = lines(&["abc"]);
    let rec = EditRecord::DeleteChar { row: 0, col: 1, ch: 'b' };
    assert_eq!(apply_forward(&rec, &mut b), (0, 1));
    assert_eq!(b, lines(&["ac"]));
    assert_eq!(apply_inverse(&rec, &mut b), (0, 2));
    assert_eq!(b, lines(&["abc"]));
}

#[test]
fn forward_and_inverse_insert_string() {
    let mut b = lines(&["xy"]);
    let rec = EditRecord::InsertString { row: 0, col: 1, text: "abc".to_string() };
    assert_eq!(apply_forward(&rec, &mut b), (0, 4));
    assert_eq!(b, lines(&["xabcy"]));
    assert_eq!(apply_inverse(&rec, &mut b), (0, 1));
    assert_eq!(b, lines(&["xy"]));
}

#[test]
fn inverse_insert_string_removes_its_bytes() {
    let mut b = lines(&["aé日b"]);
    let rec = EditRecord::InsertString { row: 0, col: 1, text: "é日".to_string() };
    assert_eq!(apply_inverse(&rec, &mut b), (0, 1));
    assert_eq!(b, lines(&["ab"]));
}

#[test]
fn forward_and_inverse_remove_string() {
    let mut b = lines(&["hello world"]);
    let rec = EditRecord::RemoveString { row: 0, col: 5, text: " world".to_string() };
    assert_eq!(apply_forward(&rec, &mut b), (0, 5));
    assert_eq!(b, lines(&["hello"]));
    assert_eq!(apply_inverse(&rec, &mut b), (0, 11));
    assert_eq!(b, lines(&["hello world"]));
}

#[test]
fn forward_and_inverse_split_line() {
    let mut b = lines(&["abcd", "z"]);
    let rec = EditRecord::SplitLine { row: 0, col: 2 };
    assert_eq!(apply_forward(&rec, &mut b), (1, 0));
    assert_eq!(b, lines(&["ab", "cd", "z"]));
    assert_eq!(apply_inverse(&rec, &mut b), (0, 2));
    assert_eq!(b, lines(&["abcd", "z"]));
}

#[test]
fn forward_merge_line_joins_next() {
    let mut b = lines(&["ab", "cd"]);
    let rec = EditRecord::MergeLine { row: 0, prev_len: 2 };
    assert_eq!(apply_forward(&rec, &mut b), (0, 2));
    assert_eq!(b, lines(&["abcd"]));
}

#[test]
fn inverse_merge_line_splits_the_merged_line() {
    let mut b = lines(&["xy", "abcd"]);
    let rec = EditRecord::MergeLine { row: 1, prev_len: 2 };
    assert_eq!(apply_inverse(&rec, &mut b), (2, 0));
    assert_eq!(b, lines(&["xy", "ab", "cd"]));
    let mut c = lines(&["abcd"]);
    assert_eq!(apply_inverse(&EditRecord::MergeLine { row: 0, prev_len: 2 }, &mut c), (1, 0));
    assert_eq!(c, lines(&["ab", "cd"]));
}

#[test]
fn forward_and_inverse_line_records() {
    let mut b = lines(&["a", "b"]);
    assert_eq!(apply_forward(&EditRecord::InsertLine { row: 1 }, &mut b), (1, 0));
    assert_eq!(b, lines(&["a", "", "b"]));
    assert_eq!(apply_inverse(&EditRecord::InsertLine { row: 1 }, &mut b), (1, 0));
    assert_eq!(b, lines(&["a", "b"]));
    let rm = EditRecord::RemoveLine { row: 0, content: "a".to_string() };
    assert_eq!(apply_forward(&rm, &mut b), (0, 0));
    assert_eq!(b, lines(&["b"]));
    assert_eq!(apply_inverse(&rm, &mut b), (0, 0));
    assert_eq!(b, lines(&["a", "b"]));
    let mut c = lines(&["a", "", "b"]);
    assert_eq!(apply_forward(&EditRecord::RemoveEmptyLine { row: 1 }, &mut c), (1, 0));
    assert_eq!(c, lines(&["a", "b"]));
    assert_eq!(apply_inverse(&EditRecord::RemoveEmptyLine { row: 1 }, &mut c), (1, 0));
    assert_eq!(c, lines(&["a", "", "b"]));
}

#[test]
fn undo_after_redo_gives_text_back() {
    // One case for each record whose undo restores the text.
    let cases: Vec<(Vec<String>, EditRecord)> = vec![
        (lines(&["abc"]), EditRecord::InsertChar { row: 0, col: 1, ch: 'x' }),
        (lines(&["abc"]), EditRecord::DeleteChar { row: 0, col: 1, ch: 'b' }),
        (lines(&["abc"]), EditRecord::InsertString { row: 0, col: 3, text: "de".to_string() }),
        (lines(&["abc"]), EditRecord::RemoveString { row: 0, col: 0, text: "ab".to_string() }),
        (lines(&["abc"]), EditRecord::SplitLine { row: 0, col: 1 }),
        (lines(&["abc"]), EditRecord::InsertLine { row: 1 }),
        (lines(&["abc", "d"]), EditRecord::RemoveLine { row: 1, content: "d".to_string() }),
        (lines(&["abc", ""]), EditRecord::RemoveEmptyLine { row: 1 }),
        (lines(&["ab", "cd"]), EditRecord::MergeLine { row: 0, prev_len: 2 }),
        (lines(&["aé", "cd"]), EditRecord::InsertString { row: 0, col: 1, text: "日本".to_string() }),
        (lines(&["a", "b", "c"]), EditRecord::MoveLine { from: 0, to: 2 }),
        (lines(&["ab", "z"]), EditRecord::Paste { row: 0, col: 1, text: "x\ny\nw".to_string() }),
        (lines(&["ab"]), EditRecord::Paste { row: 0, col: 1, text: "xé".to_string() }),
    ];
    for (b, rec) in cases {
        let mut c = b.clone();
        apply_forward(&rec, &mut c);
        assert_ne!(c, b);
        apply_inverse(&rec, &mut c);
        assert_eq!(c, b);
    }
}

#[test]
fn redo_after_undo_gives_text_back() {
    let cases: Vec<(Vec<String>, EditRecord)> = vec![
        (lines(&["axbc"]), EditRecord::InsertChar { row: 0, col: 1, ch: 'x' }),
        (lines(&["ac"]), EditRecord::DeleteChar { row: 0, col: 1, ch: 'b' }),
        (lines(&["abcde"]), EditRecord::InsertString { row: 0, col: 3, text: "de".to_string() }),
        (lines(&["c"]), EditRecord::RemoveString { row: 0, col: 0, text: "ab".to_string() }),
        (lines(&["a", "bc"]), EditRecord::SplitLine { row: 0, col: 1 }),
        (lines(&["abc", ""]), EditRecord::InsertLine { row: 1 }),
        (lines(&["abc"]), EditRecord::RemoveLine { row: 1, content: "d".to_string() }),
        (lines(&["abc"]), EditRecord::RemoveEmptyLine { row: 1 }),
        (lines(&["abcd"]), EditRecord::MergeLine { row: 0, prev_len: 2 }),
        (lines(&["a日本é"]), EditRecord::InsertString { row: 0, col: 1, text: "日本".to_string() }),
        (lines(&["b", "c", "a"]), EditRecord::MoveLine { from: 0, to: 2 }),
        (lines(&["ax", "y", "wb", "z"]), EditRecord::Paste { row: 0, col: 1, text: "x\ny\nw".to_string() }),
        (lines(&["axéb"]), EditRecord::Paste { row: 0, col: 1, text: "xé".to_string() }),
    ];
    for (b, rec) in cases {
        let mut c = b.clone();
        apply_inverse(&rec, &mut c);
        assert_ne!(c, b);
        apply_forward(&rec, &mut c);
        assert_eq!(c, b);
    }
}

#[test]
fn delete_removes_char_under_cursor_and_records_it() {
    let mut t = tab_with(&["héllo"], 0, 1);
    delete_key(&mut t);
    assert_eq!(t.input_box, lines(&["hllo"]));
    assert!(!t.saved);
    assert_eq!(t.undo_stack.len(), 1);
    undo(&mut t);
    assert_eq!(t.input_box, lines(&["héllo"]));
    assert_eq!((t.cursor_y, t.cursor_x), (0, 2));
}

#[test]
fn delete_on_empty_line_removes_it() {
    let mut t = tab_with(&["a", "", "b"], 1, 0);
    delete_key(&mut t);
    assert_eq!(t.input_box, lines(&["a", "b"]));
    assert_eq!((t.cursor_y, t.cursor_x), (1, 0));
    let mut only = tab_with(&[""], 0, 0);
    delete_key(&mut only);
    assert_eq!(only.input_box, lines(&[""]));
    assert!(only.undo_stack.is_empty());
}

#[test]
fn backspace_removes_char_before_cursor() {
    let mut t = tab_with(&["aéb"], 0, 3);
    backspace_key(&mut t);
    assert_eq!(t.input_box, lines(&["ab"]));
    assert_eq!(t.cursor_x, 1);
}

#[test]
fn backspace_at_line_start_joins_with_line_above() {
    let mut t = tab_with(&["ab", "cd"], 1, 0);
    backspace_key(&mut t);
    assert_eq!(t.input_box, lines(&["abcd"]));
    assert_eq!((t.cursor_y, t.cursor_x), (0, 2));
}

#[test]
fn backspace_on_empty_line_removes_it() {
    let mut t = tab_with(&["ab", ""], 1, 0);
    backspace_key(&mut t);
    assert_eq!(t.input_box, lines(&["ab"]));
    assert_eq!((t.cursor_y, t.cursor_x), (0, 2));
}

#[test]
fn undo_then_redo_restores_text_and_stacks() {
    let mut t = tab_with(&["abc"], 0, 1);
    delete_key(&mut t);
    assert_eq!(t.input_box, lines(&["ac"]));
    undo(&mut t);
    assert_eq!(t.input_box, lines(&["abc"]));
    assert_eq!((t.undo_stack.len(), t.redo_stack.len()), (0, 1));
    redo(&mut t);
    assert_eq!(t.input_box, lines(&["ac"]));
    assert_eq!((t.undo_stack.len(), t.redo_stack.len()), (1, 0));
}

#[test]
fn undo_with_empty_stack_changes_nothing() {
    let mut t = tab_with(&["abc"], 0, 1);
    undo(&mut t);
    redo(&mut t);
    assert_eq!(t.input_box, lines(&["abc"]));
    assert!(t.saved);
}

#[test]
fn unindent_after_indent_gives_line_back() {
    let mut t = tab_with(&["x = 1"], 0, 0);
    indent_row(&mut t, 0);
    assert_eq!(t.input_box, lines(&["    x = 1"]));
    unindent_row(&mut t, 0);
    assert_eq!(t.input_box, lines(&["x = 1"]));
    assert_eq!(t.undo_stack.len(), 2);
}

#[test]
fn unindent_leaves_unindented_line() {
    let mut t = tab_with(&["  x"], 0, 0);
    unindent_row(&mut t, 0);
    assert_eq!(t.input_box, lines(&["  x"]));
    assert!(t.undo_stack.is_empty());
}

#[test]
fn flagged_removal_refills_the_only_line() {
    let rec = EditRecord::RemoveLine { row: 0, content: "abc".to_string() };
    let mut b = lines(&[""]);
    assert_eq!(undo_record(&rec, true, &mut b), (0, 0));
    assert_eq!(b, lines(&["abc"]));
    assert_eq!(redo_record(&rec, true, &mut b), (0, 0));
    assert_eq!(b, lines(&[""]));
    assert_eq!(undo_record(&rec, false, &mut b), (0, 0));
    assert_eq!(b, lines(&["abc", ""]));
    assert_eq!(redo_record(&rec, false, &mut b), (0, 0));
    assert_eq!(b, lines(&[""]));
}

#[test]
fn flag_is_ignored_on_other_records() {
    let rec = EditRecord::InsertLine { row: 1 };
    let mut b = lines(&["a"]);
    redo_record(&rec, true, &mut b);
    assert_eq!(b, lines(&["a", ""]));
    undo_record(&rec, true, &mut b);
    assert_eq!(b, lines(&["a"]));
}
