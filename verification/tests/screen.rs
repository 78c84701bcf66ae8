use blur::helpers::Tab;
use blur::highlight::{plain_lines, styled_line, trimmed, Highlighter};
use blur::normal_mode::{
    INSERT, NORMAL, OPEN_FAILED, OPEN_PROMPT, SAVE_FAILED, SAVE_PROMPT, SELECT, SELECT_LINE,
    UNSAVED_PROMPT,
};
use blur::render::{
    column_from_width, cursor_cell, cursor_cell_fits, file_label, follow, follow_fits, mode_label,
    position_label, prompt_cursor, prompt_cursor_fits, scroll_fits, scroll_to_cursor,
    visual_column,
};

fn lines(v: &[&str]) -> Vec<String> {
    v.iter().map(|s| s.to_string()).collect()
}

#[test]
fn mode_labels() {
    assert_eq!(mode_label(NORMAL, ""), " NORMAL ");
    assert_eq!(mode_label(INSERT, ""), " INSERT ");
    assert_eq!(mode_label(SELECT, ""), " SELECT ");
    assert_eq!(mode_label(SELECT_LINE, ""), " SELECT-LINE ");
    assert_eq!(mode_label(SAVE_PROMPT, "a.txt"), " Save file into: a.txt ");
    assert_eq!(mode_label(OPEN_PROMPT, "b"), " File to Open: b ");
    assert_eq!(mode_label(OPEN_FAILED, ""), " Can't open file ");
    assert_eq!(mode_label(SAVE_FAILED, ""), " Can't save file ");
    assert_eq!(mode_label(UNSAVED_PROMPT, ""), "you have unsaved work, quit anyway? [y/n]");
    assert_eq!(
        mode_label(7, ""),
        "SOME ERRORS, try to relaunch the program                   BLUR V0.1"
    );
}

#[test]
fn file_labels() {
    let mut t = Tab::new();
    assert_eq!(file_label(&t), " [Empty File]* ");
    t.file_name = "main.rs".to_string();
    assert_eq!(file_label(&t), " main.rs ");
    t.saved = false;
    assert_eq!(file_label(&t), " *main.rs ");
}

#[test]
fn position_labels_in_decimal() {
    assert_eq!(position_label(0, 0, 0), " Row 0; Col 0; Tab 0 ");
    assert_eq!(position_label(65535, 120, 3), " Row 65535; Col 120; Tab 3 ");
    assert_eq!(position_label(7, -1, 12), " Row 7; Col -1; Tab 12 ");
    assert_eq!(position_label(10, i32::MIN, 1), " Row 10; Col -2147483648; Tab 1 ");
}

#[test]
fn follow_keeps_position_in_view() {
    assert_eq!(follow(5, 0, 10), 0);
    assert_eq!(follow(12, 0, 10), 3);
    assert_eq!(follow(10, 0, 10), 1);
    assert_eq!(follow(2, 5, 10), 2);
    assert_eq!(follow(5, 5, 10), 5);
    assert!(follow_fits(5, 0, 10));
    assert!(!follow_fits(65535, 65530, 10));
    assert!(!follow_fits(65535, 1, 0));
    assert!(follow_fits(3, 65530, 10));
}

#[test]
fn visual_column_counts_display_width() {
    let text = lines(&["日本語x", "ab"]);
    assert_eq!(visual_column(&text, 0, 6), 4);
    assert_eq!(visual_column(&text, 0, 9), 6);
    assert_eq!(visual_column(&text, 0, 10), 7);
    // inside a char the byte column is shown as is
    assert_eq!(visual_column(&text, 0, 1), 1);
    assert_eq!(visual_column(&text, 1, 2), 2);
    // a row that is not a line reads as an empty line
    assert_eq!(visual_column(&text, 5, 0), 0);
    assert_eq!(visual_column(&text, 5, 3), 3);
    assert_eq!(visual_column(&text, -1, 0), 0);
}

#[test]
fn column_from_width_cuts_to_u16() {
    assert_eq!(column_from_width(Some(70000), 3), 4464);
    assert_eq!(column_from_width(None, 3), 3);
    assert_eq!(column_from_width(None, -1), 65535);
}

#[test]
fn scrolling_follows_cursor() {
    let mut t = Tab::new();
    t.cursor_y = 30;
    assert!(scroll_fits(&t, 10, 80, 90));
    scroll_to_cursor(&mut t, 10, 80, 90);
    assert_eq!((t.scroll_y, t.scroll_x), (21, 11));
    t.cursor_y = 5;
    scroll_to_cursor(&mut t, 10, 80, 0);
    assert_eq!((t.scroll_y, t.scroll_x), (5, 0));
}

#[test]
fn cursor_cells() {
    let mut t = Tab::new();
    t.cursor_y = 7;
    t.scroll_y = 2;
    t.scroll_x = 3;
    assert!(cursor_cell_fits(1, 1, 10, &t));
    assert_eq!(cursor_cell(1, 1, 10, &t), (8, 6));
    assert_eq!(cursor_cell(0, 0, 1, &t), (0, 5));
    assert!(!cursor_cell_fits(65535, 0, 10, &t));
    assert_eq!(prompt_cursor(0, SAVE_PROMPT, "ab"), 19);
    assert_eq!(prompt_cursor(2, OPEN_PROMPT, "日本"), 19);
    assert!(prompt_cursor_fits(0, OPEN_PROMPT, "x"));
    assert!(!prompt_cursor_fits(65530, SAVE_PROMPT, "x"));
}

#[test]
fn trimmed_drops_trailing_newlines_only() {
    assert_eq!(trimmed("ab\n\n"), "ab");
    assert_eq!(trimmed("a\nb"), "a\nb");
    assert_eq!(trimmed("\n"), "");
    assert_eq!(trimmed(""), "");
}

#[test]
fn styled_line_keeps_colours() {
    let r = styled_line(vec![(1, 2, 3, "fn ".to_string()), (4, 5, 6, "main\n".to_string())]);
    assert_eq!(r.len(), 2);
    assert_eq!(r[0].text, "fn ");
    assert_eq!(r[0].color, Some((1, 2, 3)));
    assert_eq!(r[1].text, "main");
    assert_eq!(r[1].color, Some((4, 5, 6)));
}

#[test]
fn plain_lines_are_white() {
    let r: Vec<Vec<blur::highlight::Piece>> =
        plain_lines(&lines(&["a", ""])).into_iter().map(|p| p.unwrap()).collect();
    assert_eq!(r.len(), 2);
    assert_eq!(r[0].len(), 1);
    assert_eq!(r[0][0].text, "a");
    assert_eq!(r[0][0].color, None);
    assert_eq!(r[1][0].text, "");
}

#[test]
fn unnamed_tab_is_not_highlighted() {
    let theme = opaline::load_by_name("catppuccin-mocha").unwrap();
    let h = Highlighter::new(&theme);
    let mut t = Tab::new();
    t.input_box = lines(&["fn main() {}", "x"]);
    let r: Vec<Vec<blur::highlight::Piece>> = h.highlight(&t).into_iter().map(|p| p.unwrap()).collect();
    assert_eq!(r.len(), 2);
    assert_eq!(r[0].len(), 1);
    assert_eq!(r[0][0].text, "fn main() {}");
    assert!(r[0][0].color.is_none());
}

#[test]
fn named_tab_is_coloured_piecewise() {
    let theme = opaline::load_by_name("catppuccin-mocha").unwrap();
    let h = Highlighter::new(&theme);
    let mut t = Tab::new();
    t.file_name = "example.rs".to_string();
    t.input_box = lines(&["fn main() {", "    let x = 1;", "}"]);
    let r: Vec<Vec<blur::highlight::Piece>> = h.highlight(&t).into_iter().map(|p| p.unwrap()).collect();
    assert_eq!(r.len(), 3);
    for (i, line) in r.iter().enumerate() {
        let joined: String = line.iter().map(|p| p.text.as_str()).collect();
        assert_eq!(joined, t.input_box[i]);
        assert!(line.iter().all(|p| p.color.is_some()));
    }
    assert!(r[0].len() > 1);
}
