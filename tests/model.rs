use editor_model::{Model, StatusMsg};

fn doc(lines: &[&str]) -> Model {
    let mut m = Model::new();
    for l in lines {
        m.append_row(l.to_string());
    }
    m
}

fn rows_of(m: &Model) -> Vec<String> {
    m.rows.iter().map(|r| r.contents()).collect()
}

fn indices_of(m: &Model) -> Vec<usize> {
    m.rows.iter().map(|r| r.index()).collect()
}

#[test]
fn new_model_is_empty() {
    let m = Model::new();
    assert_eq!(m.num_rows(), 0);
    assert_eq!((m.cx, m.cy, m.rx, m.dirty), (0, 0, 0, 0));
    assert_eq!(m.mode, 'N');
    assert!(matches!(m.status_msg, StatusMsg::Normal(_)));
    assert_eq!(m.row_len(0), 0);
    assert_eq!(m.cur_row_len(), 0);
}

#[test]
fn indices_follow_positions_after_edits() {
    let mut m = doc(&["a", "b", "c"]);
    m.insert_row(1, "x".to_string());
    assert_eq!(rows_of(&m), vec!["a", "x", "b", "c"]);
    assert_eq!(indices_of(&m), vec![0, 1, 2, 3]);
    m.insert_row(0, "y".to_string());
    assert_eq!(indices_of(&m), vec![0, 1, 2, 3, 4]);
    m.delete_row(2);
    assert_eq!(rows_of(&m), vec!["y", "a", "b", "c"]);
    assert_eq!(indices_of(&m), vec![0, 1, 2, 3]);
    m.delete_rows(1, 2);
    assert_eq!(rows_of(&m), vec!["y", "c"]);
    assert_eq!(indices_of(&m), vec![0, 1]);
}

#[test]
fn insert_row_past_end_is_refused() {
    let mut m = doc(&["a"]);
    let dirty = m.dirty;
    m.insert_row(5, "z".to_string());
    assert_eq!(rows_of(&m), vec!["a"]);
    assert_eq!(m.dirty, dirty);
    m.insert_row(1, "z".to_string());
    assert_eq!(rows_of(&m), vec!["a", "z"]);
}

#[test]
fn set_cursor_clamps_to_document() {
    let mut m = doc(&["hello", "hi"]);
    m.set_cursor(100, 100);
    assert_eq!((m.cx, m.cy), (0, 2));
    m.set_cursor(100, 1);
    assert_eq!((m.cx, m.cy), (2, 1));
    m.set_cursor(3, 0);
    assert_eq!((m.cx, m.cy, m.rx), (3, 0, 3));
    let mut e = Model::new();
    e.set_cursor(7, 7);
    assert_eq!((e.cx, e.cy), (0, 0));
}

#[test]
fn columns_without_tabs_are_identical() {
    let mut m = doc(&["abcdef"]);
    m.set_cursor(0, 0);
    let row = m.get_cur_row();
    for c in 0..=6 {
        assert_eq!(m.cx_to_rx(row, c), c);
        assert_eq!(m.rx_to_cx(row, c), c);
    }
}

#[test]
fn tab_expands_to_next_stop() {
    let mut m = doc(&["\tA"]);
    m.set_cursor(0, 0);
    let row = m.get_cur_row();
    assert_eq!(m.cx_to_rx(row, 1), 8);
    assert_eq!(m.cx_to_rx(row, 2), 9);
    assert_eq!(m.rx_to_cx(row, 0), 0);
    assert_eq!(m.rx_to_cx(row, 5), 0);
    assert_eq!(m.rx_to_cx(row, 8), 1);
    assert_eq!(m.rx_to_cx(row, 9), 2);
    assert_eq!(m.rx_to_cx(row, 40), 2);
    assert_eq!(row.render(), "        A");
}

#[test]
fn tab_after_text_reaches_same_stop() {
    let mut m = doc(&["ab\tc\t"]);
    m.set_cursor(0, 0);
    let row = m.get_cur_row();
    assert_eq!(m.cx_to_rx(row, 2), 2);
    assert_eq!(m.cx_to_rx(row, 3), 8);
    assert_eq!(m.cx_to_rx(row, 4), 9);
    assert_eq!(m.cx_to_rx(row, 5), 16);
    assert_eq!(row.render(), "ab      c       ");
    m.set_cursor(4, 0);
    assert_eq!(m.rx, 9);
}

#[test]
fn newline_at_column_zero_opens_row_above() {
    let mut m = doc(&["abc"]);
    m.set_cursor(0, 0);
    m.insert_newline();
    assert_eq!(rows_of(&m), vec!["", "abc"]);
    assert_eq!((m.cx, m.cy), (0, 1));
}

#[test]
fn newline_in_middle_splits_row() {
    let mut m = doc(&["abcd"]);
    m.set_cursor(2, 0);
    m.insert_newline();
    assert_eq!(rows_of(&m), vec!["ab", "cd"]);
    assert_eq!((m.cx, m.cy), (0, 1));
    assert_eq!(indices_of(&m), vec![0, 1]);
}

#[test]
fn newline_at_end_opens_row_below() {
    let mut m = doc(&["abc", "z"]);
    m.set_cursor(3, 0);
    m.insert_newline();
    assert_eq!(rows_of(&m), vec!["abc", "", "z"]);
    assert_eq!((m.cx, m.cy), (0, 1));
}

#[test]
fn newline_past_last_row_appends_row() {
    let mut m = doc(&["abc"]);
    m.set_cursor(0, 1);
    m.insert_newline();
    assert_eq!(rows_of(&m), vec!["abc", ""]);
    assert_eq!((m.cx, m.cy), (0, 2));
}

#[test]
fn insert_char_in_row_and_past_end() {
    let mut m = doc(&["ac"]);
    m.set_cursor(1, 0);
    m.insert_char('b');
    assert_eq!(rows_of(&m), vec!["abc"]);
    assert_eq!((m.cx, m.cy), (2, 0));
    m.set_cursor(0, 1);
    m.insert_char('x');
    assert_eq!(rows_of(&m), vec!["abc", "x"]);
    assert_eq!((m.cx, m.cy), (1, 1));
}

#[test]
fn insert_char_clamps_column() {
    let mut m = doc(&["ab"]);
    m.cx = 9;
    m.cy = 0;
    m.insert_char('c');
    assert_eq!(rows_of(&m), vec!["abc"]);
    assert_eq!(m.cx, 3);
}

#[test]
fn insert_tab_updates_render_and_rx() {
    let mut m = doc(&["a"]);
    m.set_cursor(0, 0);
    m.insert_char('\t');
    assert_eq!(m.get_render(0, 0, 100), Some("        a".to_string()));
    assert_eq!(m.rx, 8);
}

#[test]
fn delete_char_joins_rows() {
    let mut m = doc(&["foo", "bar"]);
    m.set_cursor(0, 1);
    m.delete_char();
    assert_eq!(rows_of(&m), vec!["foobar"]);
    assert_eq!((m.cx, m.cy), (3, 0));
    assert_eq!(indices_of(&m), vec![0]);
}

#[test]
fn delete_char_removes_previous_character() {
    let mut m = doc(&["abc"]);
    m.set_cursor(2, 0);
    m.delete_char();
    assert_eq!(rows_of(&m), vec!["ac"]);
    assert_eq!((m.cx, m.cy), (1, 0));
}

#[test]
fn delete_char_no_ops() {
    let mut m = doc(&["abc"]);
    let dirty = m.dirty;
    m.set_cursor(0, 0);
    m.delete_char();
    m.set_cursor(0, 1);
    m.delete_char();
    m.cx = 7;
    m.cy = 0;
    m.delete_char();
    assert_eq!(rows_of(&m), vec!["abc"]);
    assert_eq!(m.dirty, dirty);
}

#[test]
fn delete_selection_across_rows() {
    let mut m = doc(&["abc", "xyz"]);
    m.anchor_start = (1, 0);
    m.anchor_end = (1, 1);
    m.delete_selection();
    assert_eq!(rows_of(&m), vec!["ayz"]);
    assert_eq!((m.cx, m.cy), (1, 0));
}

#[test]
fn delete_selection_with_reversed_anchors() {
    let mut m = doc(&["one", "two", "three", "four"]);
    m.anchor_start = (2, 2);
    m.anchor_end = (1, 0);
    m.delete_selection();
    assert_eq!(rows_of(&m), vec!["oree", "four"]);
    assert_eq!((m.cx, m.cy), (1, 0));
    assert_eq!(indices_of(&m), vec![0, 1]);
}

#[test]
fn delete_selection_within_one_row() {
    let mut m = doc(&["abcdef"]);
    m.anchor_start = (4, 0);
    m.anchor_end = (1, 0);
    m.delete_selection();
    assert_eq!(rows_of(&m), vec!["aef"]);
    assert_eq!((m.cx, m.cy), (1, 0));
}

#[test]
fn get_render_slices_and_clamps() {
    let m = doc(&["hello"]);
    assert_eq!(m.get_render(0, 1, 3), Some("el".to_string()));
    assert_eq!(m.get_render(0, 2, 99), Some("llo".to_string()));
    assert_eq!(m.get_render(0, 4, 2), Some(String::new()));
    assert_eq!(m.get_render(0, 9, 99), Some(String::new()));
    assert_eq!(m.get_render(1, 0, 5), None);
}

#[test]
fn save_then_load_gives_same_rows() {
    let m = doc(&["first", "", "third line", "\tx"]);
    let saved = m.save_text();
    assert_eq!(saved, "first\n\nthird line\n\tx\n");
    let mut back = Model::new();
    back.load_text(&saved);
    assert_eq!(rows_of(&back), rows_of(&m));
}

#[test]
fn load_splits_lines() {
    let mut m = Model::new();
    m.load_text("a\r\nb\n\nlast");
    assert_eq!(rows_of(&m), vec!["a", "b", "", "last"]);
    let mut e = Model::new();
    e.load_text("");
    assert_eq!(e.num_rows(), 0);
}

#[test]
fn dirty_counts_edits_and_resets() {
    let mut m = Model::new();
    m.load_text("abc\n");
    assert_eq!(m.dirty, 0);
    m.set_cursor(1, 0);
    m.insert_char('x');
    assert!(m.dirty > 0);
    m.mark_saved();
    assert_eq!(m.dirty, 0);
    m.insert_newline();
    assert!(m.dirty > 0);
}
