use termedit::document::{Cell, Document};

fn doc_of(text: &str, cursor: usize) -> Document {
    let mut d = Document::new("t".to_string(), "t".to_string());
    for c in text.chars() {
        if c == '\n' {
            d.cells.push(Cell::NewLine);
        } else {
            d.cells.push(Cell::Char(c));
        }
    }
    d.cursor_pos = cursor;
    d
}

#[test]
fn down_keeps_column_on_long_enough_line() {
    let mut d = doc_of("ab\ncd\n", 1);
    d.move_cursor_down();
    assert_eq!(d.cursor_pos, 4);
}

#[test]
fn up_from_end_lands_at_end_of_short_line() {
    let mut d = doc_of("a\nbcd", 5);
    d.move_cursor_up();
    assert_eq!(d.cursor_pos, 1);
}

#[test]
fn down_then_up_returns_to_column() {
    let mut d = doc_of("xyz\nabcd\nefgh\nij", 7);
    d.move_cursor_down();
    assert_eq!(d.cursor_pos, 12);
    d.move_cursor_up();
    assert_eq!(d.cursor_pos, 7);
}

#[test]
fn down_then_up_through_short_line_lands_at_its_length() {
    let mut d = doc_of("xyz\nabcd\nef\nij", 8);
    d.move_cursor_down();
    assert_eq!(d.cursor_pos, 11);
    d.move_cursor_up();
    assert_eq!(d.cursor_pos, 6);
}

#[test]
fn down_from_last_line_goes_to_end() {
    let mut d = doc_of("ab\ncd", 3);
    d.move_cursor_down();
    assert_eq!(d.cursor_pos, 5);
}

#[test]
fn up_from_first_line_goes_to_start() {
    let mut d = doc_of("abc\nd", 2);
    d.move_cursor_up();
    assert_eq!(d.cursor_pos, 0);
}

#[test]
fn up_on_empty_document_stays() {
    let mut d = doc_of("", 0);
    d.move_cursor_up();
    assert_eq!(d.cursor_pos, 0);
    d.move_cursor_down();
    assert_eq!(d.cursor_pos, 0);
}

#[test]
fn cursor_stays_in_range_over_inserts_and_deletes() {
    let mut d = doc_of("", 0);
    d.insert(Cell::Char('a'));
    d.insert(Cell::Char('b'));
    d.insert(Cell::NewLine);
    assert_eq!(d.cursor_pos, 3);
    d.move_cursor_left();
    let at = d.cursor_pos;
    assert!(d.delete(at));
    assert_eq!(d.cursor_pos, 2);
    assert!(d.cursor_pos <= d.cells.len());
    d.move_cursor_left();
    d.move_cursor_left();
    assert!(d.delete(0));
    assert_eq!(d.cursor_pos, 0);
    assert!(!d.delete(5));
    assert_eq!(d.cells, vec![Cell::Char('b')]);
    assert!(d.delete(0));
    assert_eq!(d.cursor_pos, 0);
    assert!(d.cells.is_empty());
}

#[test]
fn delete_leaves_the_cursor_to_the_caller() {
    let mut d = doc_of("ab", 2);
    assert!(d.delete(0));
    assert_eq!(d.cells, vec![Cell::Char('b')]);
    assert_eq!(d.cursor_pos, 2);
}

#[test]
fn delete_out_of_range_changes_nothing() {
    let mut d = doc_of("ab", 1);
    assert!(!d.delete(2));
    assert_eq!(d.cells, vec![Cell::Char('a'), Cell::Char('b')]);
    assert_eq!(d.cursor_pos, 1);
}

#[test]
fn left_and_right_clamp() {
    let mut d = doc_of("a", 0);
    d.move_cursor_left();
    assert_eq!(d.cursor_pos, 0);
    d.move_cursor_right();
    d.move_cursor_right();
    assert_eq!(d.cursor_pos, 1);
}

#[test]
fn current_line_counts_breaks_before_cursor() {
    let d = doc_of("a\nb\nc", 4);
    assert_eq!(d.current_line(), 2);
    let d = doc_of("a\nb\nc", 3);
    assert_eq!(d.current_line(), 1);
}

#[test]
fn load_then_save_gives_the_lines_back() {
    let lines = vec!["fn main() {".to_string(), "}".to_string()];
    let d = Document::from_lines("m.rs".to_string(), "m.rs".to_string(), Some("rs".to_string()), &lines);
    assert_eq!(d.cursor_pos, 0);
    assert_eq!(d.cells.len(), 13);
    assert_eq!(d.cells[11], Cell::NewLine);
    assert_eq!(d.text(), "fn main() {\n}");
}

#[test]
fn load_keeps_inner_empty_lines() {
    let lines = vec!["a".to_string(), "".to_string(), "b".to_string()];
    let d = Document::from_lines("x".to_string(), "x".to_string(), None, &lines);
    assert_eq!(d.text(), "a\n\nb");
}

#[test]
fn load_of_nothing_is_empty() {
    let lines: Vec<String> = Vec::new();
    let d = Document::from_lines("x".to_string(), "x".to_string(), None, &lines);
    assert!(d.cells.is_empty());
    assert_eq!(d.text(), "");
}
