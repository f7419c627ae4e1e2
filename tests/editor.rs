use termedit::document::Cell;
use termedit::editor::{line_label, Editor, Event, KeyCode, Modifiers, UpdateResult};
use termedit::grid::{CharGrid, Color, ColoringHint};

fn key(code: KeyCode) -> Event {
    Event::Key(code, Modifiers::Empty)
}

fn editor_with_doc() -> Editor {
    let mut e = Editor::new(String::new());
    e.make_new_doc("new 1".to_string());
    e
}

#[test]
fn open_paren_brings_its_close() {
    let mut e = editor_with_doc();
    let mut s = CharGrid::new(20, 5);
    assert_eq!(e.update(&mut s, key(KeyCode::Char('('))), UpdateResult::Draw);
    assert_eq!(e.open_docs[0].cells, vec![Cell::Char('('), Cell::Char(')')]);
    assert_eq!(e.open_docs[0].cursor_pos, 1);
    assert_eq!(e.update(&mut s, key(KeyCode::Char(')'))), UpdateResult::Draw);
    assert_eq!(e.open_docs[0].cells, vec![Cell::Char('('), Cell::Char(')')]);
    assert_eq!(e.open_docs[0].cursor_pos, 2);
    e.update(&mut s, key(KeyCode::Char(')')));
    assert_eq!(e.open_docs[0].cells.len(), 3);
    assert_eq!(e.open_docs[0].cursor_pos, 3);
}

#[test]
fn control_keys_ask_for_save_or_redraw() {
    let mut e = editor_with_doc();
    let mut s = CharGrid::new(20, 5);
    assert_eq!(e.update(&mut s, Event::Key(KeyCode::Char('s'), Modifiers::ControlOnly)), UpdateResult::Save);
    assert_eq!(e.update(&mut s, Event::Key(KeyCode::Char('x'), Modifiers::ControlOnly)), UpdateResult::Draw);
    assert!(e.open_docs[0].cells.is_empty());
    assert_eq!(e.update(&mut s, key(KeyCode::Esc)), UpdateResult::Exit);
}

#[test]
fn keys_without_effect_are_no_ops() {
    let mut e = editor_with_doc();
    let mut s = CharGrid::new(20, 5);
    assert_eq!(e.update(&mut s, key(KeyCode::Backspace)), UpdateResult::NOp);
    assert_eq!(e.update(&mut s, key(KeyCode::Delete)), UpdateResult::NOp);
    assert_eq!(e.update(&mut s, key(KeyCode::Other)), UpdateResult::NOp);
}

#[test]
fn backspace_and_delete_remove_around_cursor() {
    let mut e = editor_with_doc();
    let mut s = CharGrid::new(20, 5);
    e.update(&mut s, key(KeyCode::Char('a')));
    e.update(&mut s, key(KeyCode::Char('b')));
    e.update(&mut s, key(KeyCode::Char('c')));
    e.update(&mut s, key(KeyCode::Left));
    assert_eq!(e.update(&mut s, key(KeyCode::Backspace)), UpdateResult::Draw);
    assert_eq!(e.open_docs[0].cells, vec![Cell::Char('a'), Cell::Char('c')]);
    assert_eq!(e.open_docs[0].cursor_pos, 1);
    assert_eq!(e.update(&mut s, key(KeyCode::Delete)), UpdateResult::Draw);
    assert_eq!(e.open_docs[0].cells, vec![Cell::Char('a')]);
    assert_eq!(e.open_docs[0].cursor_pos, 1);
}

#[test]
fn tab_inserts_four_spaces() {
    let mut e = editor_with_doc();
    let mut s = CharGrid::new(20, 5);
    e.update(&mut s, key(KeyCode::Tab));
    assert_eq!(e.open_docs[0].cells, vec![Cell::Char(' '); 4]);
    assert_eq!(e.open_docs[0].cursor_pos, 4);
}

#[test]
fn modified_arrows_switch_documents() {
    let mut e = editor_with_doc();
    e.make_new_doc("new 2".to_string());
    let mut s = CharGrid::new(20, 5);
    assert_eq!(e.currently_open_doc, Some(0));
    e.update(&mut s, Event::Key(KeyCode::Right, Modifiers::Mixed));
    assert_eq!(e.currently_open_doc, Some(1));
    e.update(&mut s, Event::Key(KeyCode::Right, Modifiers::ControlOnly));
    assert_eq!(e.currently_open_doc, Some(1));
    e.update(&mut s, Event::Key(KeyCode::Left, Modifiers::ControlOnly));
    assert_eq!(e.currently_open_doc, Some(0));
    e.update(&mut s, Event::Key(KeyCode::Left, Modifiers::ControlOnly));
    assert_eq!(e.currently_open_doc, Some(0));
}

#[test]
fn resize_event_resizes_screen() {
    let mut e = editor_with_doc();
    let mut s = CharGrid::new(20, 5);
    assert_eq!(e.update(&mut s, Event::Resize(7, 3)), UpdateResult::Draw);
    assert_eq!(s.width(), 7);
    assert_eq!(s.height(), 3);
}

#[test]
fn scrolling_follows_cursor_one_line_per_event() {
    let mut e = editor_with_doc();
    let mut s = CharGrid::new(20, 3);
    e.update(&mut s, key(KeyCode::Enter));
    assert_eq!(e.start_line, 0);
    e.update(&mut s, key(KeyCode::Enter));
    assert_eq!(e.start_line, 1);
    e.update(&mut s, key(KeyCode::Enter));
    assert_eq!(e.start_line, 2);
    e.update(&mut s, key(KeyCode::Up));
    assert_eq!(e.start_line, 2);
    e.update(&mut s, key(KeyCode::Up));
    assert_eq!(e.start_line, 1);
}

#[test]
fn update_without_document_only_redraws() {
    let mut e = Editor::new(String::new());
    let mut s = CharGrid::new(20, 3);
    assert_eq!(e.update(&mut s, key(KeyCode::Char('a'))), UpdateResult::Draw);
    assert!(e.open_docs.is_empty());
}

#[test]
fn draw_paints_tabs_line_numbers_and_text() {
    let mut e = editor_with_doc();
    let mut s = CharGrid::new(12, 3);
    e.update(&mut s, key(KeyCode::Char('h')));
    e.update(&mut s, key(KeyCode::Char('i')));
    e.draw(&mut s);
    let expected = format!("{}{}{}", "    new 1   ", "001 hi      ", " ".repeat(12));
    assert_eq!(s.to_string(), expected);
    assert_eq!(s.hints().clone(), vec![ColoringHint { start: 4, end: 9, color: Color::Red }]);
    assert_eq!(e.cursor_position(), (6, 1));
}

#[test]
fn draw_numbers_following_lines() {
    let mut e = editor_with_doc();
    let mut s = CharGrid::new(8, 4);
    e.update(&mut s, key(KeyCode::Char('a')));
    e.update(&mut s, key(KeyCode::Enter));
    e.update(&mut s, key(KeyCode::Char('b')));
    e.draw(&mut s);
    let text = s.to_string();
    assert_eq!(&text[8..16], "001 a   ");
    assert_eq!(&text[16..24], "002 b   ");
    assert_eq!(e.cursor_position(), (5, 2));
}

#[test]
fn line_labels_pad_to_three_digits() {
    assert_eq!(line_label(1), "001");
    assert_eq!(line_label(42), "042");
    assert_eq!(line_label(0), "000");
    assert_eq!(line_label(1234), "1234");
}

#[test]
fn tabs_are_as_wide_as_their_names_in_bytes() {
    let mut e = Editor::new(String::new());
    e.make_new_doc("\u{e9}".to_string());
    e.make_new_doc("b".to_string());
    let mut s = CharGrid::new(16, 2);
    e.draw(&mut s);
    let row0: String = s.to_string().chars().take(16).collect();
    assert_eq!(row0, "    \u{e9}   b       ");
    assert_eq!(
        s.hints().clone(),
        vec![
            ColoringHint { start: 4, end: 6, color: Color::Red },
            ColoringHint { start: 8, end: 9, color: Color::White },
        ]
    );
}
