use termedit::grid::{CharGrid, Color, ColoringHint, PaintOp};

#[test]
fn new_grid_is_spaces() {
    let g = CharGrid::new(3, 2);
    assert_eq!(g.width(), 3);
    assert_eq!(g.height(), 2);
    assert_eq!(g.to_string(), "      ");
}

#[test]
fn put_char_out_of_bounds_changes_nothing() {
    let mut g = CharGrid::new(3, 2);
    g.put_char(3, 0, 'x');
    g.put_char(0, 2, 'x');
    g.put_char(usize::MAX, usize::MAX, 'x');
    assert_eq!(g.to_string(), "      ");
    g.put_char(1, 1, 'x');
    assert_eq!(g.to_string(), "    x ");
}

#[test]
fn put_string_drops_what_falls_outside() {
    let mut g = CharGrid::new(3, 2);
    g.put_string(1, 0, "abcd");
    assert_eq!(g.to_string(), " ab   ");
    g.put_string(0, 5, "zz");
    g.put_string(7, 1, "zz");
    assert_eq!(g.to_string(), " ab   ");
}

#[test]
fn clear_resets_cells_and_hints() {
    let mut g = CharGrid::new(2, 2);
    g.put_char(0, 0, 'a');
    g.color(0, 1, Color::Red);
    g.clear('.');
    assert_eq!(g.to_string(), "....");
    assert!(g.hints().is_empty());
}

#[test]
fn resize_discards_contents() {
    let mut g = CharGrid::new(2, 2);
    g.put_char(0, 0, 'a');
    g.resize(3, 1);
    assert_eq!(g.width(), 3);
    assert_eq!(g.height(), 1);
    assert_eq!(g.to_string(), "   ");
}

#[test]
fn color_hints_are_kept_in_order() {
    let mut g = CharGrid::new(2, 2);
    g.color(0, 2, Color::Red);
    g.color(0, 2, Color::Red);
    g.color(1, 3, Color::Rgb(1, 2, 3));
    assert_eq!(
        g.hints().clone(),
        vec![
            ColoringHint { start: 0, end: 2, color: Color::Red },
            ColoringHint { start: 0, end: 2, color: Color::Red },
            ColoringHint { start: 1, end: 3, color: Color::Rgb(1, 2, 3) },
        ]
    );
}

#[test]
fn painting_sets_colors_and_resets_after_a_span() {
    let mut g = CharGrid::new(3, 1);
    g.put_string(0, 0, "abc");
    g.color(1, 2, Color::Red);
    assert_eq!(
        g.paint_ops(),
        vec![
            PaintOp::Put('a'),
            PaintOp::SetColor(Color::Red),
            PaintOp::Put('b'),
            PaintOp::SetColor(Color::White),
            PaintOp::Put('c'),
        ]
    );
}

#[test]
fn painting_overlaps_last_recorded_wins() {
    let mut g = CharGrid::new(2, 1);
    g.color(0, 2, Color::Red);
    g.color(0, 1, Color::Rgb(0, 0, 255));
    assert_eq!(
        g.paint_ops(),
        vec![
            PaintOp::SetColor(Color::Rgb(0, 0, 255)),
            PaintOp::Put(' '),
            PaintOp::SetColor(Color::Red),
            PaintOp::Put(' '),
        ]
    );
}

#[test]
fn painting_resets_only_when_no_hint_covers() {
    let mut g = CharGrid::new(4, 1);
    g.color(0, 3, Color::Red);
    g.color(0, 1, Color::Rgb(1, 2, 3));
    assert_eq!(
        g.paint_ops(),
        vec![
            PaintOp::SetColor(Color::Rgb(1, 2, 3)),
            PaintOp::Put(' '),
            PaintOp::SetColor(Color::Red),
            PaintOp::Put(' '),
            PaintOp::SetColor(Color::Red),
            PaintOp::Put(' '),
            PaintOp::SetColor(Color::White),
            PaintOp::Put(' '),
        ]
    );
}
