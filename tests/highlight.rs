use termedit::grid::{CharGrid, Color, ColoringHint};
use termedit::highlight::{add_color_spans, parse_rule_line, SyntaxHighlighter};

#[test]
fn rule_line_parses() {
    let r = parse_rule_line("color rgb(1,2,3) abc");
    assert_eq!(r, Some((Color::Rgb(1, 2, 3), "abc".to_string())));
}

#[test]
fn rule_line_allows_spaces_before_delimiters() {
    let r = parse_rule_line("color rgb(001 ,2  ,3 ) (?P<color>a b)");
    assert_eq!(r, Some((Color::Rgb(1, 2, 3), "(?P<color>a b)".to_string())));
}

#[test]
fn rule_line_rejects_channel_over_a_byte() {
    assert_eq!(parse_rule_line("color rgb(256,0,0) x"), None);
}

#[test]
fn rule_line_rejects_malformed() {
    assert_eq!(parse_rule_line("color rgb(1, 2,3) x"), None);
    assert_eq!(parse_rule_line("color rgb(1,2,3)x"), None);
    assert_eq!(parse_rule_line("color rgb(,2,3) x"), None);
    assert_eq!(parse_rule_line("colour rgb(1,2,3) x"), None);
    assert_eq!(parse_rule_line(""), None);
}

fn sample_grid() -> CharGrid {
    let mut g = CharGrid::new(10, 3);
    g.put_string(5, 0, "fn");
    g.put_string(0, 1, "fn");
    g.put_string(4, 1, "fn");
    g
}

#[test]
fn highlight_skips_first_row_and_gutter() {
    let config = "color rgb(255 ,0 ,0 ) (?P<color>fn)\nfile rs\n".to_string();
    let mut h = SyntaxHighlighter::new(config);
    let mut g = sample_grid();
    h.highlight(&mut g, 0, &Some("rs".to_string()));
    assert_eq!(
        g.hints().clone(),
        vec![ColoringHint { start: 14, end: 16, color: Color::Rgb(255, 0, 0) }]
    );
}

#[test]
fn highlight_colors_only_the_named_group() {
    let config = "color rgb(0,0,9) (?P<color>let) +x\nfile rs".to_string();
    let mut h = SyntaxHighlighter::new(config);
    let mut g = CharGrid::new(12, 2);
    g.put_string(4, 1, "let  x");
    h.highlight(&mut g, 0, &Some("rs".to_string()));
    assert_eq!(g.hints().clone(), vec![ColoringHint { start: 16, end: 19, color: Color::Rgb(0, 0, 9) }]);
}

#[test]
fn highlight_moves_matches_back_by_deviation() {
    let config = "color rgb(1,1,1) (?P<color>fn)\nfile rs".to_string();
    let mut h = SyntaxHighlighter::new(config);
    let mut g = CharGrid::new(10, 3);
    g.put_string(6, 1, "fn");
    h.highlight(&mut g, 2, &Some("rs".to_string()));
    assert_eq!(g.hints().clone(), vec![ColoringHint { start: 14, end: 16, color: Color::Rgb(1, 1, 1) }]);
}

#[test]
fn highlight_without_rules_does_nothing() {
    let config = "color rgb(1,1,1) (?P<color>fn)\nfile rs".to_string();
    let mut h = SyntaxHighlighter::new(config);
    let mut g = sample_grid();
    h.highlight(&mut g, 0, &Some("py".to_string()));
    assert!(g.hints().is_empty());
    h.highlight(&mut g, 0, &None);
    assert!(g.hints().is_empty());
    h.reset();
    h.highlight(&mut g, 0, &Some("rs".to_string()));
    assert_eq!(g.hints().len(), 1);
}

#[test]
fn config_skips_bad_patterns_and_trailing_rules() {
    let config = "color rgb(1,1,1) (?P<color>(\ncolor rgb(2,2,2) (?P<color>fn)\nfile  rs  \ncolor rgb(3,3,3) (?P<color>f)\n".to_string();
    let mut h = SyntaxHighlighter::new(config);
    let mut g = sample_grid();
    h.highlight(&mut g, 0, &Some("rs".to_string()));
    assert_eq!(g.hints().clone(), vec![ColoringHint { start: 14, end: 16, color: Color::Rgb(2, 2, 2) }]);
}

#[test]
fn later_file_line_replaces_rules() {
    let config = "color rgb(1,1,1) (?P<color>fn)\nfile rs\ncolor rgb(2,2,2) (?P<color>n)\nfile rs".to_string();
    let mut h = SyntaxHighlighter::new(config);
    let mut g = sample_grid();
    h.highlight(&mut g, 0, &Some("rs".to_string()));
    assert_eq!(g.hints().clone(), vec![ColoringHint { start: 15, end: 16, color: Color::Rgb(2, 2, 2) }]);
}

#[test]
fn spans_outside_content_are_dropped() {
    let mut g = CharGrid::new(10, 3);
    let found = vec![Some((3, 5)), None, Some((12, 13)), Some((15, 18)), Some((1, 2))];
    add_color_spans(&mut g, &found, 1, Color::Red);
    assert_eq!(g.hints().clone(), vec![ColoringHint { start: 14, end: 17, color: Color::Red }]);
}

#[test]
fn highlighter_from_lines_matches_new() {
    let lines = vec!["color rgb(255 ,0 ,0 ) (?P<color>fn)".to_string(), "file rs".to_string()];
    let mut h = SyntaxHighlighter::from_lines(&lines);
    let mut g = sample_grid();
    h.highlight(&mut g, 0, &Some("rs".to_string()));
    assert_eq!(
        g.hints().clone(),
        vec![ColoringHint { start: 14, end: 16, color: Color::Rgb(255, 0, 0) }]
    );
    assert!(h.skipped_lines().is_empty());
}

#[test]
fn skipped_rule_lines_are_reported() {
    let config = "color rgb(1,1,1) (?P<color>(\ncolor junk\nfile rs\ncolorless\n# note\ncolor rgb(1,1,1) ok".to_string();
    let h = SyntaxHighlighter::new(config);
    assert_eq!(h.skipped_lines(), vec![0, 1, 3]);
}

#[test]
fn highlight_adds_one_hint_per_match_in_rule_order() {
    let config = "color rgb(1,1,1) (?P<color>n)\ncolor rgb(2,2,2) (?P<color>f)\nfile rs".to_string();
    let mut h = SyntaxHighlighter::new(config);
    let mut g = CharGrid::new(10, 2);
    g.put_string(4, 1, "fnfn");
    h.highlight(&mut g, 0, &Some("rs".to_string()));
    assert_eq!(
        g.hints().clone(),
        vec![
            ColoringHint { start: 15, end: 16, color: Color::Rgb(1, 1, 1) },
            ColoringHint { start: 17, end: 18, color: Color::Rgb(1, 1, 1) },
            ColoringHint { start: 14, end: 15, color: Color::Rgb(2, 2, 2) },
            ColoringHint { start: 16, end: 17, color: Color::Rgb(2, 2, 2) },
        ]
    );
}
