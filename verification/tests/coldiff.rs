use coldiff::Span;
use coldiff::common_prefix;
use coldiff::diff_color;
use coldiff::get_line_cols;
use coldiff::get_line_parts;
use coldiff::parse_cols;
use coldiff::parse_usize;
use coldiff::process_line;

#[test]
fn test_get_line_cols() {
    let line = String::from("abc sd  k");
    let col_vec = get_line_cols(&line);
    assert_eq!(col_vec.len(), 3);
    assert_eq!(col_vec[0], Span { start: 0, end: 3 });
    assert_eq!(col_vec[1], Span { start: 4, end: 6 });
    assert_eq!(col_vec[2], Span { start: 8, end: 9 });

    let line = String::from("  abc sd  ");
    let col_vec = get_line_cols(&line);
    assert_eq!(col_vec.len(), 2);
    assert_eq!(col_vec[0], Span { start: 2, end: 5 });
    assert_eq!(col_vec[1], Span { start: 6, end: 8 });
}

#[test]
fn test_get_line_parts() {
    let line = String::from("abc de");
    let line_part = get_line_parts(&line, 2, 1).unwrap();
    assert_eq!(line_part.source_str, "de");
    assert_eq!(line_part.target_col, Span { start: 0, end: 3 });

    let line = String::from("abc");
    let line_part = get_line_parts(&line, 2, 1);
    assert!(line_part.is_none());
}

#[test]
fn test_common_prefix() {
    assert_eq!(common_prefix("abc", "abcd"), "abc");
    assert_eq!(common_prefix("abce", "abcd"), "abc");
    assert_eq!(common_prefix("abcd", "abc"), "abc");
    assert_eq!(common_prefix("eabcd", "abc"), "");
}

#[test]
fn test_tokenize_other_whitespace() {
    let line = String::from("a\tbb\r\ncc");
    let col_vec = get_line_cols(&line);
    assert_eq!(col_vec.len(), 3);
    assert_eq!(col_vec[0], Span { start: 0, end: 1 });
    assert_eq!(col_vec[1], Span { start: 2, end: 4 });
    assert_eq!(col_vec[2], Span { start: 6, end: 8 });

    assert_eq!(get_line_cols(&String::from("")).len(), 0);
    assert_eq!(get_line_cols(&String::from(" \t ")).len(), 0);
}

#[test]
fn test_get_line_parts_index_zero() {
    let line = String::from("abc de");
    assert!(get_line_parts(&line, 0, 1).is_none());
    assert!(get_line_parts(&line, 1, 0).is_none());
    assert!(get_line_parts(&line, 0, 0).is_none());
}

#[test]
fn test_diff_color_marks_suffix() {
    colored::control::set_override(true);
    assert_eq!(diff_color("abc", "abcd"), "abc\u{1b}[32md\u{1b}[0m");
    assert_eq!(diff_color("1.234", "1.230"), "1.23\u{1b}[32m0\u{1b}[0m");
    assert_eq!(diff_color("eabcd", "abc"), "\u{1b}[32mabc\u{1b}[0m");
}

#[test]
fn test_diff_color_without_colorization() {
    colored::control::set_override(false);
    assert_eq!(diff_color("abc", "abcd"), "abcd");
    assert_eq!(diff_color("eabcd", "abc"), "abc");
}

#[test]
fn test_process_line_end_to_end() {
    colored::control::set_override(true);
    let line = String::from("1.234 1.230");
    let out = process_line(&line, 1, 2);
    assert_eq!(out, "1.234 1.23\u{1b}[32m0\u{1b}[0m");
    assert_eq!(out.replace("\u{1b}[32m", "").replace("\u{1b}[0m", ""), "1.234 1.230");
}

#[test]
fn test_process_line_echoes_when_not_applicable() {
    colored::control::set_override(true);
    let line = String::from("abc");
    let once = process_line(&line, 2, 1);
    assert_eq!(once, "abc");
    let twice = process_line(&once, 2, 1);
    assert_eq!(twice, "abc");

    assert_eq!(process_line(&String::from(""), 1, 2), "");
    assert_eq!(process_line(&String::from("a b c"), 1, 4), "a b c");
    assert_eq!(process_line(&String::from("a b c"), 0, 1), "a b c");
}

#[test]
fn test_process_line_equal_columns() {
    colored::control::set_override(true);
    let line = String::from("abc abc");
    assert_eq!(process_line(&line, 1, 1), "abc\u{1b}[32m\u{1b}[0m abc");

    colored::control::set_override(false);
    assert_eq!(process_line(&line, 1, 1), "abc abc");
    assert_eq!(process_line(&line, 2, 2), "abc abc");
}

#[test]
fn test_parse_usize() {
    assert_eq!(parse_usize("0"), Some(0));
    assert_eq!(parse_usize("42"), Some(42));
    assert_eq!(parse_usize(""), None);
    assert_eq!(parse_usize("4x2"), None);
    assert_eq!(parse_usize("-1"), None);
    assert_eq!(parse_usize("99999999999999999999999999"), None);
}

#[test]
fn test_parse_cols() {
    assert_eq!(parse_cols("1,2"), Some((1, 2)));
    assert_eq!(parse_cols("0,7"), Some((0, 7)));
    assert_eq!(parse_cols("12"), None);
    assert_eq!(parse_cols("1,2,3"), None);
    assert_eq!(parse_cols("a,2"), None);
    assert_eq!(parse_cols("1,"), None);
    assert_eq!(parse_cols(",2"), None);
    assert_eq!(parse_cols(""), None);
}
