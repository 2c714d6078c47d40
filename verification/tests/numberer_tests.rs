use textcore::errors::CoreError;
use textcore::numberer::{
    nl, number_line, parse_format, parse_style, Format, NumbererState, NumberingConfig, Section,
    Style,
};

fn cfg(
    styles: (Style, Style, Style),
    format: Format,
    sep: &str,
    start: u32,
    increment: u32,
    width: usize,
    renumber: bool,
) -> NumberingConfig {
    NumberingConfig::new(
        styles.0,
        styles.1,
        styles.2,
        format,
        sep.to_string(),
        start,
        increment,
        width,
        renumber,
    )
    .unwrap()
}

fn all(style: Style) -> (Style, Style, Style) {
    (style, style, style)
}

fn lines(v: &[&str]) -> Vec<String> {
    v.iter().map(|s| s.to_string()).collect()
}

#[test]
fn numbers_all_lines_scenario() {
    let c = cfg(all(Style::All), Format::RightNoZero, ": ", 1, 1, 2, true);
    let out = nl(&c, &lines(&["one", "two"]));
    assert_eq!(out, vec![" 1: one", " 2: two"]);
}

#[test]
fn right_justified_width_is_exact() {
    // width 6: five spaces then the digit
    let c = cfg(all(Style::All), Format::RightNoZero, "\t", 1, 1, 6, true);
    let out = nl(&c, &lines(&["x"]));
    assert_eq!(out, vec!["     1\tx"]);
}

#[test]
fn right_zero_pads_with_zeros() {
    let c = cfg(all(Style::All), Format::RightZero, "\t", 7, 1, 3, true);
    let out = nl(&c, &lines(&["x"]));
    assert_eq!(out, vec!["007\tx"]);
}

#[test]
fn left_justified_pads_on_the_right() {
    let c = cfg(all(Style::All), Format::LeftNoZero, ":", 7, 1, 3, true);
    let out = nl(&c, &lines(&["x"]));
    assert_eq!(out, vec!["7  :x"]);
}

#[test]
fn wide_numbers_are_not_truncated() {
    let c = cfg(all(Style::All), Format::RightNoZero, ":", 10, 1, 1, true);
    let out = nl(&c, &lines(&["x"]));
    assert_eq!(out, vec!["10:x"]);
}

#[test]
fn none_style_indents_by_width_plus_separator() {
    // the indent is one space per field column and per separator byte
    let c = cfg(all(Style::NoNumbering), Format::RightNoZero, "\t", 1, 1, 6, true);
    let out = nl(&c, &lines(&["x", ""]));
    assert_eq!(out, vec!["       x", "       "]);
}

#[test]
fn nonempty_style_echoes_empty_lines_bare() {
    // unlike the no-numbering indent, an empty line stays empty
    let c = cfg(all(Style::NonEmpty), Format::RightNoZero, "\t", 1, 1, 6, true);
    let out = nl(&c, &lines(&["a", "", "b"]));
    assert_eq!(out, vec!["     1\ta", "", "     2\tb"]);
}

#[test]
fn all_style_numbers_empty_lines() {
    let c = cfg(all(Style::All), Format::RightNoZero, "\t", 1, 1, 2, true);
    let out = nl(&c, &lines(&["", ""]));
    assert_eq!(out, vec![" 1\t", " 2\t"]);
}

#[test]
fn start_and_increment_apply() {
    let c = cfg(all(Style::All), Format::RightNoZero, ":", 5, 2, 1, true);
    let out = nl(&c, &lines(&["a", "b", "c"]));
    assert_eq!(out, vec!["5:a", "7:b", "9:c"]);
}

#[test]
fn zero_increment_does_not_advance() {
    let c = cfg(all(Style::All), Format::RightNoZero, ":", 3, 0, 1, true);
    let out = nl(&c, &lines(&["a", "b"]));
    assert_eq!(out, vec!["3:a", "3:b"]);
}

#[test]
fn delimiters_flip_sections_and_reset() {
    // default styles: header n, body t, footer n; renumbering on
    let c = cfg(
        (Style::NoNumbering, Style::NonEmpty, Style::NoNumbering),
        Format::RightNoZero,
        "\t",
        1,
        1,
        6,
        true,
    );
    let out = nl(
        &c,
        &lines(&["a", "\\:\\:\\:", "h", "\\:\\:", "b", "\\:", "f"]),
    );
    assert_eq!(
        out,
        vec![
            "     1\ta",
            "",
            "       h",
            "",
            "     1\tb",
            "",
            "       f"
        ]
    );
}

#[test]
fn delimiter_lines_are_never_numbered() {
    let c = cfg(all(Style::All), Format::RightNoZero, ":", 1, 1, 1, true);
    let out = nl(&c, &lines(&["a", "\\:\\:", "b"]));
    assert_eq!(out, vec!["1:a", "", "1:b"]);
}

#[test]
fn no_renumber_keeps_counting_across_sections() {
    let c = cfg(all(Style::All), Format::RightNoZero, ":", 1, 1, 1, false);
    let out = nl(&c, &lines(&["a", "\\:\\:", "b"]));
    assert_eq!(out, vec!["1:a", "", "2:b"]);
}

#[test]
fn number_line_switches_section_on_marker() {
    let c = cfg(
        (Style::All, Style::NoNumbering, Style::All),
        Format::RightNoZero,
        ":",
        1,
        1,
        1,
        true,
    );
    let mut st = NumbererState {
        current_section: Section::Body,
        line_count: 1,
    };
    let out = number_line(&c, &mut st, &"\\:\\:\\:".to_string());
    assert_eq!(out, "");
    assert_eq!(st.current_section, Section::Header);
    let out = number_line(&c, &mut st, &"x".to_string());
    assert_eq!(out, "1:x");
    assert_eq!(st.line_count, 2);
}

#[test]
fn parses_style_tokens() {
    assert_eq!(parse_style("a"), Ok(Style::All));
    assert_eq!(parse_style("t"), Ok(Style::NonEmpty));
    assert_eq!(parse_style("n"), Ok(Style::NoNumbering));
    assert_eq!(parse_style("x"), Err(CoreError::ConfigError));
    assert_eq!(parse_style(""), Err(CoreError::ConfigError));
}

#[test]
fn parses_format_tokens() {
    assert_eq!(parse_format("ln"), Ok(Format::LeftNoZero));
    assert_eq!(parse_format("rn"), Ok(Format::RightNoZero));
    assert_eq!(parse_format("rz"), Ok(Format::RightZero));
    assert_eq!(parse_format("r"), Err(CoreError::ConfigError));
    assert_eq!(parse_format("zz"), Err(CoreError::ConfigError));
}

#[test]
fn zero_width_is_a_config_error() {
    let r = NumberingConfig::new(
        Style::All,
        Style::All,
        Style::All,
        Format::RightNoZero,
        ":".to_string(),
        1,
        1,
        0,
        true,
    );
    assert!(matches!(r, Err(CoreError::ConfigError)));
}
