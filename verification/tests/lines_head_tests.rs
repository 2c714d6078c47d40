use textcore::dump::{parse_i16, Endian};
use textcore::head::{head, ToRead};
use textcore::lines::split_runs;

fn runs(v: &[&str]) -> Vec<Vec<u8>> {
    v.iter().map(|s| s.as_bytes().to_vec()).collect()
}

#[test]
fn splits_at_newlines() {
    let out = split_runs(&b"a\nbc\nd".to_vec(), b'\n');
    assert_eq!(out, runs(&["a\n", "bc\n", "d"]));
}

#[test]
fn split_keeps_trailing_delimiter() {
    let out = split_runs(&b"a\n\n".to_vec(), b'\n');
    assert_eq!(out, runs(&["a\n", "\n"]));
}

#[test]
fn split_of_empty_input_is_empty() {
    let out = split_runs(&b"".to_vec(), b'\n');
    assert!(out.is_empty());
}

#[test]
fn split_without_delimiter_is_one_run() {
    let out = split_runs(&b"abc".to_vec(), b'\n');
    assert_eq!(out, runs(&["abc"]));
}

#[test]
fn split_honors_other_delimiters() {
    let out = split_runs(&b"a\0b\0".to_vec(), 0);
    assert_eq!(out, vec![b"a\0".to_vec(), b"b\0".to_vec()]);
}

#[test]
fn head_takes_whole_lines() {
    let out = head(&runs(&["a\n", "b\n", "c\n"]), ToRead::NumLines(2));
    assert_eq!(out, b"a\nb\n".to_vec());
}

#[test]
fn head_with_more_lines_than_input_takes_all() {
    let out = head(&runs(&["a\n", "b"]), ToRead::NumLines(10));
    assert_eq!(out, b"a\nb".to_vec());
}

#[test]
fn head_takes_bytes_across_lines() {
    let out = head(&runs(&["ab\n", "cd\n"]), ToRead::NumBytes(4));
    assert_eq!(out, b"ab\nc".to_vec());
}

#[test]
fn head_with_zero_bytes_is_empty() {
    let out = head(&runs(&["ab\n"]), ToRead::NumBytes(0));
    assert_eq!(out, Vec::<u8>::new());
}

#[test]
fn head_with_more_bytes_than_input_takes_all() {
    let out = head(&runs(&["ab\n", "cd"]), ToRead::NumBytes(100));
    assert_eq!(out, b"ab\ncd".to_vec());
}

#[test]
fn parses_positive_word() {
    assert_eq!(parse_i16(0x34, 0x12, Endian::Little), 0x1234);
    assert_eq!(parse_i16(1, 0, Endian::Little), 1);
    assert_eq!(parse_i16(0, 0, Endian::Little), 0);
}

#[test]
fn parses_negative_word() {
    assert_eq!(parse_i16(0xff, 0xff, Endian::Little), -1);
    assert_eq!(parse_i16(0x00, 0x80, Endian::Little), i16::MIN);
}
