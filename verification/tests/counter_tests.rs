use textcore::counter::{wordcount, Stats};

fn lines(v: &[&str]) -> Vec<String> {
    v.iter().map(|s| s.to_string()).collect()
}

#[test]
fn counts_default_scenario() {
    // input "a b\nc\n": 6 bytes, 6 chars, 3 words, 2 newlines
    let s = wordcount(&lines(&["a b\n", "c\n"]));
    assert_eq!(s.newlines, 2);
    assert_eq!(s.words, 3);
    assert_eq!(s.chars, 6);
    assert_eq!(s.bytes, 6);
}

#[test]
fn counts_empty_input() {
    let s = wordcount(&lines(&[]));
    assert_eq!(
        s,
        Stats { bytes: 0, chars: 0, words: 0, newlines: 0, max_line_width: 0 }
    );
}

#[test]
fn counts_no_trailing_newline() {
    // newline count is one less than the line count
    let s = wordcount(&lines(&["a b\n", "c"]));
    assert_eq!(s.newlines, 1);
    assert_eq!(s.words, 3);
    assert_eq!(s.bytes, 5);
}

#[test]
fn counts_trailing_word_closes() {
    // a word in progress at end of input counts as completed
    let s = wordcount(&lines(&["abc"]));
    assert_eq!(s.words, 1);
    assert_eq!(s.chars, 3);
}

#[test]
fn counts_runs_of_whitespace() {
    let s = wordcount(&lines(&["  a\t\tb  c  \n"]));
    assert_eq!(s.words, 3);
}

#[test]
fn counts_multibyte_chars() {
    // 'é' is one scalar value of two UTF-8 bytes
    let s = wordcount(&lines(&["é\n"]));
    assert_eq!(s.chars, 2);
    assert_eq!(s.bytes, 3);
    assert_eq!(s.words, 1);
}

#[test]
fn width_excludes_control_chars() {
    // the bell and the newline are control characters
    let s = wordcount(&lines(&["ab\u{7}c\n"]));
    assert_eq!(s.max_line_width, 3);
}

#[test]
fn width_excludes_byte_order_marks() {
    let s = wordcount(&lines(&["a\u{feff}b\u{fffe}\n"]));
    assert_eq!(s.max_line_width, 2);
    assert_eq!(s.chars, 5);
}

#[test]
fn width_takes_maximum_over_lines() {
    let s = wordcount(&lines(&["ab\n", "abcd\n", "c\n"]));
    assert_eq!(s.max_line_width, 4);
}

#[test]
fn unicode_whitespace_delimits_words() {
    // U+3000 ideographic space has the whitespace property
    let s = wordcount(&lines(&["a\u{3000}b\n"]));
    assert_eq!(s.words, 2);
}

#[test]
fn concatenation_sums_counts() {
    // counting a concatenation equals summing the parts when the first
    // part ends on whitespace
    let a = lines(&["one two \n"]);
    let b = lines(&["three\n", "four"]);
    let mut ab = a.clone();
    ab.extend(b.clone());
    let sa = wordcount(&a);
    let sb = wordcount(&b);
    let sab = wordcount(&ab);
    assert_eq!(sab.bytes, sa.bytes + sb.bytes);
    assert_eq!(sab.chars, sa.chars + sb.chars);
    assert_eq!(sab.words, sa.words + sb.words);
    assert_eq!(sab.newlines, sa.newlines + sb.newlines);
}
