use textcore::counter::{wordcount, Stats};
use textcore::render::{aggregate, count_report, OutputSelection};

fn empty_sel() -> OutputSelection {
    OutputSelection {
        lines: false,
        words: false,
        chars: false,
        bytes: false,
        max_line_width: false,
    }
}

fn lines(v: &[&str]) -> Vec<String> {
    v.iter().map(|s| s.to_string()).collect()
}

fn names(v: &[&str]) -> Vec<String> {
    v.iter().map(|s| s.to_string()).collect()
}

#[test]
fn aggregates_sums_and_max() {
    let a = Stats { bytes: 6, chars: 6, words: 3, newlines: 2, max_line_width: 3 };
    let b = Stats { bytes: 10, chars: 8, words: 4, newlines: 1, max_line_width: 7 };
    let t = aggregate(&vec![a, b]);
    assert_eq!(
        t,
        Stats { bytes: 16, chars: 14, words: 7, newlines: 3, max_line_width: 7 }
    );
}

#[test]
fn empty_selection_defaults_to_lines_words_chars() {
    let eff = empty_sel().effective_selection();
    assert!(eff.lines && eff.words && eff.chars);
    assert!(!eff.bytes && !eff.max_line_width);
}

#[test]
fn report_single_input() {
    let s = wordcount(&lines(&["a b\n", "c\n"]));
    let out = count_report(&names(&["f.txt"]), &vec![s], &empty_sel());
    assert_eq!(out, vec!["2 3 6 f.txt"]);
}

#[test]
fn report_hides_stdin_sentinel_name() {
    let s = wordcount(&lines(&["a b\n", "c\n"]));
    let out = count_report(&names(&["-"]), &vec![s], &empty_sel());
    assert_eq!(out, vec!["2 3 6 "]);
}

#[test]
fn report_multiple_inputs_appends_total() {
    // column width comes from the aggregate byte count (13 -> 2 columns)
    let a = wordcount(&lines(&["a b\n", "c\n"]));
    let b = wordcount(&lines(&["deed x\n"]));
    let out = count_report(&names(&["p", "q"]), &vec![a, b], &empty_sel());
    assert_eq!(
        out,
        vec![" 2  3  6 p", " 1  2  7 q", " 3  5 13 total"]
    );
}

#[test]
fn report_bytes_only_selection() {
    let s = wordcount(&lines(&["é\n"]));
    let sel = OutputSelection { bytes: true, ..empty_sel() };
    let out = count_report(&names(&["u"]), &vec![s], &sel);
    assert_eq!(out, vec!["3 u"]);
}

#[test]
fn report_max_line_width_selection() {
    let s = wordcount(&lines(&["abcd\n", "x\n"]));
    let sel = OutputSelection { lines: true, max_line_width: true, ..empty_sel() };
    let out = count_report(&names(&["m"]), &vec![s], &sel);
    // shared width is the byte count's digit width (7 -> 1 column)
    assert_eq!(out, vec!["2 4 m"]);
}
