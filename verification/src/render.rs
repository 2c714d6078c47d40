//! Rendering of counting results: the aggregate row, the shared column
//! width taken from the aggregate byte count, and the per-input report
//! lines.
//!
//! The report is a two-phase design on purpose: every input's `Stats`
//! must exist before any line can be rendered, because the column width
//! of every row depends on the grand total.

use vstd::prelude::*;
use vstd::string::{StrSliceExecFns, StringExecFns};
use crate::counter::{seq_views, Stats};
use crate::numeral::{dec_digits, pad_left, spaces, to_decimal};
use crate::strutil::str_eq;

verus! {

/// Which fields are rendered. An empty selection stands for the default
/// of lines, words, and characters.
#[derive(PartialEq, Eq, Structural, Clone, Copy, Debug)]
pub struct OutputSelection {
    pub lines: bool,
    pub words: bool,
    pub chars: bool,
    pub bytes: bool,
    pub max_line_width: bool,
}

impl OutputSelection {
    /// The selection actually rendered: the default trio when nothing
    /// was selected, the selection itself otherwise.
    pub open spec fn effective(self) -> OutputSelection {
        if !self.lines && !self.words && !self.chars && !self.bytes && !self.max_line_width {
            OutputSelection {
                lines: true,
                words: true,
                chars: true,
                bytes: false,
                max_line_width: false,
            }
        } else {
            self
        }
    }

    /// Applies the empty-selection default.
    pub fn effective_selection(&self) -> (r: OutputSelection)
        ensures
            r == self.effective(),
    {
        if !self.lines && !self.words && !self.chars && !self.bytes && !self.max_line_width {
            OutputSelection {
                lines: true,
                words: true,
                chars: true,
                bytes: false,
                max_line_width: false,
            }
        } else {
            *self
        }
    }
}

/// Sum of a sequence of counters.
pub open spec fn sum64(s: Seq<u64>) -> nat
    decreases s.len(),
{
    if s.len() == 0 {
        0
    } else {
        (sum64(s.drop_last()) + s.last()) as nat
    }
}

/// Largest element of a sequence of counters, zero when empty.
pub open spec fn max64(s: Seq<u64>) -> nat
    decreases s.len(),
{
    if s.len() == 0 {
        0
    } else {
        let rest = max64(s.drop_last());
        if s.last() > rest {
            s.last() as nat
        } else {
            rest
        }
    }
}

/// The byte counts of the given records.
pub open spec fn bytes_of(ss: Seq<Stats>) -> Seq<u64> {
    ss.map_values(|s: Stats| s.bytes)
}

/// The character counts of the given records.
pub open spec fn chars_of(ss: Seq<Stats>) -> Seq<u64> {
    ss.map_values(|s: Stats| s.chars)
}

/// The word counts of the given records.
pub open spec fn words_of(ss: Seq<Stats>) -> Seq<u64> {
    ss.map_values(|s: Stats| s.words)
}

/// The newline counts of the given records.
pub open spec fn newlines_of(ss: Seq<Stats>) -> Seq<u64> {
    ss.map_values(|s: Stats| s.newlines)
}

/// The maximum line widths of the given records.
pub open spec fn max_lines_of(ss: Seq<Stats>) -> Seq<u64> {
    ss.map_values(|s: Stats| s.max_line_width)
}

/// The aggregate record: the four counters summed over all inputs, and
/// the largest of the maximum line widths.
pub open spec fn aggregate_spec(ss: Seq<Stats>) -> Stats {
    Stats {
        bytes: sum64(bytes_of(ss)) as u64,
        chars: sum64(chars_of(ss)) as u64,
        words: sum64(words_of(ss)) as u64,
        newlines: sum64(newlines_of(ss)) as u64,
        max_line_width: max64(max_lines_of(ss)) as u64,
    }
}

/// A prefix never sums to more than the whole sequence.
pub proof fn lemma_sum64_prefix(s: Seq<u64>, j: int)
    requires
        0 <= j <= s.len(),
    ensures
        sum64(s.take(j)) <= sum64(s),
    decreases s.len(),
{
    if j < s.len() {
        assert(s.drop_last().take(j) =~= s.take(j));
        lemma_sum64_prefix(s.drop_last(), j);
    } else {
        assert(s.take(j) =~= s);
    }
}

/// Sums the per-input records into the aggregate `total` row.
pub fn aggregate(stats: &Vec<Stats>) -> (r: Stats)
    requires
        sum64(bytes_of(stats@)) <= u64::MAX,
        sum64(chars_of(stats@)) <= u64::MAX,
        sum64(words_of(stats@)) <= u64::MAX,
        sum64(newlines_of(stats@)) <= u64::MAX,
    ensures
        r == aggregate_spec(stats@),
{
    let mut bytes: u64 = 0;
    let mut chars: u64 = 0;
    let mut words: u64 = 0;
    let mut newlines: u64 = 0;
    let mut max_line_width: u64 = 0;
    let mut i: usize = 0;
    while i < stats.len()
        invariant
            i <= stats@.len(),
            sum64(bytes_of(stats@)) <= u64::MAX,
            sum64(chars_of(stats@)) <= u64::MAX,
            sum64(words_of(stats@)) <= u64::MAX,
            sum64(newlines_of(stats@)) <= u64::MAX,
            bytes == sum64(bytes_of(stats@.take(i as int))),
            chars == sum64(chars_of(stats@.take(i as int))),
            words == sum64(words_of(stats@.take(i as int))),
            newlines == sum64(newlines_of(stats@.take(i as int))),
            max_line_width == max64(max_lines_of(stats@.take(i as int))),
        decreases stats@.len() - i,
    {
        proof {
            assert(bytes_of(stats@.take(i as int + 1)) =~= bytes_of(stats@).take(i as int + 1));
            assert(chars_of(stats@.take(i as int + 1)) =~= chars_of(stats@).take(i as int + 1));
            assert(words_of(stats@.take(i as int + 1)) =~= words_of(stats@).take(i as int + 1));
            assert(newlines_of(stats@.take(i as int + 1)) =~= newlines_of(stats@).take(
                i as int + 1,
            ));
            assert(bytes_of(stats@.take(i as int)) =~= bytes_of(stats@).take(i as int));
            assert(chars_of(stats@.take(i as int)) =~= chars_of(stats@).take(i as int));
            assert(words_of(stats@.take(i as int)) =~= words_of(stats@).take(i as int));
            assert(newlines_of(stats@.take(i as int)) =~= newlines_of(stats@).take(i as int));
            assert(bytes_of(stats@).take(i as int + 1).drop_last() =~= bytes_of(stats@).take(
                i as int,
            ));
            assert(chars_of(stats@).take(i as int + 1).drop_last() =~= chars_of(stats@).take(
                i as int,
            ));
            assert(words_of(stats@).take(i as int + 1).drop_last() =~= words_of(stats@).take(
                i as int,
            ));
            assert(newlines_of(stats@).take(i as int + 1).drop_last() =~= newlines_of(
                stats@,
            ).take(i as int));
            assert(max_lines_of(stats@.take(i as int + 1)).drop_last() =~= max_lines_of(
                stats@.take(i as int),
            ));
            lemma_sum64_prefix(bytes_of(stats@), i as int + 1);
            lemma_sum64_prefix(chars_of(stats@), i as int + 1);
            lemma_sum64_prefix(words_of(stats@), i as int + 1);
            lemma_sum64_prefix(newlines_of(stats@), i as int + 1);
        }
        let s = &stats[i];
        bytes = bytes + s.bytes;
        chars = chars + s.chars;
        words = words + s.words;
        newlines = newlines + s.newlines;
        if s.max_line_width > max_line_width {
            max_line_width = s.max_line_width;
        }
        i = i + 1;
    }
    proof {
        assert(stats@.take(stats@.len() as int) =~= stats@);
    }
    Stats { bytes, chars, words, newlines, max_line_width }
}

/// One numeric field of a report row: the value right-aligned into `w`
/// columns, followed by one space.
pub open spec fn field_spec(v: u64, w: nat) -> Seq<char> {
    pad_left(dec_digits(v as nat), ' ', w).push(' ')
}

/// The name a row ends with: the stdin sentinel renders as nothing.
pub open spec fn display_name(name: Seq<char>) -> Seq<char> {
    if name == seq!['-'] {
        Seq::empty()
    } else {
        name
    }
}

/// The label of the aggregate row.
pub open spec fn total_label() -> Seq<char> {
    seq!['t', 'o', 't', 'a', 'l']
}

/// One report row: the selected fields in the fixed order lines, words,
/// characters, bytes, maximum line width, each aligned to the shared
/// column width and followed by a space, then the display name.
pub open spec fn row_spec(st: Stats, sel: OutputSelection, w: nat, name: Seq<char>) -> Seq<char> {
    (if sel.lines {
        field_spec(st.newlines, w)
    } else {
        Seq::empty()
    }) + (if sel.words {
        field_spec(st.words, w)
    } else {
        Seq::empty()
    }) + (if sel.chars {
        field_spec(st.chars, w)
    } else {
        Seq::empty()
    }) + (if sel.bytes {
        field_spec(st.bytes, w)
    } else {
        Seq::empty()
    }) + (if sel.max_line_width {
        field_spec(st.max_line_width, w)
    } else {
        Seq::empty()
    }) + name
}

/// Renders one numeric field into the shared column width.
fn field_str(v: u64, width: usize) -> (s: String)
    ensures
        s@ == field_spec(v, width as nat),
{
    proof {
        reveal_strlit(" ");
        assert(" "@ =~= seq![' ']);
    }
    let d = to_decimal(v);
    let dl = d.as_str().unicode_len();
    if dl >= width {
        let mut s = d;
        s.append(" ");
        proof {
            assert(s@ =~= field_spec(v, width as nat));
        }
        s
    } else {
        let mut s = spaces(width - dl);
        s.append(d.as_str());
        s.append(" ");
        proof {
            assert(s@ =~= field_spec(v, width as nat));
        }
        s
    }
}

/// Renders one report row for a record under the given selection,
/// column width, and display name.
pub fn render_row(st: &Stats, sel: &OutputSelection, width: usize, name: &String) -> (s: String)
    ensures
        s@ == row_spec(*st, *sel, width as nat, name@),
{
    let mut s = String::new();
    if sel.lines {
        let f = field_str(st.newlines, width);
        s.append(f.as_str());
    }
    if sel.words {
        let f = field_str(st.words, width);
        s.append(f.as_str());
    }
    if sel.chars {
        let f = field_str(st.chars, width);
        s.append(f.as_str());
    }
    if sel.bytes {
        let f = field_str(st.bytes, width);
        s.append(f.as_str());
    }
    if sel.max_line_width {
        let f = field_str(st.max_line_width, width);
        s.append(f.as_str());
    }
    s.append(name.as_str());
    proof {
        assert(s@ =~= row_spec(*st, *sel, width as nat, name@));
    }
    s
}

/// The whole report: one row per input in order, plus, when more than
/// one input was counted, an aggregate row labeled `total`. Every row
/// uses the effective selection and a shared column width equal to the
/// length of the aggregate byte count's decimal numeral.
pub open spec fn report_spec(
    names: Seq<Seq<char>>,
    ss: Seq<Stats>,
    sel: OutputSelection,
) -> Seq<Seq<char>> {
    let eff = sel.effective();
    let total = aggregate_spec(ss);
    let w = dec_digits(total.bytes as nat).len();
    let rows = Seq::new(ss.len(), |i: int| row_spec(ss[i], eff, w, display_name(names[i])));
    if ss.len() > 1 {
        rows.push(row_spec(total, eff, w, total_label()))
    } else {
        rows
    }
}

/// Renders the full counting report for the given inputs.
pub fn count_report(names: &Vec<String>, stats: &Vec<Stats>, sel: &OutputSelection) -> (out: Vec<
    String,
>)
    requires
        names@.len() == stats@.len(),
        sum64(bytes_of(stats@)) <= u64::MAX,
        sum64(chars_of(stats@)) <= u64::MAX,
        sum64(words_of(stats@)) <= u64::MAX,
        sum64(newlines_of(stats@)) <= u64::MAX,
    ensures
        seq_views(out@) == report_spec(seq_views(names@), stats@, *sel),
{
    proof {
        reveal_strlit("-");
        reveal_strlit("total");
        assert("-"@ =~= seq!['-']);
        assert("total"@ =~= total_label());
    }
    let eff = sel.effective_selection();
    let total = aggregate(stats);
    let ws = to_decimal(total.bytes);
    let w = ws.as_str().unicode_len();
    let ghost expected = report_spec(seq_views(names@), stats@, *sel);
    let mut out: Vec<String> = Vec::new();
    let mut i: usize = 0;
    proof {
        assert(seq_views(out@) =~= Seq::<Seq<char>>::empty());
    }
    while i < stats.len()
        invariant
            names@.len() == stats@.len(),
            i <= stats@.len(),
            out@.len() == i,
            eff == sel.effective(),
            w as nat == dec_digits(aggregate_spec(stats@).bytes as nat).len(),
            total == aggregate_spec(stats@),
            "-"@ =~= seq!['-'],
            forall|j: int|
                0 <= j < i ==> #[trigger] out@[j]@ == row_spec(
                    stats@[j],
                    sel.effective(),
                    w as nat,
                    display_name(names@[j]@),
                ),
        decreases stats@.len() - i,
    {
        let name_disp = if str_eq(names[i].as_str(), "-") {
            String::new()
        } else {
            names[i].clone()
        };
        proof {
            assert(name_disp@ == display_name(names@[i as int]@));
        }
        let row = render_row(&stats[i], &eff, w, &name_disp);
        out.push(row);
        i = i + 1;
    }
    if stats.len() > 1 {
        let label = String::from_str("total");
        let row = render_row(&total, &eff, w, &label);
        out.push(row);
    }
    proof {
        assert(seq_views(out@) =~= report_spec(seq_views(names@), stats@, *sel));
    }
    out
}

} // verus!
