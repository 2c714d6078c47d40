//! The word/character/byte counter: consumes an input one
//! delimiter-terminated line at a time and produces a `Stats` record.
//!
//! Counting semantics: `bytes` is the UTF-8 byte length of the input
//! including line terminators; `chars` counts decoded Unicode scalar
//! values; `words` counts maximal runs of non-whitespace scalar values,
//! a run still open at end of input included; `newlines` counts `\n`
//! scalar values; `max_line_width` is the largest per-line count of scalar
//! values that are neither control characters nor byte-order marks.

use vstd::prelude::*;
use vstd::string::StrSliceExecFns;
use vstd::utf8::encode_utf8;
use crate::chars::{is_whitespace_char, is_width_char, char_is_whitespace, char_is_width};

verus! {

/// The per-input counting record, and the shape of the aggregate row.
#[derive(PartialEq, Eq, Structural, Clone, Copy, Debug)]
pub struct Stats {
    pub bytes: u64,
    pub chars: u64,
    pub words: u64,
    pub newlines: u64,
    pub max_line_width: u64,
}

/// Number of maximal non-whitespace runs that start inside `s`, given
/// whether a run was already open just before `s`. A run starts at a
/// non-whitespace character that follows whitespace or the beginning of
/// the input, so a trailing run with no terminating whitespace counts.
pub open spec fn words_from(s: Seq<char>, prev_in_word: bool) -> nat
    decreases s.len(),
{
    if s.len() == 0 {
        0
    } else {
        let first_in_word = !is_whitespace_char(s[0]);
        (if first_in_word && !prev_in_word {
            1 as nat
        } else {
            0 as nat
        }) + words_from(s.drop_first(), first_in_word)
    }
}

/// Number of maximal non-whitespace runs in `s`.
pub open spec fn count_words(s: Seq<char>) -> nat {
    words_from(s, false)
}

/// Whether a non-whitespace run is open at the end of `s`, given
/// whether one was open just before `s`.
pub open spec fn words_end_state(s: Seq<char>, prev_in_word: bool) -> bool {
    if s.len() == 0 {
        prev_in_word
    } else {
        !is_whitespace_char(s.last())
    }
}

/// Number of `\n` scalar values in `s`.
pub open spec fn count_newlines(s: Seq<char>) -> nat
    decreases s.len(),
{
    if s.len() == 0 {
        0
    } else {
        (if s[0] == '\n' {
            1 as nat
        } else {
            0 as nat
        }) + count_newlines(s.drop_first())
    }
}

/// Display width of one line: the count of its scalar values excluding
/// control characters and byte-order marks.
pub open spec fn line_width_of(s: Seq<char>) -> nat
    decreases s.len(),
{
    if s.len() == 0 {
        0
    } else {
        (if is_width_char(s[0]) {
            1 as nat
        } else {
            0 as nat
        }) + line_width_of(s.drop_first())
    }
}

/// The character sequences of a sequence of lines.
pub open spec fn seq_views(lines: Seq<String>) -> Seq<Seq<char>> {
    lines.map_values(|l: String| l@)
}

/// Total UTF-8 byte length of the given lines.
pub open spec fn total_bytes(lines: Seq<Seq<char>>) -> nat
    decreases lines.len(),
{
    if lines.len() == 0 {
        0
    } else {
        total_bytes(lines.drop_last()) + encode_utf8(lines.last()).len()
    }
}

/// Total count of scalar values in the given lines.
pub open spec fn total_chars(lines: Seq<Seq<char>>) -> nat
    decreases lines.len(),
{
    if lines.len() == 0 {
        0
    } else {
        total_chars(lines.drop_last()) + lines.last().len()
    }
}

/// Total word count of the given lines, each line scanned on its own.
pub open spec fn total_words(lines: Seq<Seq<char>>) -> nat
    decreases lines.len(),
{
    if lines.len() == 0 {
        0
    } else {
        total_words(lines.drop_last()) + count_words(lines.last())
    }
}

/// Total `\n` count of the given lines.
pub open spec fn total_newlines(lines: Seq<Seq<char>>) -> nat
    decreases lines.len(),
{
    if lines.len() == 0 {
        0
    } else {
        total_newlines(lines.drop_last()) + count_newlines(lines.last())
    }
}

/// Largest display width over the given lines.
pub open spec fn max_width(lines: Seq<Seq<char>>) -> nat
    decreases lines.len(),
{
    if lines.len() == 0 {
        0
    } else {
        let rest = max_width(lines.drop_last());
        let w = line_width_of(lines.last());
        if w > rest {
            w
        } else {
            rest
        }
    }
}

/// What `count` computes for an input split into the given lines.
pub open spec fn stats_of(lines: Seq<Seq<char>>) -> Stats {
    Stats {
        bytes: total_bytes(lines) as u64,
        chars: total_chars(lines) as u64,
        words: total_words(lines) as u64,
        newlines: total_newlines(lines) as u64,
        max_line_width: max_width(lines) as u64,
    }
}

/// The counts of one scanned line.
pub struct LineCounts {
    pub chars: usize,
    pub words: usize,
    pub newlines: usize,
    pub width: usize,
}

/// Every UTF-8 encoding takes at least one byte per scalar value.
pub proof fn lemma_chars_le_bytes(s: Seq<char>)
    ensures
        s.len() <= encode_utf8(s).len(),
    decreases s.len(),
{
    if s.len() > 0 {
        lemma_chars_le_bytes(s.drop_first());
    }
}

/// A line holds no more words than characters.
pub proof fn lemma_words_le_len(s: Seq<char>, prev_in_word: bool)
    ensures
        words_from(s, prev_in_word) <= s.len(),
    decreases s.len(),
{
    if s.len() > 0 {
        lemma_words_le_len(s.drop_first(), !is_whitespace_char(s[0]));
    }
}

/// A line holds no more newlines than characters.
pub proof fn lemma_newlines_le_len(s: Seq<char>)
    ensures
        count_newlines(s) <= s.len(),
    decreases s.len(),
{
    if s.len() > 0 {
        lemma_newlines_le_len(s.drop_first());
    }
}

/// A line's display width never exceeds its character count.
pub proof fn lemma_width_le_len(s: Seq<char>)
    ensures
        line_width_of(s) <= s.len(),
    decreases s.len(),
{
    if s.len() > 0 {
        lemma_width_le_len(s.drop_first());
    }
}

/// Scans one line and counts its characters, words, newlines, and
/// display width.
pub fn line_counts(line: &str) -> (r: LineCounts)
    ensures
        r.chars == line@.len(),
        r.words == count_words(line@),
        r.newlines == count_newlines(line@),
        r.width == line_width_of(line@),
{
    let n = line.unicode_len();
    let mut words: usize = 0;
    let mut newlines: usize = 0;
    let mut width: usize = 0;
    let mut in_word = false;
    let mut i: usize = 0;
    proof {
        assert(line@.skip(0) =~= line@);
    }
    while i < n
        invariant
            n == line@.len(),
            i <= n,
            words <= i,
            newlines <= i,
            width <= i,
            words + words_from(line@.skip(i as int), in_word) == count_words(line@),
            newlines + count_newlines(line@.skip(i as int)) == count_newlines(line@),
            width + line_width_of(line@.skip(i as int)) == line_width_of(line@),
        decreases n - i,
    {
        let c = line.get_char(i);
        proof {
            assert(line@.skip(i as int)[0] == line@[i as int]);
            assert(line@.skip(i as int).drop_first() =~= line@.skip(i as int + 1));
        }
        let cw = !char_is_whitespace(c);
        if cw && !in_word {
            words = words + 1;
        }
        in_word = cw;
        if c == '\n' {
            newlines = newlines + 1;
        }
        if char_is_width(c) {
            width = width + 1;
        }
        i = i + 1;
    }
    proof {
        assert(line@.skip(n as int) =~= Seq::<char>::empty());
    }
    LineCounts { chars: n, words, newlines, width }
}

/// Scans the given lines of one input and returns its `Stats`.
///
/// The totals say exactly what each field holds: the word total counts
/// the maximal non-whitespace runs of every line, a run still open at a
/// line's end included, and the newline total counts the `\n` scalar
/// values of the whole input.
pub fn wordcount(lines: &Vec<String>) -> (r: Stats)
    requires
        total_bytes(seq_views(lines@)) <= usize::MAX,
    ensures
        r == stats_of(seq_views(lines@)),
{
    let ghost lv = seq_views(lines@);
    let mut bytes: u64 = 0;
    let mut chars: u64 = 0;
    let mut words: u64 = 0;
    let mut newlines: u64 = 0;
    let mut max_line_width: u64 = 0;
    let mut i: usize = 0;
    while i < lines.len()
        invariant
            lv == seq_views(lines@),
            lv.len() == lines@.len(),
            forall|j: int| 0 <= j < lv.len() ==> lv[j] == lines@[j]@,
            total_bytes(lv) <= usize::MAX,
            i <= lines.len(),
            bytes == total_bytes(lv.take(i as int)),
            chars == total_chars(lv.take(i as int)),
            words == total_words(lv.take(i as int)),
            newlines == total_newlines(lv.take(i as int)),
            max_line_width == max_width(lv.take(i as int)),
        decreases lines.len() - i,
    {
        proof {
            assert(lv.take(i as int + 1).drop_last() =~= lv.take(i as int));
            assert(lv.take(i as int + 1).last() == lv[i as int]);
            lemma_total_bytes_prefix(lv, i as int + 1);
            lemma_chars_le_bytes(lv[i as int]);
            lemma_total_chars_le_total_bytes(lv.take(i as int + 1));
            lemma_words_le_len(lv[i as int], false);
            lemma_newlines_le_len(lv[i as int]);
            lemma_width_le_len(lv[i as int]);
            lemma_total_words_le_total_chars(lv.take(i as int + 1));
            lemma_total_newlines_le_total_chars(lv.take(i as int + 1));
        }
        let line = &lines[i];
        let byte_len = line.as_str().len();
        let lc = line_counts(line.as_str());
        bytes = bytes + byte_len as u64;
        chars = chars + lc.chars as u64;
        words = words + lc.words as u64;
        newlines = newlines + lc.newlines as u64;
        if lc.width as u64 > max_line_width {
            max_line_width = lc.width as u64;
        }
        i = i + 1;
    }
    proof {
        assert(lv.take(lines@.len() as int) =~= lv);
    }
    Stats { bytes, chars, words, newlines, max_line_width }
}

/// A prefix of the lines never holds more bytes than all of them.
pub proof fn lemma_total_bytes_prefix(lines: Seq<Seq<char>>, j: int)
    requires
        0 <= j <= lines.len(),
    ensures
        total_bytes(lines.take(j)) <= total_bytes(lines),
    decreases lines.len(),
{
    if j < lines.len() {
        assert(lines.drop_last().take(j) =~= lines.take(j));
        lemma_total_bytes_prefix(lines.drop_last(), j);
    } else {
        assert(lines.take(j) =~= lines);
    }
}

/// The character total never exceeds the byte total.
pub proof fn lemma_total_chars_le_total_bytes(lines: Seq<Seq<char>>)
    ensures
        total_chars(lines) <= total_bytes(lines),
    decreases lines.len(),
{
    if lines.len() > 0 {
        lemma_total_chars_le_total_bytes(lines.drop_last());
        lemma_chars_le_bytes(lines.last());
    }
}

/// The word total never exceeds the character total.
pub proof fn lemma_total_words_le_total_chars(lines: Seq<Seq<char>>)
    ensures
        total_words(lines) <= total_chars(lines),
    decreases lines.len(),
{
    if lines.len() > 0 {
        lemma_total_words_le_total_chars(lines.drop_last());
        lemma_words_le_len(lines.last(), false);
    }
}

/// The newline total never exceeds the character total.
pub proof fn lemma_total_newlines_le_total_chars(lines: Seq<Seq<char>>)
    ensures
        total_newlines(lines) <= total_chars(lines),
    decreases lines.len(),
{
    if lines.len() > 0 {
        lemma_total_newlines_le_total_chars(lines.drop_last());
        lemma_newlines_le_len(lines.last());
    }
}

/// A stream without `\n` holds no newlines.
proof fn lemma_no_newlines(s: Seq<char>)
    requires
        forall|k: int| 0 <= k < s.len() ==> s[k] != '\n',
    ensures
        count_newlines(s) == 0,
    decreases s.len(),
{
    if s.len() > 0 {
        assert(forall|k: int|
            0 <= k < s.drop_first().len() ==> s.drop_first()[k] == s[k + 1]);
        lemma_no_newlines(s.drop_first());
    }
}

/// A line whose only `\n` is its terminator holds exactly one newline.
proof fn lemma_one_trailing_newline(s: Seq<char>)
    requires
        s.len() > 0,
        s.last() == '\n',
        forall|k: int| 0 <= k < s.len() - 1 ==> s[k] != '\n',
    ensures
        count_newlines(s) == 1,
    decreases s.len(),
{
    if s.len() == 1 {
        assert(s[0] == s.last());
        assert(s.drop_first() =~= Seq::<char>::empty());
        assert(count_newlines(Seq::<char>::empty()) == 0);
    } else {
        assert(s[0] != '\n');
        assert(forall|k: int|
            0 <= k < s.drop_first().len() ==> s.drop_first()[k] == s[k + 1]);
        assert(s.drop_first().last() == s.last());
        lemma_one_trailing_newline(s.drop_first());
    }
}

/// Lines that each end with their `\n` terminator and hold it nowhere
/// else carry one newline apiece.
proof fn lemma_newlines_of_complete_lines(lines: Seq<Seq<char>>)
    requires
        forall|j: int|
            0 <= j < lines.len() ==> #[trigger] lines[j].len() > 0 && lines[j].last() == '\n'
                && (forall|k: int| 0 <= k < lines[j].len() - 1 ==> lines[j][k] != '\n'),
    ensures
        total_newlines(lines) == lines.len(),
    decreases lines.len(),
{
    if lines.len() > 0 {
        lemma_newlines_of_complete_lines(lines.drop_last());
        lemma_one_trailing_newline(lines.last());
    }
}

/// An input with no trailing newline counts one newline less than it
/// has lines: every line but the last carries exactly its terminating
/// `\n`, and the last carries none.
pub proof fn lemma_newlines_without_trailing(lines: Seq<Seq<char>>)
    requires
        lines.len() > 0,
        forall|j: int|
            0 <= j < lines.len() - 1 ==> #[trigger] lines[j].len() > 0 && lines[j].last() == '\n'
                && (forall|k: int| 0 <= k < lines[j].len() - 1 ==> lines[j][k] != '\n'),
        forall|k: int| 0 <= k < lines.last().len() ==> lines.last()[k] != '\n',
    ensures
        total_newlines(lines) == lines.len() - 1,
{
    let dl = lines.drop_last();
    assert(forall|j: int|
        0 <= j < dl.len() ==> #[trigger] dl[j].len() > 0 && dl[j].last() == '\n' && (forall|k: int|
            0 <= k < dl[j].len() - 1 ==> dl[j][k] != '\n')) by {
        assert(forall|j: int| 0 <= j < dl.len() ==> dl[j] == lines[j]);
    }
    lemma_newlines_of_complete_lines(dl);
    lemma_no_newlines(lines.last());
}

/// True where a maximal non-whitespace run begins: a non-whitespace
/// character standing at the start of the input or right after
/// whitespace.
pub open spec fn word_start_at(s: Seq<char>, i: int) -> bool {
    &&& 0 <= i < s.len()
    &&& !is_whitespace_char(s[i])
    &&& (i == 0 || is_whitespace_char(s[i - 1]))
}

/// Number of run starts at or after index `lo`.
pub open spec fn word_starts_from(s: Seq<char>, lo: int) -> nat
    decreases s.len() - lo,
        when lo <= s.len()
{
    if lo >= s.len() {
        0
    } else {
        (if word_start_at(s, lo) {
            1 as nat
        } else {
            0 as nat
        }) + word_starts_from(s, lo + 1)
    }
}

/// The scan count at any suffix equals the run starts of that suffix,
/// once the in-word state matches the character before the suffix.
proof fn lemma_words_eq_starts(s: Seq<char>, lo: int)
    requires
        0 <= lo <= s.len(),
    ensures
        words_from(
            s.skip(lo),
            if lo == 0 {
                false
            } else {
                !is_whitespace_char(s[lo - 1])
            },
        ) == word_starts_from(s, lo),
    decreases s.len() - lo,
{
    if lo < s.len() {
        lemma_words_eq_starts(s, lo + 1);
        assert(s.skip(lo)[0] == s[lo]);
        assert(s.skip(lo).drop_first() =~= s.skip(lo + 1));
    }
}

/// The word count is exactly the number of positions where a maximal
/// non-whitespace run begins, the count of such runs.
pub proof fn lemma_count_words_is_run_starts(s: Seq<char>)
    ensures
        count_words(s) == word_starts_from(s, 0),
{
    lemma_words_eq_starts(s, 0);
    assert(s.skip(0) =~= s);
}

/// One character stream made of the given lines in order.
pub open spec fn flatten_chars(lines: Seq<Seq<char>>) -> Seq<char>
    decreases lines.len(),
{
    if lines.len() == 0 {
        Seq::empty()
    } else {
        flatten_chars(lines.drop_last()) + lines.last()
    }
}

/// Newline counting distributes over concatenation of streams.
pub proof fn lemma_newlines_concat(a: Seq<char>, b: Seq<char>)
    ensures
        count_newlines(a + b) == count_newlines(a) + count_newlines(b),
    decreases a.len(),
{
    if a.len() == 0 {
        assert(a + b =~= b);
    } else {
        assert((a + b)[0] == a[0]);
        assert((a + b).drop_first() =~= a.drop_first() + b);
        lemma_newlines_concat(a.drop_first(), b);
    }
}

/// UTF-8 encoding distributes over concatenation of streams.
pub proof fn lemma_encode_concat(a: Seq<char>, b: Seq<char>)
    ensures
        encode_utf8(a + b) == encode_utf8(a) + encode_utf8(b),
    decreases a.len(),
{
    if a.len() == 0 {
        assert(a + b =~= b);
        assert(encode_utf8(a) + encode_utf8(b) =~= encode_utf8(b));
    } else {
        assert((a + b)[0] == a[0]);
        assert((a + b).drop_first() =~= a.drop_first() + b);
        lemma_encode_concat(a.drop_first(), b);
        assert(encode_utf8(a + b) =~= encode_utf8(a) + encode_utf8(b));
    }
}

/// Word counting splits at any stream boundary: the second part is
/// scanned with the in-word state that the first part left behind.
pub proof fn lemma_words_from_concat(a: Seq<char>, b: Seq<char>, prev_in_word: bool)
    ensures
        words_from(a + b, prev_in_word) == words_from(a, prev_in_word) + words_from(
            b,
            words_end_state(a, prev_in_word),
        ),
    decreases a.len(),
{
    if a.len() == 0 {
        assert(a + b =~= b);
    } else {
        assert((a + b)[0] == a[0]);
        assert((a + b).drop_first() =~= a.drop_first() + b);
        lemma_words_from_concat(a.drop_first(), b, !is_whitespace_char(a[0]));
        if a.len() == 1 {
            assert(a.last() == a[0]);
        } else {
            assert(a.drop_first().last() == a.last());
        }
    }
}

/// Counting the concatenation of two streams equals summing the counts
/// of each, provided the first stream is empty or ends in whitespace,
/// so that no word is split across the boundary.
pub proof fn lemma_counts_concat_at_whitespace(a: Seq<char>, b: Seq<char>)
    requires
        a.len() == 0 || is_whitespace_char(a.last()),
    ensures
        count_words(a + b) == count_words(a) + count_words(b),
        count_newlines(a + b) == count_newlines(a) + count_newlines(b),
        (a + b).len() == a.len() + b.len(),
        encode_utf8(a + b).len() == encode_utf8(a).len() + encode_utf8(b).len(),
{
    lemma_words_from_concat(a, b, false);
    lemma_newlines_concat(a, b);
    lemma_encode_concat(a, b);
}

/// Running the counter on two inputs' lines laid end to end yields the
/// same byte, character, word, and newline totals as summing the two
/// individual results, and the larger of the two maximum widths.
pub proof fn lemma_totals_concat(a: Seq<Seq<char>>, b: Seq<Seq<char>>)
    ensures
        total_bytes(a + b) == total_bytes(a) + total_bytes(b),
        total_chars(a + b) == total_chars(a) + total_chars(b),
        total_words(a + b) == total_words(a) + total_words(b),
        total_newlines(a + b) == total_newlines(a) + total_newlines(b),
        max_width(a + b) == if max_width(a) > max_width(b) {
            max_width(a)
        } else {
            max_width(b)
        },
    decreases b.len(),
{
    if b.len() == 0 {
        assert(a + b =~= a);
    } else {
        assert((a + b).drop_last() =~= a + b.drop_last());
        assert((a + b).last() == b.last());
        lemma_totals_concat(a, b.drop_last());
    }
}

/// Scanning an input line by line counts the same characters, words,
/// newlines, and bytes as scanning its whole character stream at once,
/// provided every line but the last ends with the `\n` terminator that
/// produced the split.
pub proof fn lemma_counts_per_line_eq_stream(lines: Seq<Seq<char>>)
    requires
        forall|j: int|
            0 <= j < lines.len() - 1 ==> #[trigger] lines[j].len() > 0 && lines[j].last() == '\n',
    ensures
        flatten_chars(lines).len() == total_chars(lines),
        count_newlines(flatten_chars(lines)) == total_newlines(lines),
        count_words(flatten_chars(lines)) == total_words(lines),
        encode_utf8(flatten_chars(lines)).len() == total_bytes(lines),
    decreases lines.len(),
{
    if lines.len() == 0 {
        assert(encode_utf8(flatten_chars(lines)) =~= Seq::<u8>::empty());
    } else {
        let pre = lines.drop_last();
        assert(forall|j: int|
            0 <= j < pre.len() - 1 ==> #[trigger] pre[j].len() > 0 && pre[j].last() == '\n');
        lemma_counts_per_line_eq_stream(pre);
        let f = flatten_chars(pre);
        let l = lines.last();
        lemma_newlines_concat(f, l);
        lemma_encode_concat(f, l);
        lemma_words_from_concat(f, l, false);
        if pre.len() == 0 {
            assert(words_end_state(f, false) == false);
        } else {
            assert(pre.last() == lines[lines.len() - 2]);
            assert(pre.last().len() > 0 && pre.last().last() == '\n');
            assert(f == flatten_chars(pre.drop_last()) + pre.last());
            assert(f.last() == pre.last().last());
            assert(is_whitespace_char('\n'));
            assert(words_end_state(f, false) == false);
        }
    }
}

} // verus!
