//! The line-numbering engine: a three-state section machine over the
//! input lines, with a per-section numbering style and a configurable
//! number format.
//!
//! A line that literally equals a section marker (`\:\:\:`, `\:\:` or
//! `\:`) renders as one empty output line, switches the active section,
//! and, when renumbering per section is on, resets the counter; it is
//! never numbered itself. Every other line is handled by the active
//! section's style: numbered and advanced, echoed with an aligning
//! indent, or echoed bare when empty under the nonempty-only style.

use vstd::prelude::*;
use vstd::string::{StrSliceExecFns, StringExecFns};
use vstd::utf8::encode_utf8;
use crate::errors::CoreError;
use crate::numeral::{dec_digits, pad_left, pad_right, repeat_char, spaces, to_decimal, zeros};
use crate::strutil::str_eq;
use crate::counter::seq_views;

verus! {

/// The numbering context implied by marker lines.
#[derive(PartialEq, Eq, Structural, Clone, Copy, Debug)]
pub enum Section {
    Header,
    Body,
    Footer,
}

/// Which lines of a section receive a number: all of them, only the
/// nonempty ones, or none.
#[derive(PartialEq, Eq, Structural, Clone, Copy, Debug)]
pub enum Style {
    All,
    NonEmpty,
    NoNumbering,
}

/// How a line number is rendered into its fixed-width field.
#[derive(PartialEq, Eq, Structural, Clone, Copy, Debug)]
pub enum Format {
    LeftNoZero,
    RightNoZero,
    RightZero,
}

/// The validated numbering configuration.
pub struct NumberingConfig {
    pub header_style: Style,
    pub body_style: Style,
    pub footer_style: Style,
    pub format: Format,
    pub separator: String,
    pub start: u32,
    pub increment: u32,
    pub width: usize,
    pub renumber_per_section: bool,
}

/// The per-invocation mutable state: the active section and the next
/// line number.
#[derive(PartialEq, Eq, Structural, Clone, Copy, Debug)]
pub struct NumbererState {
    pub current_section: Section,
    pub line_count: u32,
}

impl NumberingConfig {
    /// The number field must be at least one column wide, and the
    /// aligning indent (field width plus separator byte length) must be
    /// representable.
    pub open spec fn wf(self) -> bool {
        self.width >= 1 && self.width + encode_utf8(self.separator@).len() <= usize::MAX
    }

    /// The width of the aligning indent that stands in for a number
    /// under the no-numbering style.
    pub open spec fn indent_width(self) -> nat {
        (self.width + encode_utf8(self.separator@).len()) as nat
    }

    /// Builds a validated configuration. It is rejected exactly when
    /// the field width is zero or the aligning indent would overflow.
    pub fn new(
        header_style: Style,
        body_style: Style,
        footer_style: Style,
        format: Format,
        separator: String,
        start: u32,
        increment: u32,
        width: usize,
        renumber_per_section: bool,
    ) -> (r: Result<NumberingConfig, CoreError>)
        ensures
            match r {
                Ok(c) => {
                    &&& c.wf()
                    &&& c == (NumberingConfig {
                        header_style,
                        body_style,
                        footer_style,
                        format,
                        separator: c.separator,
                        start,
                        increment,
                        width,
                        renumber_per_section,
                    })
                    &&& c.separator@ == separator@
                },
                Err(e) => {
                    &&& e == CoreError::ConfigError
                    &&& !(width >= 1 && width + encode_utf8(separator@).len() <= usize::MAX)
                },
            },
    {
        let sep_bytes = separator.as_str().as_bytes().len();
        if width >= 1 && width <= usize::MAX - sep_bytes {
            Ok(
                NumberingConfig {
                    header_style,
                    body_style,
                    footer_style,
                    format,
                    separator,
                    start,
                    increment,
                    width,
                    renumber_per_section,
                },
            )
        } else {
            Err(CoreError::ConfigError)
        }
    }
}

/// The style a command-line token selects, if it is one of the three
/// supported tokens.
pub open spec fn style_token(t: Seq<char>) -> Option<Style> {
    if t == seq!['a'] {
        Some(Style::All)
    } else if t == seq!['t'] {
        Some(Style::NonEmpty)
    } else if t == seq!['n'] {
        Some(Style::NoNumbering)
    } else {
        None
    }
}

/// The format a command-line token selects, if it is one of the three
/// supported tokens.
pub open spec fn format_token(t: Seq<char>) -> Option<Format> {
    if t == seq!['l', 'n'] {
        Some(Format::LeftNoZero)
    } else if t == seq!['r', 'n'] {
        Some(Format::RightNoZero)
    } else if t == seq!['r', 'z'] {
        Some(Format::RightZero)
    } else {
        None
    }
}

/// Maps a style token to its style: `a` numbers all lines, `t` only the
/// nonempty ones, `n` none. Every other token is a configuration error.
pub fn parse_style(token: &str) -> (r: Result<Style, CoreError>)
    ensures
        match r {
            Ok(s) => style_token(token@) == Some(s),
            Err(e) => style_token(token@) is None && e == CoreError::ConfigError,
        },
{
    proof {
        reveal_strlit("a");
        reveal_strlit("t");
        reveal_strlit("n");
        assert("a"@ =~= seq!['a']);
        assert("t"@ =~= seq!['t']);
        assert("n"@ =~= seq!['n']);
    }
    if str_eq(token, "a") {
        Ok(Style::All)
    } else if str_eq(token, "t") {
        Ok(Style::NonEmpty)
    } else if str_eq(token, "n") {
        Ok(Style::NoNumbering)
    } else {
        Err(CoreError::ConfigError)
    }
}

/// Maps a format token to its format: `ln` left-justified, `rn`
/// right-justified, `rz` right-justified with leading zeros. Every
/// other token is a configuration error.
pub fn parse_format(token: &str) -> (r: Result<Format, CoreError>)
    ensures
        match r {
            Ok(f) => format_token(token@) == Some(f),
            Err(e) => format_token(token@) is None && e == CoreError::ConfigError,
        },
{
    proof {
        reveal_strlit("ln");
        reveal_strlit("rn");
        reveal_strlit("rz");
        assert("ln"@ =~= seq!['l', 'n']);
        assert("rn"@ =~= seq!['r', 'n']);
        assert("rz"@ =~= seq!['r', 'z']);
    }
    if str_eq(token, "ln") {
        Ok(Format::LeftNoZero)
    } else if str_eq(token, "rn") {
        Ok(Format::RightNoZero)
    } else if str_eq(token, "rz") {
        Ok(Format::RightZero)
    } else {
        Err(CoreError::ConfigError)
    }
}

/// The marker line that opens a header section.
pub open spec fn header_marker() -> Seq<char> {
    seq!['\\', ':', '\\', ':', '\\', ':']
}

/// The marker line that opens a body section.
pub open spec fn body_marker() -> Seq<char> {
    seq!['\\', ':', '\\', ':']
}

/// The marker line that opens a footer section.
pub open spec fn footer_marker() -> Seq<char> {
    seq!['\\', ':']
}

/// The section a marker line switches to, or `None` of an ordinary
/// line.
pub open spec fn delim_section(l: Seq<char>) -> Option<Section> {
    if l == header_marker() {
        Some(Section::Header)
    } else if l == body_marker() {
        Some(Section::Body)
    } else if l == footer_marker() {
        Some(Section::Footer)
    } else {
        None
    }
}

/// True of the three section-marker lines.
pub open spec fn is_delim(l: Seq<char>) -> bool {
    delim_section(l) is Some
}

/// The style the configuration assigns to a section.
pub open spec fn style_of(cfg: NumberingConfig, sec: Section) -> Style {
    match sec {
        Section::Header => cfg.header_style,
        Section::Body => cfg.body_style,
        Section::Footer => cfg.footer_style,
    }
}

/// True when a line receives a number and advances the counter.
pub open spec fn is_numbered(cfg: NumberingConfig, st: NumbererState, l: Seq<char>) -> bool {
    &&& !is_delim(l)
    &&& (style_of(cfg, st.current_section) == Style::All || (style_of(cfg, st.current_section)
        == Style::NonEmpty && l.len() > 0))
}

/// The number field: the decimal numeral aligned into `w` columns.
/// A numeral longer than the field is not truncated.
pub open spec fn number_field(f: Format, w: nat, n: u32) -> Seq<char> {
    match f {
        Format::RightNoZero => pad_left(dec_digits(n as nat), ' ', w),
        Format::RightZero => pad_left(dec_digits(n as nat), '0', w),
        Format::LeftNoZero => pad_right(dec_digits(n as nat), ' ', w),
    }
}

/// The output line produced for one input line in the given state.
pub open spec fn step_output(cfg: NumberingConfig, st: NumbererState, l: Seq<char>) -> Seq<char> {
    if is_delim(l) {
        Seq::empty()
    } else {
        match style_of(cfg, st.current_section) {
            Style::NoNumbering => repeat_char(' ', cfg.indent_width()) + l,
            Style::NonEmpty => if l.len() == 0 {
                l
            } else {
                number_field(cfg.format, cfg.width as nat, st.line_count) + cfg.separator@ + l
            },
            Style::All => number_field(cfg.format, cfg.width as nat, st.line_count)
                + cfg.separator@ + l,
        }
    }
}

/// The state after one input line: a marker switches the section and
/// resets the counter when renumbering is on; a numbered line advances
/// the counter by the increment (wrapping); everything else leaves the
/// state alone.
pub open spec fn step_next(cfg: NumberingConfig, st: NumbererState, l: Seq<char>) -> NumbererState {
    match delim_section(l) {
        Some(sec) => NumbererState {
            current_section: sec,
            line_count: if cfg.renumber_per_section {
                cfg.start
            } else {
                st.line_count
            },
        },
        None => if is_numbered(cfg, st, l) {
            NumbererState {
                current_section: st.current_section,
                line_count: vstd::wrapping::u32_specs::wrapping_add(st.line_count, cfg.increment),
            }
        } else {
            st
        },
    }
}

/// The state a fresh invocation starts in: body section, counter at the
/// configured start.
pub open spec fn initial_state(cfg: NumberingConfig) -> NumbererState {
    NumbererState { current_section: Section::Body, line_count: cfg.start }
}

/// The transformed output stream: one output line per input line.
pub open spec fn run_outputs(
    cfg: NumberingConfig,
    st: NumbererState,
    lines: Seq<Seq<char>>,
) -> Seq<Seq<char>>
    decreases lines.len(),
{
    if lines.len() == 0 {
        Seq::empty()
    } else {
        seq![step_output(cfg, st, lines[0])] + run_outputs(
            cfg,
            step_next(cfg, st, lines[0]),
            lines.drop_first(),
        )
    }
}

/// Classifies a line as one of the three section markers, if it is one.
fn delim_kind(line: &str) -> (r: Option<Section>)
    ensures
        r == delim_section(line@),
{
    proof {
        reveal_strlit("\\:\\:\\:");
        reveal_strlit("\\:\\:");
        reveal_strlit("\\:");
        assert("\\:\\:\\:"@ =~= header_marker());
        assert("\\:\\:"@ =~= body_marker());
        assert("\\:"@ =~= footer_marker());
    }
    if str_eq(line, "\\:\\:\\:") {
        Some(Section::Header)
    } else if str_eq(line, "\\:\\:") {
        Some(Section::Body)
    } else if str_eq(line, "\\:") {
        Some(Section::Footer)
    } else {
        None
    }
}

/// Renders a line number into its field per the configured format:
/// right-justified space-padded, right-justified zero-padded, or
/// left-justified space-padded.
pub fn format_number(f: Format, width: usize, n: u32) -> (s: String)
    ensures
        s@ == number_field(f, width as nat, n),
{
    let d = to_decimal(n as u64);
    let dl = d.as_str().unicode_len();
    if dl >= width {
        d
    } else {
        match f {
            Format::RightNoZero => {
                let mut s = spaces(width - dl);
                s.append(d.as_str());
                s
            },
            Format::RightZero => {
                let mut s = zeros(width - dl);
                s.append(d.as_str());
                s
            },
            Format::LeftNoZero => {
                let mut s = d;
                let pad = spaces(width - dl);
                s.append(pad.as_str());
                s
            },
        }
    }
}

/// Applies the numbering state machine to one input line: returns the
/// output line and updates the state as `step_output` and `step_next`
/// say.
pub fn number_line(cfg: &NumberingConfig, state: &mut NumbererState, line: &String) -> (out: String)
    requires
        cfg.wf(),
    ensures
        out@ == step_output(*cfg, *old(state), line@),
        *final(state) == step_next(*cfg, *old(state), line@),
{
    match delim_kind(line.as_str()) {
        Some(sec) => {
            if cfg.renumber_per_section {
                state.line_count = cfg.start;
            }
            state.current_section = sec;
            String::new()
        },
        None => {
            let style = match state.current_section {
                Section::Header => cfg.header_style,
                Section::Body => cfg.body_style,
                Section::Footer => cfg.footer_style,
            };
            match style {
                Style::NoNumbering => {
                    let mut s = spaces(cfg.width + cfg.separator.as_str().len());
                    s.append(line.as_str());
                    s
                },
                Style::NonEmpty => {
                    if line.as_str().unicode_len() == 0 {
                        line.clone()
                    } else {
                        let mut s = format_number(cfg.format, cfg.width, state.line_count);
                        s.append(cfg.separator.as_str());
                        s.append(line.as_str());
                        state.line_count = state.line_count.wrapping_add(cfg.increment);
                        s
                    }
                },
                Style::All => {
                    let mut s = format_number(cfg.format, cfg.width, state.line_count);
                    s.append(cfg.separator.as_str());
                    s.append(line.as_str());
                    state.line_count = state.line_count.wrapping_add(cfg.increment);
                    s
                },
            }
        },
    }
}

/// The run produces exactly one output line per input line.
pub proof fn lemma_run_outputs_len(cfg: NumberingConfig, st: NumbererState, lines: Seq<Seq<char>>)
    ensures
        run_outputs(cfg, st, lines).len() == lines.len(),
    decreases lines.len(),
{
    if lines.len() > 0 {
        lemma_run_outputs_len(cfg, step_next(cfg, st, lines[0]), lines.drop_first());
    }
}

/// Numbers a whole input: the transformed stream of `run_outputs`,
/// starting in the body section at the configured start value.
pub fn nl(cfg: &NumberingConfig, lines: &Vec<String>) -> (out: Vec<String>)
    requires
        cfg.wf(),
    ensures
        out@.len() == lines@.len(),
        seq_views(out@) == run_outputs(*cfg, initial_state(*cfg), seq_views(lines@)),
{
    let ghost lv = seq_views(lines@);
    let ghost full = run_outputs(*cfg, initial_state(*cfg), lv);
    proof {
        lemma_run_outputs_len(*cfg, initial_state(*cfg), lv);
        assert(lv.skip(0) =~= lv);
        assert(full.skip(0) =~= full);
        assert(seq_views(Seq::<String>::empty()) =~= full.take(0));
    }
    let mut state = NumbererState { current_section: Section::Body, line_count: cfg.start };
    let mut out: Vec<String> = Vec::new();
    let mut i: usize = 0;
    while i < lines.len()
        invariant
            cfg.wf(),
            lv == seq_views(lines@),
            lv.len() == lines@.len(),
            forall|j: int| 0 <= j < lv.len() ==> lv[j] == lines@[j]@,
            full == run_outputs(*cfg, initial_state(*cfg), lv),
            full.len() == lv.len(),
            i <= lines.len(),
            out@.len() == i,
            seq_views(out@) =~= full.take(i as int),
            run_outputs(*cfg, state, lv.skip(i as int)) == full.skip(i as int),
        decreases lines.len() - i,
    {
        proof {
            assert(lv.skip(i as int)[0] == lv[i as int]);
            assert(lv.skip(i as int).drop_first() =~= lv.skip(i as int + 1));
            assert(full.skip(i as int)[0] == full[i as int]);
            assert(full.skip(i as int).drop_first() =~= full.skip(i as int + 1));
        }
        let o = number_line(cfg, &mut state, &lines[i]);
        proof {
            assert(o@ == full[i as int]);
        }
        out.push(o);
        i = i + 1;
        proof {
            assert(seq_views(out@) =~= full.take(i as int));
        }
    }
    proof {
        assert(full.take(lv.len() as int) =~= full);
    }
    out
}

/// A section-marker line never counts toward numbering, always renders
/// as a single empty output line, and flips the active section, with
/// the counter reset exactly when renumbering per section is on.
pub proof fn lemma_delimiter_step(cfg: NumberingConfig, st: NumbererState, l: Seq<char>)
    requires
        is_delim(l),
    ensures
        step_output(cfg, st, l) == Seq::<char>::empty(),
        step_next(cfg, st, l).current_section == delim_section(l).unwrap(),
        step_next(cfg, st, l).line_count == if cfg.renumber_per_section {
            cfg.start
        } else {
            st.line_count
        },
        !is_numbered(cfg, st, l),
{
}

/// Under the no-numbering style an ordinary line is echoed exactly,
/// prefixed with one space for each column of the number field and each
/// byte of the separator, and the state does not change.
pub proof fn lemma_none_style_step(cfg: NumberingConfig, st: NumbererState, l: Seq<char>)
    requires
        !is_delim(l),
        style_of(cfg, st.current_section) == Style::NoNumbering,
    ensures
        step_output(cfg, st, l) == repeat_char(' ', cfg.indent_width()) + l,
        step_next(cfg, st, l) == st,
{
}

/// Under the nonempty-only style an empty line is echoed unchanged,
/// with no number and no indent, and the state does not change.
pub proof fn lemma_nonempty_style_empty_line(cfg: NumberingConfig, st: NumbererState, l: Seq<char>)
    requires
        !is_delim(l),
        style_of(cfg, st.current_section) == Style::NonEmpty,
        l.len() == 0,
    ensures
        step_output(cfg, st, l) == l,
        step_next(cfg, st, l) == st,
{
}

/// The state the machine is in just before the line at index `i`.
pub open spec fn state_before(
    cfg: NumberingConfig,
    st0: NumbererState,
    lines: Seq<Seq<char>>,
    i: int,
) -> NumbererState
    decreases i,
{
    if i <= 0 {
        st0
    } else {
        step_next(cfg, state_before(cfg, st0, lines, i - 1), lines[i - 1])
    }
}

/// Dropping the first line shifts the state-before index by one.
proof fn lemma_state_before_shift(
    cfg: NumberingConfig,
    st0: NumbererState,
    lines: Seq<Seq<char>>,
    i: int,
)
    requires
        1 <= i <= lines.len(),
    ensures
        state_before(cfg, st0, lines, i) == state_before(
            cfg,
            step_next(cfg, st0, lines[0]),
            lines.drop_first(),
            i - 1,
        ),
    decreases i,
{
    reveal_with_fuel(state_before, 3);
    if i > 1 {
        lemma_state_before_shift(cfg, st0, lines, i - 1);
        assert(lines.drop_first()[i - 2] == lines[i - 1]);
    }
}

/// Each output line is the step output of the line it answers, taken in
/// the state the machine reached just before it.
pub proof fn lemma_run_output_at(
    cfg: NumberingConfig,
    st0: NumbererState,
    lines: Seq<Seq<char>>,
    i: int,
)
    requires
        0 <= i < lines.len(),
    ensures
        run_outputs(cfg, st0, lines)[i] == step_output(
            cfg,
            state_before(cfg, st0, lines, i),
            lines[i],
        ),
    decreases i,
{
    lemma_run_outputs_len(cfg, step_next(cfg, st0, lines[0]), lines.drop_first());
    if i == 0 {
    } else {
        lemma_run_output_at(cfg, step_next(cfg, st0, lines[0]), lines.drop_first(), i - 1);
        lemma_state_before_shift(cfg, st0, lines, i);
        assert(lines.drop_first()[i - 1] == lines[i]);
    }
}

/// How many numbered lines precede index `i` under the all-lines style:
/// the ordinary lines since the last marker when renumbering per
/// section, and since the beginning otherwise.
pub open spec fn ordinal_before(cfg: NumberingConfig, lines: Seq<Seq<char>>, i: int) -> nat
    decreases i,
{
    if i <= 0 {
        0
    } else if is_delim(lines[i - 1]) {
        if cfg.renumber_per_section {
            0
        } else {
            ordinal_before(cfg, lines, i - 1)
        }
    } else {
        ordinal_before(cfg, lines, i - 1) + 1
    }
}

/// The ordinal is bounded by the index.
pub proof fn lemma_ordinal_le(cfg: NumberingConfig, lines: Seq<Seq<char>>, i: int)
    requires
        i >= 0,
    ensures
        ordinal_before(cfg, lines, i) <= i,
    decreases i,
{
    if i > 0 {
        lemma_ordinal_le(cfg, lines, i - 1);
    }
}

/// With every section numbering all lines, the counter before index `i`
/// is exactly the start value advanced once per numbered line, with
/// section resets applied.
proof fn lemma_state_before_all_styles(cfg: NumberingConfig, lines: Seq<Seq<char>>, i: int)
    requires
        cfg.header_style == Style::All,
        cfg.body_style == Style::All,
        cfg.footer_style == Style::All,
        0 <= i <= lines.len(),
        cfg.start + lines.len() * cfg.increment <= u32::MAX,
    ensures
        state_before(cfg, initial_state(cfg), lines, i).line_count == cfg.start + ordinal_before(
            cfg,
            lines,
            i,
        ) * cfg.increment,
    decreases i,
{
    reveal_with_fuel(state_before, 2);
    reveal_with_fuel(ordinal_before, 2);
    if i > 0 {
        lemma_state_before_all_styles(cfg, lines, i - 1);
        lemma_ordinal_le(cfg, lines, i - 1);
        let st = state_before(cfg, initial_state(cfg), lines, i - 1);
        let l = lines[i - 1];
        let ord = ordinal_before(cfg, lines, i - 1);
        assert(state_before(cfg, initial_state(cfg), lines, i) == step_next(cfg, st, l));
        if is_delim(l) {
            assert(ordinal_before(cfg, lines, i) == if cfg.renumber_per_section {
                0
            } else {
                ord as int
            });
            assert(step_next(cfg, st, l).line_count == if cfg.renumber_per_section {
                cfg.start
            } else {
                st.line_count
            });
        } else {
            assert((ord + 1) * cfg.increment <= lines.len() * cfg.increment) by {
                vstd::arithmetic::mul::lemma_mul_inequality(
                    ord + 1 as int,
                    lines.len() as int,
                    cfg.increment as int,
                );
            }
            assert((ord + 1) * cfg.increment == ord * cfg.increment + cfg.increment) by {
                vstd::arithmetic::mul::lemma_mul_is_distributive_add_other_way(
                    cfg.increment as int,
                    ord as int,
                    1,
                );
            }
            assert(st.line_count + cfg.increment <= u32::MAX);
            assert(is_numbered(cfg, st, l));
            assert(step_next(cfg, st, l).line_count == st.line_count + cfg.increment);
            assert(ordinal_before(cfg, lines, i) == ord + 1);
        }
        assert(state_before(cfg, initial_state(cfg), lines, i).line_count == cfg.start
            + ordinal_before(cfg, lines, i) * cfg.increment);
    } else {
        assert(state_before(cfg, initial_state(cfg), lines, 0) == initial_state(cfg));
        assert(ordinal_before(cfg, lines, 0) == 0);
        assert(state_before(cfg, initial_state(cfg), lines, i).line_count == cfg.start
            + ordinal_before(cfg, lines, i) * cfg.increment);
    }
}

/// Under the all-lines style the n-th numbered line of a section (n
/// counted 1-based from the most recent reset) renders with the number
/// `start + (n-1) * increment` in the configured format, followed by
/// the separator and the line itself. The bound on `start` keeps the
/// counter from wrapping anywhere in the run.
pub proof fn lemma_style_all_numbering(cfg: NumberingConfig, lines: Seq<Seq<char>>, i: int)
    requires
        cfg.header_style == Style::All,
        cfg.body_style == Style::All,
        cfg.footer_style == Style::All,
        0 <= i < lines.len(),
        !is_delim(lines[i]),
        cfg.start + lines.len() * cfg.increment <= u32::MAX,
    ensures
        run_outputs(cfg, initial_state(cfg), lines)[i] == number_field(
            cfg.format,
            cfg.width as nat,
            (cfg.start + ordinal_before(cfg, lines, i) * cfg.increment) as u32,
        ) + cfg.separator@ + lines[i],
{
    lemma_run_output_at(cfg, initial_state(cfg), lines, i);
    lemma_state_before_all_styles(cfg, lines, i);
    lemma_ordinal_le(cfg, lines, i);
    assert(ordinal_before(cfg, lines, i) * cfg.increment <= lines.len() * cfg.increment) by {
        vstd::arithmetic::mul::lemma_mul_inequality(
            ordinal_before(cfg, lines, i) as int,
            lines.len() as int,
            cfg.increment as int,
        );
    }
}

} // verus!
