//! Character classification used by the counting logic: whitespace,
//! control characters, and the byte-order-mark scalar values that are
//! excluded from display-width counting.

use vstd::prelude::*;

verus! {

/// True of the Unicode scalar values with the `White_Space` property.
/// These delimit words.
pub open spec fn is_whitespace_char(c: char) -> bool {
    let u = c as u32;
    ||| u == 0x20
    ||| (0x09 <= u && u <= 0x0d)
    ||| u == 0x85
    ||| u == 0xa0
    ||| u == 0x1680
    ||| (0x2000 <= u && u <= 0x200a)
    ||| u == 0x2028
    ||| u == 0x2029
    ||| u == 0x202f
    ||| u == 0x205f
    ||| u == 0x3000
}

/// True of the Unicode scalar values in the control-code general
/// category: the C0 range, DEL, and the C1 range.
pub open spec fn is_control_char(c: char) -> bool {
    let u = c as u32;
    u <= 0x1f || (0x7f <= u && u <= 0x9f)
}

/// True of the two byte-order-mark scalar values, which count as
/// characters but not toward a line's display width.
pub open spec fn is_bom_char(c: char) -> bool {
    c as u32 == 0xfeff || c as u32 == 0xfffe
}

/// True of the characters that count toward a line's display width:
/// everything except control characters and byte-order marks.
pub open spec fn is_width_char(c: char) -> bool {
    !is_control_char(c) && !is_bom_char(c)
}

/// Decides the `White_Space` property of a scalar value.
pub fn char_is_whitespace(c: char) -> (b: bool)
    ensures
        b == is_whitespace_char(c),
{
    let u = c as u32;
    u == 0x20 || (0x09 <= u && u <= 0x0d) || u == 0x85 || u == 0xa0 || u == 0x1680 || (0x2000 <= u
        && u <= 0x200a) || u == 0x2028 || u == 0x2029 || u == 0x202f || u == 0x205f || u == 0x3000
}

/// Decides membership in the control-code general category.
pub fn char_is_control(c: char) -> (b: bool)
    ensures
        b == is_control_char(c),
{
    let u = c as u32;
    u <= 0x1f || (0x7f <= u && u <= 0x9f)
}

/// Decides whether a scalar value counts toward a line's display width.
pub fn char_is_width(c: char) -> (b: bool)
    ensures
        b == is_width_char(c),
{
    let u = c as u32;
    !(u <= 0x1f || (0x7f <= u && u <= 0x9f)) && u != 0xfeff && u != 0xfffe
}

} // verus!
