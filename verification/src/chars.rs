//! Character classification shared by the utility cores: line terminators,
//! ASCII case folding, whitespace (for word splitting), and decimal digits.
use vstd::prelude::*;

verus! {

/// A character that line-oriented comparison strips from the end of a line.
pub open spec fn is_line_terminator(c: char) -> bool {
    c == '\n' || c == '\r'
}

/// The code point a character compares as under ASCII case folding:
/// ASCII upper-case letters map to their lower-case counterpart, every
/// other character to itself.
pub open spec fn fold_code(c: char) -> u32 {
    if 65 <= c as u32 <= 90 {
        (c as u32 + 32) as u32
    } else {
        c as u32
    }
}

/// The case-folded image of a whole sequence of characters.
pub open spec fn fold_seq(s: Seq<char>) -> Seq<u32> {
    s.map_values(|c: char| fold_code(c))
}

/// Code points with the Unicode `White_Space` property; these delimit words.
pub open spec fn is_space_code(u: u32) -> bool {
    ||| (0x09 <= u <= 0x0D)
    ||| u == 0x20
    ||| u == 0x85
    ||| u == 0xA0
    ||| u == 0x1680
    ||| (0x2000 <= u <= 0x200A)
    ||| u == 0x2028
    ||| u == 0x2029
    ||| u == 0x202F
    ||| u == 0x205F
    ||| u == 0x3000
}

/// Whether a character delimits words when counting them.
pub open spec fn is_space(c: char) -> bool {
    is_space_code(c as u32)
}

/// Runtime check matching the `is_space` specification.
pub fn is_space_char(c: char) -> (r: bool)
    ensures
        r == is_space(c),
{
    let u = c as u32;
    (0x09 <= u && u <= 0x0D) || u == 0x20 || u == 0x85 || u == 0xA0 || u == 0x1680 || (0x2000 <= u
        && u <= 0x200A) || u == 0x2028 || u == 0x2029 || u == 0x202F || u == 0x205F || u == 0x3000
}

/// Runtime check for a line terminator character.
pub fn is_line_terminator_char(c: char) -> (r: bool)
    ensures
        r == is_line_terminator(c),
{
    c == '\n' || c == '\r'
}

/// Runtime ASCII case folding to a code point.
pub fn fold_code_of(c: char) -> (u: u32)
    ensures
        u == fold_code(c),
{
    let v = c as u32;
    if 65 <= v && v <= 90 {
        v + 32
    } else {
        v
    }
}

/// A decimal digit character.
pub open spec fn is_digit(c: char) -> bool {
    48 <= c as u32 <= 57
}

/// The numeric value of a decimal digit character.
pub open spec fn digit_value(c: char) -> nat
    recommends
        is_digit(c),
{
    (c as u32 - 48) as nat
}

/// Runtime check for a decimal digit.
pub fn is_digit_char(c: char) -> (r: bool)
    ensures
        r == is_digit(c),
{
    let u = c as u32;
    48 <= u && u <= 57
}

/// Runtime value of a decimal digit.
pub fn digit_value_of(c: char) -> (v: u32)
    requires
        is_digit(c),
    ensures
        v == digit_value(c),
        v <= 9,
{
    c as u32 - 48
}

} // verus!
