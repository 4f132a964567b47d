//! Resolved flags of the head-style tool, and the parser for its signed
//! count argument: an optional leading minus, decimal digits, and an
//! optional unit suffix (`K`, `M`, `G` for powers of 1024, `kB`, `MB`, `GB`
//! for powers of 1000, `b` for 512) that scales the count. A zero count and
//! overflow during scaling are rejected here, at configuration time.
use crate::chars::{digit_value, digit_value_of, is_digit, is_digit_char};
use vstd::prelude::*;

verus! {

/// Resolved flags: the inputs to read, and a byte count or a line count.
pub struct Headr {
    /// Inputs to read, in order; `"-"` names standard input.
    pub files: Vec<String>,
    /// Byte window count, when byte mode was selected.
    pub bytes: Option<i64>,
    /// Line window count, used when no byte count is given.
    pub lines: i64,
}

impl Headr {
    /// Whether the run selects bytes rather than lines.
    pub fn read_bytes(&self) -> (r: bool)
        ensures
            r == self.bytes is Some,
    {
        self.bytes.is_some()
    }
}

/// Whether the argument carries a leading minus, selecting the
/// all-but-last window.
pub open spec fn arg_negative(cs: Seq<char>) -> bool {
    cs.len() > 0 && cs[0] == '-'
}

/// The argument with its leading minus, if any, removed; every remaining
/// character is classified as digit or unit.
pub open spec fn arg_rest(cs: Seq<char>) -> Seq<char> {
    if arg_negative(cs) {
        cs.skip(1)
    } else {
        cs
    }
}

/// The decimal digits of the argument, in order.
pub open spec fn digits_of(cs: Seq<char>) -> Seq<char>
    decreases cs.len(),
{
    if cs.len() == 0 {
        Seq::empty()
    } else if is_digit(cs.last()) {
        digits_of(cs.drop_last()).push(cs.last())
    } else {
        digits_of(cs.drop_last())
    }
}

/// The non-digit characters of the argument, in order: the unit suffix.
pub open spec fn units_of(cs: Seq<char>) -> Seq<char>
    decreases cs.len(),
{
    if cs.len() == 0 {
        Seq::empty()
    } else if is_digit(cs.last()) {
        units_of(cs.drop_last())
    } else {
        units_of(cs.drop_last()).push(cs.last())
    }
}

/// The value of a string of decimal digits.
pub open spec fn dec_value(ds: Seq<char>) -> nat
    decreases ds.len(),
{
    if ds.len() == 0 {
        0
    } else {
        dec_value(ds.drop_last()) * 10 + digit_value(ds.last())
    }
}

/// The multiplier a unit suffix selects, or `None` for an unknown suffix.
pub open spec fn unit_factor(us: Seq<char>) -> Option<int> {
    if us.len() == 0 {
        Some(1)
    } else if us.len() == 1 && us[0] == 'K' {
        Some(1024)
    } else if us.len() == 1 && us[0] == 'M' {
        Some((1024 * 1024) as int)
    } else if us.len() == 1 && us[0] == 'G' {
        Some((1024 * 1024 * 1024) as int)
    } else if us.len() == 1 && us[0] == 'b' {
        Some(512)
    } else if us.len() == 2 && us[0] == 'k' && us[1] == 'B' {
        Some(1000)
    } else if us.len() == 2 && us[0] == 'M' && us[1] == 'B' {
        Some((1000 * 1000) as int)
    } else if us.len() == 2 && us[0] == 'G' && us[1] == 'B' {
        Some((1000 * 1000 * 1000) as int)
    } else {
        None
    }
}

/// What parsing the count argument yields: the signed, scaled value, or the
/// rejection message. The digits must form a number no larger than
/// `i64::MAX`, the number must be non-zero, the unit suffix must be known,
/// and the scaled value must still fit.
pub open spec fn parsed_arg(cs: Seq<char>) -> Result<int, Seq<char>> {
    let ds = digits_of(arg_rest(cs));
    if ds.len() == 0 || dec_value(ds) > i64::MAX {
        Err("must be a numeric string"@)
    } else if dec_value(ds) == 0 {
        Err("must be non-zero"@)
    } else {
        match unit_factor(units_of(arg_rest(cs))) {
            None => Err("unknown unit"@),
            Some(f) => {
                let v = dec_value(ds) * f;
                if v > i64::MAX {
                    Err("value is too large"@)
                } else if arg_negative(cs) {
                    Ok(-v)
                } else {
                    Ok(v)
                }
            },
        }
    }
}

/// The characters of the argument scanned after `i` steps, leading minus
/// excluded.
pub open spec fn scanned(cs: Seq<char>, i: int) -> Seq<char> {
    if arg_negative(cs) {
        if i <= 0 {
            Seq::empty()
        } else {
            cs.subrange(1, i)
        }
    } else {
        cs.take(i)
    }
}

proof fn lemma_dec_value_push(ds: Seq<char>, c: char)
    ensures
        dec_value(ds.push(c)) == dec_value(ds) * 10 + digit_value(c),
{
    assert(ds.push(c).drop_last() =~= ds);
    assert(ds.push(c).last() == c);
}

proof fn lemma_scan_push(cs: Seq<char>, c: char, old_digits: Seq<char>, old_units: Seq<char>)
    requires
        old_digits == digits_of(cs),
        old_units == units_of(cs),
    ensures
        is_digit(c) ==> digits_of(cs.push(c)) == old_digits.push(c) && units_of(cs.push(c))
            == old_units,
        !is_digit(c) ==> digits_of(cs.push(c)) == old_digits && units_of(cs.push(c))
            == old_units.push(c),
{
    assert(cs.push(c).drop_last() =~= cs);
    assert(cs.push(c).last() == c);
}

/// Parses the signed count argument, scaling by the unit suffix; rejects a
/// non-numeric or too-large number, a zero count, an unknown suffix, and a
/// scaled value that overflows.
pub fn parse_arg(s: &str) -> (r: Result<i64, String>)
    ensures
        match r {
            Ok(v) => parsed_arg(s@) == Ok::<int, Seq<char>>(v as int),
            Err(e) => parsed_arg(s@) == Err::<int, Seq<char>>(e@),
        },
{
    let i64_max: u64 = 9223372036854775807;
    proof {
        assert(i64_max == i64::MAX);
    }
    let n = s.unicode_len();
    let mut unit: Vec<char> = Vec::new();
    let mut negative = false;
    let mut has_digit = false;
    let mut overflow = false;
    let mut value: u64 = 0;
    let ghost mut digits: Seq<char> = Seq::empty();
    let mut i: usize = 0;
    while i < n
        invariant
            n == s@.len(),
            i <= n,
            i == 0 ==> !negative,
            i > 0 ==> negative == arg_negative(s@),
            digits == digits_of(scanned(s@, i as int)),
            unit@ == units_of(scanned(s@, i as int)),
            has_digit == (digits.len() > 0),
            i64_max == i64::MAX,
            !overflow ==> value == dec_value(digits) && value <= i64_max,
            overflow ==> dec_value(digits) > i64_max,
        decreases n - i,
    {
        let ghost pre = scanned(s@, i as int);
        let c = s.get_char(i);
        if i == 0 && c == '-' {
            negative = true;
            proof {
                assert(scanned(s@, 1) =~= pre);
            }
        } else {
            proof {
                assert(scanned(s@, i + 1) =~= pre.push(c));
                lemma_scan_push(pre, c, digits, unit@);
            }
            if is_digit_char(c) {
                has_digit = true;
                proof {
                    lemma_dec_value_push(digits, c);
                }
                let d = digit_value_of(c) as u64;
                if !overflow {
                    if value <= (i64_max - d) / 10 {
                        proof {
                            assert(value * 10 + d <= i64_max) by (nonlinear_arith)
                                requires
                                    value <= (i64_max - d) / 10,
                                    d <= 9,
                                    i64_max == 9223372036854775807,
                            ;
                        }
                        value = value * 10 + d;
                    } else {
                        proof {
                            assert(value * 10 + d > i64_max) by (nonlinear_arith)
                                requires
                                    value > (i64_max - d) / 10,
                                    d <= 9,
                                    i64_max == 9223372036854775807,
                            ;
                        }
                        overflow = true;
                    }
                } else {
                    proof {
                        assert(dec_value(digits) * 10 + digit_value(c) > i64_max);
                    }
                }
                proof {
                    digits = digits.push(c);
                }
            } else {
                unit.push(c);
            }
        }
        i += 1;
    }
    proof {
        assert(scanned(s@, n as int) =~= arg_rest(s@));
    }
    if !has_digit || overflow {
        return Err(String::from_str("must be a numeric string"));
    }
    if value == 0 {
        return Err(String::from_str("must be non-zero"));
    }
    let factor: u64 = if unit.len() == 0 {
        1
    } else if unit.len() == 1 {
        let c = unit[0];
        if c == 'K' {
            1024
        } else if c == 'M' {
            1024 * 1024
        } else if c == 'G' {
            1024 * 1024 * 1024
        } else if c == 'b' {
            512
        } else {
            return Err(String::from_str("unknown unit"));
        }
    } else if unit.len() == 2 && unit[0] == 'k' && unit[1] == 'B' {
        1000
    } else if unit.len() == 2 && unit[0] == 'M' && unit[1] == 'B' {
        1000 * 1000
    } else if unit.len() == 2 && unit[0] == 'G' && unit[1] == 'B' {
        1000 * 1000 * 1000
    } else {
        return Err(String::from_str("unknown unit"));
    };
    if value > i64_max / factor {
        proof {
            assert(value * factor > i64_max) by (nonlinear_arith)
                requires
                    value > i64_max / factor,
                    factor >= 1,
            ;
        }
        return Err(String::from_str("value is too large"));
    }
    proof {
        assert(value * factor <= i64_max) by (nonlinear_arith)
            requires
                value <= i64_max / factor,
                factor >= 1,
        ;
    }
    let scaled = value * factor;
    let v: i64 = if negative {
        -(scaled as i64)
    } else {
        scaled as i64
    };
    Ok(v)
}

} // verus!
