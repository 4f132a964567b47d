//! Decimal rendering of counts, and the fixed-width right-justified field
//! that grouped and tallied output lines use.
use vstd::prelude::*;

verus! {

/// The character for one decimal digit value.
pub open spec fn digit_char(d: nat) -> char
    recommends
        d < 10,
{
    if d == 0 {
        '0'
    } else if d == 1 {
        '1'
    } else if d == 2 {
        '2'
    } else if d == 3 {
        '3'
    } else if d == 4 {
        '4'
    } else if d == 5 {
        '5'
    } else if d == 6 {
        '6'
    } else if d == 7 {
        '7'
    } else if d == 8 {
        '8'
    } else {
        '9'
    }
}

/// The decimal representation of a number, most significant digit first,
/// without a sign and without leading zeros (zero itself is `"0"`).
pub open spec fn dec_digits(n: nat) -> Seq<char>
    decreases n,
{
    if n < 10 {
        seq![digit_char(n)]
    } else {
        dec_digits(n / 10).push(digit_char(n % 10))
    }
}

/// A run of space characters.
pub open spec fn spaces(n: nat) -> Seq<char>
    decreases n,
{
    if n == 0 {
        Seq::empty()
    } else {
        spaces((n - 1) as nat).push(' ')
    }
}

/// `s` right-justified in a field of width `w`: padded on the left with
/// spaces when shorter than `w`, unchanged otherwise.
pub open spec fn right_justified(s: Seq<char>, w: nat) -> Seq<char> {
    if s.len() >= w {
        s
    } else {
        spaces((w - s.len()) as nat) + s
    }
}

fn digit_str(d: u64) -> (s: String)
    requires
        d < 10,
    ensures
        s@ =~= seq![digit_char(d as nat)],
{
    let t: &str = if d == 0 {
        "0"
    } else if d == 1 {
        "1"
    } else if d == 2 {
        "2"
    } else if d == 3 {
        "3"
    } else if d == 4 {
        "4"
    } else if d == 5 {
        "5"
    } else if d == 6 {
        "6"
    } else if d == 7 {
        "7"
    } else if d == 8 {
        "8"
    } else {
        "9"
    };
    proof {
        reveal_strlit("0");
        reveal_strlit("1");
        reveal_strlit("2");
        reveal_strlit("3");
        reveal_strlit("4");
        reveal_strlit("5");
        reveal_strlit("6");
        reveal_strlit("7");
        reveal_strlit("8");
        reveal_strlit("9");
    }
    String::from_str(t)
}

/// Renders a number in decimal, matching `dec_digits`.
pub fn fmt_u64(n: u64) -> (s: String)
    ensures
        s@ == dec_digits(n as nat),
    decreases n,
{
    if n < 10 {
        digit_str(n)
    } else {
        let mut s = fmt_u64(n / 10);
        let d = digit_str(n % 10);
        s.append(d.as_str());
        proof {
            assert(s@ =~= dec_digits(n as nat));
        }
        s
    }
}

/// Right-justifies a string in a field of `width` characters, padding with
/// spaces on the left.
pub fn pad_left(s: &str, width: usize) -> (r: String)
    ensures
        r@ == right_justified(s@, width as nat),
{
    let len = s.unicode_len();
    if len >= width {
        return String::from_str(s);
    }
    let mut pad = String::new();
    let mut i: usize = 0;
    while i < width - len
        invariant
            i <= width - len,
            len == s@.len(),
            len < width,
            pad@ == spaces(i as nat),
        decreases width - len - i,
    {
        pad.append(" ");
        proof {
            reveal_strlit(" ");
            assert(pad@ =~= spaces((i + 1) as nat));
        }
        i += 1;
    }
    pad.append(s);
    pad
}

} // verus!
