//! Splitting a text into line records. A line record carries its original
//! terminator: every line ends with `'\n'` except possibly the last, and no
//! `'\n'` appears anywhere else in a line. Terminators are never normalized,
//! so output built from line records reproduces the input byte for byte.
use vstd::prelude::*;

verus! {

/// The line records of `s` from position `i` on, with `start` marking where
/// the line currently being scanned began. A `'\n'` closes a line (and is
/// kept in it); a final unterminated line is still a record.
pub open spec fn lines_from(s: Seq<char>, i: int, start: int) -> Seq<Seq<char>>
    recommends
        0 <= start <= i <= s.len(),
    decreases s.len() - i,
{
    if i < 0 || i >= s.len() {
        if start < s.len() {
            seq![s.subrange(start, s.len() as int)]
        } else {
            Seq::empty()
        }
    } else if s[i] == '\n' {
        seq![s.subrange(start, i + 1)] + lines_from(s, i + 1, i + 1)
    } else {
        lines_from(s, i + 1, start)
    }
}

/// The line records of a whole text.
pub open spec fn lines_of(s: Seq<char>) -> Seq<Seq<char>> {
    lines_from(s, 0, 0)
}

proof fn lemma_lines_from_form(s: Seq<char>, i: int, start: int)
    requires
        0 <= start <= i <= s.len(),
        forall|j: int| start <= j < i ==> s[j] != '\n',
    ensures
        lines_from(s, i, start).flatten() == s.subrange(start, s.len() as int),
        forall|k: int|
            0 <= k < lines_from(s, i, start).len() ==> (#[trigger] lines_from(
                s,
                i,
                start,
            )[k]).len() > 0,
        forall|k: int|
            0 <= k < lines_from(s, i, start).len() - 1 ==> (#[trigger] lines_from(
                s,
                i,
                start,
            )[k]).last() == '\n',
        forall|k: int, j: int|
            0 <= k < lines_from(s, i, start).len() && 0 <= j < lines_from(s, i, start)[k].len() - 1
                ==> #[trigger] lines_from(s, i, start)[k][j] != '\n',
    decreases s.len() - i,
{
    let r = lines_from(s, i, start);
    if i >= s.len() {
        if start < s.len() {
            assert(r =~= seq![s.subrange(start, s.len() as int)]);
            r.lemma_flatten_one_element();
        } else {
            assert(r =~= Seq::<Seq<char>>::empty());
            assert(r.flatten() =~= Seq::<char>::empty());
            assert(s.subrange(start, s.len() as int) =~= Seq::<char>::empty());
        }
    } else if s[i] == '\n' {
        lemma_lines_from_form(s, i + 1, i + 1);
        let piece = s.subrange(start, i + 1);
        let rest = lines_from(s, i + 1, i + 1);
        assert(r =~= seq![piece] + rest);
        assert((seq![piece] + rest).drop_first() =~= rest);
        assert((seq![piece] + rest).first() == piece);
        assert(r.flatten() == piece + rest.flatten());
        assert(piece + s.subrange(i + 1, s.len() as int) =~= s.subrange(start, s.len() as int));
    } else {
        lemma_lines_from_form(s, i + 1, start);
    }
}

/// Line records partition the text: concatenated in order they reproduce it
/// exactly, every record is nonempty and holds `'\n'` only as its final
/// character, and every record but the last is `'\n'`-terminated.
pub proof fn lemma_lines_of_form(s: Seq<char>)
    ensures
        lines_of(s).flatten() == s,
        forall|k: int| 0 <= k < lines_of(s).len() ==> (#[trigger] lines_of(s)[k]).len() > 0,
        forall|k: int|
            0 <= k < lines_of(s).len() - 1 ==> (#[trigger] lines_of(s)[k]).last() == '\n',
        forall|k: int, j: int|
            0 <= k < lines_of(s).len() && 0 <= j < lines_of(s)[k].len() - 1
                ==> #[trigger] lines_of(s)[k][j] != '\n',
{
    lemma_lines_from_form(s, 0, 0);
    assert(s.subrange(0, s.len() as int) =~= s);
}

/// Splits a text into its line records, terminators preserved.
pub fn split_lines(s: &str) -> (r: Vec<String>)
    ensures
        r.deep_view() == lines_of(s@),
{
    let n = s.unicode_len();
    let mut r: Vec<String> = Vec::new();
    let mut start: usize = 0;
    let mut i: usize = 0;
    while i < n
        invariant
            start <= i <= n,
            n == s@.len(),
            lines_of(s@) == r.deep_view() + lines_from(s@, i as int, start as int),
        decreases n - i,
    {
        let ghost prev = r.deep_view();
        let c = s.get_char(i);
        if c == '\n' {
            let piece = s.substring_char(start, i + 1);
            r.push(String::from_str(piece));
            proof {
                assert(r.deep_view() =~= prev.push(piece@));
            }
            start = i + 1;
        }
        i += 1;
        proof {
            assert(lines_of(s@) =~= r.deep_view() + lines_from(s@, i as int, start as int));
        }
    }
    if start < n {
        let ghost prev = r.deep_view();
        let piece = s.substring_char(start, n);
        r.push(String::from_str(piece));
        proof {
            assert(r.deep_view() =~= prev.push(piece@));
        }
    }
    proof {
        assert(r.deep_view() =~= lines_of(s@));
    }
    r
}

} // verus!
