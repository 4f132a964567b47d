//! The counting accumulator: reads an input line by line and tallies raw
//! bytes (terminator included), decoded characters, lines, and
//! whitespace-delimited words — each only when enabled — then folds
//! per-input tallies into a running total in input order.
use crate::chars::{is_space, is_space_char};
use crate::lines::{lines_of, split_lines};
use crate::wcr::args::Wcr;
use crate::wcr::result::{
    combine, tally_fits, CountResult, FileCount, FileCountView, ResultItem, ResultItemView,
};
use vstd::prelude::*;
use vstd::utf8::encode_utf8;

verus! {

/// The number of whitespace-delimited words in `s` from position `i` on,
/// with `in_word` saying whether position `i` continues a word begun
/// earlier.
pub open spec fn words_from(s: Seq<char>, i: int, in_word: bool) -> nat
    decreases s.len() - i,
{
    if i < 0 || i >= s.len() {
        0
    } else if is_space(s[i]) {
        words_from(s, i + 1, false)
    } else if in_word {
        words_from(s, i + 1, true)
    } else {
        1 + words_from(s, i + 1, true)
    }
}

/// The number of whitespace-delimited words in a line.
pub open spec fn words_in(s: Seq<char>) -> nat {
    words_from(s, 0, false)
}

/// Counts the whitespace-delimited words of one line.
pub fn count_words(s: &str) -> (n: usize)
    ensures
        n == words_in(s@),
{
    let len = s.unicode_len();
    let mut count: usize = 0;
    let mut in_word = false;
    let mut i: usize = 0;
    while i < len
        invariant
            i <= len,
            len == s@.len(),
            count <= i,
            words_in(s@) == count + words_from(s@, i as int, in_word),
        decreases len - i,
    {
        let c = s.get_char(i);
        if is_space_char(c) {
            in_word = false;
        } else {
            if !in_word {
                count += 1;
            }
            in_word = true;
        }
        i += 1;
    }
    count
}

/// The raw byte length of a sequence of lines, terminators included.
pub open spec fn total_bytes(ls: Seq<Seq<char>>) -> int
    decreases ls.len(),
{
    if ls.len() == 0 {
        0
    } else {
        total_bytes(ls.drop_last()) + encode_utf8(ls.last()).len()
    }
}

/// The decoded character count of a sequence of lines.
pub open spec fn total_chars(ls: Seq<Seq<char>>) -> int
    decreases ls.len(),
{
    if ls.len() == 0 {
        0
    } else {
        total_chars(ls.drop_last()) + ls.last().len()
    }
}

/// The word count of a sequence of lines.
pub open spec fn total_words(ls: Seq<Seq<char>>) -> int
    decreases ls.len(),
{
    if ls.len() == 0 {
        0
    } else {
        total_words(ls.drop_last()) + words_in(ls.last())
    }
}

/// Each running total over a prefix of the lines is bounded by the total
/// over all of them.
proof fn lemma_totals_monotone(ls: Seq<Seq<char>>, i: int)
    requires
        0 <= i <= ls.len(),
    ensures
        0 <= total_bytes(ls.take(i)) <= total_bytes(ls),
        0 <= total_chars(ls.take(i)) <= total_chars(ls),
        0 <= total_words(ls.take(i)) <= total_words(ls),
        0 <= ls.take(i).len() <= ls.len(),
    decreases ls.len() - i,
{
    if i == ls.len() {
        assert(ls.take(i) =~= ls);
        lemma_totals_nonnegative(ls);
    } else {
        lemma_totals_monotone(ls, i + 1);
        lemma_totals_nonnegative(ls.take(i));
        assert(ls.take(i + 1).drop_last() =~= ls.take(i));
    }
}

proof fn lemma_totals_nonnegative(ls: Seq<Seq<char>>)
    ensures
        total_bytes(ls) >= 0,
        total_chars(ls) >= 0,
        total_words(ls) >= 0,
    decreases ls.len(),
{
    if ls.len() > 0 {
        lemma_totals_nonnegative(ls.drop_last());
    }
}

proof fn lemma_encode_utf8_concat(a: Seq<char>, b: Seq<char>)
    ensures
        encode_utf8(a + b) == encode_utf8(a) + encode_utf8(b),
    decreases a.len(),
{
    if a.len() == 0 {
        assert(a + b =~= b);
        assert(encode_utf8(a) + encode_utf8(b) =~= encode_utf8(b));
    } else {
        lemma_encode_utf8_concat(a.drop_first(), b);
        assert((a + b).drop_first() =~= a.drop_first() + b);
        assert((a + b)[0] == a[0]);
        assert(encode_utf8(a + b) =~= encode_utf8(a) + encode_utf8(b));
    }
}

proof fn lemma_total_bytes_flatten(ls: Seq<Seq<char>>)
    ensures
        total_bytes(ls) == encode_utf8(ls.flatten()).len(),
    decreases ls.len(),
{
    if ls.len() == 0 {
        assert(ls.flatten() =~= Seq::<char>::empty());
    } else {
        lemma_total_bytes_flatten(ls.drop_last());
        ls.lemma_flatten_and_flatten_alt_are_equivalent();
        ls.drop_last().lemma_flatten_and_flatten_alt_are_equivalent();
        lemma_encode_utf8_concat(ls.drop_last().flatten(), ls.last());
        assert(ls.flatten() =~= ls.drop_last().flatten() + ls.last());
    }
}

proof fn lemma_total_chars_flatten(ls: Seq<Seq<char>>)
    ensures
        total_chars(ls) == ls.flatten().len(),
    decreases ls.len(),
{
    if ls.len() == 0 {
        assert(ls.flatten() =~= Seq::<char>::empty());
    } else {
        lemma_total_chars_flatten(ls.drop_last());
        ls.lemma_flatten_and_flatten_alt_are_equivalent();
        ls.drop_last().lemma_flatten_and_flatten_alt_are_equivalent();
        assert(ls.flatten() =~= ls.drop_last().flatten() + ls.last());
    }
}

proof fn lemma_encode_at_least_len(s: Seq<char>)
    ensures
        encode_utf8(s).len() >= s.len(),
    decreases s.len(),
{
    if s.len() > 0 {
        lemma_encode_at_least_len(s.drop_first());
    }
}

proof fn lemma_words_at_most_len(s: Seq<char>, i: int, in_word: bool)
    requires
        0 <= i,
    ensures
        words_from(s, i, in_word) <= s.len() - i || words_from(s, i, in_word) == 0,
    decreases s.len() - i,
{
    if i < s.len() {
        lemma_words_at_most_len(s, i + 1, false);
        lemma_words_at_most_len(s, i + 1, true);
    }
}

proof fn lemma_total_words_at_most_chars(ls: Seq<Seq<char>>)
    ensures
        total_words(ls) <= total_chars(ls),
    decreases ls.len(),
{
    if ls.len() > 0 {
        lemma_total_words_at_most_chars(ls.drop_last());
        lemma_words_at_most_len(ls.last(), 0, false);
    }
}

proof fn lemma_total_chars_at_most_bytes(ls: Seq<Seq<char>>)
    ensures
        total_chars(ls) <= total_bytes(ls),
    decreases ls.len(),
{
    if ls.len() > 0 {
        lemma_total_chars_at_most_bytes(ls.drop_last());
        lemma_encode_at_least_len(ls.last());
    }
}

/// All three running totals of a text are bounded by its encoded byte
/// length: words never outnumber characters, and characters never outnumber
/// bytes. A caller that knows the byte length fits the machine word can
/// conclude that every tally does.
pub proof fn lemma_totals_bounded_by_bytes(text: Seq<char>)
    ensures
        total_words(lines_of(text)) <= total_chars(lines_of(text)),
        total_chars(lines_of(text)) <= total_bytes(lines_of(text)),
        total_bytes(lines_of(text)) == encode_utf8(text).len(),
{
    lemma_total_words_at_most_chars(lines_of(text));
    lemma_total_chars_at_most_bytes(lines_of(text));
    lemma_byte_total_is_text_length(text);
}

/// The per-line byte counts sum to the whole text's encoded byte length:
/// splitting into line records loses no byte and invents none.
pub proof fn lemma_byte_total_is_text_length(text: Seq<char>)
    ensures
        total_bytes(lines_of(text)) == encode_utf8(text).len(),
{
    crate::lines::lemma_lines_of_form(text);
    lemma_total_bytes_flatten(lines_of(text));
}

/// The per-line character counts sum to the whole text's length.
pub proof fn lemma_char_total_is_text_length(text: Seq<char>)
    ensures
        total_chars(lines_of(text)) == text.len(),
{
    crate::lines::lemma_lines_of_form(text);
    lemma_total_chars_flatten(lines_of(text));
}

/// The tally of one sequence of lines under the configured flags: each
/// enabled count is present, each disabled one absent.
pub open spec fn tally_lines(ls: Seq<Seq<char>>, filename: Seq<char>, wcr: Wcr) -> FileCountView {
    FileCountView {
        filename: filename,
        byte_count: if wcr.show_byte_count {
            Some(total_bytes(ls))
        } else {
            None
        },
        char_count: if wcr.show_char_count {
            Some(total_chars(ls))
        } else {
            None
        },
        line_count: if wcr.show_line_count {
            Some(ls.len() as int)
        } else {
            None
        },
        word_count: if wcr.show_word_count {
            Some(total_words(ls))
        } else {
            None
        },
    }
}

/// The tally of one input text: its line records tallied under the flags.
pub open spec fn tally_of(text: Seq<char>, filename: Seq<char>, wcr: Wcr) -> FileCountView {
    tally_lines(lines_of(text), filename, wcr)
}

/// Tallies one input: per line, the enabled counts grow by the line's raw
/// byte length (terminator included), its decoded character count, one, and
/// its word count.
pub fn get_counts(wcr: &Wcr, filename: &str, text: &str) -> (r: FileCount)
    requires
        wcr.show_byte_count ==> total_bytes(lines_of(text@)) <= usize::MAX,
        wcr.show_char_count ==> total_chars(lines_of(text@)) <= usize::MAX,
        wcr.show_word_count ==> total_words(lines_of(text@)) <= usize::MAX,
    ensures
        r@ == tally_of(text@, filename@, *wcr),
{
    let mut file_info = FileCount::new(filename, wcr);
    let lines = split_lines(text);
    let ghost lv = lines.deep_view();
    proof {
        assert(lv.take(0) =~= Seq::<Seq<char>>::empty());
    }
    let mut i: usize = 0;
    while i < lines.len()
        invariant
            i <= lines@.len(),
            lv == lines.deep_view(),
            lv == lines_of(text@),
            wcr.show_byte_count ==> total_bytes(lv) <= usize::MAX,
            wcr.show_char_count ==> total_chars(lv) <= usize::MAX,
            wcr.show_word_count ==> total_words(lv) <= usize::MAX,
            file_info@ == tally_lines(lv.take(i as int), filename@, *wcr),
        decreases lines@.len() - i,
    {
        proof {
            lemma_totals_monotone(lv, i as int);
            lemma_totals_monotone(lv, i + 1);
            assert(lv.take(i + 1).drop_last() =~= lv.take(i as int));
            assert(lv.take(i + 1).last() == lv[i as int]);
        }
        let line = &lines[i];
        if wcr.show_byte_count {
            file_info.increment_byte_count(line.as_str().len());
        }
        if wcr.show_char_count {
            file_info.increment_char_count(line.as_str().unicode_len());
        }
        if wcr.show_line_count {
            file_info.increment_line_count(1);
        }
        if wcr.show_word_count {
            file_info.increment_word_count(count_words(line.as_str()));
        }
        proof {
            assert(file_info@ == tally_lines(lv.take(i + 1), filename@, *wcr));
        }
        i += 1;
    }
    proof {
        assert(lv.take(lines@.len() as int) =~= lv);
    }
    file_info
}

/// One input by name, with its text or the message of the failure that
/// opening it produced.
pub struct WcSource {
    /// The name shown beside the counts; `"-"` names standard input.
    pub filename: String,
    /// The input's text, or the open failure's reason.
    pub content: Result<String, String>,
}

/// The tally that starts the running total.
pub open spec fn initial_totals(wcr: Wcr) -> FileCountView {
    FileCountView {
        filename: "total"@,
        byte_count: if wcr.show_byte_count {
            Some(0int)
        } else {
            None
        },
        char_count: if wcr.show_char_count {
            Some(0int)
        } else {
            None
        },
        line_count: if wcr.show_line_count {
            Some(0int)
        } else {
            None
        },
        word_count: if wcr.show_word_count {
            Some(0int)
        } else {
            None
        },
    }
}

/// The result each input contributes: its tally when it opened, its failure
/// otherwise.
pub open spec fn wc_item(src: WcSource, wcr: Wcr) -> ResultItemView {
    match src.content {
        Ok(t) => ResultItemView::Data(tally_of(t@, src.filename@, wcr)),
        Err(m) => ResultItemView::Failure { filename: src.filename@, msg: m@ },
    }
}

/// The per-input results of a run, in input order.
pub open spec fn wc_items(srcs: Seq<WcSource>, wcr: Wcr) -> Seq<ResultItemView> {
    Seq::new(srcs.len(), |i: int| wc_item(srcs[i], wcr))
}

/// The running total after folding every readable input into `acc`, in
/// input order.
pub open spec fn fold_totals(acc: FileCountView, srcs: Seq<WcSource>, wcr: Wcr) -> FileCountView
    decreases srcs.len(),
{
    if srcs.len() == 0 {
        acc
    } else {
        match srcs[0].content {
            Ok(t) => fold_totals(
                combine(acc, tally_of(t@, srcs[0].filename@, wcr)),
                srcs.drop_first(),
                wcr,
            ),
            Err(_) => fold_totals(acc, srcs.drop_first(), wcr),
        }
    }
}

/// Whether every intermediate running total along the fold stays within
/// machine range.
pub open spec fn totals_ok(acc: FileCountView, srcs: Seq<WcSource>, wcr: Wcr) -> bool
    decreases srcs.len(),
{
    if srcs.len() == 0 {
        true
    } else {
        match srcs[0].content {
            Ok(t) => {
                let v = combine(acc, tally_of(t@, srcs[0].filename@, wcr));
                tally_fits(v) && totals_ok(v, srcs.drop_first(), wcr)
            },
            Err(_) => totals_ok(acc, srcs.drop_first(), wcr),
        }
    }
}

/// Everything a run collects: one result per input in input order, then the
/// running total when more than one input was given.
pub open spec fn computed_items(wcr: Wcr, srcs: Seq<WcSource>) -> Seq<ResultItemView> {
    wc_items(srcs, wcr) + (if srcs.len() > 1 {
        seq![ResultItemView::Data(fold_totals(initial_totals(wcr), srcs, wcr))]
    } else {
        Seq::empty()
    })
}

/// Tallies every input in order: a readable input contributes its tally and
/// joins the running total, an unreadable one contributes its failure, and
/// no failure stops the inputs after it. With more than one input the
/// running total is appended.
pub fn compute(wcr: &Wcr, sources: &Vec<WcSource>) -> (r: CountResult)
    requires
        totals_ok(initial_totals(*wcr), sources@, *wcr),
    ensures
        r@ == computed_items(*wcr, sources@),
{
    let mut res = CountResult::new();
    let mut totals = FileCount::new("total", wcr);
    let ghost items = wc_items(sources@, *wcr);
    let mut i: usize = 0;
    proof {
        assert(sources@.skip(0) =~= sources@);
        assert(res@ =~= items.take(0));
    }
    while i < sources.len()
        invariant
            i <= sources@.len(),
            items == wc_items(sources@, *wcr),
            res@ == items.take(i as int),
            tally_fits(totals@),
            totals_ok(totals@, sources@.skip(i as int), *wcr),
            fold_totals(totals@, sources@.skip(i as int), *wcr) == fold_totals(
                initial_totals(*wcr),
                sources@,
                *wcr,
            ),
        decreases sources@.len() - i,
    {
        let ghost pre = res@;
        let ghost tail = sources@.skip(i as int);
        proof {
            assert(tail[0] == sources@[i as int]);
            assert(tail.drop_first() =~= sources@.skip(i + 1));
        }
        let src = &sources[i];
        match &src.content {
            Err(e) => {
                let item = ResultItem::Failure {
                    filename: src.filename.clone(),
                    msg: e.clone(),
                };
                res.add_item(item);
            },
            Ok(t) => {
                proof {
                    let tv = tally_of(t@, src.filename@, *wcr);
                    let cmb = combine(totals@, tv);
                    assert(tally_fits(cmb));
                }
                let file_info = get_counts(wcr, src.filename.as_str(), t.as_str());
                totals = totals.add(&file_info);
                res.add_item(ResultItem::Data(file_info));
            },
        }
        proof {
            assert(res@ =~= items.take(i + 1));
        }
        i += 1;
    }
    proof {
        assert(sources@.skip(sources@.len() as int) =~= Seq::<WcSource>::empty());
        assert(res@ =~= items);
    }
    res.add_totals(ResultItem::Data(totals));
    proof {
        assert(items.len() == sources@.len());
        if sources@.len() > 1 {
            assert(res@ =~= computed_items(*wcr, sources@));
        } else {
            assert(res@ =~= computed_items(*wcr, sources@));
        }
    }
    res
}

} // verus!
