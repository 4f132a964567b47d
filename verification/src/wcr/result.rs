//! Per-input tallies for the wc-style tool. Each of the four counts is
//! present exactly when its flag enables it; absent fields are never
//! materialized as zero, so the combine operation and the display can tell
//! "zero" from "not requested". Combining adds present fields into the
//! left-hand tally and leaves the rest alone, which lets a running total be
//! folded up file by file.
use crate::numfmt::{dec_digits, fmt_u64, pad_left, right_justified};
use crate::wcr::args::Wcr;
use vstd::prelude::*;

verus! {

/// The ghost form of a tally: the input's name and the four optional
/// counts.
pub struct FileCountView {
    pub filename: Seq<char>,
    pub byte_count: Option<int>,
    pub char_count: Option<int>,
    pub line_count: Option<int>,
    pub word_count: Option<int>,
}

/// Combining one field: a present right-hand count is added onto the left
/// (absent counting as zero); an absent right-hand count leaves the left
/// unchanged.
pub open spec fn combine_field(a: Option<int>, b: Option<int>) -> Option<int> {
    match b {
        Some(v) => Some(
            (match a {
                Some(w) => w,
                None => 0,
            }) + v,
        ),
        None => a,
    }
}

/// Combining two tallies field by field; the left-hand name is kept.
pub open spec fn combine(a: FileCountView, b: FileCountView) -> FileCountView {
    FileCountView {
        filename: a.filename,
        byte_count: combine_field(a.byte_count, b.byte_count),
        char_count: combine_field(a.char_count, b.char_count),
        line_count: combine_field(a.line_count, b.line_count),
        word_count: combine_field(a.word_count, b.word_count),
    }
}

/// Combining tallies is associative, field by field.
pub proof fn lemma_combine_associative(a: FileCountView, b: FileCountView, c: FileCountView)
    ensures
        combine(combine(a, b), c) == combine(a, combine(b, c)),
{
}

/// A tally with every field absent is an identity for combine: on the
/// right it changes nothing at all, on the left it passes all four counts
/// through (only the name, which combine always takes from the left,
/// is its own).
pub proof fn lemma_combine_identity(a: FileCountView, e: FileCountView)
    requires
        e.byte_count is None,
        e.char_count is None,
        e.line_count is None,
        e.word_count is None,
    ensures
        combine(a, e) == a,
        combine(e, a) == (FileCountView { filename: e.filename, ..a }),
{
}

/// Every present count lies within machine range.
pub open spec fn tally_fits(v: FileCountView) -> bool {
    &&& match v.byte_count {
        Some(x) => 0 <= x <= usize::MAX,
        None => true,
    }
    &&& match v.char_count {
        Some(x) => 0 <= x <= usize::MAX,
        None => true,
    }
    &&& match v.line_count {
        Some(x) => 0 <= x <= usize::MAX,
        None => true,
    }
    &&& match v.word_count {
        Some(x) => 0 <= x <= usize::MAX,
        None => true,
    }
}

/// The optional-count view of an optional machine count.
pub open spec fn opt_view(o: Option<usize>) -> Option<int> {
    match o {
        Some(v) => Some(v as int),
        None => None,
    }
}

/// One input's tally: its name and the counts its flags enabled.
#[derive(Debug, Clone)]
pub struct FileCount {
    filename: String,
    byte_count: Option<usize>,
    char_count: Option<usize>,
    line_count: Option<usize>,
    word_count: Option<usize>,
}

impl View for FileCount {
    type V = FileCountView;

    closed spec fn view(&self) -> FileCountView {
        FileCountView {
            filename: self.filename@,
            byte_count: opt_view(self.byte_count),
            char_count: opt_view(self.char_count),
            line_count: opt_view(self.line_count),
            word_count: opt_view(self.word_count),
        }
    }
}

impl PartialEq for FileCount {
    /// Two tallies are equal when their names and their four optional
    /// counts agree.
    fn eq(&self, other: &Self) -> (r: bool) {
        self.filename == other.filename && self.byte_count == other.byte_count && self.char_count
            == other.char_count && self.line_count == other.line_count && self.word_count
            == other.word_count
    }
}

impl vstd::std_specs::cmp::PartialEqSpecImpl for FileCount {
    open spec fn obeys_eq_spec() -> bool {
        true
    }

    open spec fn eq_spec(&self, other: &Self) -> bool {
        self@ == other@
    }
}

/// One field of a rendered tally, right-justified in five characters;
/// absent fields render as nothing.
pub open spec fn padded_field(c: Option<int>) -> Seq<char> {
    match c {
        Some(v) => right_justified(dec_digits(v as nat), 5),
        None => Seq::empty(),
    }
}

/// A rendered tally: lines, words, bytes, chars — each present field
/// right-justified in a five-character column — then a space and the name.
pub open spec fn rendered_count(v: FileCountView) -> Seq<char> {
    padded_field(v.line_count) + padded_field(v.word_count) + padded_field(v.byte_count)
        + padded_field(v.char_count) + seq![' '] + v.filename
}

impl FileCount {
    /// Starts a tally for one input: each count that its flag enables is
    /// present at zero, the rest are absent.
    pub fn new(filename: &str, args: &Wcr) -> (r: Self)
        ensures
            r@.filename == filename@,
            r@.byte_count == (if args.show_byte_count {
                Some(0int)
            } else {
                None::<int>
            }),
            r@.char_count == (if args.show_char_count {
                Some(0int)
            } else {
                None::<int>
            }),
            r@.line_count == (if args.show_line_count {
                Some(0int)
            } else {
                None::<int>
            }),
            r@.word_count == (if args.show_word_count {
                Some(0int)
            } else {
                None::<int>
            }),
    {
        Self {
            filename: String::from_str(filename),
            byte_count: Self::value_or_default(args.show_byte_count),
            char_count: Self::value_or_default(args.show_char_count),
            line_count: Self::value_or_default(args.show_line_count),
            word_count: Self::value_or_default(args.show_word_count),
        }
    }

    /// Builds a tally with the given counts.
    pub fn with_counts(
        filename: &str,
        byte_count: Option<usize>,
        char_count: Option<usize>,
        line_count: Option<usize>,
        word_count: Option<usize>,
    ) -> (r: Self)
        ensures
            r@.filename == filename@,
            r@.byte_count == opt_view(byte_count),
            r@.char_count == opt_view(char_count),
            r@.line_count == opt_view(line_count),
            r@.word_count == opt_view(word_count),
    {
        Self { filename: String::from_str(filename), byte_count, char_count, line_count, word_count }
    }

    fn value_or_default(show_count: bool) -> (r: Option<usize>)
        ensures
            r == (if show_count {
                Some(0usize)
            } else {
                None::<usize>
            }),
    {
        if show_count {
            Some(0)
        } else {
            None
        }
    }

    fn increment_count(option: &mut Option<usize>, count: usize)
        requires
            (match *old(option) {
                Some(v) => v as int,
                None => 0int,
            }) + count <= usize::MAX,
        ensures
            opt_view(*final(option)) == combine_field(opt_view(*old(option)), Some(count as int)),
    {
        *option = Some(option.unwrap_or(0) + count);
    }

    fn add_counts(first_count: Option<usize>, second_count: Option<usize>) -> (r: Option<usize>)
        requires
            (match first_count {
                Some(v) => v as int,
                None => 0int,
            }) + (match second_count {
                Some(v) => v as int,
                None => 0int,
            }) <= usize::MAX,
        ensures
            opt_view(r) == combine_field(opt_view(first_count), opt_view(second_count)),
    {
        if let Some(count) = second_count {
            Some(first_count.unwrap_or(0) + count)
        } else {
            first_count
        }
    }

    /// Adds to the byte count, making it present if it was not.
    pub fn increment_byte_count(&mut self, count: usize)
        requires
            (match old(self)@.byte_count {
                Some(v) => v,
                None => 0int,
            }) + count <= usize::MAX,
        ensures
            final(self)@ == (FileCountView {
                byte_count: combine_field(old(self)@.byte_count, Some(count as int)),
                ..old(self)@
            }),
    {
        Self::increment_count(&mut self.byte_count, count);
    }

    /// Adds to the character count, making it present if it was not.
    pub fn increment_char_count(&mut self, count: usize)
        requires
            (match old(self)@.char_count {
                Some(v) => v,
                None => 0int,
            }) + count <= usize::MAX,
        ensures
            final(self)@ == (FileCountView {
                char_count: combine_field(old(self)@.char_count, Some(count as int)),
                ..old(self)@
            }),
    {
        Self::increment_count(&mut self.char_count, count);
    }

    /// Adds to the line count, making it present if it was not.
    pub fn increment_line_count(&mut self, count: usize)
        requires
            (match old(self)@.line_count {
                Some(v) => v,
                None => 0int,
            }) + count <= usize::MAX,
        ensures
            final(self)@ == (FileCountView {
                line_count: combine_field(old(self)@.line_count, Some(count as int)),
                ..old(self)@
            }),
    {
        Self::increment_count(&mut self.line_count, count);
    }

    /// Adds to the word count, making it present if it was not.
    pub fn increment_word_count(&mut self, count: usize)
        requires
            (match old(self)@.word_count {
                Some(v) => v,
                None => 0int,
            }) + count <= usize::MAX,
        ensures
            final(self)@ == (FileCountView {
                word_count: combine_field(old(self)@.word_count, Some(count as int)),
                ..old(self)@
            }),
    {
        Self::increment_count(&mut self.word_count, count);
    }

    /// Folds another tally into this one: present fields add up, absent
    /// ones pass the left side through; the name stays the left one's.
    pub fn add(self, other: &Self) -> (r: Self)
        requires
            (match self@.byte_count {
                Some(v) => v,
                None => 0int,
            }) + (match other@.byte_count {
                Some(v) => v,
                None => 0int,
            }) <= usize::MAX,
            (match self@.char_count {
                Some(v) => v,
                None => 0int,
            }) + (match other@.char_count {
                Some(v) => v,
                None => 0int,
            }) <= usize::MAX,
            (match self@.line_count {
                Some(v) => v,
                None => 0int,
            }) + (match other@.line_count {
                Some(v) => v,
                None => 0int,
            }) <= usize::MAX,
            (match self@.word_count {
                Some(v) => v,
                None => 0int,
            }) + (match other@.word_count {
                Some(v) => v,
                None => 0int,
            }) <= usize::MAX,
        ensures
            r@ == combine(self@, other@),
    {
        Self {
            filename: self.filename,
            byte_count: Self::add_counts(self.byte_count, other.byte_count),
            char_count: Self::add_counts(self.char_count, other.char_count),
            line_count: Self::add_counts(self.line_count, other.line_count),
            word_count: Self::add_counts(self.word_count, other.word_count),
        }
    }

    /// Renders the tally: each present count right-justified in a
    /// five-character column, in the order lines, words, bytes, chars, then
    /// a space and the input's name.
    pub fn render(&self) -> (r: String)
        ensures
            r@ == rendered_count(self@),
    {
        let mut out = String::new();
        if let Some(v) = self.line_count {
            let digits = fmt_u64(v as u64);
            let padded = pad_left(digits.as_str(), 5);
            out.append(padded.as_str());
        }
        if let Some(v) = self.word_count {
            let digits = fmt_u64(v as u64);
            let padded = pad_left(digits.as_str(), 5);
            out.append(padded.as_str());
        }
        if let Some(v) = self.byte_count {
            let digits = fmt_u64(v as u64);
            let padded = pad_left(digits.as_str(), 5);
            out.append(padded.as_str());
        }
        if let Some(v) = self.char_count {
            let digits = fmt_u64(v as u64);
            let padded = pad_left(digits.as_str(), 5);
            out.append(padded.as_str());
        }
        out.append(" ");
        out.append(self.filename.as_str());
        proof {
            reveal_strlit(" ");
            assert(" "@ =~= seq![' ']);
            assert(out@ =~= rendered_count(self@));
        }
        out
    }
}

/// The ghost form of one collected result: a tally, or a per-input failure
/// with its reason.
pub enum ResultItemView {
    Data(FileCountView),
    Failure { filename: Seq<char>, msg: Seq<char> },
}

/// One collected result: the tally of an input that opened, or the failure
/// of one that did not.
#[derive(Debug)]
pub enum ResultItem {
    Data(FileCount),
    Failure { filename: String, msg: String },
}

impl View for ResultItem {
    type V = ResultItemView;

    open spec fn view(&self) -> ResultItemView {
        match self {
            ResultItem::Data(c) => ResultItemView::Data(c@),
            ResultItem::Failure { filename, msg } => ResultItemView::Failure {
                filename: filename@,
                msg: msg@,
            },
        }
    }
}

impl DeepView for ResultItem {
    type V = ResultItemView;

    open spec fn deep_view(&self) -> ResultItemView {
        self.view()
    }
}

/// The diagnostic line of one failed input: `wcr: <filename>: <reason>`.
pub open spec fn failure_line(filename: Seq<char>, msg: Seq<char>) -> Seq<char> {
    "wcr: "@ + filename + ": "@ + msg
}

/// What the primary stream shows: every tally line in order, each followed
/// by a newline.
pub open spec fn rendered_items_out(items: Seq<ResultItemView>) -> Seq<char>
    decreases items.len(),
{
    if items.len() == 0 {
        Seq::empty()
    } else {
        rendered_items_out(items.drop_last()) + (match items.last() {
            ResultItemView::Data(v) => rendered_count(v) + "\n"@,
            ResultItemView::Failure { .. } => Seq::empty(),
        })
    }
}

/// What the diagnostic stream shows: every failure line in order, each
/// followed by a newline.
pub open spec fn rendered_items_err(items: Seq<ResultItemView>) -> Seq<char>
    decreases items.len(),
{
    if items.len() == 0 {
        Seq::empty()
    } else {
        rendered_items_err(items.drop_last()) + (match items.last() {
            ResultItemView::Data(_) => Seq::empty(),
            ResultItemView::Failure { filename, msg } => failure_line(filename, msg) + "\n"@,
        })
    }
}

/// The collected results of one run, in input order, with the running total
/// appended when more than one input was given.
pub struct CountResult {
    items: Vec<ResultItem>,
}

impl View for CountResult {
    type V = Seq<ResultItemView>;

    closed spec fn view(&self) -> Seq<ResultItemView> {
        self.items.deep_view()
    }
}

impl CountResult {
    /// Starts an empty collection.
    pub fn new() -> (r: Self)
        ensures
            r@ == Seq::<ResultItemView>::empty(),
    {
        let r = CountResult { items: Vec::new() };
        proof {
            assert(r@ =~= Seq::<ResultItemView>::empty());
        }
        r
    }

    /// Appends one input's result, preserving input order.
    pub fn add_item(&mut self, item: ResultItem)
        ensures
            final(self)@ == old(self)@.push(item@),
    {
        let ghost v = item@;
        self.items.push(item);
        proof {
            assert(self@ =~= old(self)@.push(v));
        }
    }

    /// Appends the running total, but only when more than one result was
    /// collected: a single input needs no separate total line.
    pub fn add_totals(&mut self, totals: ResultItem)
        ensures
            old(self)@.len() > 1 ==> final(self)@ == old(self)@.push(totals@),
            old(self)@.len() <= 1 ==> final(self)@ == old(self)@,
    {
        let ghost v = totals@;
        if self.items.len() > 1 {
            self.items.push(totals);
            proof {
                assert(self@ =~= old(self)@.push(v));
            }
        }
    }

    /// Renders the collection to the pair of streams: tally lines in order
    /// on the primary one, failure lines in order on the diagnostic one.
    pub fn render(&self) -> (r: (String, String))
        ensures
            r.0@ == rendered_items_out(self@),
            r.1@ == rendered_items_err(self@),
    {
        let mut out = String::new();
        let mut err = String::new();
        let mut i: usize = 0;
        while i < self.items.len()
            invariant
                i <= self@.len(),
                self@.len() == self.items@.len(),
                self@ == self.items.deep_view(),
                out@ == rendered_items_out(self@.take(i as int)),
                err@ == rendered_items_err(self@.take(i as int)),
            decreases self@.len() - i,
        {
            match &self.items[i] {
                ResultItem::Data(c) => {
                    let line = c.render();
                    out.append(line.as_str());
                    out.append("\n");
                },
                ResultItem::Failure { filename, msg } => {
                    err.append("wcr: ");
                    err.append(filename.as_str());
                    err.append(": ");
                    err.append(msg.as_str());
                    err.append("\n");
                },
            }
            proof {
                assert(self@.take(i + 1).drop_last() =~= self@.take(i as int));
                assert(self@.take(i + 1).last() == self@[i as int]);
                assert(out@ =~= rendered_items_out(self@.take(i + 1)));
                assert(err@ =~= rendered_items_err(self@.take(i + 1)));
            }
            i += 1;
        }
        proof {
            assert(self@.take(self@.len() as int) =~= self@);
        }
        (out, err)
    }
}

} // verus!
