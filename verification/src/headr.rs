//! The head-style tool: a signed line/byte count with unit suffixes selects
//! a window of each input; per-input results and failures are aggregated in
//! input order, with a blank line separating the outputs of consecutive
//! successfully read inputs.

pub mod args;
pub mod reader;
pub mod result;

use crate::errors::IoErrorKind;
use crate::headr::args::Headr;
use crate::headr::reader::{header_of, lossy_of, read_bytes, read_lines};
use crate::headr::result::{error_line, out_lines, HeadrLine, HeadrResult};
use crate::lines::lines_of;
use crate::window::window;
use vstd::prelude::*;

verus! {

/// What one input handed to the head tool holds: its text when reading
/// lines, its raw bytes when reading bytes, or the failure that opening or
/// reading it produced.
pub enum SourceContent {
    Text(String),
    Bytes(Vec<u8>),
    Unreadable(IoErrorKind, String),
}

/// One input by name, with what reading it yielded.
pub struct HeadSource {
    /// The name shown in banners and diagnostics; `"-"` names standard
    /// input.
    pub filename: String,
    /// What reading the input yielded.
    pub content: SourceContent,
}

/// The reason text a failed open is reported with: the two recognized
/// classifications get a fixed friendly text, anything else keeps its own.
pub open spec fn translated_open_error(kind: IoErrorKind, raw: Seq<char>) -> Seq<char> {
    match kind {
        IoErrorKind::NotFound => "File or directory not found"@,
        IoErrorKind::PermissionDenied => "Permission denied"@,
        IoErrorKind::Other => raw,
    }
}

/// Translates a failure to open or read an input into its friendly form.
pub fn translate_open_error(kind: IoErrorKind, raw: &str) -> (r: String)
    ensures
        r@ == translated_open_error(kind, raw@),
{
    match kind {
        IoErrorKind::NotFound => String::from_str("File or directory not found"),
        IoErrorKind::PermissionDenied => String::from_str("Permission denied"),
        IoErrorKind::Other => String::from_str(raw),
    }
}

/// The collected lines a run over `items` produces, with `sep` saying
/// whether a previous input already produced output (so a blank separator
/// line precedes the next output). A failed input contributes one
/// diagnostic line and leaves `sep` unchanged; a read input contributes its
/// banner and window and sets `sep`.
pub open spec fn head_items(headr: Headr, items: Seq<HeadSource>, sep: bool) -> Seq<HeadrLine>
    decreases items.len(),
{
    if items.len() == 0 {
        Seq::empty()
    } else {
        let it = items[0];
        let rest = items.drop_first();
        match it.content {
            SourceContent::Unreadable(kind, raw) => seq![
                HeadrLine::Failure(error_line(it.filename@, translated_open_error(kind, raw@))),
            ] + head_items(headr, rest, sep),
            SourceContent::Text(t) => {
                let chunks = seq![header_of(it.filename@)] + window(
                    lines_of(t@),
                    headr.lines as int,
                );
                (if sep {
                    seq![HeadrLine::Output("\n"@)]
                } else {
                    Seq::empty()
                }) + out_lines(chunks) + head_items(headr, rest, true)
            },
            SourceContent::Bytes(b) => {
                let w = window(b@, headr.bytes->0 as int);
                let chunks = if w.len() > 0 {
                    seq![header_of(it.filename@), lossy_of(w) + "\n"@]
                } else {
                    seq![header_of(it.filename@)]
                };
                (if sep {
                    seq![HeadrLine::Output("\n"@)]
                } else {
                    Seq::empty()
                }) + out_lines(chunks) + head_items(headr, rest, true)
            },
        }
    }
}

/// Processes every input in order: each readable input contributes its
/// banner and selected window, each unreadable one a diagnostic line, and
/// no failure stops the inputs after it.
pub fn run(headr: &Headr, sources: &Vec<HeadSource>) -> (res: HeadrResult)
    requires
        headr.lines > i64::MIN,
        headr.lines < 0 ==> -(headr.lines as int) <= usize::MAX as int,
        headr.bytes matches Some(b) ==> b > i64::MIN && (b < 0 ==> -(b as int)
            <= usize::MAX as int),
        forall|i: int|
            0 <= i < sources.len() ==> (headr.bytes is Some ==> !((#[trigger] sources[i]).content
                is Text)),
        forall|i: int|
            0 <= i < sources.len() ==> (headr.bytes is None ==> !((#[trigger] sources[i]).content
                is Bytes)),
    ensures
        res@ == head_items(*headr, sources@, false),
{
    let mut res = HeadrResult::new();
    let mut append_empty_line = false;
    let mut i: usize = 0;
    proof {
        assert(sources@.skip(0) =~= sources@);
        assert(res@ + head_items(*headr, sources@, false) =~= head_items(*headr, sources@, false));
    }
    while i < sources.len()
        invariant
            i <= sources@.len(),
            headr.lines > i64::MIN,
            headr.lines < 0 ==> -(headr.lines as int) <= usize::MAX as int,
            headr.bytes matches Some(b) ==> b > i64::MIN && (b < 0 ==> -(b as int)
                <= usize::MAX as int),
            forall|j: int|
                0 <= j < sources.len() ==> (headr.bytes is Some ==> !((
                #[trigger] sources[j]).content is Text)),
            forall|j: int|
                0 <= j < sources.len() ==> (headr.bytes is None ==> !((
                #[trigger] sources[j]).content is Bytes)),
            head_items(*headr, sources@, false) == res@ + head_items(
                *headr,
                sources@.skip(i as int),
                append_empty_line,
            ),
        decreases sources@.len() - i,
    {
        let ghost pre = res@;
        let ghost tail = sources@.skip(i as int);
        proof {
            assert(tail[0] == sources@[i as int]);
            assert(tail.drop_first() =~= sources@.skip(i + 1));
        }
        let src = &sources[i];
        match &src.content {
            SourceContent::Unreadable(kind, raw) => {
                let msg = translate_open_error(*kind, raw.as_str());
                res.add_error(src.filename.as_str(), msg.as_str());
                proof {
                    assert(res@ =~= pre + seq![
                        HeadrLine::Failure(
                            error_line(src.filename@, translated_open_error(*kind, raw@)),
                        ),
                    ]);
                }
            },
            SourceContent::Text(t) => {
                if append_empty_line {
                    res.add_newline();
                }
                let outputs = read_lines(src.filename.as_str(), t.as_str(), headr.lines);
                res.add_outputs(&outputs);
                proof {
                    let chunks = seq![header_of(src.filename@)] + window(
                        lines_of(t@),
                        headr.lines as int,
                    );
                    if append_empty_line {
                        assert(res@ =~= pre + (seq![HeadrLine::Output("\n"@)] + out_lines(chunks)));
                    } else {
                        assert(res@ =~= pre + (Seq::empty() + out_lines(chunks)));
                    }
                }
                append_empty_line = true;
            },
            SourceContent::Bytes(b) => {
                if append_empty_line {
                    res.add_newline();
                }
                let outputs = read_bytes(src.filename.as_str(), b, headr.bytes.unwrap());
                res.add_outputs(&outputs);
                proof {
                    let w = window(b@, headr.bytes->0 as int);
                    let chunks = if w.len() > 0 {
                        seq![header_of(src.filename@), lossy_of(w) + "\n"@]
                    } else {
                        seq![header_of(src.filename@)]
                    };
                    if append_empty_line {
                        assert(res@ =~= pre + (seq![HeadrLine::Output("\n"@)] + out_lines(chunks)));
                    } else {
                        assert(res@ =~= pre + (Seq::empty() + out_lines(chunks)));
                    }
                }
                append_empty_line = true;
            },
        }
        i += 1;
    }
    proof {
        assert(sources@.skip(sources@.len() as int) =~= Seq::<HeadSource>::empty());
        assert(res@ + Seq::<HeadrLine>::empty() =~= res@);
    }
    res
}

} // verus!
