//! The head-style window reader: returns the first `count` lines or bytes of
//! an input, or with a negative count everything but the last `|count|`,
//! via the fixed-capacity ring buffer. Line output preserves terminators;
//! byte output is cut on raw byte boundaries and decoded lossily for
//! display, never repaired.
use crate::lines::{lines_of, split_lines};
use crate::window::{window, RingBuffer};
use vstd::prelude::*;

verus! {

/// The banner line naming the input that the selected contents follow.
pub open spec fn header_of(filename: Seq<char>) -> Seq<char> {
    "==> "@ + filename + " <==\n"@
}

/// Renders the banner line for one input.
pub fn filename_header(filename: &str) -> (r: String)
    ensures
        r@ == header_of(filename@),
{
    let mut s = String::from_str("==> ");
    s.append(filename);
    s.append(" <==\n");
    proof {
        assert(s@ =~= header_of(filename@));
    }
    s
}

/// Selects the window of a sequence of lines given by a signed count.
pub fn window_lines(lines: &Vec<String>, count: i64) -> (r: Vec<String>)
    requires
        count > i64::MIN,
        count < 0 ==> -(count as int) <= usize::MAX as int,
    ensures
        r@ == window(lines@, count as int),
{
    let mut r: Vec<String> = Vec::new();
    if count >= 0 {
        let take_n: usize = if (count as u64) < (lines.len() as u64) {
            count as usize
        } else {
            lines.len()
        };
        let mut i: usize = 0;
        while i < take_n
            invariant
                take_n <= lines.len(),
                take_n as int == if count as int <= lines@.len() {
                    count as int
                } else {
                    lines@.len() as int
                },
                i <= take_n,
                r@ == lines@.take(i as int),
            decreases take_n - i,
        {
            r.push(lines[i].clone());
            proof {
                assert(r@ =~= lines@.take(i + 1));
            }
            i += 1;
        }
        proof {
            assert(r@ =~= window(lines@, count as int));
        }
    } else {
        let keep: usize = (-count) as usize;
        let mut ring: RingBuffer<String> = RingBuffer::new(keep);
        let mut i: usize = 0;
        while i < lines.len()
            invariant
                ring.wf(),
                ring.capacity() == keep as nat,
                keep >= 1,
                i <= lines.len(),
                ring@ == lines@.subrange(
                    if i <= keep {
                        0int
                    } else {
                        i as int - keep as int
                    },
                    i as int,
                ),
                r@ == lines@.take(
                    if i <= keep {
                        0int
                    } else {
                        i as int - keep as int
                    },
                ),
            decreases lines.len() - i,
        {
            let evicted = ring.push_evict(lines[i].clone());
            if let Some(line) = evicted {
                r.push(line);
            }
            proof {
                let lo = if i <= keep {
                    0int
                } else {
                    i as int - keep as int
                };
                let lo1 = if i + 1 <= keep {
                    0int
                } else {
                    i + 1 - keep as int
                };
                assert(ring@ =~= lines@.subrange(lo1, i + 1));
                assert(r@ =~= lines@.take(lo1));
            }
            i += 1;
        }
        proof {
            assert(r@ =~= window(lines@, count as int));
        }
    }
    r
}

/// Selects the window of a byte sequence given by a signed count.
pub fn window_bytes(data: &Vec<u8>, count: i64) -> (r: Vec<u8>)
    requires
        count > i64::MIN,
        count < 0 ==> -(count as int) <= usize::MAX as int,
    ensures
        r@ == window(data@, count as int),
{
    let mut r: Vec<u8> = Vec::new();
    if count >= 0 {
        let take_n: usize = if (count as u64) < (data.len() as u64) {
            count as usize
        } else {
            data.len()
        };
        let mut i: usize = 0;
        while i < take_n
            invariant
                take_n <= data.len(),
                take_n as int == if count as int <= data@.len() {
                    count as int
                } else {
                    data@.len() as int
                },
                i <= take_n,
                r@ == data@.take(i as int),
            decreases take_n - i,
        {
            r.push(data[i]);
            proof {
                assert(r@ =~= data@.take(i + 1));
            }
            i += 1;
        }
        proof {
            assert(r@ =~= window(data@, count as int));
        }
    } else {
        let keep: usize = (-count) as usize;
        let mut ring: RingBuffer<u8> = RingBuffer::new(keep);
        let mut i: usize = 0;
        while i < data.len()
            invariant
                ring.wf(),
                ring.capacity() == keep as nat,
                keep >= 1,
                i <= data.len(),
                ring@ == data@.subrange(
                    if i <= keep {
                        0int
                    } else {
                        i as int - keep as int
                    },
                    i as int,
                ),
                r@ == data@.take(
                    if i <= keep {
                        0int
                    } else {
                        i as int - keep as int
                    },
                ),
            decreases data.len() - i,
        {
            let evicted = ring.push_evict(data[i]);
            if let Some(b) = evicted {
                r.push(b);
            }
            proof {
                let lo1 = if i + 1 <= keep {
                    0int
                } else {
                    i + 1 - keep as int
                };
                assert(ring@ =~= data@.subrange(lo1, i + 1));
                assert(r@ =~= data@.take(lo1));
            }
            i += 1;
        }
        proof {
            assert(r@ =~= window(data@, count as int));
        }
    }
    r
}

/// What `String::from_utf8_lossy` decodes a byte sequence to; the decoding
/// is a function of the bytes alone.
pub uninterp spec fn lossy_of(bytes: Seq<u8>) -> Seq<char>;

/// Relies on String::from_utf8_lossy: decodes bytes as UTF-8, replacing
/// invalid sequences with U+FFFD; valid UTF-8 decodes to itself.
#[verifier::external_body]
fn lossy_utf8(bytes: &Vec<u8>) -> (r: String)
    ensures
        r@ == lossy_of(bytes@),
        vstd::utf8::valid_utf8(bytes@) ==> r@ == vstd::utf8::decode_utf8(bytes@),
{
    String::from_utf8_lossy(bytes.as_slice()).into_owned()
}

/// Reads the line window of one input: the banner line first, then the
/// lines a signed count selects, each with its original terminator.
pub fn read_lines(filename: &str, text: &str, num_lines: i64) -> (r: Vec<String>)
    requires
        num_lines > i64::MIN,
        num_lines < 0 ==> -(num_lines as int) <= usize::MAX as int,
    ensures
        r.deep_view() == seq![header_of(filename@)] + window(
            lines_of(text@),
            num_lines as int,
        ),
{
    let mut r: Vec<String> = Vec::new();
    let header = filename_header(filename);
    let ghost hdr = header;
    r.push(header);
    let all_lines = split_lines(text);
    let selected = window_lines(&all_lines, num_lines);
    let ghost sel = selected@;
    let mut i: usize = 0;
    while i < selected.len()
        invariant
            i <= sel.len(),
            selected@ == sel,
            r@ == seq![hdr] + sel.take(i as int),
        decreases selected.len() - i,
    {
        let line = selected[i].clone();
        r.push(line);
        proof {
            assert(r@ =~= seq![hdr] + sel.take(i + 1));
        }
        i += 1;
    }
    proof {
        assert(r@ =~= seq![hdr] + sel);
        let lo = lines_of(text@);
        let goal = seq![header_of(filename@)] + window(lo, num_lines as int);
        assert(all_lines@.len() == lo.len());
        assert(sel.len() == window(lo, num_lines as int).len());
        assert(r.deep_view().len() == goal.len());
        assert forall|j: int| 0 <= j < r.deep_view().len() implies r.deep_view()[j] == goal[j] by {
            assert(r.deep_view()[j] == r@[j]@);
            if j == 0 {
                assert(r@[0] == hdr);
            } else {
                assert(r@[j] == sel[j - 1]);
                assert(sel[j - 1] == window(all_lines@, num_lines as int)[j - 1]);
                assert(window(all_lines@, num_lines as int)[j - 1] == all_lines@[j - 1]);
                assert(all_lines.deep_view()[j - 1] == all_lines@[j - 1]@);
                assert(all_lines.deep_view()[j - 1] == lo[j - 1]);
                assert(goal[j] == window(lo, num_lines as int)[j - 1]);
                assert(window(lo, num_lines as int)[j - 1] == lo[j - 1]);
            }
        }
        assert(r.deep_view() =~= goal);
    }
    r
}

/// Reads the byte window of one input: the banner line, then (when the
/// window is not empty) one chunk holding the selected raw bytes decoded
/// lossily for display, with a newline appended.
pub fn read_bytes(filename: &str, data: &Vec<u8>, num_bytes: i64) -> (r: Vec<String>)
    requires
        num_bytes > i64::MIN,
        num_bytes < 0 ==> -(num_bytes as int) <= usize::MAX as int,
    ensures
        r.deep_view() == if window(data@, num_bytes as int).len() > 0 {
            seq![header_of(filename@), lossy_of(window(data@, num_bytes as int)) + "\n"@]
        } else {
            seq![header_of(filename@)]
        },
{
    let mut r: Vec<String> = Vec::new();
    r.push(filename_header(filename));
    let buf = window_bytes(data, num_bytes);
    if buf.len() > 0 {
        let mut chunk = lossy_utf8(&buf);
        chunk.append("\n");
        r.push(chunk);
        proof {
            assert(r.deep_view() =~= seq![
                header_of(filename@),
                lossy_of(window(data@, num_bytes as int)) + "\n"@,
            ]);
        }
    } else {
        proof {
            assert(r.deep_view() =~= seq![header_of(filename@)]);
        }
    }
    r
}

} // verus!
