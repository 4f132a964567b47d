//! Resolved flags of the wc-style tool. Byte and character counting are
//! mutually exclusive at configuration time; when no count is selected, the
//! classic default of lines, words and bytes applies.
use vstd::prelude::*;

verus! {

/// Resolved flags: the inputs to tally and which counts to keep.
#[derive(Debug)]
pub struct Wcr {
    /// Inputs to tally, in order; `"-"` names standard input.
    pub files: Vec<String>,
    /// Count raw bytes.
    pub show_byte_count: bool,
    /// Count decoded characters.
    pub show_char_count: bool,
    /// Count lines.
    pub show_line_count: bool,
    /// Count whitespace-delimited words.
    pub show_word_count: bool,
}

impl Wcr {
    /// With no count selected, enables the classic default of lines, words
    /// and bytes; otherwise changes nothing.
    pub fn set_defaults(self) -> (r: Self)
        ensures
            (self.show_byte_count || self.show_char_count || self.show_line_count
                || self.show_word_count) ==> r == self,
            !(self.show_byte_count || self.show_char_count || self.show_line_count
                || self.show_word_count) ==> {
                &&& r.files == self.files
                &&& r.show_byte_count
                &&& !r.show_char_count
                &&& r.show_line_count
                &&& r.show_word_count
            },
    {
        if !self.show_byte_count && !self.show_char_count && !self.show_line_count
            && !self.show_word_count {
            Self {
                files: self.files,
                show_byte_count: true,
                show_char_count: false,
                show_line_count: true,
                show_word_count: true,
            }
        } else {
            self
        }
    }
}

} // verus!
