//! Resolved flags of the uniq-style tool. The two output filters are
//! mutually exclusive at configuration time; that exclusion is enforced by
//! argument parsing, outside this core.
use vstd::prelude::*;

verus! {

/// Resolved flags: one input, an optional output path, and the grouping and
/// filtering switches.
#[derive(Debug)]
pub struct Uniqr {
    /// The input file, or `"-"` for standard input.
    pub input_file: String,
    /// The output file; standard output when absent.
    pub output_file: Option<String>,
    /// Prefix each kept line with its occurrence count.
    pub count_occurrences: bool,
    /// Compare lines case-insensitively.
    pub ignore_case: bool,
    /// Keep only groups seen more than once.
    pub duplicates_only: bool,
    /// Keep only groups seen exactly once.
    pub unique_only: bool,
}

impl Uniqr {
    /// A default configuration: the fixture input, no output file, every
    /// switch off.
    pub fn new() -> (r: Self)
        ensures
            r.input_file@ == "tests/in/in.txt"@,
            r.output_file is None,
            !r.count_occurrences,
            !r.ignore_case,
            !r.duplicates_only,
            !r.unique_only,
    {
        Self {
            input_file: String::from_str("tests/in/in.txt"),
            output_file: None,
            count_occurrences: false,
            ignore_case: false,
            duplicates_only: false,
            unique_only: false,
        }
    }
}

} // verus!
