//! Resolved flags of the find-style tool: search roots, name patterns
//! (regular expressions, validated at configuration time), type filters,
//! and depth bounds.
use vstd::prelude::*;

verus! {

/// A type filter: directory, regular file, or symbolic link.
#[derive(Copy, Clone, Debug, PartialEq, Eq, Structural)]
pub enum FileType {
    /// Directory
    Dir,
    /// File
    File,
    /// Symbolic link
    Link,
}

/// What kind of entry a traversal reported: the one fact of an entry's file
/// type that the filters read.
#[derive(Copy, Clone, Debug, PartialEq, Eq, Structural)]
pub enum EntryKind {
    Dir,
    File,
    Symlink,
    Other,
}

/// Whether an entry of the given kind passes this type filter.
pub open spec fn spec_is_type(t: FileType, kind: EntryKind) -> bool {
    match t {
        FileType::Dir => kind is Dir,
        FileType::File => kind is File,
        FileType::Link => kind is Symlink,
    }
}

impl FileType {
    /// Whether an entry of the given kind passes this type filter.
    pub fn is_type(&self, kind: &EntryKind) -> (r: bool)
        ensures
            r == spec_is_type(*self, *kind),
    {
        match self {
            FileType::Dir => matches!(kind, EntryKind::Dir),
            FileType::File => matches!(kind, EntryKind::File),
            FileType::Link => matches!(kind, EntryKind::Symlink),
        }
    }
}

/// Resolved flags: the roots to walk and the filters entries must pass.
#[derive(Debug)]
pub struct FindrArgs {
    /// Paths to search.
    pub paths: Vec<String>,
    /// Name patterns; an entry passes when any matches its path.
    pub names: Vec<String>,
    /// Type filters; an entry passes when any accepts its kind.
    pub file_types: Vec<FileType>,
    /// Keep only entries at least this deep.
    pub min_depth: Option<usize>,
    /// Keep only entries at most this deep.
    pub max_depth: Option<usize>,
}

} // verus!
