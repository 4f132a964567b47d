//! The find-style tool: entries reported by a directory walk are filtered
//! by type, name pattern, and depth, and printed per root; a failure inside
//! a walk is reported on the diagnostic channel without stopping the
//! entries around it.

pub mod args;
pub mod pattern;

use crate::errors::{spec_classified, IoErrorKind, ProgramError, ProgramErrorParams};
use crate::findr::args::{spec_is_type, EntryKind, FindrArgs};
use crate::findr::pattern::{pattern_matches, regex_match};
use vstd::prelude::*;

verus! {

/// One thing a walk over a root reported: an entry with its path, kind, and
/// depth below the root, or a failure with the path it concerns (when the
/// walk could name one) and what is known of its cause.
#[derive(Debug, Clone)]
pub enum WalkEvent {
    Entry { path: String, kind: EntryKind, depth: usize },
    Failure { path: Option<String>, kind: Option<IoErrorKind>, message: String },
}

/// The name a walk failure is reported under: the failing entry's own path,
/// or the walked root when the failure names no path.
pub open spec fn failure_ident(root: Seq<char>, path: Option<String>) -> Seq<char> {
    match path {
        Some(p) => p@,
        None => root,
    }
}

/// Whether an entry's kind passes the type filters: no filter means
/// everything passes, otherwise some filter must accept it.
pub open spec fn type_matches(args: FindrArgs, kind: EntryKind) -> bool {
    args.file_types@.len() == 0 || exists|k: int|
        0 <= k < args.file_types@.len() && spec_is_type(#[trigger] args.file_types@[k], kind)
}

/// Whether an entry's path passes the name patterns: no pattern means
/// everything passes, otherwise some pattern must match the path.
pub open spec fn name_matches(args: FindrArgs, path: Seq<char>) -> bool {
    args.names@.len() == 0 || exists|k: int|
        0 <= k < args.names@.len() && regex_match((#[trigger] args.names@[k])@, path)
}

/// Whether an entry's depth lies within the configured bounds.
pub open spec fn depth_matches(args: FindrArgs, depth: int) -> bool {
    &&& match args.min_depth {
        Some(d) => depth >= d,
        None => true,
    }
    &&& match args.max_depth {
        Some(d) => depth <= d,
        None => true,
    }
}

/// Whether an entry passes all three filters.
pub open spec fn entry_selected(args: FindrArgs, path: Seq<char>, kind: EntryKind, depth: int) -> bool {
    type_matches(args, kind) && name_matches(args, path) && depth_matches(args, depth)
}

/// Tests one entry against the type, name, and depth filters.
pub fn entry_matches(args: &FindrArgs, path: &str, kind: EntryKind, depth: usize) -> (r: bool)
    ensures
        r == entry_selected(*args, path@, kind, depth as int),
{
    let mut type_ok = args.file_types.len() == 0;
    let mut j: usize = 0;
    while j < args.file_types.len()
        invariant
            j <= args.file_types@.len(),
            type_ok == (args.file_types@.len() == 0 || exists|k: int|
                0 <= k < j && spec_is_type(#[trigger] args.file_types@[k], kind)),
        decreases args.file_types@.len() - j,
    {
        if args.file_types[j].is_type(&kind) {
            type_ok = true;
        }
        j += 1;
    }
    if !type_ok {
        return false;
    }
    let mut name_ok = args.names.len() == 0;
    let mut j: usize = 0;
    while j < args.names.len()
        invariant
            j <= args.names@.len(),
            name_ok == (args.names@.len() == 0 || exists|k: int|
                0 <= k < j && regex_match((#[trigger] args.names@[k])@, path@)),
        decreases args.names@.len() - j,
    {
        if pattern_matches(args.names[j].as_str(), path) {
            name_ok = true;
        }
        j += 1;
    }
    if !name_ok {
        return false;
    }
    if let Some(d) = args.min_depth {
        if depth < d {
            return false;
        }
    }
    if let Some(d) = args.max_depth {
        if depth > d {
            return false;
        }
    }
    true
}

/// Classifies a walk failure under this tool's name and the pathname the
/// failure is reported for.
pub fn translate_error(kind: Option<IoErrorKind>, message: &str, pathname: &str) -> (r:
    ProgramError)
    ensures
        spec_classified(
            match kind {
                Some(k) => k,
                None => IoErrorKind::Other,
            },
            message@,
            "findr"@,
            pathname@,
            r,
        ),
{
    let params_or_err = ProgramErrorParams::new().pathname(pathname).program("findr").build();
    let params = match params_or_err {
        Ok(p) => p,
        Err(_) => {
            proof {
                assert(false);
            }
            unreached()
        },
    };
    ProgramError::from_any(kind, message, params)
}

/// The diagnostic line one walk failure produces, naming the failing path.
pub open spec fn walk_error_text(ident: Seq<char>, kind: Option<IoErrorKind>, msg: Seq<char>) -> Seq<
    char,
> {
    match kind {
        Some(IoErrorKind::NotFound) => "findr"@ + ": "@ + ident + ": File or directory not found"@,
        Some(IoErrorKind::PermissionDenied) => "findr"@ + ": "@ + ident + ": Permission denied"@,
        _ => "findr"@ + ": "@ + ident + ": "@ + msg,
    }
}

/// The paths of the entries a walk reported that pass the filters, in
/// traversal order.
pub open spec fn matched_paths(args: FindrArgs, events: Seq<WalkEvent>) -> Seq<Seq<char>>
    decreases events.len(),
{
    if events.len() == 0 {
        Seq::empty()
    } else {
        matched_paths(args, events.drop_last()) + (match events.last() {
            WalkEvent::Entry { path, kind, depth } => {
                if entry_selected(args, path@, kind, depth as int) {
                    seq![path@]
                } else {
                    Seq::empty()
                }
            },
            WalkEvent::Failure { .. } => Seq::empty(),
        })
    }
}

/// The diagnostic stream one walk produces: a line per failure, in
/// traversal order, each naming the path that failed (the root when the
/// failure named none).
pub open spec fn error_lines(root: Seq<char>, events: Seq<WalkEvent>) -> Seq<char>
    decreases events.len(),
{
    if events.len() == 0 {
        Seq::empty()
    } else {
        error_lines(root, events.drop_last()) + (match events.last() {
            WalkEvent::Failure { path, kind, message } => walk_error_text(
                failure_ident(root, path),
                kind,
                message@,
            ) + seq!['\n'],
            WalkEvent::Entry { .. } => Seq::empty(),
        })
    }
}

/// Paths joined with newlines between them (none after the last).
pub open spec fn joined(paths: Seq<Seq<char>>) -> Seq<char>
    decreases paths.len(),
{
    if paths.len() == 0 {
        Seq::empty()
    } else if paths.len() == 1 {
        paths[0]
    } else {
        joined(paths.drop_last()) + seq!['\n'] + paths.last()
    }
}

/// Walks one root's reported events: the kept entry paths joined into one
/// newline-terminated block for the primary stream, and one diagnostic line
/// per failure for the secondary stream. A failure never hides the entries
/// around it.
pub fn process_path(root: &str, args: &FindrArgs, events: &Vec<WalkEvent>) -> (r: (String, String))
    ensures
        r.0@ == joined(matched_paths(*args, events@)) + seq!['\n'],
        r.1@ == error_lines(root@, events@),
{
    let mut matched: Vec<String> = Vec::new();
    let mut err = String::new();
    let mut i: usize = 0;
    proof {
        assert(matched.deep_view() =~= matched_paths(*args, events@.take(0)));
    }
    while i < events.len()
        invariant
            i <= events@.len(),
            matched.deep_view() == matched_paths(*args, events@.take(i as int)),
            err@ == error_lines(root@, events@.take(i as int)),
        decreases events@.len() - i,
    {
        let ghost pre = matched.deep_view();
        proof {
            assert(events@.take(i + 1).drop_last() =~= events@.take(i as int));
            assert(events@.take(i + 1).last() == events@[i as int]);
        }
        match &events[i] {
            WalkEvent::Entry { path, kind, depth } => {
                if entry_matches(args, path.as_str(), *kind, *depth) {
                    matched.push(path.clone());
                    proof {
                        assert(matched.deep_view() =~= pre.push(path@));
                        assert(pre.push(path@) =~= pre + seq![path@]);
                    }
                }
            },
            WalkEvent::Failure { path, kind, message } => {
                let ident: &str = match path {
                    Some(p) => p.as_str(),
                    None => root,
                };
                let e = translate_error(*kind, message.as_str(), ident);
                let m = e.message();
                err.append(m.as_str());
                err.append("\n");
                proof {
                    reveal_strlit("\n");
                    assert("\n"@ =~= seq!['\n']);
                    assert(ident@ == failure_ident(root@, *path));
                    assert(m@ == walk_error_text(failure_ident(root@, *path), *kind, message@));
                    assert(err@ =~= error_lines(root@, events@.take(i + 1)));
                }
            },
        }
        proof {
            assert(matched.deep_view() =~= matched_paths(*args, events@.take(i + 1)));
        }
        i += 1;
    }
    proof {
        assert(events@.take(events@.len() as int) =~= events@);
    }
    let ghost md = matched.deep_view();
    let mut out = String::new();
    let mut j: usize = 0;
    while j < matched.len()
        invariant
            j <= matched@.len(),
            md == matched.deep_view(),
            out@ == joined(md.take(j as int)),
        decreases matched@.len() - j,
    {
        if j > 0 {
            out.append("\n");
        }
        out.append(matched[j].as_str());
        proof {
            reveal_strlit("\n");
            assert(md.take(j + 1).drop_last() =~= md.take(j as int));
            assert(md.take(j + 1).last() == md[j as int]);
            assert(out@ =~= joined(md.take(j + 1)));
        }
        j += 1;
    }
    out.append("\n");
    proof {
        reveal_strlit("\n");
        assert(md.take(matched@.len() as int) =~= md);
        assert(out@ =~= joined(matched_paths(*args, events@)) + seq!['\n']);
    }
    (out, err)
}

/// The primary stream of a whole run: each root's joined block, in root
/// order, each newline-terminated.
pub open spec fn find_out(args: FindrArgs, walks: Seq<Vec<WalkEvent>>) -> Seq<char>
    decreases walks.len(),
{
    if walks.len() == 0 {
        Seq::empty()
    } else {
        find_out(args, walks.drop_last()) + joined(matched_paths(args, walks.last()@)) + seq!['\n']
    }
}

/// The diagnostic stream of a whole run: each root's failure lines, in root
/// order.
pub open spec fn find_err(args: FindrArgs, paths: Seq<String>, walks: Seq<Vec<WalkEvent>>) -> Seq<
    char,
>
    recommends
        paths.len() == walks.len(),
    decreases walks.len(),
{
    if walks.len() == 0 {
        Seq::empty()
    } else {
        find_err(args, paths.drop_last(), walks.drop_last()) + error_lines(
            paths.last()@,
            walks.last()@,
        )
    }
}

/// Processes every root in order: each contributes its kept entry paths to
/// the primary stream and its failures to the diagnostic one; no failure
/// stops the roots or entries after it.
pub fn run(args: &FindrArgs, walks: &Vec<Vec<WalkEvent>>) -> (r: (String, String))
    requires
        walks@.len() == args.paths@.len(),
    ensures
        r.0@ == find_out(*args, walks@),
        r.1@ == find_err(*args, args.paths@, walks@),
{
    let mut out = String::new();
    let mut err = String::new();
    let mut i: usize = 0;
    while i < walks.len()
        invariant
            i <= walks@.len(),
            walks@.len() == args.paths@.len(),
            out@ == find_out(*args, walks@.take(i as int)),
            err@ == find_err(*args, args.paths@.take(i as int), walks@.take(i as int)),
        decreases walks@.len() - i,
    {
        let (o, e) = process_path(args.paths[i].as_str(), args, &walks[i]);
        out.append(o.as_str());
        err.append(e.as_str());
        proof {
            assert(walks@.take(i + 1).drop_last() =~= walks@.take(i as int));
            assert(walks@.take(i + 1).last() == walks@[i as int]);
            assert(args.paths@.take(i + 1).drop_last() =~= args.paths@.take(i as int));
            assert(args.paths@.take(i + 1).last() == args.paths@[i as int]);
            assert(out@ =~= find_out(*args, walks@.take(i + 1)));
            assert(err@ =~= find_err(*args, args.paths@.take(i + 1), walks@.take(i + 1)));
        }
        i += 1;
    }
    proof {
        assert(walks@.take(walks@.len() as int) =~= walks@);
        assert(args.paths@.take(args.paths@.len() as int) =~= args.paths@);
    }
    (out, err)
}

} // verus!
