//! The per-input error taxonomy the tools share: a failure to open or read
//! one input is classified as not-found, permission-denied, or other, and
//! rendered as `<program>: <pathname>: <reason>` on the diagnostic channel.
//! Such failures never abort a run; they are collected per input.
use vstd::prelude::*;

verus! {

/// The classification of an input/output failure, as the tools read it.
#[derive(Clone, Copy, Debug, PartialEq, Eq, Structural)]
pub enum IoErrorKind {
    NotFound,
    PermissionDenied,
    Other,
}

/// Builder for the two names a diagnostic line carries: the program and the
/// pathname it was processing.
#[derive(Debug)]
pub struct ProgramErrorParams {
    pathname: Option<String>,
    prg_name: Option<String>,
}

impl ProgramErrorParams {
    /// The pathname set so far.
    pub closed spec fn spec_pathname(&self) -> Option<Seq<char>> {
        match self.pathname {
            Some(p) => Some(p@),
            None => None,
        }
    }

    /// The program name set so far.
    pub closed spec fn spec_program(&self) -> Option<Seq<char>> {
        match self.prg_name {
            Some(p) => Some(p@),
            None => None,
        }
    }

    /// Starts a builder with neither name set.
    pub fn new() -> (r: Self)
        ensures
            r.spec_pathname() is None,
            r.spec_program() is None,
    {
        Self { pathname: None, prg_name: None }
    }

    /// Sets the program name.
    pub fn program(self, name: &str) -> (r: Self)
        ensures
            r.spec_program() == Some(name@),
            r.spec_pathname() == self.spec_pathname(),
    {
        Self { prg_name: Some(String::from_str(name)), pathname: self.pathname }
    }

    /// Sets the pathname.
    pub fn pathname(self, name: &str) -> (r: Self)
        ensures
            r.spec_pathname() == Some(name@),
            r.spec_program() == self.spec_program(),
    {
        Self { pathname: Some(String::from_str(name)), prg_name: self.prg_name }
    }

    /// Accepts the builder exactly when both names were set; otherwise
    /// reports which requirement was missed.
    pub fn build(self) -> (r: Result<Self, String>)
        ensures
            self.spec_program() is Some && self.spec_pathname() is Some ==> (r matches Ok(p)
                && p.spec_program() == self.spec_program() && p.spec_pathname()
                == self.spec_pathname()),
            !(self.spec_program() is Some && self.spec_pathname() is Some) ==> (r matches Err(e)
                && e@ == "Both prg_name and pathname are required!"@),
    {
        if self.prg_name.is_some() && self.pathname.is_some() {
            Ok(self)
        } else {
            Err(String::from_str("Both prg_name and pathname are required!"))
        }
    }
}

/// A classified per-input failure, carrying the names its diagnostic line
/// shows.
#[derive(Debug)]
pub enum ProgramError {
    FileNotFound { prg_name: String, pathname: String },
    PermissionDenied { prg_name: String, pathname: String },
    Other { prg_name: String, pathname: String, err: String },
}

/// The diagnostic line of a classified failure:
/// `<program>: <pathname>: <reason>`.
pub open spec fn spec_message(e: ProgramError) -> Seq<char> {
    match e {
        ProgramError::FileNotFound { prg_name, pathname } => prg_name@ + ": "@ + pathname@
            + ": File or directory not found"@,
        ProgramError::PermissionDenied { prg_name, pathname } => prg_name@ + ": "@ + pathname@
            + ": Permission denied"@,
        ProgramError::Other { prg_name, pathname, err } => prg_name@ + ": "@ + pathname@ + ": "@
            + err@,
    }
}

/// The classification an input/output failure maps to, with the reason text
/// kept only for the unclassified case.
pub open spec fn spec_classified(
    kind: IoErrorKind,
    message: Seq<char>,
    program: Seq<char>,
    pathname: Seq<char>,
    e: ProgramError,
) -> bool {
    match kind {
        IoErrorKind::NotFound => e matches ProgramError::FileNotFound { prg_name, pathname: p }
            && prg_name@ == program && p@ == pathname,
        IoErrorKind::PermissionDenied => e matches ProgramError::PermissionDenied {
            prg_name,
            pathname: p,
        } && prg_name@ == program && p@ == pathname,
        IoErrorKind::Other => e matches ProgramError::Other { prg_name, pathname: p, err }
            && prg_name@ == program && p@ == pathname && err@ == message,
    }
}

impl ProgramError {
    /// Classifies an input/output failure under the names the builder
    /// collected.
    pub fn from_io(kind: IoErrorKind, message: &str, params: ProgramErrorParams) -> (r: Self)
        requires
            params.spec_program() is Some,
            params.spec_pathname() is Some,
        ensures
            spec_classified(
                kind,
                message@,
                params.spec_program()->0,
                params.spec_pathname()->0,
                r,
            ),
    {
        let prg_name = params.prg_name.unwrap();
        let pathname = params.pathname.unwrap();
        match kind {
            IoErrorKind::NotFound => ProgramError::FileNotFound { prg_name, pathname },
            IoErrorKind::PermissionDenied => ProgramError::PermissionDenied { prg_name, pathname },
            IoErrorKind::Other => ProgramError::Other {
                prg_name,
                pathname,
                err: String::from_str(message),
            },
        }
    }

    /// Classifies a failure that may not be an input/output failure at all:
    /// one without a recognized kind keeps only its reason text.
    pub fn from_any(kind: Option<IoErrorKind>, message: &str, params: ProgramErrorParams) -> (r:
        Self)
        requires
            params.spec_program() is Some,
            params.spec_pathname() is Some,
        ensures
            spec_classified(
                match kind {
                    Some(k) => k,
                    None => IoErrorKind::Other,
                },
                message@,
                params.spec_program()->0,
                params.spec_pathname()->0,
                r,
            ),
    {
        match kind {
            Some(k) => Self::from_io(k, message, params),
            None => Self::from_io(IoErrorKind::Other, message, params),
        }
    }

    /// Renders the diagnostic line `<program>: <pathname>: <reason>`.
    pub fn message(&self) -> (r: String)
        ensures
            r@ == spec_message(*self),
    {
        match self {
            ProgramError::FileNotFound { prg_name, pathname } => {
                let mut s = String::from_str(prg_name.as_str());
                s.append(": ");
                s.append(pathname.as_str());
                s.append(": File or directory not found");
                proof {
                    assert(s@ =~= spec_message(*self));
                }
                s
            },
            ProgramError::PermissionDenied { prg_name, pathname } => {
                let mut s = String::from_str(prg_name.as_str());
                s.append(": ");
                s.append(pathname.as_str());
                s.append(": Permission denied");
                proof {
                    assert(s@ =~= spec_message(*self));
                }
                s
            },
            ProgramError::Other { prg_name, pathname, err } => {
                let mut s = String::from_str(prg_name.as_str());
                s.append(": ");
                s.append(pathname.as_str());
                s.append(": ");
                s.append(err.as_str());
                proof {
                    assert(s@ =~= spec_message(*self));
                }
                s
            },
        }
    }
}

} // verus!
