//! The fatal error kinds of the pipeline.
//!
//! Every failure aborts the whole run; no handler recovers. The executable
//! type `TexError` carries the missing path of a failed file lookup as a
//! `String`; its view `ExpandErr` is the form the specification-level
//! expansion function returns.

use vstd::prelude::*;

verus! {

/// Specification-level error value of the expansion model.
pub enum ExpandErr {
    /// A required group's braces never balance, or closers exceed openers.
    UnbalancedBraces,
    /// A directive's required `{...}` group is absent at the expected position.
    MissingGroup,
    /// A macro name is empty or contains non-alphanumeric characters.
    EmptyOrInvalidName,
    /// `\def` targets a name that already exists.
    DuplicateMacro,
    /// `\undef` or an invocation targets a name that is not defined.
    UnknownMacro,
    /// A file-inclusion path contains a disallowed character.
    InvalidPath,
    /// The named file is not among the texts the run was given.
    FileNotFound(Seq<char>),
    /// The defensive cap on nested expansions was reached.
    RecursionLimit,
}

/// Executable error value returned by the pipeline.
#[derive(Debug)]
pub enum TexError {
    /// A required group's braces never balance, or closers exceed openers.
    UnbalancedBraces,
    /// A directive's required `{...}` group is absent at the expected position.
    MissingGroup,
    /// A macro name is empty or contains non-alphanumeric characters.
    EmptyOrInvalidName,
    /// `\def` targets a name that already exists.
    DuplicateMacro,
    /// `\undef` or an invocation targets a name that is not defined.
    UnknownMacro,
    /// A file-inclusion path contains a disallowed character.
    InvalidPath,
    /// The named file is not among the texts the run was given; the caller may
    /// supply it and run again.
    FileNotFound(String),
    /// The defensive cap on nested expansions was reached.
    RecursionLimit,
}

impl View for TexError {
    type V = ExpandErr;

    open spec fn view(&self) -> ExpandErr {
        match self {
            TexError::UnbalancedBraces => ExpandErr::UnbalancedBraces,
            TexError::MissingGroup => ExpandErr::MissingGroup,
            TexError::EmptyOrInvalidName => ExpandErr::EmptyOrInvalidName,
            TexError::DuplicateMacro => ExpandErr::DuplicateMacro,
            TexError::UnknownMacro => ExpandErr::UnknownMacro,
            TexError::InvalidPath => ExpandErr::InvalidPath,
            TexError::FileNotFound(p) => ExpandErr::FileNotFound(p@),
            TexError::RecursionLimit => ExpandErr::RecursionLimit,
        }
    }
}

} // verus!
