//! What can go wrong while a document is read, written or resolved.

use vstd::prelude::*;

verus! {

/// Why one line of a document is refused.
#[derive(Clone, Copy, Debug, PartialEq, Eq)]
pub enum LineFault {
    /// The line is no header, no `key = value` pair, no comment and not blank.
    Syntax,
    /// A list or a table stands where a single value is expected.
    NotScalar,
    /// The value is no string, integer or boolean.
    InvalidValue,
    /// A header names a table that a document does not have.
    UnknownSection,
    /// A key stands outside every table, or `[sel4]` has no such key.
    UnknownKey,
    /// A table is declared twice.
    DuplicateSection,
    /// A key is given twice in one table.
    DuplicateKey,
    /// A key of `[sel4]` is given a value that is no string.
    ExpectedString,
}

/// Why a pair of source fields describes no source.
#[derive(Clone, Copy, Debug, PartialEq, Eq)]
pub enum SourceError {
    /// Neither the two directories nor a version are given.
    MissingSource,
    /// A version is given together with a directory.
    AmbiguousSource,
    /// The version is no semantic version.
    InvalidVersion,
}

/// Why a text is no document.
#[derive(Clone, Copy, Debug, PartialEq, Eq)]
pub enum ParseError {
    /// The line with this number, counted from 1, is refused.
    Line { line: usize, fault: LineFault },
    /// All lines are read, and the source fields describe no source.
    Source(SourceError),
}

/// Why a document cannot be written: it holds something that the text format
/// has no way to express.
#[derive(Clone, Copy, Debug, PartialEq, Eq)]
pub enum SerializeError {
    /// A key or a context name is empty or holds a character that no
    /// unquoted key can hold, or a context is named `debug` or `release`.
    UnwritableName,
    /// A string holds a line break, or both a `'` and one of `"` and `\`.
    UnwritableString,
    /// A version identifier is empty, holds a character that no identifier
    /// can hold, or would be read back as a number.
    UnwritableVersion,
}

/// Why a document cannot be resolved for a context.
#[derive(Clone, Copy, Debug, PartialEq, Eq)]
pub enum ResolutionError {
    /// No platform is selected and the document names no default.
    MissingPlatform,
}

/// Why a text cannot be resolved for a context.
#[derive(Clone, Copy, Debug, PartialEq, Eq)]
pub enum ImportError {
    /// The text is no document.
    Parse(ParseError),
    /// The document cannot be resolved.
    Resolution(ResolutionError),
}

} // verus!
