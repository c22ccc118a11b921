//! What can go wrong while working with a manifest.
use vstd::prelude::*;

verus! {

/// The errors of manifest operations.
#[derive(Clone, Debug, PartialEq)]
pub enum ManifestError {
    /// No manifest was found.
    MissingManifest,
    /// The named table is absent, or is no table.
    NonExistentTable(String),
    /// The named dependency is absent from the named table.
    NonExistentDependency(String, String),
    /// The text is no valid document: the message, then the first line and column and the
    /// last line and column of the span, counted from zero.
    ParseError(String, usize, usize, usize, usize),
    /// A segment of a table path holds something other than a table.
    PathConflict(String),
    /// The registry gave no latest version for the named crate.
    RegistryLookupFailed(String),
}

/// The number of line breaks among the first `n` bytes of `b`.
pub open spec fn lines_before(b: Seq<u8>, n: int) -> int
    decreases n,
{
    if n <= 0 {
        0
    } else {
        lines_before(b, n - 1) + if b[n - 1] == 10u8 {
            1int
        } else {
            0int
        }
    }
}

/// The number of bytes between the last line break among the first `n` bytes of `b` (or
/// the start) and position `n`.
pub open spec fn column_at(b: Seq<u8>, n: int) -> int
    decreases n,
{
    if n <= 0 {
        0
    } else if b[n - 1] == 10u8 {
        0
    } else {
        column_at(b, n - 1) + 1
    }
}

/// The line and column, counted from zero, of byte `offset` of `text`.
pub fn line_col(text: &[u8], offset: usize) -> (r: (usize, usize))
    requires
        offset <= text@.len(),
    ensures
        r.0 == lines_before(text@, offset as int),
        r.1 == column_at(text@, offset as int),
{
    let mut line: usize = 0;
    let mut col: usize = 0;
    let mut i: usize = 0;
    while i < offset
        invariant
            0 <= i <= offset <= text@.len(),
            line == lines_before(text@, i as int),
            col == column_at(text@, i as int),
            line <= i,
            col <= i,
        decreases offset - i,
    {
        if text[i] == 10u8 {
            line = line + 1;
            col = 0;
        } else {
            col = col + 1;
        }
        i = i + 1;
    }
    (line, col)
}

} // verus!
