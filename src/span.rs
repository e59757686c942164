use vstd::prelude::*;

verus! {

/// A 1-based line and column in the source text. Columns count characters,
/// which for ASCII source, the only source the language fully supports, are
/// also bytes.
#[derive(Debug, Clone, Copy, PartialEq, Eq)]
pub struct SourcePos {
    pub line: usize,
    pub col: usize,
}

/// A range of source text, from `start` to `end`.
#[derive(Debug, Clone, Copy, PartialEq, Eq)]
pub struct SourceSpan {
    pub start: SourcePos,
    pub end: SourcePos,
}

impl SourceSpan {
    /// A span that lies on one line, from `start_col` to `end_col`.
    pub fn single_line(line: usize, start_col: usize, end_col: usize) -> (r: Self)
        ensures
            r == (SourceSpan {
                start: SourcePos { line, col: start_col },
                end: SourcePos { line, col: end_col },
            }),
    {
        SourceSpan { start: SourcePos { line, col: start_col }, end: SourcePos { line, col: end_col } }
    }
}

} // verus!
