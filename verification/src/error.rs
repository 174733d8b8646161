//! The ways building output can fail.

use vstd::prelude::*;

verus! {

/// The reason a build step cannot go on with the input it was given.
#[derive(Debug, Clone, Copy, PartialEq, Eq)]
pub enum BuildError {
    /// The pattern for csv rows to omit is not a valid regular expression.
    InvalidOmitRowPattern,
    /// The pattern for csv columns to omit is not a valid regular expression.
    InvalidOmitColumnPattern,
    /// The pattern for big rows to omit is not a valid regular expression.
    InvalidOmitBigRowPattern,
    /// The pattern that finds big rows is not a valid regular expression.
    InvalidBigRowPattern,
    /// The pattern that splits a big row into rows is not valid.
    InvalidRowSplitPattern,
    /// The pattern that splits a row into columns is not valid.
    InvalidColumnSplitPattern,
    /// A csv column used as a regular expression is not valid.
    InvalidColumnPattern,
    /// The expression that isolates a token's regex qualifier is not valid.
    InvalidQualifierIsolator,
    /// A token with a `<<regex:..>>` qualifier, at the given byte offset of
    /// the template, does not hold the expected qualifier.
    MissingRegexQualifier(usize),
    /// A capture group that the expansion reads did not take part in a match.
    MissingCaptureGroup,
    /// The regular expression given in a token's qualifier is not valid.
    InvalidQualifierRegex,
    /// A byte range taken from a template or a match does not lie on
    /// character boundaries of the text it is taken from.
    SliceOutOfRange,
    /// No big row was found in the input.
    NoBigRows,
    /// The count of big rows differs from the count of csv rows.
    RowCountMismatch,
    /// A requested column index is past the columns found in a row.
    ColumnIndexOutOfRange,
    /// The csv column that names a big row is missing.
    TableColumnOutOfRange,
    /// The csv column that names a big row is not a decimal `usize`.
    InvalidTableIndex,
    /// The big row named by a csv row does not exist.
    TableIndexOutOfRange,
    /// The two column lists of a big row differ in length.
    ColumnListLengthMismatch,
    /// A csv row has more columns than the `i16` column counter can count.
    ColumnCounterOverflow,
    /// The pattern that finds function declarations is not valid.
    InvalidFunctionPattern,
}

} // verus!
