//! Errors shared by the archive and sheet readers.
use vstd::prelude::*;

verus! {

/// What an error is about.
#[derive(Debug, PartialEq, Eq)]
pub enum ErrorValue {
    /// A path within the archive.
    Path(String),
    /// A (sub)row of a sheet.
    Row { row: u32, subrow: u16, sheet: String },
    /// A language code that a sheet offers neither itself nor as neutral.
    Language(u8),
    /// A structure of the archive, by name.
    Structure(String),
    /// A player parameter id that the string-template context does not recognise.
    PlayerParameter(u32),
}

/// The three kinds of failure of the read path.
#[derive(Debug, PartialEq, Eq)]
pub enum Error {
    /// The requested path, row, subrow or language is absent.
    NotFound(ErrorValue),
    /// Data read from the archive violates its format.
    Invalid(ErrorValue, String),
    /// The underlying capability failed.
    Resource(String),
}

/// Whether `e` reports the absence of a (sub)row.
pub open spec fn is_row_not_found(e: Error) -> bool {
    e matches Error::NotFound(ErrorValue::Row { .. })
}

/// Whether `e` reports the absence of exactly this (sub)row.
pub open spec fn is_row_not_found_for(e: Error, row_id: u32, subrow_id: u16) -> bool {
    match e {
        Error::NotFound(ErrorValue::Row { row, subrow, .. }) => row == row_id && subrow == subrow_id,
        _ => false,
    }
}

/// Whether `e` reports that the (sub)row's data could not be materialised.
pub open spec fn is_invalid_row(e: Error, row_id: u32, subrow_id: u16) -> bool {
    match e {
        Error::Invalid(ErrorValue::Row { row, subrow, .. }, _) => row == row_id && subrow == subrow_id,
        _ => false,
    }
}

impl Error {
    /// Whether this error reports the absence of a (sub)row.
    pub fn is_row_not_found(&self) -> (r: bool)
        ensures
            r == is_row_not_found(*self),
    {
        match self {
            Error::NotFound(ErrorValue::Row { .. }) => true,
            _ => false,
        }
    }
}

/// Shorthand for the result of the read path.
pub type Result<T> = core::result::Result<T, Error>;

} // verus!
