//! What can go wrong while a schema is compiled.

use crate::schema::{Category, Field};
use vstd::prelude::*;

verus! {

/// Why a table could not be loaded.
#[derive(Clone, Copy, Debug, PartialEq, Eq, Structural)]
pub enum Fault {
    /// The source is no table: it could not be split into rows of cells, as
    /// where it is no text or a row is not as long as the header.
    Malformed,
    /// A required field has no column, or the row ends before its cell.
    MissingField(Field),
    /// Two columns carry the name of the same field.
    DuplicateField(Field),
    /// The cell does not hold a value of the field's type.
    InvalidValue(Field),
}

/// A table that could not be loaded: which one, where, and why.
#[derive(Clone, Copy, Debug, PartialEq, Eq, Structural)]
pub struct LoadError {
    /// The table that failed.
    pub table: Category,
    /// The data row at fault, counted from zero, where the fault lies in a
    /// data row: `None` where it lies in the header.
    pub row: Option<usize>,
    /// What was wrong.
    pub fault: Fault,
}

/// The document could not be encoded as text.
#[derive(Clone, Copy, Debug, PartialEq, Eq, Structural)]
pub struct SerializationError;

} // verus!
