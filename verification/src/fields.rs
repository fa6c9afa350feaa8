//! Typed values out of the cells of a row.

use crate::error::Fault;
use crate::schema::Field;
use crate::table::{cell, find_cell, row_text};
use crate::text::{parse_code, parse_flag, parse_tristate, read_code, read_flag, read_tristate};
use vstd::prelude::*;

verus! {

/// A required text: whatever the cell holds, the empty text too.
pub open spec fn text_field(header: Seq<Seq<char>>, row: Seq<Seq<char>>, field: Field) -> Result<
    Seq<char>,
    Fault,
> {
    match cell(header, row, field) {
        Err(fault) => Err(fault),
        Ok(None) => Err(Fault::MissingField(field)),
        Ok(Some(s)) => Ok(s),
    }
}

/// A required wire code.
pub open spec fn code_field(header: Seq<Seq<char>>, row: Seq<Seq<char>>, field: Field) -> Result<
    u8,
    Fault,
> {
    match cell(header, row, field) {
        Err(fault) => Err(fault),
        Ok(None) => Err(Fault::MissingField(field)),
        Ok(Some(s)) => match parse_code(s) {
            Some(code) => Ok(code),
            None => Err(Fault::InvalidValue(field)),
        },
    }
}

/// A required boolean.
pub open spec fn flag_field(header: Seq<Seq<char>>, row: Seq<Seq<char>>, field: Field) -> Result<
    bool,
    Fault,
> {
    match cell(header, row, field) {
        Err(fault) => Err(fault),
        Ok(None) => Err(Fault::MissingField(field)),
        Ok(Some(s)) => match parse_flag(s) {
            Some(flag) => Ok(flag),
            None => Err(Fault::InvalidValue(field)),
        },
    }
}

/// A tri-state: unknown where the field has no column, the row ends before
/// its cell, or the cell is empty.
pub open spec fn tristate_field(
    header: Seq<Seq<char>>,
    row: Seq<Seq<char>>,
    field: Field,
) -> Result<Option<bool>, Fault> {
    match cell(header, row, field) {
        Err(fault) => Err(fault),
        Ok(None) => Ok(None),
        Ok(Some(s)) => match parse_tristate(s) {
            Some(value) => Ok(value),
            None => Err(Fault::InvalidValue(field)),
        },
    }
}

/// Reads a required text from a row.
pub fn read_text_field(header: &Vec<String>, row: &Vec<String>, field: Field) -> (r: Result<
    String,
    Fault,
>)
    ensures
        match r {
            Ok(s) => text_field(row_text(header@), row_text(row@), field) == Ok::<Seq<char>, Fault>(
                s@,
            ),
            Err(fault) => text_field(row_text(header@), row_text(row@), field) == Err::<
                Seq<char>,
                Fault,
            >(fault),
        },
{
    match find_cell(header, row, field) {
        Err(fault) => Err(fault),
        Ok(None) => Err(Fault::MissingField(field)),
        Ok(Some(s)) => Ok(s.clone()),
    }
}

/// Reads a required wire code from a row.
pub fn read_code_field(header: &Vec<String>, row: &Vec<String>, field: Field) -> (r: Result<
    u8,
    Fault,
>)
    ensures
        r == code_field(row_text(header@), row_text(row@), field),
{
    match find_cell(header, row, field) {
        Err(fault) => Err(fault),
        Ok(None) => Err(Fault::MissingField(field)),
        Ok(Some(s)) => match read_code(s.as_str()) {
            Some(code) => Ok(code),
            None => Err(Fault::InvalidValue(field)),
        },
    }
}

/// Reads a required boolean from a row.
pub fn read_flag_field(header: &Vec<String>, row: &Vec<String>, field: Field) -> (r: Result<
    bool,
    Fault,
>)
    ensures
        r == flag_field(row_text(header@), row_text(row@), field),
{
    match find_cell(header, row, field) {
        Err(fault) => Err(fault),
        Ok(None) => Err(Fault::MissingField(field)),
        Ok(Some(s)) => match read_flag(s.as_str()) {
            Some(flag) => Ok(flag),
            None => Err(Fault::InvalidValue(field)),
        },
    }
}

/// Reads a tri-state from a row.
pub fn read_tristate_field(header: &Vec<String>, row: &Vec<String>, field: Field) -> (r: Result<
    Option<bool>,
    Fault,
>)
    ensures
        r == tristate_field(row_text(header@), row_text(row@), field),
{
    match find_cell(header, row, field) {
        Err(fault) => Err(fault),
        Ok(None) => Ok(None),
        Ok(Some(s)) => match read_tristate(s.as_str()) {
            Some(value) => Ok(value),
            None => Err(Fault::InvalidValue(field)),
        },
    }
}

} // verus!
