//! Loading the records of one category from its table.

use crate::entry::ProtocolEntry;
use crate::error::{Fault, LoadError};
use crate::schema::Field;
use crate::table::{
    cell, csv_table, data_row, find_column, lemma_cell_skips_column, lemma_locate_skips_column,
    locate, rectangular, row_text, rows_text, with_column, Column, Table, TableModel,
};
use vstd::prelude::*;

verus! {

/// The records of a list as plain values.
pub open spec fn records_model<T: ProtocolEntry>(records: Seq<T>) -> Seq<T::V> {
    Seq::new(records.len(), |i: int| records[i]@)
}

/// The first of `fields` that has no column in `header`.
pub open spec fn first_missing(header: Seq<Seq<char>>, fields: Seq<Field>) -> Option<Field>
    decreases fields.len(),
{
    if fields.len() == 0 {
        None
    } else if locate(header, fields[0].name_spec()) == Column::Absent {
        Some(fields[0])
    } else {
        first_missing(header, fields.drop_first())
    }
}

/// The records that the rows hold, in their order, or the first row that
/// holds none, with its fault.
pub open spec fn parse_rows<T: ProtocolEntry>(
    header: Seq<Seq<char>>,
    rows: Seq<Seq<Seq<char>>>,
) -> Result<Seq<T::V>, (int, Fault)>
    decreases rows.len(),
{
    if rows.len() == 0 {
        Ok(Seq::empty())
    } else {
        match parse_rows::<T>(header, rows.drop_last()) {
            Err(failure) => Err(failure),
            Ok(records) => match T::parse(header, rows.last()) {
                Ok(record) => Ok(records.push(record)),
                Err(fault) => Err((rows.len() - 1, fault)),
            },
        }
    }
}

/// What loading a table gives: one record for each row, in the order of the
/// rows. A required field without a column fails the load whatever the rows
/// are; otherwise the first row that cannot be read fails it.
pub open spec fn load<T: ProtocolEntry>(table: TableModel) -> Result<Seq<T::V>, LoadError> {
    match first_missing(table.header, T::required_fields()) {
        Some(field) => Err(
            LoadError { table: T::category_spec(), row: None, fault: Fault::MissingField(field) },
        ),
        None => match parse_rows::<T>(table.header, table.rows) {
            Ok(records) => Ok(records),
            Err((row, fault)) => Err(
                LoadError { table: T::category_spec(), row: Some(row as usize), fault },
            ),
        },
    }
}

/// What loading a source gives, from what splitting it into cells gave: a
/// source that is no table is malformed, at the data row where splitting
/// stopped; a table is loaded.
pub open spec fn load_source<T: ProtocolEntry>(cells: Result<TableModel, Option<u64>>) -> Result<
    Seq<T::V>,
    LoadError,
> {
    match cells {
        Err(at) => Err(
            LoadError { table: T::category_spec(), row: data_row(at), fault: Fault::Malformed },
        ),
        Ok(table) => load::<T>(table),
    }
}

/// Rows that can all be read give one record each, in their order; otherwise
/// the failure is the first row that cannot be read.
pub proof fn lemma_parse_rows<T: ProtocolEntry>(header: Seq<Seq<char>>, rows: Seq<Seq<Seq<char>>>)
    ensures
        match parse_rows::<T>(header, rows) {
            Ok(records) => {
                &&& records.len() == rows.len()
                &&& forall|i: int|
                    0 <= i < rows.len() ==> T::parse(header, #[trigger] rows[i]) == Ok::<
                        T::V,
                        Fault,
                    >(records[i])
            },
            Err((row, fault)) => {
                &&& 0 <= row < rows.len()
                &&& T::parse(header, rows[row]) == Err::<T::V, Fault>(fault)
                &&& forall|i: int| 0 <= i < row ==> (#[trigger] T::parse(header, rows[i])) is Ok
            },
        },
    decreases rows.len(),
{
    if rows.len() > 0 {
        let front = rows.drop_last();
        lemma_parse_rows::<T>(header, front);
        assert forall|i: int| 0 <= i < front.len() implies front[i] == rows[i] by {}
    }
}

/// A table that has a column for every required field and whose rows can all
/// be read loads, with as many records as it has rows, in the order of the
/// rows; and only such a table loads.
pub proof fn lemma_load_keeps_rows<T: ProtocolEntry>(table: TableModel)
    ensures
        load::<T>(table) is Ok <==> {
            &&& first_missing(table.header, T::required_fields()) is None
            &&& forall|i: int|
                0 <= i < table.rows.len() ==> (#[trigger] T::parse(
                    table.header,
                    table.rows[i],
                )) is Ok
        },
        load::<T>(table) matches Ok(records) ==> {
            &&& records.len() == table.rows.len()
            &&& forall|i: int|
                0 <= i < table.rows.len() ==> T::parse(table.header, #[trigger] table.rows[i])
                    == Ok::<T::V, Fault>(records[i])
        },
{
    lemma_parse_rows::<T>(table.header, table.rows);
}

/// No field is called `name`.
pub open spec fn names_no_field(name: Seq<char>) -> bool {
    forall|field: Field| name != #[trigger] field.name_spec()
}

/// A table with one more column, called `extra`, at position `k`, which
/// holds `values[i]` in row `i`.
pub open spec fn widened(table: TableModel, k: int, extra: Seq<char>, values: Seq<Seq<char>>) -> TableModel {
    TableModel {
        header: with_column(table.header, k, extra),
        rows: Seq::new(table.rows.len(), |i: int| table.rows[i].insert(k, values[i])),
    }
}

/// One more column of another name leaves the required fields as they were.
proof fn lemma_first_missing_skips_column(
    header: Seq<Seq<char>>,
    k: int,
    extra: Seq<char>,
    fields: Seq<Field>,
)
    requires
        0 <= k <= header.len() < usize::MAX,
        names_no_field(extra),
    ensures
        first_missing(with_column(header, k, extra), fields) == first_missing(header, fields),
    decreases fields.len(),
{
    if fields.len() > 0 {
        lemma_locate_skips_column(header, k, extra, fields[0].name_spec());
        lemma_first_missing_skips_column(header, k, extra, fields.drop_first());
    }
}

/// A column that carries the name of no field is ignored, wherever it
/// stands and whatever its cells hold: with it the table loads as without.
pub proof fn lemma_unknown_column_is_ignored<T: ProtocolEntry>(
    table: TableModel,
    k: int,
    extra: Seq<char>,
    values: Seq<Seq<char>>,
)
    requires
        0 <= k <= table.header.len() < usize::MAX,
        rectangular(table),
        names_no_field(extra),
        values.len() == table.rows.len(),
    ensures
        load::<T>(widened(table, k, extra, values)) == load::<T>(table),
        rectangular(widened(table, k, extra, values)),
{
    let wide = widened(table, k, extra, values);
    lemma_first_missing_skips_column(table.header, k, extra, T::required_fields());
    lemma_parse_rows_skip_column::<T>(table, k, extra, values, table.rows.len() as int);
    assert(table.rows.take(table.rows.len() as int) =~= table.rows);
    assert(wide.rows.take(table.rows.len() as int) =~= wide.rows);
    assert forall|i: int| 0 <= i < wide.rows.len() implies (#[trigger] wide.rows[i]).len()
        == wide.header.len() by {
        assert(table.rows[i].len() == table.header.len());
    }
}

/// With one more column of another name the first `n` rows are read as
/// without it.
proof fn lemma_parse_rows_skip_column<T: ProtocolEntry>(
    table: TableModel,
    k: int,
    extra: Seq<char>,
    values: Seq<Seq<char>>,
    n: int,
)
    requires
        0 <= k <= table.header.len() < usize::MAX,
        rectangular(table),
        names_no_field(extra),
        values.len() == table.rows.len(),
        0 <= n <= table.rows.len(),
    ensures
        parse_rows::<T>(
            with_column(table.header, k, extra),
            widened(table, k, extra, values).rows.take(n),
        ) == parse_rows::<T>(table.header, table.rows.take(n)),
    decreases n,
{
    if n > 0 {
        let wide = widened(table, k, extra, values);
        lemma_parse_rows_skip_column::<T>(table, k, extra, values, n - 1);
        assert(wide.rows.take(n).drop_last() =~= wide.rows.take(n - 1));
        assert(table.rows.take(n).drop_last() =~= table.rows.take(n - 1));
        let row = table.rows[n - 1];
        assert(table.rows.take(n).last() == row);
        assert(wide.rows.take(n).last() == row.insert(k, values[n - 1]));
        assert(row.len() == table.header.len());
        assert forall|field: Field| #[trigger]
            cell(wide.header, row.insert(k, values[n - 1]), field) == cell(
                table.header,
                row,
                field,
            ) by {
            lemma_cell_skips_column(table.header, row, k, extra, values[n - 1], field);
        }
        T::lemma_parse_reads_cells(wide.header, row.insert(k, values[n - 1]), table.header, row);
    }
}

/// Finds the first of `fields` that has no column in `header`.
pub fn find_missing(header: &Vec<String>, fields: &Vec<Field>) -> (r: Option<Field>)
    ensures
        r == first_missing(row_text(header@), fields@),
{
    let mut i: usize = 0;
    proof {
        assert(fields@.skip(0) =~= fields@);
    }
    while i < fields.len()
        invariant
            0 <= i <= fields.len(),
            first_missing(row_text(header@), fields@) == first_missing(
                row_text(header@),
                fields@.skip(i as int),
            ),
        decreases fields.len() - i,
    {
        let ghost rest = fields@.skip(i as int);
        proof {
            assert(rest[0] == fields@[i as int]);
            assert(rest.drop_first() =~= fields@.skip(i + 1));
        }
        match find_column(header, fields[i].name()) {
            Column::Absent => {
                return Some(fields[i]);
            },
            _ => {},
        }
        i = i + 1;
    }
    None
}

/// Loads the records of a category from its table.
pub fn from_table<T: ProtocolEntry>(table: &Table) -> (r: Result<Vec<T>, LoadError>)
    ensures
        match r {
            Ok(records) => load::<T>(table@) == Ok::<Seq<T::V>, LoadError>(
                records_model(records@),
            ),
            Err(e) => load::<T>(table@) == Err::<Seq<T::V>, LoadError>(e),
        },
        r matches Ok(records) ==> records@.len() == table.rows@.len(),
{
    let required = T::required();
    match find_missing(&table.header, &required) {
        Some(field) => {
            return Err(
                LoadError { table: T::category(), row: None, fault: Fault::MissingField(field) },
            );
        },
        None => {},
    }
    let ghost header = row_text(table.header@);
    let ghost rows = rows_text(table.rows@);
    let mut records: Vec<T> = Vec::new();
    let mut i: usize = 0;
    proof {
        assert(rows.take(0) =~= Seq::<Seq<Seq<char>>>::empty());
        assert(records_model(records@) =~= Seq::<T::V>::empty());
    }
    while i < table.rows.len()
        invariant
            0 <= i <= table.rows.len(),
            header == row_text(table.header@),
            rows == rows_text(table.rows@),
            first_missing(header, T::required_fields()) is None,
            records@.len() == i,
            parse_rows::<T>(header, rows.take(i as int)) == Ok::<Seq<T::V>, (int, Fault)>(
                records_model(records@),
            ),
        decreases table.rows.len() - i,
    {
        let ghost read = rows.take(i as int);
        let ghost next = rows.take(i + 1);
        let ghost before = records_model(records@);
        proof {
            assert(next.drop_last() =~= read);
            assert(next.last() == row_text(table.rows@[i as int]@));
        }
        match T::from_row(&table.header, &table.rows[i]) {
            Ok(record) => {
                records.push(record);
                proof {
                    assert(records_model(records@) =~= before.push(record@));
                }
            },
            Err(fault) => {
                proof {
                    assert(parse_rows::<T>(header, next) == Err::<Seq<T::V>, (int, Fault)>(
                        (i as int, fault),
                    ));
                    lemma_parse_rows_fails_on::<T>(header, rows, i + 1);
                }
                return Err(LoadError { table: T::category(), row: Some(i), fault });
            },
        }
        i = i + 1;
    }
    proof {
        assert(rows.take(i as int) =~= rows);
    }
    Ok(records)
}

/// A failure among the first `k` rows is the failure of all the rows.
proof fn lemma_parse_rows_fails_on<T: ProtocolEntry>(
    header: Seq<Seq<char>>,
    rows: Seq<Seq<Seq<char>>>,
    k: int,
)
    requires
        0 <= k <= rows.len(),
        parse_rows::<T>(header, rows.take(k)) is Err,
    ensures
        parse_rows::<T>(header, rows) == parse_rows::<T>(header, rows.take(k)),
    decreases rows.len() - k,
{
    if k == rows.len() {
        assert(rows.take(k) =~= rows);
    } else {
        assert(rows.take(k + 1).drop_last() =~= rows.take(k));
        lemma_parse_rows_fails_on::<T>(header, rows, k + 1);
    }
}

/// Loads the records of a category from the text of its table. Every row
/// that is read is as long as the header.
pub fn from_csv<T: ProtocolEntry>(data: &[u8]) -> (r: Result<Vec<T>, LoadError>)
    ensures
        match r {
            Ok(records) => load_source::<T>(csv_table(data@)) == Ok::<Seq<T::V>, LoadError>(
                records_model(records@),
            ),
            Err(e) => load_source::<T>(csv_table(data@)) == Err::<Seq<T::V>, LoadError>(e),
        },
        r matches Ok(records) ==> (csv_table(data@) matches Ok(table) && rectangular(table)
            && records@.len() == table.rows.len()),
{
    match Table::read(data) {
        Ok(table) => from_table::<T>(&table),
        Err(row) => Err(LoadError { table: T::category(), row, fault: Fault::Malformed }),
    }
}

} // verus!
