//! A table as rows of text cells under a header row.

use crate::error::Fault;
use crate::schema::Field;
use crate::text::same_text;
use vstd::prelude::*;

verus! {

/// The header cells and the data rows of a table, each cell a text.
pub struct Table {
    pub header: Vec<String>,
    pub rows: Vec<Vec<String>>,
}

/// A table as plain sequences of characters.
pub ghost struct TableModel {
    pub header: Seq<Seq<char>>,
    pub rows: Seq<Seq<Seq<char>>>,
}

/// The cells of a row as sequences of characters.
pub open spec fn row_text(row: Seq<String>) -> Seq<Seq<char>> {
    Seq::new(row.len(), |i: int| row[i]@)
}

/// The rows of a table as sequences of cells.
pub open spec fn rows_text(rows: Seq<Vec<String>>) -> Seq<Seq<Seq<char>>> {
    Seq::new(rows.len(), |i: int| row_text(rows[i]@))
}

impl View for Table {
    type V = TableModel;

    open spec fn view(&self) -> TableModel {
        TableModel { header: row_text(self.header@), rows: rows_text(self.rows@) }
    }
}

/// Every row is as long as the header.
pub open spec fn rectangular(table: TableModel) -> bool {
    forall|i: int| 0 <= i < table.rows.len() ==> (#[trigger] table.rows[i]).len() == table.header.len()
}

/// The table that the `csv` crate reads out of `data` with its default
/// settings: comma-separated, double-quoted, the first record the header.
/// Where it reports an error instead, the number of the record that the
/// error is about, where the error has one: the header is record 0, the
/// first data row record 1.
pub uninterp spec fn csv_table(data: Seq<u8>) -> Result<TableModel, Option<u64>>;

/// Splits `data` with `csv::Reader`, built by `csv::ReaderBuilder::new()`:
/// `headers()` gives the header row and `records()` every row after it, each
/// as a `StringRecord` whose fields are copied out in order. Of an error,
/// `csv::Error::position` and `Position::record` give the record's number.
/// The contract names what comes back, table or record number, and claims
/// one fact of a table: the reader, which is not flexible, has held every
/// record to the length of the first.
#[verifier::external_body]
fn split_records(data: &[u8]) -> (r: Result<Table, Option<u64>>)
    ensures
        match r {
            Ok(table) => csv_table(data@) == Ok::<TableModel, Option<u64>>(table@),
            Err(at) => csv_table(data@) == Err::<TableModel, Option<u64>>(at),
        },
        r matches Ok(table) ==> rectangular(table@),
{
    let mut reader = csv::ReaderBuilder::new().from_reader(data);
    let header = reader.headers().map(|h| h.iter().map(String::from).collect());
    let table = header.and_then(
        |header| reader.records().map(|r| r.map(|rec| rec.iter().map(String::from).collect())).collect::<
            Result<Vec<Vec<String>>, csv::Error>,
        >().map(|rows| Table { header, rows }),
    );
    table.map_err(|e| e.position().map(|at| at.record()))
}

/// The data row that a record is: the record before the first data row is
/// the header, which is no data row.
pub open spec fn data_row(record: Option<u64>) -> Option<usize> {
    match record {
        Some(n) => if 1 <= n && n - 1 <= usize::MAX {
            Some((n - 1) as usize)
        } else {
            None
        },
        None => None,
    }
}

/// Where a field's column stands in a header.
#[derive(Clone, Copy, Debug, PartialEq, Eq, Structural)]
pub enum Column {
    /// No column carries the name.
    Absent,
    /// More than one column carries the name.
    Repeated,
    /// Exactly one column carries the name: this one.
    At(usize),
}

/// Column `i` of the header carries `name`.
pub open spec fn heads(header: Seq<Seq<char>>, name: Seq<char>, i: int) -> bool {
    0 <= i < header.len() && header[i] == name
}

/// Where the column called `name` stands in `header`. Names are compared
/// character by character, so case counts.
pub open spec fn locate(header: Seq<Seq<char>>, name: Seq<char>) -> Column {
    if forall|i: int| !heads(header, name, i) {
        Column::Absent
    } else if exists|i: int, j: int| i != j && heads(header, name, i) && heads(header, name, j) {
        Column::Repeated
    } else {
        Column::At((choose|i: int| heads(header, name, i)) as usize)
    }
}

/// What a row holds for a field: its cell, `None` where the field has no
/// column or the row ends before it, and a fault where the header names the
/// field twice.
pub open spec fn cell(header: Seq<Seq<char>>, row: Seq<Seq<char>>, field: Field) -> Result<
    Option<Seq<char>>,
    Fault,
> {
    match locate(header, field.name_spec()) {
        Column::Absent => Ok(None),
        Column::Repeated => Err(Fault::DuplicateField(field)),
        Column::At(i) => if i < row.len() {
            Ok(Some(row[i as int]))
        } else {
            Ok(None)
        },
    }
}

/// A header with one more column, called `extra`, put in at position `k`.
pub open spec fn with_column(header: Seq<Seq<char>>, k: int, extra: Seq<char>) -> Seq<Seq<char>> {
    header.insert(k, extra)
}

/// One more column does not hide a column of another name nor make a second
/// one: the column is found as before, one place further right where the new
/// column stands before it.
pub proof fn lemma_locate_skips_column(
    header: Seq<Seq<char>>,
    k: int,
    extra: Seq<char>,
    name: Seq<char>,
)
    requires
        0 <= k <= header.len() < usize::MAX,
        extra != name,
    ensures
        locate(with_column(header, k, extra), name) == match locate(header, name) {
            Column::Absent => Column::Absent,
            Column::Repeated => Column::Repeated,
            Column::At(i) => Column::At(
                if i < k {
                    i
                } else {
                    (i + 1) as usize
                },
            ),
        },
{
    let wider = with_column(header, k, extra);
    assert(wider.len() == header.len() + 1);
    assert forall|i: int| 0 <= i < header.len() implies header[i] == wider[if i < k {
        i
    } else {
        i + 1
    }] by {}
    assert(wider[k] == extra);
    assert forall|i: int| heads(header, name, i) implies heads(
        wider,
        name,
        if i < k {
            i
        } else {
            i + 1
        },
    ) by {}
    assert forall|j: int| heads(wider, name, j) implies j != k && heads(
        header,
        name,
        if j < k {
            j
        } else {
            j - 1
        },
    ) by {
        if j > k {
            assert(header[j - 1] == wider[j]);
        }
    }
    if forall|i: int| !heads(header, name, i) {
        assert forall|j: int| !heads(wider, name, j) by {
            if heads(wider, name, j) {
                assert(heads(header, name, if j < k {
                    j
                } else {
                    j - 1
                }));
            }
        }
    } else if exists|i: int, j: int| i != j && heads(header, name, i) && heads(header, name, j) {
        let (a, b) = choose|i: int, j: int|
            i != j && heads(header, name, i) && heads(header, name, j);
        let wide_a = if a < k {
            a
        } else {
            a + 1
        };
        let wide_b = if b < k {
            b
        } else {
            b + 1
        };
        assert(wide_a != wide_b && heads(wider, name, wide_a) && heads(wider, name, wide_b));
    } else {
        let at = choose|i: int| heads(header, name, i);
        let wide_at = if at < k {
            at
        } else {
            at + 1
        };
        assert(heads(wider, name, wide_at));
        assert forall|a: int, b: int| heads(wider, name, a) && heads(wider, name, b) implies a
            == b by {
            let narrow_a = if a < k {
                a
            } else {
                a - 1
            };
            let narrow_b = if b < k {
                b
            } else {
                b - 1
            };
            assert(heads(header, name, narrow_a) && heads(header, name, narrow_b));
            assert(narrow_a == narrow_b);
        }
        let found = choose|j: int| heads(wider, name, j);
        assert(heads(wider, name, found));
        assert(found == wide_at);
    }
}

/// A row under a header, each with one more cell at the same position: the
/// row holds for every field of another name what it held before.
pub proof fn lemma_cell_skips_column(
    header: Seq<Seq<char>>,
    row: Seq<Seq<char>>,
    k: int,
    extra: Seq<char>,
    value: Seq<char>,
    field: Field,
)
    requires
        0 <= k <= header.len() < usize::MAX,
        k <= row.len(),
        extra != field.name_spec(),
    ensures
        cell(with_column(header, k, extra), row.insert(k, value), field) == cell(
            header,
            row,
            field,
        ),
{
    lemma_locate_skips_column(header, k, extra, field.name_spec());
    let wider = row.insert(k, value);
    assert(wider.len() == row.len() + 1);
    match locate(header, field.name_spec()) {
        Column::At(i) => {
            if i < row.len() {
                if i < k {
                    assert(wider[i as int] == row[i as int]);
                } else {
                    assert(wider[i + 1] == row[i as int]);
                }
            }
        },
        _ => {},
    }
}

impl Table {
    /// Splits the text of a table into its header and rows, every row as
    /// long as the header. Where the text is no table, the error is the data
    /// row at which it stops being one, if it is a data row.
    pub fn read(data: &[u8]) -> (r: Result<Table, Option<usize>>)
        ensures
            match r {
                Ok(table) => csv_table(data@) == Ok::<TableModel, Option<u64>>(table@)
                    && rectangular(table@),
                Err(row) => csv_table(data@) matches Err(at) && row == data_row(at),
            },
    {
        match split_records(data) {
            Ok(table) => Ok(table),
            Err(None) => Err(None),
            Err(Some(n)) => if 1 <= n && n - 1 <= usize::MAX as u64 {
                Err(Some((n - 1) as usize))
            } else {
                Err(None)
            },
        }
    }
}

/// Finds the column called `name` in a header.
pub fn find_column(header: &Vec<String>, name: &str) -> (c: Column)
    ensures
        c == locate(row_text(header@), name@),
{
    let ghost cells = row_text(header@);
    let mut found: Column = Column::Absent;
    let mut i: usize = 0;
    while i < header.len()
        invariant
            0 <= i <= header.len(),
            cells == row_text(header@),
            found == locate(cells.take(i as int), name@),
        decreases header.len() - i,
    {
        let ghost before = cells.take(i as int);
        let ghost after = cells.take(i + 1);
        proof {
            assert(after[i as int] == header@[i as int]@);
            assert forall|j: int| heads(before, name@, j) implies heads(after, name@, j) by {
                assert(before[j] == after[j]);
            }
            assert forall|j: int| heads(after, name@, j) && j != i implies heads(before, name@, j) by {
                assert(before[j] == after[j]);
            }
        }
        if same_text(header[i].as_str(), name) {
            proof {
                assert(heads(after, name@, i as int));
            }
            match found {
                Column::Absent => {
                    proof {
                        assert forall|a: int, b: int|
                            heads(after, name@, a) && heads(after, name@, b) implies a == b by {
                            if a != i {
                                assert(heads(before, name@, a));
                            }
                            if b != i {
                                assert(heads(before, name@, b));
                            }
                        }
                        let picked = choose|j: int| heads(after, name@, j);
                        assert(picked == i);
                    }
                    found = Column::At(i);
                },
                Column::At(first) => {
                    proof {
                        let picked = choose|j: int| heads(before, name@, j);
                        assert(heads(after, name@, picked));
                        assert(picked != i);
                    }
                    found = Column::Repeated;
                },
                Column::Repeated => {
                    proof {
                        let (a, b) = choose|a: int, b: int|
                            a != b && heads(before, name@, a) && heads(before, name@, b);
                        assert(heads(after, name@, a) && heads(after, name@, b));
                    }
                },
            }
        } else {
            proof {
                assert(!heads(after, name@, i as int));
                match found {
                    Column::Absent => {
                        assert forall|j: int| !heads(after, name@, j) by {
                            if heads(after, name@, j) {
                                assert(heads(before, name@, j));
                            }
                        }
                    },
                    Column::At(first) => {
                        let picked = choose|j: int| heads(before, name@, j);
                        assert(heads(after, name@, picked));
                        assert forall|a: int, b: int|
                            heads(after, name@, a) && heads(after, name@, b) implies a == b by {
                            assert(heads(before, name@, a));
                            assert(heads(before, name@, b));
                        }
                        let again = choose|j: int| heads(after, name@, j);
                        assert(heads(before, name@, again));
                        assert(again == picked);
                    },
                    Column::Repeated => {
                        let (a, b) = choose|a: int, b: int|
                            a != b && heads(before, name@, a) && heads(before, name@, b);
                        assert(heads(after, name@, a) && heads(after, name@, b));
                    },
                }
            }
        }
        i = i + 1;
    }
    proof {
        assert(cells.take(i as int) =~= cells);
    }
    found
}

/// Looks up the cell that a row holds for a field.
pub fn find_cell<'a>(header: &Vec<String>, row: &'a Vec<String>, field: Field) -> (r: Result<
    Option<&'a String>,
    Fault,
>)
    ensures
        match r {
            Ok(Some(s)) => cell(row_text(header@), row_text(row@), field) == Ok::<
                Option<Seq<char>>,
                Fault,
            >(Some(s@)),
            Ok(None) => cell(row_text(header@), row_text(row@), field) == Ok::<
                Option<Seq<char>>,
                Fault,
            >(None),
            Err(fault) => cell(row_text(header@), row_text(row@), field) == Err::<
                Option<Seq<char>>,
                Fault,
            >(fault),
        },
{
    match find_column(header, field.name()) {
        Column::Absent => Ok(None),
        Column::Repeated => Err(Fault::DuplicateField(field)),
        Column::At(i) => if i < row.len() {
            Ok(Some(&row[i]))
        } else {
            Ok(None)
        },
    }
}

} // verus!
