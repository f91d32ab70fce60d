//! Reading road segment records from comma-separated text with a header row.

use vstd::prelude::*;
use crate::number::{field_i16, parse_i16_field};
use crate::report::texts;
use crate::summary::Road;

verus! {

/// Why a table could not be read. Reading stops at the first problem.
#[derive(Clone, Copy, Debug, PartialEq, Eq, Structural)]
pub enum ParseError {
    /// The text is not well-formed comma-separated data.
    Csv,
    /// A field of the record is missing from the header or named twice.
    Header,
    /// The row at this index (counting data rows from 0) lacks a field or
    /// holds a number field that is not a 16-bit integer.
    Row(usize),
}

/// Number of fields of a road segment record.
pub const FIELD_COUNT: usize = 7;

/// The header names of the record's fields, in the record's order.
pub open spec fn field_name(k: int) -> Seq<char> {
    if k == 0 {
        "name"@
    } else if k == 1 {
        "crystal_current"@
    } else if k == 2 {
        "crystal_total"@
    } else if k == 3 {
        "metal_current"@
    } else if k == 4 {
        "metal_total"@
    } else if k == 5 {
        "ceramic_current"@
    } else {
        "ceramic_total"@
    }
}

/// `c` is the one column of the header named `name`.
pub open spec fn is_column(header: Seq<Seq<char>>, name: Seq<char>, c: int) -> bool {
    &&& 0 <= c < header.len()
    &&& header[c] == name
    &&& forall|j: int| 0 <= j < header.len() && header[j] == name ==> j == c
}

/// Exactly one column of the header is named `name`.
pub open spec fn has_column(header: Seq<Seq<char>>, name: Seq<char>) -> bool {
    exists|c: int| is_column(header, name, c)
}

/// The column of the header named `name`.
pub open spec fn column_of(header: Seq<Seq<char>>, name: Seq<char>) -> int {
    choose|c: int| is_column(header, name, c)
}

/// Every field of the record has exactly one column in the header.
pub open spec fn header_ok(header: Seq<Seq<char>>) -> bool {
    forall|k: int| 0 <= k < FIELD_COUNT ==> has_column(header, #[trigger] field_name(k))
}

/// The cell of `row` under field `k` of the record.
pub open spec fn cell(header: Seq<Seq<char>>, row: Seq<Seq<char>>, k: int) -> Seq<char> {
    row[column_of(header, field_name(k))]
}

/// The row has a cell under every field, and the number fields hold 16-bit integers.
pub open spec fn row_ok(header: Seq<Seq<char>>, row: Seq<Seq<char>>) -> bool {
    &&& forall|k: int| 0 <= k < FIELD_COUNT ==> column_of(header, #[trigger] field_name(k)) < row.len()
    &&& forall|k: int| 1 <= k < FIELD_COUNT ==> (#[trigger] field_i16(cell(header, row, k))) is Some
}

/// The number in field `k` of a row.
pub open spec fn number(header: Seq<Seq<char>>, row: Seq<Seq<char>>, k: int) -> i16 {
    field_i16(cell(header, row, k))->Some_0
}

/// `road` is the record that a well-formed row spells.
pub open spec fn road_of_row(header: Seq<Seq<char>>, row: Seq<Seq<char>>, road: Road) -> bool {
    &&& road.name@ == cell(header, row, 0)
    &&& road.crystal_current == number(header, row, 1)
    &&& road.crystal_total == number(header, row, 2)
    &&& road.metal_current == number(header, row, 3)
    &&& road.metal_total == number(header, row, 4)
    &&& road.ceramic_current == number(header, row, 5)
    &&& road.ceramic_total == number(header, row, 6)
}

/// The text of every cell of every row.
pub open spec fn row_texts(rows: Seq<Vec<String>>) -> Seq<Seq<Seq<char>>> {
    rows.map_values(|row: Vec<String>| texts(row@))
}

/// What reading a header and its data rows gives: the records when there
/// are no rows, or when the header names every field once and every row is
/// well-formed; else the first problem.
pub open spec fn table_result(
    header: Seq<Seq<char>>,
    rows: Seq<Seq<Seq<char>>>,
    r: Result<Vec<Road>, ParseError>,
) -> bool {
    if rows.len() > 0 && !header_ok(header) {
        r == Err::<Vec<Road>, ParseError>(ParseError::Header)
    } else if exists|i: int| 0 <= i < rows.len() && !row_ok(header, #[trigger] rows[i]) {
        match r {
            Err(ParseError::Row(i)) => {
                &&& i < rows.len()
                &&& !row_ok(header, rows[i as int])
                &&& forall|j: int| 0 <= j < i ==> row_ok(header, #[trigger] rows[j])
            },
            _ => false,
        }
    } else {
        &&& r is Ok
        &&& r->Ok_0@.len() == rows.len()
        &&& forall|i: int| 0 <= i < rows.len() ==> road_of_row(header, #[trigger] rows[i], r->Ok_0@[i])
    }
}

/// The header name of field `k` of the record.
fn field_name_str(k: usize) -> (r: &'static str)
    requires
        k < FIELD_COUNT,
    ensures
        r@ == field_name(k as int),
{
    if k == 0 {
        "name"
    } else if k == 1 {
        "crystal_current"
    } else if k == 2 {
        "crystal_total"
    } else if k == 3 {
        "metal_current"
    } else if k == 4 {
        "metal_total"
    } else if k == 5 {
        "ceramic_current"
    } else {
        "ceramic_total"
    }
}

/// The one column of `header` named `name`; `None` when there is none or more than one.
pub fn find_column(header: &Vec<String>, name: &str) -> (r: Option<usize>)
    ensures
        r is Some <==> has_column(texts(header@), name@),
        r is Some ==> r->Some_0 as int == column_of(texts(header@), name@),
{
    let target = String::from_str(name);
    let ghost h = texts(header@);
    let mut found: Option<usize> = None;
    let mut i: usize = 0;
    while i < header.len()
        invariant
            i <= header@.len(),
            h == texts(header@),
            h.len() == header@.len(),
            target@ == name@,
            found is None ==> forall|j: int| 0 <= j < i ==> h[j] != name@,
            found is Some ==> found->Some_0 < i && h[found->Some_0 as int] == name@
                && forall|j: int| 0 <= j < i && h[j] == name@ ==> j == found->Some_0,
        decreases header@.len() - i,
    {
        if header[i] == target {
            if found.is_some() {
                proof {
                    assert(!has_column(h, name@)) by {
                        if has_column(h, name@) {
                            let c = choose|c: int| is_column(h, name@, c);
                            assert(h[i as int] == name@);
                        }
                    }
                }
                return None;
            }
            found = Some(i);
        }
        i = i + 1;
    }
    proof {
        match found {
            Some(c) => {
                assert(is_column(h, name@, c as int));
                let d = column_of(h, name@);
                assert(is_column(h, name@, d));
            },
            None => {
                assert(!has_column(h, name@)) by {
                    if has_column(h, name@) {
                        let c = choose|c: int| is_column(h, name@, c);
                        assert(h[c] == name@);
                    }
                }
            },
        }
    }
    found
}

/// The columns of the record's fields, in the record's order; `None`
/// unless the header names every field exactly once.
pub fn find_columns(header: &Vec<String>) -> (r: Option<Vec<usize>>)
    ensures
        r is Some <==> header_ok(texts(header@)),
        r is Some ==> r->Some_0@.len() == FIELD_COUNT && forall|k: int| 0 <= k < FIELD_COUNT
            ==> r->Some_0@[k] as int == column_of(texts(header@), #[trigger] field_name(k)),
{
    let ghost h = texts(header@);
    let mut columns: Vec<usize> = Vec::new();
    let mut k: usize = 0;
    while k < FIELD_COUNT
        invariant
            k <= FIELD_COUNT,
            h == texts(header@),
            columns@.len() == k,
            forall|j: int| 0 <= j < k ==> has_column(h, #[trigger] field_name(j)),
            forall|j: int| 0 <= j < k ==> columns@[j] as int == column_of(h, #[trigger] field_name(j)),
        decreases FIELD_COUNT - k,
    {
        match find_column(header, field_name_str(k)) {
            None => {
                return None;
            },
            Some(c) => {
                columns.push(c);
            },
        }
        k = k + 1;
    }
    Some(columns)
}

/// The number in field `k` of a row, read from the cell at column `c`.
fn number_cell(row: &Vec<String>, c: usize) -> (r: Option<i16>)
    requires
        c < row@.len(),
    ensures
        r == field_i16(row@[c as int]@),
{
    parse_i16_field(row[c].as_str())
}

/// The record that a row spells, given the columns of the fields.
fn parse_row(columns: &Vec<usize>, row: &Vec<String>, header: Ghost<Seq<Seq<char>>>) -> (r: Option<Road>)
    requires
        columns@.len() == FIELD_COUNT,
        forall|k: int| 0 <= k < FIELD_COUNT
            ==> columns@[k] as int == column_of(header@, #[trigger] field_name(k)),
    ensures
        r is Some <==> row_ok(header@, texts(row@)),
        r is Some ==> road_of_row(header@, texts(row@), r->Some_0),
{
    let ghost t = texts(row@);
    let mut k: usize = 0;
    while k < FIELD_COUNT
        invariant
            k <= FIELD_COUNT,
            columns@.len() == FIELD_COUNT,
            forall|j: int| 0 <= j < FIELD_COUNT
                ==> columns@[j] as int == column_of(header@, #[trigger] field_name(j)),
            t == texts(row@),
            forall|j: int| 0 <= j < k ==> columns@[j] < row@.len(),
        decreases FIELD_COUNT - k,
    {
        if columns[k] >= row.len() {
            proof {
                assert(column_of(header@, field_name(k as int)) >= t.len());
            }
            return None;
        }
        k = k + 1;
    }
    proof {
        assert forall|j: int| 0 <= j < FIELD_COUNT implies column_of(header@, #[trigger] field_name(j)) < t.len() by {
            assert(columns@[j] < row@.len());
        }
        assert forall|j: int| 1 <= j < FIELD_COUNT implies cell(header@, t, j) == row@[columns@[j] as int]@ by {
            assert(columns@[j] < row@.len());
        }
        assert(cell(header@, t, 0) == row@[columns@[0] as int]@);
    }
    let crystal_current = number_cell(row, columns[1]);
    let crystal_total = number_cell(row, columns[2]);
    let metal_current = number_cell(row, columns[3]);
    let metal_total = number_cell(row, columns[4]);
    let ceramic_current = number_cell(row, columns[5]);
    let ceramic_total = number_cell(row, columns[6]);
    match (crystal_current, crystal_total, metal_current, metal_total, ceramic_current, ceramic_total) {
        (Some(a), Some(b), Some(c), Some(d), Some(e), Some(f)) => {
            let road = Road {
                name: row[columns[0]].clone(),
                crystal_current: a,
                crystal_total: b,
                metal_current: c,
                metal_total: d,
                ceramic_current: e,
                ceramic_total: f,
            };
            proof {
                assert forall|j: int| 1 <= j < FIELD_COUNT implies (#[trigger] field_i16(cell(header@, t, j))) is Some by {
                    if j == 1 {} else if j == 2 {} else if j == 3 {} else if j == 4 {} else if j == 5 {} else {}
                }
            }
            Some(road)
        },
        _ => {
            proof {
                if crystal_current is None {
                    assert(field_i16(cell(header@, t, 1)) is None);
                } else if crystal_total is None {
                    assert(field_i16(cell(header@, t, 2)) is None);
                } else if metal_current is None {
                    assert(field_i16(cell(header@, t, 3)) is None);
                } else if metal_total is None {
                    assert(field_i16(cell(header@, t, 4)) is None);
                } else if ceramic_current is None {
                    assert(field_i16(cell(header@, t, 5)) is None);
                } else {
                    assert(field_i16(cell(header@, t, 6)) is None);
                }
            }
            None
        },
    }
}

/// Reads the records of a table from its header and data rows. Fields are
/// found by their header names, in any column order; other columns are
/// ignored. A table with no data rows gives no records whatever its header.
/// Otherwise the header must name each field once, and every row must have
/// all fields, the number fields holding 16-bit integers: the first problem
/// fails the whole read.
pub fn parse_table(header: &Vec<String>, rows: &Vec<Vec<String>>) -> (r: Result<Vec<Road>, ParseError>)
    ensures
        table_result(texts(header@), row_texts(rows@), r),
{
    let ghost h = texts(header@);
    let ghost rs = row_texts(rows@);
    let mut roads: Vec<Road> = Vec::new();
    if rows.len() == 0 {
        return Ok(roads);
    }
    let columns = match find_columns(header) {
        None => {
            return Err(ParseError::Header);
        },
        Some(c) => c,
    };
    let mut i: usize = 0;
    while i < rows.len()
        invariant
            i <= rows@.len(),
            h == texts(header@),
            rs == row_texts(rows@),
            rs.len() == rows@.len(),
            header_ok(h),
            columns@.len() == FIELD_COUNT,
            forall|k: int| 0 <= k < FIELD_COUNT
                ==> columns@[k] as int == column_of(h, #[trigger] field_name(k)),
            roads@.len() == i,
            forall|j: int| 0 <= j < i ==> row_ok(h, #[trigger] rs[j]),
            forall|j: int| 0 <= j < i ==> road_of_row(h, #[trigger] rs[j], roads@[j]),
        decreases rows@.len() - i,
    {
        assert(rs[i as int] == texts(rows@[i as int]@));
        match parse_row(&columns, &rows[i], Ghost(h)) {
            None => {
                assert(!row_ok(h, rs[i as int]));
                return Err(ParseError::Row(i));
            },
            Some(road) => {
                roads.push(road);
            },
        }
        i = i + 1;
    }
    Ok(roads)
}

/// A table with any malformed row gives an error, never the
/// records of the rows that are well-formed.
pub proof fn lemma_bad_row_fails(
    header: Seq<Seq<char>>,
    rows: Seq<Seq<Seq<char>>>,
    r: Result<Vec<Road>, ParseError>,
    i: int,
)
    requires
        table_result(header, rows, r),
        0 <= i < rows.len(),
        !row_ok(header, rows[i]),
    ensures
        r is Err,
{
}

#[verifier::external_type_specification]
#[verifier::external_body]
pub struct ExCsvError(csv::Error);

/// The header and the data rows, as text, that csv's reader with its default
/// settings finds in `input`; `None` where it reports an error.
pub uninterp spec fn csv_table(input: Seq<u8>) -> Option<(Seq<Seq<char>>, Seq<Seq<Seq<char>>>)>;

/// Relies on csv::Reader::from_reader (default settings: comma delimiter,
/// double-quote quoting, first row as header, every row as long as the
/// header) and its `headers` and `records`: the header row and the data rows,
/// read from the bytes alone, or the first error met.
#[verifier::external_body]
fn read_csv(input: &[u8]) -> (r: Result<(Vec<String>, Vec<Vec<String>>), csv::Error>)
    ensures
        r is Ok <==> csv_table(input@) is Some,
        r is Ok ==> csv_table(input@) == Some((texts(r->Ok_0.0@), row_texts(r->Ok_0.1@))),
{
    let mut reader = csv::Reader::from_reader(input);
    let header: Vec<String> = reader.headers()?.iter().map(String::from).collect();
    let rows = reader
        .records()
        .map(|row| row.map(|row| row.iter().map(String::from).collect()))
        .collect::<Result<Vec<Vec<String>>, csv::Error>>()?;
    Ok((header, rows))
}

/// Reads the road segment records from comma-separated text whose first
/// row names the fields. Fails as a whole on text that is not well-formed
/// comma-separated data, on a header without some field, and on the first
/// row that lacks a field or holds a number that is not a 16-bit integer;
/// never returns the records of part of the rows.
pub fn parse_roads(input: &[u8]) -> (r: Result<Vec<Road>, ParseError>)
    ensures
        csv_table(input@) is None ==> r == Err::<Vec<Road>, ParseError>(ParseError::Csv),
        csv_table(input@) matches Some((header, rows)) ==> table_result(header, rows, r),
{
    match read_csv(input) {
        Err(_) => Err(ParseError::Csv),
        Ok((header, rows)) => parse_table(&header, &rows),
    }
}

} // verus!
