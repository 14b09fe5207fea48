//! Rows of a result.

use vstd::prelude::*;

use crate::bytes::{cells, rows_of, Cell};
use crate::decode::{answers_fields, decode_cell};
use crate::meta::{columns_model, ColSpec, ColumnView};
use crate::model::{columns_of, fields_of, Datum, Outcome};
use crate::types::{ColMap, DecodeError};

verus! {

/// Decodes a row: the value of each column, by the column's name. The first cell that cannot be
/// decoded decides where there is one. `None` stands for a cell that holds what a reader panics on,
/// and for a row that lacks the cell of a column.
pub fn row_to_fields(cols: &Vec<ColSpec>, row: &Vec<Option<Vec<u8>>>) -> (r: Option<
    Result<ColMap, DecodeError>,
>)
    ensures
        answers_fields(r, columns_of(columns_model(cols@), cells(row@))),
{
    let ghost all = cells(row@);
    let ghost model = columns_model(cols@);
    let mut fields = ColMap::new();
    let mut i: usize = 0;
    while i < cols.len()
        invariant
            i <= cols@.len(),
            all == cells(row@),
            model == columns_model(cols@),
            columns_of(model.take(i as int), all) is Done,
            fields@ == fields_of(columns_of(model.take(i as int), all)->Done_0),
        decreases cols@.len() - i,
    {
        proof {
            assert(model.take(i + 1).drop_last() =~= model.take(i as int));
            assert(model.take(i + 1).last() == cols@[i as int]@);
            if !(columns_of(model.take(i + 1), all) is Done) {
                lemma_columns_stop(model, all, i + 1);
            }
        }
        if i >= row.len() {
            return None;
        }
        let name = cols[i].name.clone();
        match decode_cell(&cols[i].col_type, &row[i]) {
            Some(Ok(value)) => {
                proof {
                    let entries = columns_of(model.take(i as int), all)->Done_0;
                    assert(entries.push((name@, value@)).drop_last() =~= entries);
                }
                fields.insert(name, value);
            },
            Some(Err(e)) => {
                return Some(Err(e));
            },
            None => {
                return None;
            },
        }
        i = i + 1;
    }
    assert(model.take(i as int) =~= model);
    Some(Ok(fields))
}

/// Where some first columns have no values, all of them together have none, for the same reason.
pub proof fn lemma_columns_stop(cols: Seq<ColumnView>, row: Seq<Cell>, i: int)
    requires
        0 <= i <= cols.len(),
        !(columns_of(cols.take(i), row) is Done),
    ensures
        columns_of(cols, row) == columns_of(cols.take(i), row),
    decreases cols.len(),
{
    if i == cols.len() {
        assert(cols.take(i) =~= cols);
    } else {
        assert(cols.drop_last().take(i) =~= cols.take(i));
        lemma_columns_stop(cols.drop_last(), row, i);
    }
}

/// Whether `fields` is what the row `row` comes to.
pub open spec fn decoded_row(fields: ColMap, cols: Seq<ColumnView>, row: Seq<Cell>) -> bool {
    columns_of(cols, row) is Done && fields@ == fields_of(columns_of(cols, row)->Done_0)
}

/// Whether `decoded` is what each of `rows` comes to.
pub open spec fn each_row(
    decoded: Seq<Option<Result<ColMap, DecodeError>>>,
    cols: Seq<ColumnView>,
    rows: Seq<Seq<Cell>>,
) -> bool {
    decoded.len() == rows.len() && forall|i: int|
        0 <= i < rows.len() ==> answers_fields(#[trigger] decoded[i], columns_of(cols, rows[i]))
}

/// Whether `decoded` is what the rows come to before the first that cannot be decoded, and `trouble`
/// what that one comes to, where there is one.
pub open spec fn rows_in_turn(
    decoded: Seq<ColMap>,
    trouble: Option<Option<DecodeError>>,
    cols: Seq<ColumnView>,
    rows: Seq<Seq<Cell>>,
) -> bool {
    &&& decoded.len() <= rows.len()
    &&& forall|i: int|
        0 <= i < decoded.len() ==> decoded_row(#[trigger] decoded[i], cols, rows[i])
    &&& match trouble {
        None => decoded.len() == rows.len(),
        Some(Some(e)) => decoded.len() < rows.len() && columns_of(cols, rows[decoded.len() as int])
            == Outcome::<Seq<(Seq<char>, Datum)>>::Failed(e@),
        Some(None) => decoded.len() < rows.len() && columns_of(
            cols,
            rows[decoded.len() as int],
        ) is Fault,
    }
}

/// Decodes the rows of a result, each on its own: what one of them comes to does not touch the
/// others.
pub fn process_rows(cols: &Vec<ColSpec>, rows: &Vec<Vec<Option<Vec<u8>>>>) -> (r: Vec<
    Option<Result<ColMap, DecodeError>>,
>)
    ensures
        each_row(r@, columns_model(cols@), rows_of(rows@)),
{
    let mut decoded: Vec<Option<Result<ColMap, DecodeError>>> = Vec::new();
    let mut i: usize = 0;
    while i < rows.len()
        invariant
            i <= rows@.len(),
            decoded@.len() == i,
            forall|j: int|
                0 <= j < i ==> answers_fields(
                    #[trigger] decoded@[j],
                    columns_of(columns_model(cols@), rows_of(rows@)[j]),
                ),
        decreases rows@.len() - i,
    {
        assert(rows_of(rows@)[i as int] == cells(rows@[i as int]@));
        decoded.push(row_to_fields(cols, &rows[i]));
        i = i + 1;
    }
    decoded
}

/// Decodes the rows of a result in turn, up to the first that cannot be decoded: the rows before it,
/// and what it comes to. There is nothing in the second place where all rows could be decoded.
pub fn process_rows_in_turn(cols: &Vec<ColSpec>, rows: &Vec<Vec<Option<Vec<u8>>>>) -> (r: (
    Vec<ColMap>,
    Option<Option<DecodeError>>,
))
    ensures
        rows_in_turn(r.0@, r.1, columns_model(cols@), rows_of(rows@)),
{
    let mut decoded: Vec<ColMap> = Vec::new();
    let mut i: usize = 0;
    while i < rows.len()
        invariant
            i <= rows@.len(),
            decoded@.len() == i,
            forall|j: int|
                0 <= j < i ==> decoded_row(
                    #[trigger] decoded@[j],
                    columns_model(cols@),
                    rows_of(rows@)[j],
                ),
        decreases rows@.len() - i,
    {
        assert(rows_of(rows@)[i as int] == cells(rows@[i as int]@));
        match row_to_fields(cols, &rows[i]) {
            Some(Ok(fields)) => {
                decoded.push(fields);
            },
            Some(Err(e)) => {
                return (decoded, Some(Some(e)));
            },
            None => {
                return (decoded, Some(None));
            },
        }
        i = i + 1;
    }
    (decoded, None)
}

} // verus!
