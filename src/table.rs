//! Reading the reference table through the cindex CSV indexer.
use vstd::prelude::*;
use crate::error::GcalcError;
use crate::models::ParameterRow;

verus! {

pub open spec fn strings_view(v: Seq<String>) -> Seq<Seq<char>> {
    v.map_values(|s: String| s@)
}

pub open spec fn cells_view(rows: Seq<Vec<String>>) -> Seq<Seq<Seq<char>>> {
    rows.map_values(|r: Vec<String>| strings_view(r@))
}

/// A name for the cells that cindex selects from a CSV text for one
/// column: `headers` (when not empty) name the columns of a text without a
/// header row.
pub uninterp spec fn indexed_column(
    text: Seq<char>,
    headers: Seq<Seq<char>>,
    column: Seq<char>,
) -> Seq<Seq<Seq<char>>>;

/// A name for whether cindex reads `text` and selects `column` without error.
pub uninterp spec fn index_ok(text: Seq<char>, headers: Seq<Seq<char>>, column: Seq<char>) -> bool;

/// Relies on cindex's `Indexer::add_table_with_option`, which reads `text`
/// as CSV (with `headers` as the header row when given), and on
/// `Indexer::index_get_records` for a query selecting `column` with the
/// `SUP` flag (a column the table lacks yields empty cells). Success and the
/// cells depend on the arguments alone.
#[verifier::external_body]
pub(crate) fn index_column(text: &str, headers: &Vec<String>, column: &String) -> (r: Result<
    Vec<Vec<String>>,
    cindex::CIndexError,
>)
    ensures
        r is Ok <==> index_ok(text@, strings_view(headers@), column@),
        r matches Ok(rows) ==> cells_view(rows@) == indexed_column(
            text@,
            strings_view(headers@),
            column@,
        ),
{
    let mut option = cindex::ReaderOption::new();
    option.consume_dquote = true;
    option.ignore_empty_row = true;
    option.custom_header = headers.clone();
    let mut indexer = cindex::Indexer::new();
    indexer.add_table_with_option("ref", text.as_bytes(), option)?;
    let mut query = cindex::Query::build().table("ref").columns(vec![column.as_str()]);
    query.flags.set("SUP")?;
    indexer.index_get_records(query)
}

/// The single cell of line `i` of a one-column selection.
pub open spec fn cell(c: Seq<Seq<Seq<char>>>, i: int) -> Seq<char> {
    c[i][0]
}

/// A one-column selection with one cell on every line.
pub open spec fn single_cells(c: Seq<Seq<Seq<char>>>) -> bool {
    forall|i: int| 0 <= i < c.len() ==> (#[trigger] c[i]).len() == 1
}

/// Four column selections with the same number of lines and one cell on
/// every line.
pub open spec fn columns_line_up(
    count: Seq<Seq<Seq<char>>>,
    probability: Seq<Seq<Seq<char>>>,
    constant: Seq<Seq<Seq<char>>>,
    cost: Seq<Seq<Seq<char>>>,
) -> bool {
    &&& count.len() == probability.len() == constant.len() == cost.len()
    &&& single_cells(count) && single_cells(probability) && single_cells(constant) && single_cells(
        cost,
    )
}

/// Rows made from the four column selections (count, probability,
/// constant, cost), line by line.
pub open spec fn rows_match(
    rows: Seq<ParameterRow>,
    count: Seq<Seq<Seq<char>>>,
    probability: Seq<Seq<Seq<char>>>,
    constant: Seq<Seq<Seq<char>>>,
    cost: Seq<Seq<Seq<char>>>,
) -> bool {
    &&& rows.len() == count.len() == probability.len() == constant.len() == cost.len()
    &&& single_cells(count) && single_cells(probability) && single_cells(constant) && single_cells(
        cost,
    )
    &&& forall|i: int|
        0 <= i < rows.len() ==> {
            &&& (#[trigger] rows[i]).count@ == cell(count, i)
            &&& rows[i].probability@ == cell(probability, i)
            &&& rows[i].constant@ == cell(constant, i)
            &&& rows[i].cost@ == cell(cost, i)
        }
}

fn single_cell(cells: &Vec<Vec<String>>, i: usize) -> (r: Option<String>)
    requires
        i < cells@.len(),
    ensures
        cells@[i as int]@.len() == 1 <==> r is Some,
        r matches Some(s) ==> s@ == cell(cells_view(cells@), i as int),
{
    let line = &cells[i];
    if line.len() != 1 {
        return None;
    }
    assert(cells_view(cells@)[i as int] == strings_view(line@));
    Some(line[0].clone())
}

/// Zips four one-column selections into reference rows; fails with the
/// first line where they disagree in length or a line is not one cell.
pub fn rows_from_columns(
    count: &Vec<Vec<String>>,
    probability: &Vec<Vec<String>>,
    constant: &Vec<Vec<String>>,
    cost: &Vec<Vec<String>>,
) -> (r: Result<Vec<ParameterRow>, GcalcError>)
    ensures
        r matches Ok(rows) ==> rows_match(
            rows@,
            cells_view(count@),
            cells_view(probability@),
            cells_view(constant@),
            cells_view(cost@),
        ),
        r matches Err(e) ==> e is CsvShape,
        columns_line_up(
            cells_view(count@),
            cells_view(probability@),
            cells_view(constant@),
            cells_view(cost@),
        ) <==> r is Ok,
{
    let n = count.len();
    if probability.len() != n || constant.len() != n || cost.len() != n {
        return Err(GcalcError::CsvShape { row: 0 });
    }
    let mut rows: Vec<ParameterRow> = Vec::new();
    let mut i: usize = 0;
    while i < n
        invariant
            n == count@.len() == probability@.len() == constant@.len() == cost@.len(),
            i <= n,
            rows@.len() == i,
            forall|j: int| 0 <= j < i ==> (#[trigger] count@[j])@.len() == 1,
            forall|j: int| 0 <= j < i ==> (#[trigger] probability@[j])@.len() == 1,
            forall|j: int| 0 <= j < i ==> (#[trigger] constant@[j])@.len() == 1,
            forall|j: int| 0 <= j < i ==> (#[trigger] cost@[j])@.len() == 1,
            forall|j: int|
                0 <= j < i ==> {
                    &&& (#[trigger] rows@[j]).count@ == cell(cells_view(count@), j)
                    &&& rows@[j].probability@ == cell(cells_view(probability@), j)
                    &&& rows@[j].constant@ == cell(cells_view(constant@), j)
                    &&& rows@[j].cost@ == cell(cells_view(cost@), j)
                },
        decreases n - i,
    {
        let c0 = single_cell(count, i);
        let c1 = single_cell(probability, i);
        let c2 = single_cell(constant, i);
        let c3 = single_cell(cost, i);
        match (c0, c1, c2, c3) {
            (Some(a), Some(b), Some(c), Some(d)) => {
                rows.push(ParameterRow { count: a, probability: b, constant: c, cost: d });
            },
            _ => {
                assert(!single_cells(cells_view(count@)) || !single_cells(cells_view(probability@))
                    || !single_cells(cells_view(constant@)) || !single_cells(cells_view(cost@))) by {
                    assert(cells_view(count@)[i as int] == strings_view(count@[i as int]@));
                    assert(cells_view(probability@)[i as int] == strings_view(
                        probability@[i as int]@,
                    ));
                    assert(cells_view(constant@)[i as int] == strings_view(constant@[i as int]@));
                    assert(cells_view(cost@)[i as int] == strings_view(cost@[i as int]@));
                }
                return Err(GcalcError::CsvShape { row: i });
            },
        }
        i = i + 1;
    }
    assert(single_cells(cells_view(count@))) by {
        assert forall|j: int| 0 <= j < n implies (#[trigger] cells_view(count@)[j]).len() == 1 by {
            assert(cells_view(count@)[j] == strings_view(count@[j]@));
        }
    }
    assert(single_cells(cells_view(probability@))) by {
        assert forall|j: int| 0 <= j < n implies (#[trigger] cells_view(probability@)[j]).len()
            == 1 by {
            assert(cells_view(probability@)[j] == strings_view(probability@[j]@));
        }
    }
    assert(single_cells(cells_view(constant@))) by {
        assert forall|j: int| 0 <= j < n implies (#[trigger] cells_view(constant@)[j]).len() == 1 by {
            assert(cells_view(constant@)[j] == strings_view(constant@[j]@));
        }
    }
    assert(single_cells(cells_view(cost@))) by {
        assert forall|j: int| 0 <= j < n implies (#[trigger] cells_view(cost@)[j]).len() == 1 by {
            assert(cells_view(cost@)[j] == strings_view(cost@[j]@));
        }
    }
    Ok(rows)
}

} // verus!
