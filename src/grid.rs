//! The program grid, held in an `array2d::Array2D<char>`.
//!
//! The array is opaque to the verifier. Its contents are named by
//! [`cells`], a sequence of rows, and each call into `array2d` stands behind
//! a wrapper whose contract speaks of that name.
use vstd::prelude::*;
use array2d::Array2D;

verus! {

#[verifier::external_type_specification]
#[verifier::external_body]
#[verifier::reject_recursive_types(T)]
pub struct ExArray2D<T>(Array2D<T>);

#[verifier::external_type_specification]
#[verifier::external_body]
pub struct ExArray2DError(array2d::Error);

/// The rows of an array, top row first, each a sequence of its cells
/// from the leftmost column.
pub uninterp spec fn cells(a: Array2D<char>) -> Seq<Seq<char>>;

/// Every row has as many cells as the first.
pub open spec fn rectangular(rows: Seq<Seq<char>>) -> bool {
    forall|i: int| 0 <= i < rows.len() ==> #[trigger] rows[i].len() == rows[0].len()
}

/// The number of columns of a rectangular grid.
pub open spec fn width(rows: Seq<Seq<char>>) -> nat {
    if rows.len() == 0 {
        0
    } else {
        rows[0].len()
    }
}

/// The cell at (column, row), if the grid has one there.
pub open spec fn cell_at(rows: Seq<Seq<char>>, location: (usize, usize)) -> Option<char> {
    if location.1 < rows.len() && location.0 < rows[location.1 as int].len() {
        Some(rows[location.1 as int][location.0 as int])
    } else {
        None
    }
}

/// The plain view of a vector of rows.
pub open spec fn rows_view(rows: Seq<Vec<char>>) -> Seq<Seq<char>> {
    rows.map_values(|r: Vec<char>| r@)
}

/// Relies on `Array2D::from_rows`: it succeeds exactly when every row is as
/// long as the first, and then holds the rows as given.
#[verifier::external_body]
pub(crate) fn array_from_rows(rows: &Vec<Vec<char>>) -> (r: Result<Array2D<char>, array2d::Error>)
    ensures
        r is Ok <==> rectangular(rows_view(rows@)),
        r matches Ok(a) ==> cells(a) == rows_view(rows@),
{
    Array2D::from_rows(rows)
}

/// Relies on `Array2D::filled_with`: `num_rows` rows of `num_columns` copies
/// of `element`.
#[verifier::external_body]
pub(crate) fn array_filled_with(element: char, num_rows: usize, num_columns: usize) -> (r: Array2D<
    char,
>)
    requires
        num_rows * num_columns <= usize::MAX,
    ensures
        cells(r) == Seq::new(num_rows as nat, |i: int| Seq::new(num_columns as nat, |j: int| element)),
{
    Array2D::filled_with(element, num_rows, num_columns)
}

/// Relies on `Array2D::set`: in bounds it replaces one cell and returns `Ok`,
/// out of bounds it changes nothing and returns an error.
#[verifier::external_body]
pub(crate) fn array_set(a: &mut Array2D<char>, row: usize, column: usize, element: char) -> (r:
    Result<(), array2d::Error>)
    ensures
        cell_at(cells(*old(a)), (column, row)) is Some ==> r is Ok && cells(*final(a)) == cells(
            *old(a),
        ).update(row as int, cells(*old(a))[row as int].update(column as int, element)),
        cell_at(cells(*old(a)), (column, row)) is None ==> r is Err && cells(*final(a)) == cells(
            *old(a),
        ),
{
    a.set(row, column, element)
}

/// Relies on `Array2D::get`: the cell at (`row`, `column`) when it is in
/// bounds.
#[verifier::external_body]
pub(crate) fn array_get(a: &Array2D<char>, row: usize, column: usize) -> (r: Option<char>)
    ensures
        r == cell_at(cells(*a), (column, row)),
{
    a.get(row, column).copied()
}

/// Relies on `Array2D::row_len`: the number of columns.
#[verifier::external_body]
pub(crate) fn array_row_len(a: &Array2D<char>) -> (r: usize)
    ensures
        cells(*a).len() > 0 ==> r == cells(*a)[0].len(),
{
    a.row_len()
}

/// Relies on `Array2D::column_len`: the number of rows.
#[verifier::external_body]
pub(crate) fn array_column_len(a: &Array2D<char>) -> (r: usize)
    ensures
        r == cells(*a).len(),
{
    a.column_len()
}

/// Relies on the derived `Clone` of `Array2D`: an equal array.
#[verifier::external_body]
pub(crate) fn array_clone(a: &Array2D<char>) -> (r: Array2D<char>)
    ensures
        cells(r) == cells(*a),
{
    a.clone()
}

} // verus!
