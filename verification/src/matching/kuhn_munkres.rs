//! The assignment solver of the `pathfinding` crate, and its weight matrix.
use crate::matching::spec::{assignment_value, is_assignment, kuhn_munkres_assignment};
use pathfinding::kuhn_munkres::Weights;
use pathfinding::matrix::Matrix;
use vstd::prelude::*;

verus! {

#[verifier::external_type_specification]
#[verifier::external_body]
#[verifier::reject_recursive_types(C)]
pub struct ExMatrix<C>(Matrix<C>);

/// The rows that a matrix holds.
pub uninterp spec fn matrix_contents(m: Matrix<i128>) -> Seq<Seq<i128>>;

pub open spec fn rows_view(rows: Seq<Vec<i128>>) -> Seq<Seq<i128>> {
    rows.map_values(|r: Vec<i128>| r@)
}

/// Every row as long as the first, and no matrix of empty rows.
pub open spec fn well_shaped(rows: Seq<Seq<i128>>) -> bool {
    &&& forall|i: int| 0 <= i < rows.len() ==> #[trigger] rows[i].len() == rows[0].len()
    &&& (rows.len() == 0 || rows[0].len() > 0)
}

/// `Matrix::from_rows`: the source builds the matrix row by row and fails
/// when a row's length differs from the first row's, or when the rows are
/// empty; otherwise the matrix holds the given rows.
#[verifier::external_body]
pub(crate) fn matrix_from_rows(rows: Vec<Vec<i128>>) -> (res: Option<Matrix<i128>>)
    ensures
        res is Some <==> well_shaped(rows_view(rows@)),
        res matches Some(m) ==> matrix_contents(m) == rows_view(rows@),
{
    Matrix::from_rows(rows).ok()
}

/// `Weights::at` on a matrix: the element at a row and a column; indexing
/// outside the matrix panics, so the caller stays inside it.
#[verifier::external_body]
pub(crate) fn matrix_at(m: &Matrix<i128>, row: usize, col: usize) -> (res: i128)
    requires
        row < matrix_contents(*m).len(),
        col < matrix_contents(*m)[row as int].len(),
    ensures
        res == matrix_contents(*m)[row as int][col as int],
{
    m.at(row, col)
}

/// `pathfinding::kuhn_munkres::kuhn_munkres`: on a square table it gives a
/// maximum-weight assignment of rows to columns and its total weight, as its
/// documentation says. Which of several maximum assignments it gives is
/// left to the name `kuhn_munkres_assignment`. The function panics when the
/// total weight overflows; the weights here are non-negative and small
/// enough that no sum the algorithm forms leaves the range of `i128`.
#[verifier::external_body]
pub(crate) fn kuhn_munkres(weights: &Matrix<i128>) -> (res: (i128, Vec<usize>))
    requires
        forall|i: int|
            0 <= i < matrix_contents(*weights).len() ==> #[trigger] matrix_contents(
                *weights,
            )[i].len() == matrix_contents(*weights).len(),
        forall|i: int, j: int|
            0 <= i < matrix_contents(*weights).len() && 0 <= j < matrix_contents(*weights).len()
                ==> 0 <= #[trigger] matrix_contents(*weights)[i][j] && 4 * matrix_contents(
                *weights,
            ).len() * matrix_contents(*weights)[i][j] <= i128::MAX,
    ensures
        res.1@ == kuhn_munkres_assignment(matrix_contents(*weights)),
        is_assignment(
            res.1@,
            matrix_contents(*weights).len(),
            matrix_contents(*weights).len(),
        ),
        res.0 == assignment_value(
            matrix_contents(*weights),
            res.1@,
            matrix_contents(*weights).len(),
        ),
        forall|b: Seq<usize>|
            is_assignment(b, matrix_contents(*weights).len(), matrix_contents(*weights).len())
                ==> assignment_value(matrix_contents(*weights), b, matrix_contents(*weights).len())
                <= res.0,
{
    pathfinding::kuhn_munkres::kuhn_munkres(weights)
}

} // verus!
