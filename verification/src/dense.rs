//! Sums along the axes of a matrix, and scalings of it.

use vstd::prelude::*;
use crate::matrix::{rows_view, Grid, Matrix};
use crate::scalar::{
    all_non_negative, lemma_sum_non_negative, lemma_sum_step, sum, sum_of, NonNegativeClosed, Scalar,
};

verus! {

/// Column `j` of a matrix, from the top.
pub open spec fn column<S>(rows: Seq<Seq<S>>, j: int) -> Seq<S> {
    Seq::new(rows.len(), |i: int| rows[i][j])
}

/// The sum of each row.
pub open spec fn row_sums<S: Scalar>(m: Grid<S>) -> Seq<S> {
    Seq::new(m.rows.len(), |i: int| sum(m.rows[i]))
}

/// The sum of each column.
pub open spec fn column_sums<S: Scalar>(m: Grid<S>) -> Seq<S> {
    Seq::new(m.width, |j: int| sum(column(m.rows, j)))
}

/// The matrix with every entry multiplied by `factor`, the factor on the
/// left.
pub open spec fn scaled<S: Scalar>(factor: S, m: Grid<S>) -> Grid<S> {
    Grid {
        rows: Seq::new(
            m.rows.len(),
            |i: int| Seq::new(m.width, |j: int| factor.times_spec(m.rows[i][j])),
        ),
        width: m.width,
    }
}

/// The matrix with row `i` multiplied by `factors[i]`, the factor on the
/// left: the product of the diagonal matrix of `factors` with `m`.
pub open spec fn rows_scaled<S: Scalar>(factors: Seq<S>, m: Grid<S>) -> Grid<S> {
    Grid {
        rows: Seq::new(
            m.rows.len(),
            |i: int| Seq::new(m.width, |j: int| factors[i].times_spec(m.rows[i][j])),
        ),
        width: m.width,
    }
}

/// The matrix with column `j` multiplied by `factors[j]`, the factor on the
/// right: the product of `m` with the diagonal matrix of `factors`.
pub open spec fn columns_scaled<S: Scalar>(m: Grid<S>, factors: Seq<S>) -> Grid<S> {
    Grid {
        rows: Seq::new(
            m.rows.len(),
            |i: int| Seq::new(m.width, |j: int| m.rows[i][j].times_spec(factors[j])),
        ),
        width: m.width,
    }
}

/// Whether every entry of the matrix is zero or more.
pub open spec fn non_negative<S: Scalar>(m: Grid<S>) -> bool {
    forall|i: int, j: int|
        0 <= i < m.rows.len() && 0 <= j < m.width ==> (#[trigger] m.rows[i][j]).non_negative_spec()
}

/// The row sums and the column sums of a matrix without an entry below zero
/// are zero or more.
pub proof fn lemma_sums_non_negative<S: NonNegativeClosed>(m: Grid<S>)
    requires
        m.rectangular(),
        non_negative(m),
    ensures
        all_non_negative(row_sums(m)),
        all_non_negative(column_sums(m)),
{
    assert forall|i: int| 0 <= i < row_sums(m).len() implies (#[trigger] row_sums(
        m,
    )[i]).non_negative_spec() by {
        assert forall|j: int| 0 <= j < m.rows[i].len() implies (
        #[trigger] m.rows[i][j]).non_negative_spec() by {}
        lemma_sum_non_negative(m.rows[i]);
    }
    assert forall|j: int| 0 <= j < column_sums(m).len() implies (#[trigger] column_sums(
        m,
    )[j]).non_negative_spec() by {
        let down = column(m.rows, j);
        assert forall|i: int| 0 <= i < down.len() implies (#[trigger] down[i]).non_negative_spec() by {
            assert(m.rows[i][j].non_negative_spec());
        }
        lemma_sum_non_negative(down);
    }
}

/// Scaling a matrix without an entry below zero by factors of zero or more
/// leaves no entry below zero.
pub proof fn lemma_scaled_non_negative<S: NonNegativeClosed>(
    factor: S,
    factors: Seq<S>,
    m: Grid<S>,
)
    requires
        non_negative(m),
        factor.non_negative_spec(),
        all_non_negative(factors),
    ensures
        non_negative(scaled(factor, m)),
        factors.len() >= m.rows.len() ==> non_negative(rows_scaled(factors, m)),
        factors.len() >= m.width ==> non_negative(columns_scaled(m, factors)),
{
    assert forall|i: int, j: int| 0 <= i < m.rows.len() && 0 <= j < m.width implies (
    #[trigger] scaled(factor, m).rows[i][j]).non_negative_spec() by {
        S::lemma_times_non_negative(factor, m.rows[i][j]);
    }
    if factors.len() >= m.rows.len() {
        assert forall|i: int, j: int| 0 <= i < m.rows.len() && 0 <= j < m.width implies (
        #[trigger] rows_scaled(factors, m).rows[i][j]).non_negative_spec() by {
            S::lemma_times_non_negative(factors[i], m.rows[i][j]);
        }
    }
    if factors.len() >= m.width {
        assert forall|i: int, j: int| 0 <= i < m.rows.len() && 0 <= j < m.width implies (
        #[trigger] columns_scaled(m, factors).rows[i][j]).non_negative_spec() by {
            S::lemma_times_non_negative(m.rows[i][j], factors[j]);
        }
    }
}

/// Adds up each row of `m`.
pub fn sum_rows<S: Scalar>(m: &Matrix<S>) -> (sums: Vec<S>)
    ensures
        sums@ == row_sums(m@),
{
    let rows = m.rows();
    let mut sums: Vec<S> = Vec::new();
    let mut i: usize = 0;
    while i < rows.len()
        invariant
            i <= rows@.len(),
            rows_view(rows@) == m@.rows,
            sums@.len() == i,
            forall|t: int| 0 <= t < i ==> (#[trigger] sums@[t]) == sum(m@.rows[t]),
        decreases rows.len() - i,
    {
        assert(rows@[i as int]@ == m@.rows[i as int]);
        sums.push(sum_of(rows[i].as_slice()));
        i += 1;
    }
    assert(sums@ =~= row_sums(m@));
    sums
}

fn sum_column<S: Scalar>(rows: &Vec<Vec<S>>, j: usize) -> (total: S)
    requires
        forall|t: int| 0 <= t < rows@.len() ==> j < (#[trigger] rows@[t])@.len(),
    ensures
        total == sum(column(rows_view(rows@), j as int)),
{
    let ghost terms = column(rows_view(rows@), j as int);
    let mut total = S::count(0);
    let mut i: usize = 0;
    while i < rows.len()
        invariant
            i <= rows@.len(),
            terms == column(rows_view(rows@), j as int),
            forall|t: int| 0 <= t < rows@.len() ==> j < (#[trigger] rows@[t])@.len(),
            total == sum(terms.take(i as int)),
        decreases rows.len() - i,
    {
        proof {
            lemma_sum_step(terms, i as int);
        }
        total = total.plus(rows[i][j]);
        i += 1;
    }
    assert(terms.take(i as int) =~= terms);
    total
}

/// Adds up each column of `m`.
pub fn sum_columns<S: Scalar>(m: &Matrix<S>) -> (sums: Vec<S>)
    ensures
        sums@ == column_sums(m@),
{
    let rows = m.rows();
    let width = m.width();
    let mut sums: Vec<S> = Vec::new();
    let mut j: usize = 0;
    while j < width
        invariant
            j <= width,
            width == m@.width,
            m@.rectangular(),
            rows_view(rows@) == m@.rows,
            sums@.len() == j,
            forall|t: int| 0 <= t < j ==> (#[trigger] sums@[t]) == sum(column(m@.rows, t)),
        decreases width - j,
    {
        assert forall|t: int| 0 <= t < rows@.len() implies j < (#[trigger] rows@[t])@.len() by {
            assert(rows@[t]@ == m@.rows[t]);
        }
        sums.push(sum_column(rows, j));
        j += 1;
    }
    assert(sums@ =~= column_sums(m@));
    sums
}

/// Multiplies every entry of `m` by `factor`.
pub fn scale<S: Scalar>(factor: S, m: &Matrix<S>) -> (made: Matrix<S>)
    ensures
        made@ == scaled(factor, m@),
{
    let rows = m.rows();
    let width = m.width();
    let ghost wanted = scaled(factor, m@);
    let mut out: Vec<Vec<S>> = Vec::new();
    let mut i: usize = 0;
    while i < rows.len()
        invariant
            i <= rows@.len(),
            width == m@.width,
            m@.rectangular(),
            rows_view(rows@) == m@.rows,
            wanted == scaled(factor, m@),
            out@.len() == i,
            forall|t: int| 0 <= t < i ==> (#[trigger] out@[t])@ == wanted.rows[t],
        decreases rows.len() - i,
    {
        assert(rows@[i as int]@ == m@.rows[i as int]);
        let mut row: Vec<S> = Vec::new();
        let mut j: usize = 0;
        while j < width
            invariant
                j <= width,
                i < rows@.len(),
                rows@[i as int]@.len() == width,
                row@.len() == j,
                forall|t: int|
                    0 <= t < j ==> (#[trigger] row@[t]) == factor.times_spec(rows@[i as int]@[t]),
            decreases width - j,
        {
            row.push(factor.times(rows[i][j]));
            j += 1;
        }
        assert(row@ =~= wanted.rows[i as int]);
        out.push(row);
        i += 1;
    }
    assert(rows_view(out@) =~= wanted.rows);
    Matrix::assemble(out, width)
}

/// Multiplies each row of `m` by the factor at the row's position.
pub fn scale_rows<S: Scalar>(factors: &Vec<S>, m: &Matrix<S>) -> (made: Matrix<S>)
    requires
        factors@.len() == m@.height(),
    ensures
        made@ == rows_scaled(factors@, m@),
{
    let rows = m.rows();
    let width = m.width();
    let ghost wanted = rows_scaled(factors@, m@);
    let mut out: Vec<Vec<S>> = Vec::new();
    let mut i: usize = 0;
    while i < rows.len()
        invariant
            i <= rows@.len(),
            width == m@.width,
            m@.rectangular(),
            factors@.len() == rows@.len(),
            rows_view(rows@) == m@.rows,
            wanted == rows_scaled(factors@, m@),
            out@.len() == i,
            forall|t: int| 0 <= t < i ==> (#[trigger] out@[t])@ == wanted.rows[t],
        decreases rows.len() - i,
    {
        assert(rows@[i as int]@ == m@.rows[i as int]);
        let factor = factors[i];
        let mut row: Vec<S> = Vec::new();
        let mut j: usize = 0;
        while j < width
            invariant
                j <= width,
                i < rows@.len(),
                rows@[i as int]@.len() == width,
                row@.len() == j,
                forall|t: int|
                    0 <= t < j ==> (#[trigger] row@[t]) == factor.times_spec(rows@[i as int]@[t]),
            decreases width - j,
        {
            row.push(factor.times(rows[i][j]));
            j += 1;
        }
        assert(row@ =~= wanted.rows[i as int]);
        out.push(row);
        i += 1;
    }
    assert(rows_view(out@) =~= wanted.rows);
    Matrix::assemble(out, width)
}

/// Multiplies each column of `m` by the factor at the column's position.
pub fn scale_columns<S: Scalar>(m: &Matrix<S>, factors: &Vec<S>) -> (made: Matrix<S>)
    requires
        factors@.len() == m@.width,
    ensures
        made@ == columns_scaled(m@, factors@),
{
    let rows = m.rows();
    let width = m.width();
    let ghost wanted = columns_scaled(m@, factors@);
    let mut out: Vec<Vec<S>> = Vec::new();
    let mut i: usize = 0;
    while i < rows.len()
        invariant
            i <= rows@.len(),
            width == m@.width,
            m@.rectangular(),
            factors@.len() == width,
            rows_view(rows@) == m@.rows,
            wanted == columns_scaled(m@, factors@),
            out@.len() == i,
            forall|t: int| 0 <= t < i ==> (#[trigger] out@[t])@ == wanted.rows[t],
        decreases rows.len() - i,
    {
        assert(rows@[i as int]@ == m@.rows[i as int]);
        let mut row: Vec<S> = Vec::new();
        let mut j: usize = 0;
        while j < width
            invariant
                j <= width,
                i < rows@.len(),
                factors@.len() == width,
                rows@[i as int]@.len() == width,
                row@.len() == j,
                forall|t: int|
                    0 <= t < j ==> (#[trigger] row@[t]) == rows@[i as int]@[t].times_spec(
                        factors@[t],
                    ),
            decreases width - j,
        {
            row.push(rows[i][j].times(factors[j]));
            j += 1;
        }
        assert(row@ =~= wanted.rows[i as int]);
        out.push(row);
        i += 1;
    }
    assert(rows_view(out@) =~= wanted.rows);
    Matrix::assemble(out, width)
}

} // verus!
