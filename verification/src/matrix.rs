//! Dense rectangular matrices.

use vstd::prelude::*;

verus! {

/// What a matrix holds: its rows from the top, and how many columns each row
/// has. The width is kept apart from the rows so that a matrix without rows
/// still has one.
pub struct Grid<T> {
    pub rows: Seq<Seq<T>>,
    pub width: nat,
}

impl<T> Grid<T> {
    /// Every row has `width` entries.
    pub open spec fn rectangular(self) -> bool {
        forall|i: int| 0 <= i < self.rows.len() ==> (#[trigger] self.rows[i]).len() == self.width
    }

    /// There are as many rows as columns.
    pub open spec fn square(self) -> bool {
        self.rectangular() && self.rows.len() == self.width
    }

    /// The number of rows.
    pub open spec fn height(self) -> nat {
        self.rows.len()
    }

    /// The rows at the positions that `picks` lists, in the order of `picks`.
    pub open spec fn select(self, picks: Seq<usize>) -> Grid<T> {
        Grid { rows: Seq::new(picks.len(), |k: int| self.rows[picks[k] as int]), width: self.width }
    }
}

/// The views of the rows of `rows`, in order.
pub open spec fn rows_view<T>(rows: Seq<Vec<T>>) -> Seq<Seq<T>> {
    Seq::new(rows.len(), |i: int| rows[i]@)
}

/// A dense matrix stored row by row.
pub struct Matrix<T> {
    rows: Vec<Vec<T>>,
    width: usize,
}

impl<T> View for Matrix<T> {
    type V = Grid<T>;

    closed spec fn view(&self) -> Grid<T> {
        Grid { rows: rows_view(self.rows@), width: self.width as nat }
    }
}

impl<T> Matrix<T> {
    #[verifier::type_invariant]
    closed spec fn well_formed(&self) -> bool {
        self@.rectangular()
    }

    /// Builds a matrix of `width` columns from its rows; `None` if a row has
    /// another length.
    pub fn from_rows(rows: Vec<Vec<T>>, width: usize) -> (made: Option<Matrix<T>>)
        ensures
            made is Some <==> (Grid { rows: rows_view(rows@), width: width as nat }).rectangular(),
            made matches Some(m) ==> m@ == (Grid { rows: rows_view(rows@), width: width as nat }),
    {
        let ghost grid = Grid { rows: rows_view(rows@), width: width as nat };
        let mut i: usize = 0;
        while i < rows.len()
            invariant
                i <= rows.len(),
                grid == (Grid { rows: rows_view(rows@), width: width as nat }),
                forall|k: int| 0 <= k < i ==> (#[trigger] grid.rows[k]).len() == width,
            decreases rows.len() - i,
        {
            if rows[i].len() != width {
                assert(grid.rows[i as int].len() != width);
                return None;
            }
            i += 1;
        }
        Some(Matrix { rows, width })
    }

    /// Wraps rows that are known to have `width` entries each.
    pub(crate) fn assemble(rows: Vec<Vec<T>>, width: usize) -> (made: Matrix<T>)
        requires
            (Grid { rows: rows_view(rows@), width: width as nat }).rectangular(),
        ensures
            made@ == (Grid { rows: rows_view(rows@), width: width as nat }),
    {
        Matrix { rows, width }
    }

    /// The number of rows.
    pub fn height(&self) -> (n: usize)
        ensures
            n == self@.height(),
            self@.rectangular(),
    {
        proof {
            use_type_invariant(self);
        }
        self.rows.len()
    }

    /// The number of columns.
    pub fn width(&self) -> (n: usize)
        ensures
            n == self@.width,
            self@.rectangular(),
    {
        proof {
            use_type_invariant(self);
        }
        self.width
    }

    /// The rows, from the top.
    pub fn rows(&self) -> (rows: &Vec<Vec<T>>)
        ensures
            rows_view(rows@) == self@.rows,
            self@.rectangular(),
    {
        proof {
            use_type_invariant(self);
        }
        &self.rows
    }

    /// The row at position `i`, or `None` past the last row.
    pub fn row(&self, i: usize) -> (r: Option<&[T]>)
        ensures
            r is Some <==> i < self@.height(),
            r matches Some(entries) ==> entries@ == self@.rows[i as int],
    {
        if i < self.rows.len() {
            Some(self.rows[i].as_slice())
        } else {
            None
        }
    }

    /// Gives the rows up.
    pub fn into_rows(self) -> (rows: Vec<Vec<T>>)
        ensures
            rows_view(rows@) == self@.rows,
            (Grid { rows: rows_view(rows@), width: self@.width }).rectangular(),
    {
        proof {
            use_type_invariant(&self);
        }
        self.rows
    }
}

impl<T: Copy> Matrix<T> {
    /// A matrix of `height` rows and `width` columns with `value` everywhere.
    pub fn filled(height: usize, width: usize, value: T) -> (made: Matrix<T>)
        ensures
            made@.height() == height,
            made@.width == width,
            made@.rectangular(),
            forall|i: int, j: int|
                0 <= i < height && 0 <= j < width ==> (#[trigger] made@.rows[i][j]) == value,
    {
        let mut rows: Vec<Vec<T>> = Vec::new();
        let mut i: usize = 0;
        while i < height
            invariant
                i <= height,
                rows@.len() == i,
                forall|k: int| 0 <= k < i ==> (#[trigger] rows@[k])@.len() == width,
                forall|k: int, j: int|
                    0 <= k < i && 0 <= j < width ==> (#[trigger] rows@[k]@[j]) == value,
            decreases height - i,
        {
            let mut row: Vec<T> = Vec::new();
            let mut j: usize = 0;
            while j < width
                invariant
                    j <= width,
                    row@.len() == j,
                    forall|t: int| 0 <= t < j ==> (#[trigger] row@[t]) == value,
                decreases width - j,
            {
                row.push(value);
                j += 1;
            }
            rows.push(row);
            i += 1;
        }
        Matrix { rows, width }
    }

    /// The entry in row `i` and column `j`, or `None` outside the matrix.
    pub fn get(&self, i: usize, j: usize) -> (r: Option<T>)
        ensures
            r is Some <==> i < self@.height() && j < self@.width,
            r matches Some(entry) ==> entry == self@.rows[i as int][j as int],
    {
        proof {
            use_type_invariant(self);
        }
        if i < self.rows.len() && j < self.width {
            assert(self@.rows[i as int].len() == self.width);
            Some(self.rows[i][j])
        } else {
            None
        }
    }
}

} // verus!
