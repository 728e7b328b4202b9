use label_propagation::dense::{scale, scale_columns, scale_rows, sum_columns, sum_rows};
use label_propagation::model::{check_graph, read_scores};
use label_propagation::propagate::propagate;
use label_propagation::{Fixed, Matrix, PropagationError, Scalar};

fn n(value: usize) -> Fixed {
    Fixed::count(value)
}

fn grid(rows: Vec<Vec<usize>>, width: usize) -> Matrix<Fixed> {
    let rows: Vec<Vec<Fixed>> =
        rows.into_iter().map(|row| row.into_iter().map(Fixed::count).collect()).collect();
    Matrix::from_rows(rows, width).unwrap()
}

fn numbers(m: Matrix<Fixed>) -> Vec<Vec<i64>> {
    m.into_rows().into_iter().map(|row| row.into_iter().map(|x| x.raw >> 32).collect()).collect()
}

#[test]
fn from_rows_keeps_rows_and_width() {
    let m = Matrix::from_rows(vec![vec![1u8, 2, 3], vec![4, 5, 6]], 3).unwrap();
    assert_eq!(m.height(), 2);
    assert_eq!(m.width(), 3);
    assert_eq!(m.get(0, 0), Some(1));
    assert_eq!(m.get(1, 2), Some(6));
    assert_eq!(m.get(2, 0), None);
    assert_eq!(m.get(0, 3), None);
    assert_eq!(m.row(1), Some(&[4u8, 5, 6][..]));
    assert_eq!(m.row(2), None);
    assert_eq!(m.rows(), &vec![vec![1u8, 2, 3], vec![4, 5, 6]]);
    assert_eq!(m.into_rows(), vec![vec![1u8, 2, 3], vec![4, 5, 6]]);
}

#[test]
fn from_rows_refuses_a_row_of_another_length() {
    assert!(Matrix::from_rows(vec![vec![1u8, 2], vec![3]], 2).is_none());
    assert!(Matrix::from_rows(vec![vec![1u8, 2], vec![3, 4]], 3).is_none());
    assert!(Matrix::from_rows(vec![vec![1u8, 2], vec![3, 4]], 2).is_some());
}

#[test]
fn from_rows_without_rows_has_the_width_given() {
    let m = Matrix::<u8>::from_rows(Vec::new(), 5).unwrap();
    assert_eq!(m.height(), 0);
    assert_eq!(m.width(), 5);
}

#[test]
fn filled_holds_the_value_everywhere() {
    let m = Matrix::filled(2, 3, 9u8);
    assert_eq!(m.into_rows(), vec![vec![9u8, 9, 9], vec![9, 9, 9]]);
    let empty = Matrix::filled(0, 3, 9u8);
    assert_eq!(empty.height(), 0);
    assert_eq!(empty.width(), 3);
}

#[test]
fn sums_run_along_rows_and_columns() {
    let m = grid(vec![vec![1, 2, 3], vec![4, 5, 6]], 3);
    assert_eq!(sum_rows(&m), vec![n(6), n(15)]);
    assert_eq!(sum_columns(&m), vec![n(5), n(7), n(9)]);
}

#[test]
fn sums_of_a_matrix_without_rows() {
    let m = grid(Vec::new(), 2);
    assert_eq!(sum_rows(&m), Vec::<Fixed>::new());
    assert_eq!(sum_columns(&m), vec![n(0), n(0)]);
}

#[test]
fn scale_multiplies_every_entry() {
    let m = grid(vec![vec![1, 2], vec![3, 4]], 2);
    assert_eq!(numbers(scale(n(3), &m)), vec![vec![3, 6], vec![9, 12]]);
}

#[test]
fn scale_rows_multiplies_row_by_row() {
    let m = grid(vec![vec![1, 2], vec![3, 4]], 2);
    assert_eq!(numbers(scale_rows(&vec![n(2), n(10)], &m)), vec![vec![2, 4], vec![30, 40]]);
}

#[test]
fn scale_columns_multiplies_column_by_column() {
    let m = grid(vec![vec![1, 2], vec![3, 4]], 2);
    assert_eq!(numbers(scale_columns(&m, &vec![n(2), n(10)])), vec![vec![2, 20], vec![6, 40]]);
}

#[test]
fn propagate_without_rounds_returns_the_start() {
    let operator = grid(vec![vec![1, 2], vec![3, 4]], 2);
    let start = grid(vec![vec![5], vec![6]], 1);
    let belief = grid(vec![vec![7], vec![8]], 1);
    assert_eq!(numbers(propagate(&operator, start, &belief, 0)), vec![vec![5], vec![6]]);
}

#[test]
fn propagate_applies_the_operator_and_adds_the_belief() {
    let operator = grid(vec![vec![1, 2], vec![3, 4]], 2);
    let belief = grid(vec![vec![7, 0], vec![8, 1]], 2);
    // One round: [[1*5 + 2*6 + 7, 1*1 + 2*0 + 0], [3*5 + 4*6 + 8, 3*1 + 4*0 + 1]].
    let start = grid(vec![vec![5, 1], vec![6, 0]], 2);
    assert_eq!(
        numbers(propagate(&operator, start, &belief, 1)),
        vec![vec![24, 1], vec![47, 4]]
    );
    // A second round on that state.
    let start = grid(vec![vec![5, 1], vec![6, 0]], 2);
    assert_eq!(
        numbers(propagate(&operator, start, &belief, 2)),
        vec![vec![24 + 2 * 47 + 7, 1 + 2 * 4], vec![3 * 24 + 4 * 47 + 8, 3 + 4 * 4 + 1]]
    );
}

#[test]
fn check_graph_wants_a_square_matrix_without_negative_weights() {
    assert!(check_graph(&grid(vec![vec![0, 1], vec![1, 0]], 2)));
    assert!(check_graph(&grid(Vec::new(), 0)));
    assert!(!check_graph(&grid(vec![vec![0, 1, 2], vec![1, 0, 2]], 3)));
    assert!(!check_graph(&grid(Vec::new(), 1)));
    let negative = Matrix::from_rows(
        vec![vec![n(0), n(1)], vec![Fixed { raw: -1 }, n(0)]],
        2,
    )
    .unwrap();
    assert!(!check_graph(&negative));
}

#[test]
fn read_scores_copies_rows_in_the_order_asked() {
    let held = Some(grid(vec![vec![1, 2], vec![3, 4], vec![5, 6]], 2));
    let read = read_scores(&held, &[2, 0, 2]).ok().unwrap();
    assert_eq!(numbers(read), vec![vec![5, 6], vec![1, 2], vec![5, 6]]);
}

#[test]
fn read_scores_fails_before_a_fit_and_outside_the_graph() {
    let none: Option<Matrix<Fixed>> = None;
    assert_eq!(read_scores(&none, &[0]).err(), Some(PropagationError::NotFitted));
    assert_eq!(read_scores(&none, &[]).err(), Some(PropagationError::NotFitted));
    let held = Some(grid(vec![vec![1, 2], vec![3, 4]], 2));
    assert_eq!(read_scores(&held, &[0, 2]).err(), Some(PropagationError::IndexOutOfRange));
    assert_eq!(read_scores(&held, &[usize::MAX]).err(), Some(PropagationError::IndexOutOfRange));
}
