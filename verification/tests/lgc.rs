use label_propagation::{Fixed, Matrix, PropagationError, Scalar, LGC};

/// Single-precision numbers as a scalar.
#[derive(Clone, Copy, Debug, PartialEq)]
struct Measured(f32);

impl Scalar for Measured {
    fn count_spec(n: usize) -> Self {
        Self::count(n)
    }
    fn plus_spec(self, rhs: Self) -> Self {
        self.plus(rhs)
    }
    fn minus_spec(self, rhs: Self) -> Self {
        self.minus(rhs)
    }
    fn times_spec(self, rhs: Self) -> Self {
        self.times(rhs)
    }
    fn over_spec(self, rhs: Self) -> Self {
        self.over(rhs)
    }
    fn root_spec(self) -> Self {
        self.root()
    }
    fn is_zero_spec(self) -> bool {
        self.is_zero()
    }
    fn non_negative_spec(self) -> bool {
        self.non_negative()
    }
    fn lemma_count_zero() {}
    fn lemma_plus_zeros(_a: Self, _b: Self) {}
    fn count(n: usize) -> Self {
        Measured(n as f32)
    }
    fn plus(self, rhs: Self) -> Self {
        Measured(self.0 + rhs.0)
    }
    fn minus(self, rhs: Self) -> Self {
        Measured(self.0 - rhs.0)
    }
    fn times(self, rhs: Self) -> Self {
        Measured(self.0 * rhs.0)
    }
    fn over(self, rhs: Self) -> Self {
        Measured(self.0 / rhs.0)
    }
    fn root(self) -> Self {
        Measured(self.0.sqrt())
    }
    fn is_zero(self) -> bool {
        self.0 == 0.0
    }
    fn non_negative(self) -> bool {
        self.0 >= 0.0
    }
}

fn measured_graph(rows: Vec<Vec<f32>>) -> Matrix<Measured> {
    let width = rows.len();
    let rows: Vec<Vec<Measured>> =
        rows.into_iter().map(|row| row.into_iter().map(Measured).collect()).collect();
    Matrix::from_rows(rows, width).unwrap()
}

fn measures(m: Matrix<Measured>) -> Vec<Vec<f32>> {
    m.into_rows().into_iter().map(|row| row.into_iter().map(|x| x.0).collect()).collect()
}

fn ratio(n: usize, d: usize) -> Fixed {
    Fixed::count(n).over(Fixed::count(d))
}

fn path() -> Matrix<Fixed> {
    let o = Fixed::count(0);
    let w = ratio(3, 10);
    Matrix::from_rows(vec![vec![o, w, o], vec![w, o, o], vec![o, o, o]], 3).unwrap()
}

fn pair() -> Matrix<Fixed> {
    let o = Fixed::count(0);
    let w = Fixed::count(4);
    Matrix::from_rows(vec![vec![o, w], vec![w, o]], 2).unwrap()
}

fn raw_scores(m: Matrix<Fixed>) -> Vec<Vec<i64>> {
    m.into_rows().into_iter().map(|row| row.into_iter().map(|x| x.raw).collect()).collect()
}

const ONE: i64 = 1 << 32;

#[test]
fn lgc_path_graph_separates_the_two_labels() {
    let graph = measured_graph(vec![
        vec![0.0, 0.3, 0.0],
        vec![0.3, 0.0, 0.0],
        vec![0.0, 0.0, 0.0],
    ]);
    let mut model = LGC::new(graph).ok().unwrap().iter(2).alpha(Measured(0.99));
    assert_eq!(model.fit(&[0, 1], &[0, 1]), Ok(()));
    let scores = measures(model.predict_proba(&[0, 1, 2]).ok().unwrap());
    assert_eq!(scores.len(), 3);
    assert!(scores[0][0] > scores[0][1]);
    assert!(scores[1][1] > scores[1][0]);
    // The operator moves 0.99 of a score along the edge, so that after two
    // rounds the labelled column holds 1 + 0.99 * 0.99 * 0.01 and the other
    // one 0.99.
    assert!((scores[0][0] - 1.009801).abs() <= 1e-5);
    assert!((scores[0][1] - 0.99).abs() <= 1e-5);
    assert!((scores[1][1] - 1.009801).abs() <= 1e-5);
    assert!((scores[1][0] - 0.99).abs() <= 1e-5);
    // The node without edges gets nothing and had nothing.
    assert_eq!(scores[2], vec![0.0, 0.0]);
}

#[test]
fn lgc_path_graph_in_fixed_point() {
    let mut model = LGC::new(path()).ok().unwrap().iter(2).alpha(ratio(99, 100));
    assert_eq!(model.fit(&[0, 1], &[0, 1]), Ok(()));
    assert_eq!(
        raw_scores(model.predict_proba(&[0, 1, 2]).ok().unwrap()),
        vec![vec![4337062270, 4252017622], vec![4252017622, 4337062270], vec![0, 0]]
    );
}

#[test]
fn lgc_exact_rounds_on_a_pair() {
    // Degrees 4 and 4, normalizers 1/2, operator [[0, a], [a, 0]] with
    // a = 1/2; belief [[1], [0]]; start [[1/2], [0]].
    let mut model = LGC::new(pair()).ok().unwrap().iter(0).alpha(ratio(1, 2));
    assert_eq!(model.fit(&[0], &[0]), Ok(()));
    assert_eq!(
        raw_scores(model.predict_proba(&[0, 1]).ok().unwrap()),
        vec![vec![ONE / 2], vec![0]]
    );
    let mut model = LGC::new(pair()).ok().unwrap().iter(1).alpha(ratio(1, 2));
    assert_eq!(model.fit(&[0], &[0]), Ok(()));
    assert_eq!(
        raw_scores(model.predict_proba(&[0, 1]).ok().unwrap()),
        vec![vec![ONE], vec![ONE / 4]]
    );
    let mut model = LGC::new(pair()).ok().unwrap().iter(2).alpha(ratio(1, 2));
    assert_eq!(model.fit(&[0], &[0]), Ok(()));
    assert_eq!(
        raw_scores(model.predict_proba(&[0, 1]).ok().unwrap()),
        vec![vec![ONE + ONE / 8], vec![ONE / 2]]
    );
}

#[test]
fn lgc_normalizes_by_column_sums() {
    // Column sums 1 and 4: normalizers 1 and 1/2. With alpha one the
    // operator is [[0, 0], [1/2, 1]]: entry (1, 0) is s(1) g(1, 0) s(0) =
    // 1/2 * 1 * 1, and entry (1, 1) is 1/2 * 4 * 1/2.
    let o = Fixed::count(0);
    let graph =
        Matrix::from_rows(vec![vec![o, o], vec![Fixed::count(1), Fixed::count(4)]], 2).unwrap();
    let mut model = LGC::new(graph).ok().unwrap().iter(1).alpha(Fixed::count(1));
    assert_eq!(model.fit(&[0, 1], &[0, 1]), Ok(()));
    // Start is (1 - 1) B = 0, so one round gives B itself.
    assert_eq!(
        raw_scores(model.predict_proba(&[0, 1]).ok().unwrap()),
        vec![vec![ONE, 0], vec![0, ONE]]
    );
    let graph =
        Matrix::from_rows(vec![vec![o, o], vec![Fixed::count(1), Fixed::count(4)]], 2).unwrap();
    let mut model = LGC::new(graph).ok().unwrap().iter(2).alpha(Fixed::count(1));
    assert_eq!(model.fit(&[0, 1], &[0, 1]), Ok(()));
    // A second round: P B + B with P = [[0, 0], [1/2, 1]].
    assert_eq!(
        raw_scores(model.predict_proba(&[0, 1]).ok().unwrap()),
        vec![vec![ONE, 0], vec![ONE / 2, 2 * ONE]]
    );
}

#[test]
fn lgc_isolated_node_is_normalized_by_one() {
    // Node 1 has no edge at all. Its degree of zero counts as one, so nothing
    // is divided by zero and its scores stay what its belief makes them.
    let o = Fixed::count(0);
    let w = Fixed::count(4);
    let graph =
        Matrix::from_rows(vec![vec![o, o, w], vec![o, o, o], vec![w, o, o]], 3).unwrap();
    let mut model = LGC::new(graph).ok().unwrap().iter(3).alpha(ratio(1, 2));
    assert_eq!(model.fit(&[1], &[0]), Ok(()));
    assert_eq!(
        raw_scores(model.predict_proba(&[0, 1, 2]).ok().unwrap()),
        vec![vec![0], vec![ONE], vec![0]]
    );
    let graph = measured_graph(vec![
        vec![0.0, 0.0, 4.0],
        vec![0.0, 0.0, 0.0],
        vec![4.0, 0.0, 0.0],
    ]);
    let mut model = LGC::new(graph).ok().unwrap().iter(3).alpha(Measured(0.5));
    assert_eq!(model.fit(&[1, 0], &[0, 1]), Ok(()));
    let scores = measures(model.predict_proba(&[0, 1, 2]).ok().unwrap());
    assert_eq!(scores[1], vec![1.0, 0.0]);
    assert!(scores.iter().all(|row| row.iter().all(|x| x.is_finite())));
}

#[test]
fn lgc_defaults_are_thirty_rounds_and_ninety_nine_hundredths() {
    let mut plain = LGC::new(path()).ok().unwrap();
    let mut spelled = LGC::new(path()).ok().unwrap().iter(30).alpha(ratio(99, 100));
    assert_eq!(plain.fit(&[0, 1], &[0, 1]), Ok(()));
    assert_eq!(spelled.fit(&[0, 1], &[0, 1]), Ok(()));
    let scores = raw_scores(plain.predict_proba(&[0, 1, 2]).ok().unwrap());
    assert_eq!(scores, raw_scores(spelled.predict_proba(&[0, 1, 2]).ok().unwrap()));
    assert_eq!(
        scores,
        vec![vec![56211587958, 55618019874], vec![55618019874, 56211587958], vec![0, 0]]
    );
}

#[test]
fn lgc_has_one_column_for_each_class_of_the_labels() {
    // The classes are counted from the labels, not from the nodes: node 2
    // with label 0 makes one class.
    let mut model = LGC::new(path()).ok().unwrap().iter(1);
    assert_eq!(model.fit(&[2], &[0]), Ok(()));
    let scores = model.predict_proba(&[0, 1, 2]).ok().unwrap();
    assert_eq!(scores.height(), 3);
    assert_eq!(scores.width(), 1);
    assert_eq!(model.fit(&[0], &[4]), Ok(()));
    assert_eq!(model.predict_proba(&[1]).ok().unwrap().width(), 5);
}

#[test]
fn lgc_predicts_in_the_order_asked() {
    let mut model = LGC::new(path()).ok().unwrap().iter(2);
    assert_eq!(model.fit(&[0, 1], &[0, 1]), Ok(()));
    let forward = raw_scores(model.predict_proba(&[0, 1, 2]).ok().unwrap());
    let mixed = raw_scores(model.predict_proba(&[1, 1, 0]).ok().unwrap());
    assert_eq!(mixed, vec![forward[1].clone(), forward[1].clone(), forward[0].clone()]);
}

#[test]
fn lgc_predicts_nothing_for_no_target() {
    let mut model = LGC::new(path()).ok().unwrap();
    assert_eq!(model.fit(&[0, 1], &[0, 1]), Ok(()));
    let scores = model.predict_proba(&[]).ok().unwrap();
    assert_eq!(scores.height(), 0);
    assert_eq!(scores.width(), 2);
}

#[test]
fn lgc_fit_twice_gives_the_same_scores() {
    let mut model = LGC::new(path()).ok().unwrap().iter(4);
    assert_eq!(model.fit(&[0, 1], &[0, 1]), Ok(()));
    let first = raw_scores(model.predict_proba(&[0, 1, 2]).ok().unwrap());
    assert_eq!(model.fit(&[0, 1], &[0, 1]), Ok(()));
    assert_eq!(raw_scores(model.predict_proba(&[0, 1, 2]).ok().unwrap()), first);
}

#[test]
fn lgc_last_entry_for_a_node_wins() {
    let mut twice = LGC::new(pair()).ok().unwrap().iter(2).alpha(ratio(1, 2));
    let mut once = LGC::new(pair()).ok().unwrap().iter(2).alpha(ratio(1, 2));
    assert_eq!(twice.fit(&[0, 0], &[1, 0]), Ok(()));
    assert_eq!(once.fit(&[0], &[0]), Ok(()));
    // The first entry still counts for the number of classes.
    assert_eq!(
        raw_scores(twice.predict_proba(&[0, 1]).ok().unwrap()),
        vec![vec![ONE + ONE / 8, 0], vec![ONE / 2, 0]]
    );
    assert_eq!(
        raw_scores(once.predict_proba(&[0, 1]).ok().unwrap()),
        vec![vec![ONE + ONE / 8], vec![ONE / 2]]
    );
}

#[test]
fn lgc_refuses_bad_graphs() {
    let o = Fixed::count(0);
    let tall = Matrix::from_rows(vec![vec![o], vec![o]], 1).unwrap();
    assert_eq!(LGC::new(tall).err(), Some(PropagationError::InvalidGraph));
    let negative = Matrix::from_rows(vec![vec![Fixed { raw: -5 }]], 1).unwrap();
    assert_eq!(LGC::new(negative).err(), Some(PropagationError::InvalidGraph));
    let not_a_number = measured_graph(vec![vec![f32::NAN]]);
    assert_eq!(LGC::new(not_a_number).err(), Some(PropagationError::InvalidGraph));
}

#[test]
fn lgc_refuses_bad_seeds_and_keeps_its_scores() {
    let mut model = LGC::new(path()).ok().unwrap().iter(2);
    assert_eq!(model.fit(&[], &[]), Err(PropagationError::EmptyLabelSet));
    assert_eq!(model.predict_proba(&[0]).err(), Some(PropagationError::NotFitted));
    assert_eq!(model.fit(&[0, 1], &[0, 1]), Ok(()));
    let before = raw_scores(model.predict_proba(&[0, 1, 2]).ok().unwrap());
    assert_eq!(model.fit(&[3], &[0]), Err(PropagationError::IndexOutOfRange));
    assert_eq!(model.fit(&[0, 1], &[0]), Err(PropagationError::IndexOutOfRange));
    assert_eq!(model.fit(&[1], &[]), Err(PropagationError::EmptyLabelSet));
    assert_eq!(raw_scores(model.predict_proba(&[0, 1, 2]).ok().unwrap()), before);
}

#[test]
fn lgc_refuses_bad_targets() {
    let mut model = LGC::new(path()).ok().unwrap().iter(1);
    assert_eq!(model.predict_proba(&[]).err(), Some(PropagationError::NotFitted));
    assert_eq!(model.fit(&[0], &[0]), Ok(()));
    assert_eq!(model.predict_proba(&[3]).err(), Some(PropagationError::IndexOutOfRange));
    assert_eq!(model.predict_proba(&[0, 1, 2, 3]).err(), Some(PropagationError::IndexOutOfRange));
}

#[test]
fn errors_describe_themselves() {
    assert_eq!(
        PropagationError::InvalidGraph.message(),
        "graph must be square with non-negative weights"
    );
    assert_eq!(PropagationError::EmptyLabelSet.message(), "label seed holds no label");
    assert_eq!(PropagationError::NotFitted.message(), "model has not been fitted");
    assert_eq!(PropagationError::IndexOutOfRange.message(), "index out of range");
}

#[test]
fn scores_in_fixed_point_are_never_below_zero() {
    let o = Fixed::count(0);
    let graph = Matrix::from_rows(
        vec![
            vec![o, ratio(7, 3), Fixed::count(1 << 20)],
            vec![ratio(1, 1000), o, Fixed { raw: 1 }],
            vec![Fixed::count(5), ratio(2, 7), o],
        ],
        3,
    )
    .unwrap();
    let mut model = LGC::new(graph).ok().unwrap().iter(40).alpha(ratio(9, 10));
    assert_eq!(model.fit(&[0, 2], &[1, 0]), Ok(()));
    let scores = raw_scores(model.predict_proba(&[0, 1, 2]).ok().unwrap());
    assert!(scores.iter().all(|row| row.iter().all(|&x| x >= 0)));
}
