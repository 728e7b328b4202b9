//! Label propagation with local and global consistency.
//!
//! Each node `j` has a degree `d(j)`, the sum of column `j` of the graph, and
//! a normalizer `s(j) = 1 / sqrt(d(j))`, where a degree of zero counts as one.
//! The diffusion operator is `P = alpha (S G S)` with `S` the diagonal matrix
//! of the normalizers. The belief of a node without a label is zero. A fit
//! starts from `(1 - alpha) B` and runs the configured number of rounds
//! `f <- P f + B`.

use vstd::prelude::*;
use crate::dense::{
    column, column_sums, columns_scaled, lemma_scaled_non_negative, lemma_sums_non_negative,
    non_negative, rows_scaled, scale, scale_columns, scale_rows, scaled, sum_columns,
};
use crate::error::PropagationError;
use crate::matrix::{Grid, Matrix};
use crate::model::{
    admissible, check_graph, lemma_predict_nothing, outcome_view, read_scores, ModelView,
};
use crate::propagate::{iterate, lemma_iterate_non_negative, lemma_iterate_shape, propagate};
use crate::scalar::{lemma_sum_zeros, one, sum, zero, NonNegativeClosed, Scalar};
use crate::seed::{
    belief, belief_matrix, check_seed, largest_label, lemma_belief_non_negative, seed_verdict,
};

verus! {

/// The number of rounds of a fit where none was set.
pub const DEFAULT_ROUNDS: usize = 30;

/// The value of alpha where none was set: ninety-nine hundredths.
pub open spec fn default_alpha<S: Scalar>() -> S {
    S::count_spec(99).over_spec(S::count_spec(100))
}

/// The degree that a node is normalized by: its own, or one where that is
/// zero.
pub open spec fn guarded<S: Scalar>(degree: S) -> S {
    if degree.is_zero_spec() {
        one::<S>()
    } else {
        degree
    }
}

/// The normalizer of a node whose incoming weights add up to `degree`.
pub open spec fn normalizer<S: Scalar>(degree: S) -> S {
    one::<S>().over_spec(guarded(degree).root_spec())
}

/// The normalizers of all nodes, in order.
pub open spec fn normalizers<S: Scalar>(graph: Grid<S>) -> Seq<S> {
    Seq::new(graph.width, |j: int| normalizer(sum(column(graph.rows, j))))
}

/// The diffusion operator: entry `(i, j)` is `alpha * ((s(i) * g(i, j)) * s(j))`.
pub open spec fn operator<S: Scalar>(graph: Grid<S>, alpha: S) -> Grid<S> {
    scaled(alpha, columns_scaled(rows_scaled(normalizers(graph), graph), normalizers(graph)))
}

/// The belief matrix of a seed: the indicator of its label for a labelled
/// node, and zero in every column for any other.
pub open spec fn zero_belief<S: Scalar>(size: nat, nodes: Seq<usize>, labels: Seq<usize>) -> Grid<
    S,
> {
    let classes = (largest_label(labels) + 1) as usize;
    belief(nodes, labels, size, classes as nat, zero::<S>())
}

/// The state that a fit starts from: the belief matrix multiplied by
/// `1 - alpha`.
pub open spec fn initial_state<S: Scalar>(alpha: S, held: Grid<S>) -> Grid<S> {
    scaled(one::<S>().minus_spec(alpha), held)
}

/// The scores that a fit to the seed arrives at.
pub open spec fn scores<S: Scalar>(
    graph: Grid<S>,
    alpha: S,
    rounds: nat,
    nodes: Seq<usize>,
    labels: Seq<usize>,
) -> Grid<S> {
    let held = zero_belief::<S>(graph.height(), nodes, labels);
    iterate(operator(graph, alpha), initial_state(alpha, held), held, rounds)
}

/// What fitting a model to a seed yields: the model with the new scores in
/// place of any earlier ones, or the reason for which the seed is refused.
pub open spec fn fit_spec<S: Scalar>(model: ModelView<S>, nodes: Seq<usize>, labels: Seq<usize>) -> Result<
    ModelView<S>,
    PropagationError,
> {
    match seed_verdict(model.graph.height(), nodes, labels) {
        Err(e) => Err(e),
        Ok(_) => Ok(
            ModelView {
                graph: model.graph,
                rounds: model.rounds,
                parameter: model.parameter,
                scores: Some(scores(model.graph, model.parameter, model.rounds, nodes, labels)),
            },
        ),
    }
}

/// The scores of a fit have one row for each node and one column for each
/// class of the seed.
pub proof fn lemma_scores_shape<S: Scalar>(
    graph: Grid<S>,
    alpha: S,
    rounds: nat,
    nodes: Seq<usize>,
    labels: Seq<usize>,
)
    requires
        graph.square(),
        largest_label(labels) < usize::MAX,
    ensures
        scores(graph, alpha, rounds, nodes, labels).rectangular(),
        scores(graph, alpha, rounds, nodes, labels).height() == graph.height(),
        scores(graph, alpha, rounds, nodes, labels).width == largest_label(labels) + 1,
{
    let held = zero_belief::<S>(graph.height(), nodes, labels);
    lemma_iterate_shape(operator(graph, alpha), initial_state(alpha, held), held, rounds);
}

/// Fitting a valid model to a seed that passes the check succeeds and leaves
/// a valid, fitted model. Whatever nodes are then asked for, a prediction
/// that is returned has one row for each of them and exactly as many columns
/// as the seed has classes, one more than its largest label; and a
/// prediction is returned whenever every node asked for is one of the graph.
pub proof fn lemma_prediction_width<S: Scalar>(
    model: ModelView<S>,
    nodes: Seq<usize>,
    labels: Seq<usize>,
    targets: Seq<usize>,
)
    requires
        model.valid(),
        seed_verdict(model.graph.height(), nodes, labels) is Ok,
    ensures
        fit_spec(model, nodes, labels) matches Ok(next) && next.valid() && next.fitted() && (
        next.predict(targets) matches Ok(read) ==> read.width == largest_label(labels) + 1
            && read.height() == targets.len()) && ((forall|k: int|
            0 <= k < targets.len() ==> targets[k] < model.graph.height())
            ==> next.predict(targets) is Ok),
{
    lemma_scores_shape(model.graph, model.parameter, model.rounds, nodes, labels);
}

/// Reading the scores of no node at all from a model that was fitted to a
/// seed gives a matrix without rows that has as many columns as the seed has
/// classes.
pub proof fn lemma_empty_prediction<S: Scalar>(
    model: ModelView<S>,
    nodes: Seq<usize>,
    labels: Seq<usize>,
)
    requires
        model.valid(),
        seed_verdict(model.graph.height(), nodes, labels) is Ok,
    ensures
        fit_spec(model, nodes, labels) matches Ok(next) && next.predict(Seq::<usize>::empty())
            == Ok::<Grid<S>, PropagationError>(
            Grid { rows: Seq::<Seq<S>>::empty(), width: (largest_label(labels) + 1) as nat },
        ),
{
    lemma_scores_shape(model.graph, model.parameter, model.rounds, nodes, labels);
    lemma_predict_nothing(fit_spec(model, nodes, labels)->Ok_0);
}

/// Fitting twice to the same seed gives what fitting once gives: the scores
/// of a fit depend on the graph, the settings and the seed, and on no
/// earlier fit.
pub proof fn lemma_fit_repeatable<S: Scalar>(
    model: ModelView<S>,
    other: ModelView<S>,
    nodes: Seq<usize>,
    labels: Seq<usize>,
)
    requires
        other.graph == model.graph,
        other.rounds == model.rounds,
        other.parameter == model.parameter,
    ensures
        fit_spec(other, nodes, labels) matches Ok(again) ==> fit_spec(model, nodes, labels) == Ok::<
            ModelView<S>,
            PropagationError,
        >(again) && fit_spec(again, nodes, labels) == Ok::<ModelView<S>, PropagationError>(again),
{
}

/// A node without incoming weight is normalized by a degree of one, not by
/// its own degree of zero, so that nothing is divided by zero on its
/// account; and each entry of the operator in the row or the column of such
/// a node is built with that normalizer.
pub proof fn lemma_isolated_node<S: Scalar>(graph: Grid<S>, alpha: S, node: int)
    requires
        graph.square(),
        0 <= node < graph.height(),
        forall|i: int| 0 <= i < graph.height() ==> (#[trigger] graph.rows[i][node]).is_zero_spec(),
    ensures
        sum(column(graph.rows, node)).is_zero_spec(),
        normalizers(graph)[node] == one::<S>().over_spec(one::<S>().root_spec()),
        forall|j: int|
            0 <= j < graph.width ==> (#[trigger] operator(graph, alpha).rows[node][j])
                == alpha.times_spec(
                one::<S>().over_spec(one::<S>().root_spec()).times_spec(
                    graph.rows[node][j],
                ).times_spec(normalizers(graph)[j]),
            ),
        forall|i: int|
            0 <= i < graph.height() ==> (#[trigger] operator(graph, alpha).rows[i][node])
                == alpha.times_spec(
                normalizers(graph)[i].times_spec(graph.rows[i][node]).times_spec(
                    one::<S>().over_spec(one::<S>().root_spec()),
                ),
            ),
{
    lemma_sum_zeros(column(graph.rows, node));
}

/// Where the numbers of zero or more are closed under the operations, the
/// scores of a fit on an admissible graph with an alpha from zero to one are
/// all zero or more.
pub proof fn lemma_scores_non_negative<S: NonNegativeClosed>(
    graph: Grid<S>,
    alpha: S,
    rounds: nat,
    nodes: Seq<usize>,
    labels: Seq<usize>,
)
    requires
        admissible(graph),
        alpha.non_negative_spec(),
        one::<S>().minus_spec(alpha).non_negative_spec(),
    ensures
        non_negative(scores(graph, alpha, rounds, nodes, labels)),
{
    let classes = (largest_label(labels) + 1) as usize;
    let held = zero_belief::<S>(graph.height(), nodes, labels);
    let factors = normalizers(graph);
    S::lemma_count_non_negative(0);
    S::lemma_count_non_negative(1);
    lemma_belief_non_negative(nodes, labels, graph.height(), classes as nat, zero::<S>());
    lemma_sums_non_negative(graph);
    assert forall|j: int| 0 <= j < factors.len() implies (#[trigger] factors[j]).non_negative_spec() by {
        let degree = sum(column(graph.rows, j));
        assert(degree == column_sums(graph)[j]);
        S::lemma_root_non_negative(guarded(degree));
        S::lemma_over_non_negative(one::<S>(), guarded(degree).root_spec());
    }
    let left = rows_scaled(factors, graph);
    let both = columns_scaled(left, factors);
    lemma_scaled_non_negative(one::<S>(), factors, graph);
    lemma_scaled_non_negative(one::<S>(), factors, left);
    lemma_scaled_non_negative(alpha, factors, both);
    lemma_scaled_non_negative(one::<S>().minus_spec(alpha), factors, held);
    lemma_iterate_non_negative(operator(graph, alpha), initial_state(alpha, held), held, rounds);
}

/// A model of label propagation with local and global consistency on one
/// graph.
pub struct LGC<S: Scalar> {
    graph: Matrix<S>,
    iter: Option<usize>,
    alpha: Option<S>,
    result: Option<Matrix<S>>,
}

impl<S: Scalar> View for LGC<S> {
    type V = ModelView<S>;

    closed spec fn view(&self) -> ModelView<S> {
        ModelView {
            graph: self.graph@,
            rounds: match self.iter {
                Some(rounds) => rounds as nat,
                None => DEFAULT_ROUNDS as nat,
            },
            parameter: match self.alpha {
                Some(alpha) => alpha,
                None => default_alpha::<S>(),
            },
            scores: match self.result {
                Some(held) => Some(held@),
                None => None,
            },
        }
    }
}

impl<S: Scalar> LGC<S> {
    #[verifier::type_invariant]
    closed spec fn well_formed(&self) -> bool {
        self@.valid()
    }

    /// A model on `graph` with the default settings, not yet fitted. Fails
    /// with `InvalidGraph` unless the graph is square with no weight below
    /// zero.
    pub fn new(graph: Matrix<S>) -> (r: Result<Self, PropagationError>)
        ensures
            r is Ok <==> admissible(graph@),
            r matches Err(e) ==> e == PropagationError::InvalidGraph,
            r matches Ok(model) ==> model@ == (ModelView {
                graph: graph@,
                rounds: DEFAULT_ROUNDS as nat,
                parameter: default_alpha::<S>(),
                scores: None,
            }),
    {
        if check_graph(&graph) {
            Ok(LGC { graph, iter: None, alpha: None, result: None })
        } else {
            Err(PropagationError::InvalidGraph)
        }
    }

    /// Sets the number of rounds that a fit runs.
    pub fn iter(self, num: usize) -> (model: Self)
        ensures
            model@ == (ModelView { rounds: num as nat, ..self@ }),
    {
        proof {
            use_type_invariant(&self);
        }
        LGC { graph: self.graph, iter: Some(num), alpha: self.alpha, result: self.result }
    }

    /// Sets alpha.
    pub fn alpha(self, num: S) -> (model: Self)
        ensures
            model@ == (ModelView { parameter: num, ..self@ }),
    {
        proof {
            use_type_invariant(&self);
        }
        LGC { graph: self.graph, iter: self.iter, alpha: Some(num), result: self.result }
    }

    /// Fits the model to a seed: `nodes[k]` carries label `labels[k]`. On
    /// success the scores of this fit replace any earlier ones; on failure
    /// the model is left as it was.
    pub fn fit(&mut self, nodes: &[usize], labels: &[usize]) -> (r: Result<(), PropagationError>)
        ensures
            match fit_spec(old(self)@, nodes@, labels@) {
                Ok(next) => r is Ok && final(self)@ == next,
                Err(e) => r == Err::<(), PropagationError>(e) && final(self)@ == old(self)@,
            },
    {
        proof {
            use_type_invariant(&*self);
        }
        let size = self.graph.height();
        let classes = match check_seed(size, nodes, labels) {
            Err(e) => {
                return Err(e);
            },
            Ok(classes) => classes,
        };
        let alpha = match self.alpha {
            Some(alpha) => alpha,
            None => S::count(99).over(S::count(100)),
        };
        let rounds = match self.iter {
            Some(rounds) => rounds,
            None => DEFAULT_ROUNDS,
        };
        let degrees = sum_columns(&self.graph);
        let mut factors: Vec<S> = Vec::new();
        let mut j: usize = 0;
        while j < degrees.len()
            invariant
                j <= degrees@.len(),
                degrees@ == column_sums(self.graph@),
                factors@.len() == j,
                forall|t: int|
                    0 <= t < j ==> (#[trigger] factors@[t]) == normalizer(
                        sum(column(self.graph@.rows, t)),
                    ),
            decreases degrees.len() - j,
        {
            let degree = degrees[j];
            let safe = if degree.is_zero() {
                S::count(1)
            } else {
                degree
            };
            factors.push(S::count(1).over(safe.root()));
            j += 1;
        }
        assert(factors@ =~= normalizers(self.graph@));
        let left = scale_rows(&factors, &self.graph);
        let both = scale_columns(&left, &factors);
        let spread = scale(alpha, &both);
        let held = belief_matrix(size, classes, nodes, labels, S::count(0));
        let start = scale(S::count(1).minus(alpha), &held);
        let reached = propagate(&spread, start, &held, rounds);
        proof {
            lemma_iterate_shape(spread@, start@, held@, rounds as nat);
        }
        self.result = Some(reached);
        Ok(())
    }

    /// Reads the scores of the nodes `target_node`, one row for each in the
    /// order asked. Fails with `NotFitted` before the first fit, and with
    /// `IndexOutOfRange` when a target is no node of the graph.
    pub fn predict_proba(&self, target_node: &[usize]) -> (r: Result<Matrix<S>, PropagationError>)
        ensures
            outcome_view(r) == self@.predict(target_node@),
    {
        read_scores(&self.result, target_node)
    }
}

} // verus!
