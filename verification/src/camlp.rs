//! Confidence-aware modulated label propagation.
//!
//! Each node `i` has a normalizer `z(i) = 1 / (1 + beta * d(i))`, where
//! `d(i)` is the sum of row `i` of the graph. The diffusion operator is
//! `P = Z (m G)` with `Z` the diagonal matrix of the normalizers and `m` a
//! fixed mixing constant of one tenth. The belief of a node without a label is
//! uniform over the classes. A fit starts from `Z B` and runs the configured
//! number of rounds `f <- P f + B`.

use vstd::prelude::*;
use crate::dense::{
    lemma_scaled_non_negative, lemma_sums_non_negative, non_negative, row_sums, rows_scaled, scale,
    scale_rows, scaled, sum_rows,
};
use crate::error::PropagationError;
use crate::matrix::{Grid, Matrix};
use crate::model::{
    admissible, check_graph, lemma_predict_nothing, outcome_view, read_scores, ModelView,
};
use crate::propagate::{iterate, lemma_iterate_non_negative, lemma_iterate_shape, propagate};
use crate::scalar::{one, sum, zero, NonNegativeClosed, Scalar};
use crate::seed::{
    assigned, belief, belief_matrix, check_seed, largest_label, lemma_belief_non_negative,
    seed_verdict,
};

verus! {

/// The number of rounds of a fit where none was set.
pub const DEFAULT_ROUNDS: usize = 100;

/// The mixing constant of the operator: one tenth.
pub open spec fn mixing<S: Scalar>() -> S {
    one::<S>().over_spec(S::count_spec(10))
}

/// The value of beta where none was set: one tenth.
pub open spec fn default_beta<S: Scalar>() -> S {
    one::<S>().over_spec(S::count_spec(10))
}

/// The normalizer of a node whose outgoing weights add up to `degree`.
pub open spec fn normalizer<S: Scalar>(degree: S, beta: S) -> S {
    one::<S>().over_spec(one::<S>().plus_spec(degree.times_spec(beta)))
}

/// The normalizers of all nodes, in order.
pub open spec fn normalizers<S: Scalar>(graph: Grid<S>, beta: S) -> Seq<S> {
    Seq::new(graph.rows.len(), |i: int| normalizer(sum(graph.rows[i]), beta))
}

/// The diffusion operator: entry `(i, j)` is `z(i) * (m * g(i, j))`.
pub open spec fn operator<S: Scalar>(graph: Grid<S>, beta: S) -> Grid<S> {
    rows_scaled(normalizers(graph, beta), scaled(mixing::<S>(), graph))
}

/// The belief matrix of a seed: the indicator of its label for a labelled
/// node, and one over the number of classes in every column for any other.
pub open spec fn prior_belief<S: Scalar>(size: nat, nodes: Seq<usize>, labels: Seq<usize>) -> Grid<
    S,
> {
    let classes = (largest_label(labels) + 1) as usize;
    belief(nodes, labels, size, classes as nat, one::<S>().over_spec(S::count_spec(classes)))
}

/// The state that a fit starts from: each belief row multiplied by the
/// normalizer of its node.
pub open spec fn initial_state<S: Scalar>(graph: Grid<S>, beta: S, held: Grid<S>) -> Grid<S> {
    rows_scaled(normalizers(graph, beta), held)
}

/// The scores that a fit to the seed arrives at.
pub open spec fn scores<S: Scalar>(
    graph: Grid<S>,
    beta: S,
    rounds: nat,
    nodes: Seq<usize>,
    labels: Seq<usize>,
) -> Grid<S> {
    let held = prior_belief::<S>(graph.height(), nodes, labels);
    iterate(operator(graph, beta), initial_state(graph, beta, held), held, rounds)
}

/// What fitting a model to a seed yields: the model with the new scores in
/// place of any earlier ones, or the reason for which the seed is refused.
pub open spec fn fit_spec<S: Scalar>(model: ModelView<S>, nodes: Seq<usize>, labels: Seq<usize>) -> Result<
    ModelView<S>,
    PropagationError,
> {
    match seed_verdict(model.graph.height(), nodes, labels) {
        Err(e) => Err(e),
        Ok(_) => Ok(
            ModelView {
                graph: model.graph,
                rounds: model.rounds,
                parameter: model.parameter,
                scores: Some(scores(model.graph, model.parameter, model.rounds, nodes, labels)),
            },
        ),
    }
}

/// The scores of a fit have one row for each node and one column for each
/// class of the seed.
pub proof fn lemma_scores_shape<S: Scalar>(
    graph: Grid<S>,
    beta: S,
    rounds: nat,
    nodes: Seq<usize>,
    labels: Seq<usize>,
)
    requires
        graph.square(),
        largest_label(labels) < usize::MAX,
    ensures
        scores(graph, beta, rounds, nodes, labels).rectangular(),
        scores(graph, beta, rounds, nodes, labels).height() == graph.height(),
        scores(graph, beta, rounds, nodes, labels).width == largest_label(labels) + 1,
{
    let held = prior_belief::<S>(graph.height(), nodes, labels);
    lemma_iterate_shape(operator(graph, beta), initial_state(graph, beta, held), held, rounds);
}

/// Fitting a valid model to a seed that passes the check succeeds and leaves
/// a valid, fitted model. Whatever nodes are then asked for, a prediction
/// that is returned has one row for each of them and exactly as many columns
/// as the seed has classes, one more than its largest label; and a
/// prediction is returned whenever every node asked for is one of the graph.
pub proof fn lemma_prediction_width<S: Scalar>(
    model: ModelView<S>,
    nodes: Seq<usize>,
    labels: Seq<usize>,
    targets: Seq<usize>,
)
    requires
        model.valid(),
        seed_verdict(model.graph.height(), nodes, labels) is Ok,
    ensures
        fit_spec(model, nodes, labels) matches Ok(next) && next.valid() && next.fitted() && (
        next.predict(targets) matches Ok(read) ==> read.width == largest_label(labels) + 1
            && read.height() == targets.len()) && ((forall|k: int|
            0 <= k < targets.len() ==> targets[k] < model.graph.height())
            ==> next.predict(targets) is Ok),
{
    lemma_scores_shape(model.graph, model.parameter, model.rounds, nodes, labels);
}

/// Reading the scores of no node at all from a model that was fitted to a
/// seed gives a matrix without rows that has as many columns as the seed has
/// classes.
pub proof fn lemma_empty_prediction<S: Scalar>(
    model: ModelView<S>,
    nodes: Seq<usize>,
    labels: Seq<usize>,
)
    requires
        model.valid(),
        seed_verdict(model.graph.height(), nodes, labels) is Ok,
    ensures
        fit_spec(model, nodes, labels) matches Ok(next) && next.predict(Seq::<usize>::empty())
            == Ok::<Grid<S>, PropagationError>(
            Grid { rows: Seq::<Seq<S>>::empty(), width: (largest_label(labels) + 1) as nat },
        ),
{
    lemma_scores_shape(model.graph, model.parameter, model.rounds, nodes, labels);
    lemma_predict_nothing(fit_spec(model, nodes, labels)->Ok_0);
}

/// Fitting twice to the same seed gives what fitting once gives: the scores
/// of a fit depend on the graph, the settings and the seed, and on no
/// earlier fit.
pub proof fn lemma_fit_repeatable<S: Scalar>(
    model: ModelView<S>,
    other: ModelView<S>,
    nodes: Seq<usize>,
    labels: Seq<usize>,
)
    requires
        other.graph == model.graph,
        other.rounds == model.rounds,
        other.parameter == model.parameter,
    ensures
        fit_spec(other, nodes, labels) matches Ok(again) ==> fit_spec(model, nodes, labels) == Ok::<
            ModelView<S>,
            PropagationError,
        >(again) && fit_spec(again, nodes, labels) == Ok::<ModelView<S>, PropagationError>(again),
{
}

/// The state that a fit starts from holds, in the row of a labelled node,
/// the normalizer of the node times the indicator of its label: times one in
/// the column of the label and times zero in every other column. With no
/// round to run, that state is the scores.
pub proof fn lemma_seed_fidelity<S: Scalar>(
    graph: Grid<S>,
    beta: S,
    nodes: Seq<usize>,
    labels: Seq<usize>,
    node: int,
    class: int,
)
    requires
        0 <= node < graph.height(),
        assigned(nodes, labels, node) is Some,
        0 <= class <= largest_label(labels) < usize::MAX,
    ensures
        scores(graph, beta, 0, nodes, labels) == initial_state(
            graph,
            beta,
            prior_belief::<S>(graph.height(), nodes, labels),
        ),
        scores(graph, beta, 0, nodes, labels).rows[node][class] == normalizer(
            sum(graph.rows[node]),
            beta,
        ).times_spec(
            if class == assigned(nodes, labels, node)->0 {
                one::<S>()
            } else {
                zero::<S>()
            },
        ),
{
}

/// Where the numbers of zero or more are closed under the operations, the
/// scores of a fit on an admissible graph with a beta of zero or more are
/// all zero or more.
pub proof fn lemma_scores_non_negative<S: NonNegativeClosed>(
    graph: Grid<S>,
    beta: S,
    rounds: nat,
    nodes: Seq<usize>,
    labels: Seq<usize>,
)
    requires
        admissible(graph),
        beta.non_negative_spec(),
    ensures
        non_negative(scores(graph, beta, rounds, nodes, labels)),
{
    let classes = (largest_label(labels) + 1) as usize;
    let prior = one::<S>().over_spec(S::count_spec(classes));
    let held = prior_belief::<S>(graph.height(), nodes, labels);
    let factors = normalizers(graph, beta);
    S::lemma_count_non_negative(1);
    S::lemma_count_non_negative(10);
    S::lemma_count_non_negative(classes);
    S::lemma_over_non_negative(one::<S>(), S::count_spec(10));
    S::lemma_over_non_negative(one::<S>(), S::count_spec(classes));
    lemma_belief_non_negative(nodes, labels, graph.height(), classes as nat, prior);
    lemma_sums_non_negative(graph);
    assert forall|i: int| 0 <= i < factors.len() implies (#[trigger] factors[i]).non_negative_spec() by {
        let degree = sum(graph.rows[i]);
        assert(degree == row_sums(graph)[i]);
        S::lemma_times_non_negative(degree, beta);
        S::lemma_plus_non_negative(one::<S>(), degree.times_spec(beta));
        S::lemma_over_non_negative(one::<S>(), one::<S>().plus_spec(degree.times_spec(beta)));
    }
    lemma_scaled_non_negative(mixing::<S>(), factors, graph);
    lemma_scaled_non_negative(one::<S>(), factors, scaled(mixing::<S>(), graph));
    lemma_scaled_non_negative(one::<S>(), factors, held);
    lemma_iterate_non_negative(
        operator(graph, beta),
        initial_state(graph, beta, held),
        held,
        rounds,
    );
}

/// A model of confidence-aware modulated label propagation on one graph.
pub struct CAMLP<S: Scalar> {
    graph: Matrix<S>,
    iter: Option<usize>,
    beta: Option<S>,
    result: Option<Matrix<S>>,
}

impl<S: Scalar> View for CAMLP<S> {
    type V = ModelView<S>;

    closed spec fn view(&self) -> ModelView<S> {
        ModelView {
            graph: self.graph@,
            rounds: match self.iter {
                Some(rounds) => rounds as nat,
                None => DEFAULT_ROUNDS as nat,
            },
            parameter: match self.beta {
                Some(beta) => beta,
                None => default_beta::<S>(),
            },
            scores: match self.result {
                Some(held) => Some(held@),
                None => None,
            },
        }
    }
}

impl<S: Scalar> CAMLP<S> {
    #[verifier::type_invariant]
    closed spec fn well_formed(&self) -> bool {
        self@.valid()
    }

    /// A model on `graph` with the default settings, not yet fitted. Fails
    /// with `InvalidGraph` unless the graph is square with no weight below
    /// zero.
    pub fn new(graph: Matrix<S>) -> (r: Result<Self, PropagationError>)
        ensures
            r is Ok <==> admissible(graph@),
            r matches Err(e) ==> e == PropagationError::InvalidGraph,
            r matches Ok(model) ==> model@ == (ModelView {
                graph: graph@,
                rounds: DEFAULT_ROUNDS as nat,
                parameter: default_beta::<S>(),
                scores: None,
            }),
    {
        if check_graph(&graph) {
            Ok(CAMLP { graph, iter: None, beta: None, result: None })
        } else {
            Err(PropagationError::InvalidGraph)
        }
    }

    /// Sets the number of rounds that a fit runs.
    pub fn iter(self, num: usize) -> (model: Self)
        ensures
            model@ == (ModelView { rounds: num as nat, ..self@ }),
    {
        proof {
            use_type_invariant(&self);
        }
        CAMLP { graph: self.graph, iter: Some(num), beta: self.beta, result: self.result }
    }

    /// Sets beta.
    pub fn beta(self, num: S) -> (model: Self)
        ensures
            model@ == (ModelView { parameter: num, ..self@ }),
    {
        proof {
            use_type_invariant(&self);
        }
        CAMLP { graph: self.graph, iter: self.iter, beta: Some(num), result: self.result }
    }

    /// Fits the model to a seed: `nodes[k]` carries label `labels[k]`. On
    /// success the scores of this fit replace any earlier ones; on failure
    /// the model is left as it was.
    pub fn fit(&mut self, nodes: &[usize], labels: &[usize]) -> (r: Result<(), PropagationError>)
        ensures
            match fit_spec(old(self)@, nodes@, labels@) {
                Ok(next) => r is Ok && final(self)@ == next,
                Err(e) => r == Err::<(), PropagationError>(e) && final(self)@ == old(self)@,
            },
    {
        proof {
            use_type_invariant(&*self);
        }
        let size = self.graph.height();
        let classes = match check_seed(size, nodes, labels) {
            Err(e) => {
                return Err(e);
            },
            Ok(classes) => classes,
        };
        let beta = match self.beta {
            Some(beta) => beta,
            None => S::count(1).over(S::count(10)),
        };
        let rounds = match self.iter {
            Some(rounds) => rounds,
            None => DEFAULT_ROUNDS,
        };
        let degrees = sum_rows(&self.graph);
        let mut factors: Vec<S> = Vec::new();
        let mut i: usize = 0;
        while i < degrees.len()
            invariant
                i <= degrees@.len(),
                degrees@ == row_sums(self.graph@),
                factors@.len() == i,
                forall|t: int|
                    0 <= t < i ==> (#[trigger] factors@[t]) == normalizer(
                        sum(self.graph@.rows[t]),
                        beta,
                    ),
            decreases degrees.len() - i,
        {
            factors.push(S::count(1).over(S::count(1).plus(degrees[i].times(beta))));
            i += 1;
        }
        assert(factors@ =~= normalizers(self.graph@, beta));
        let mixed = scale(S::count(1).over(S::count(10)), &self.graph);
        let spread = scale_rows(&factors, &mixed);
        let held = belief_matrix(size, classes, nodes, labels, S::count(1).over(S::count(classes)));
        let start = scale_rows(&factors, &held);
        let reached = propagate(&spread, start, &held, rounds);
        proof {
            lemma_iterate_shape(spread@, start@, held@, rounds as nat);
        }
        self.result = Some(reached);
        Ok(())
    }

    /// Reads the scores of the nodes `target_node`, one row for each in the
    /// order asked. Fails with `NotFitted` before the first fit, and with
    /// `IndexOutOfRange` when a target is no node of the graph.
    pub fn predict_proba(&self, target_node: &[usize]) -> (r: Result<Matrix<S>, PropagationError>)
        ensures
            outcome_view(r) == self@.predict(target_node@),
    {
        read_scores(&self.result, target_node)
    }
}

} // verus!
