//! What the two models have in common: their state, the check of a graph,
//! and the reading of scores.

use vstd::prelude::*;
use crate::dense::non_negative;
use crate::error::PropagationError;
use crate::matrix::{rows_view, Grid, Matrix};
use crate::scalar::Scalar;

verus! {

/// The state of a model: the graph and the settings it was configured with,
/// and the scores of its last fit, if it has been fitted.
pub struct ModelView<S> {
    /// The edge weights; entry `(i, j)` is the weight of the edge from node
    /// `i` to node `j`.
    pub graph: Grid<S>,
    /// The number of rounds that a fit runs.
    pub rounds: nat,
    /// The smoothing parameter of the model.
    pub parameter: S,
    /// One row of label scores for each node, once fitted.
    pub scores: Option<Grid<S>>,
}

/// Whether a matrix can serve as a graph: it is square and none of its
/// weights is below zero.
pub open spec fn admissible<S: Scalar>(graph: Grid<S>) -> bool {
    graph.square() && non_negative(graph)
}

impl<S: Scalar> ModelView<S> {
    /// The graph can serve as one, and the scores, if any, have one row for
    /// each node.
    pub open spec fn valid(self) -> bool {
        &&& admissible(self.graph)
        &&& self.scores matches Some(held) ==> held.rectangular() && held.height()
            == self.graph.height()
    }

    /// Whether the model has been fitted.
    pub open spec fn fitted(self) -> bool {
        self.scores is Some
    }

    /// What reading the scores of the nodes `targets` yields: the rows of
    /// those nodes in the order asked, `NotFitted` before the first fit, and
    /// `IndexOutOfRange` when a target is no node of the graph.
    pub open spec fn predict(self, targets: Seq<usize>) -> Result<Grid<S>, PropagationError> {
        match self.scores {
            None => Err(PropagationError::NotFitted),
            Some(held) => if exists|k: int| 0 <= k < targets.len() && targets[k] >= held.height() {
                Err(PropagationError::IndexOutOfRange)
            } else {
                Ok(held.select(targets))
            },
        }
    }
}

/// The view of a matrix that was returned, or the error that was.
pub open spec fn outcome_view<S>(r: Result<Matrix<S>, PropagationError>) -> Result<
    Grid<S>,
    PropagationError,
> {
    match r {
        Ok(m) => Ok(m@),
        Err(e) => Err(e),
    }
}

/// Reading scores from a fitted model never fails for targets that are
/// nodes, and gives one row for each target, as wide as the scores.
pub proof fn lemma_predict_shape<S: Scalar>(model: ModelView<S>, targets: Seq<usize>)
    requires
        model.valid(),
        model.fitted(),
        forall|k: int| 0 <= k < targets.len() ==> targets[k] < model.graph.height(),
    ensures
        model.predict(targets) matches Ok(read) && read.rectangular() && read.height()
            == targets.len() && read.width == model.scores->0.width,
{
    let held = model.scores->0;
    let read = held.select(targets);
    assert forall|k: int| 0 <= k < read.rows.len() implies (#[trigger] read.rows[k]).len()
        == read.width by {
        assert(read.rows[k] == held.rows[targets[k] as int]);
    }
}

/// Reading the scores of no node at all from a fitted model gives a matrix
/// without rows that is as wide as the scores.
pub proof fn lemma_predict_nothing<S: Scalar>(model: ModelView<S>)
    requires
        model.fitted(),
    ensures
        model.predict(Seq::<usize>::empty()) == Ok::<Grid<S>, PropagationError>(
            Grid { rows: Seq::<Seq<S>>::empty(), width: model.scores->0.width },
        ),
{
    let held = model.scores->0;
    assert(held.select(Seq::<usize>::empty()).rows =~= Seq::<Seq<S>>::empty());
}

/// Whether `graph` can serve as a graph.
pub fn check_graph<S: Scalar>(graph: &Matrix<S>) -> (ok: bool)
    ensures
        ok == admissible(graph@),
{
    let rows = graph.rows();
    let width = graph.width();
    if rows.len() != width {
        return false;
    }
    let mut i: usize = 0;
    while i < rows.len()
        invariant
            i <= rows@.len(),
            width == graph@.width,
            graph@.square(),
            rows_view(rows@) == graph@.rows,
            forall|a: int, b: int|
                0 <= a < i && 0 <= b < width ==> (#[trigger] graph@.rows[a][b]).non_negative_spec(),
        decreases rows.len() - i,
    {
        assert(rows@[i as int]@ == graph@.rows[i as int]);
        let mut j: usize = 0;
        while j < width
            invariant
                j <= width,
                i < rows@.len(),
                width == graph@.width,
                graph@.square(),
                rows_view(rows@) == graph@.rows,
                rows@[i as int]@ == graph@.rows[i as int],
                forall|b: int|
                    0 <= b < j ==> (#[trigger] graph@.rows[i as int][b]).non_negative_spec(),
            decreases width - j,
        {
            if !rows[i][j].non_negative() {
                assert(!graph@.rows[i as int][j as int].non_negative_spec());
                return false;
            }
            j += 1;
        }
        i += 1;
    }
    true
}

fn copy_row<S: Copy>(row: &Vec<S>) -> (copy: Vec<S>)
    ensures
        copy@ == row@,
{
    let mut copy: Vec<S> = Vec::new();
    let mut j: usize = 0;
    while j < row.len()
        invariant
            j <= row@.len(),
            copy@ == row@.take(j as int),
        decreases row.len() - j,
    {
        copy.push(row[j]);
        j += 1;
        assert(copy@ =~= row@.take(j as int));
    }
    assert(row@.take(j as int) =~= row@);
    copy
}

/// Reads the rows of the nodes `targets` from the scores of a model.
pub fn read_scores<S: Scalar>(scores: &Option<Matrix<S>>, targets: &[usize]) -> (r: Result<
    Matrix<S>,
    PropagationError,
>)
    ensures
        r is Err <==> (scores is None || exists|k: int|
            0 <= k < targets@.len() && targets@[k] >= scores->0@.height()),
        r matches Err(e) ==> e == if scores is None {
            PropagationError::NotFitted
        } else {
            PropagationError::IndexOutOfRange
        },
        r matches Ok(read) ==> read@ == scores->0@.select(targets@),
{
    let held = match scores {
        None => {
            return Err(PropagationError::NotFitted);
        },
        Some(held) => held,
    };
    let rows = held.rows();
    let width = held.width();
    let ghost wanted = held@.select(targets@);
    let mut out: Vec<Vec<S>> = Vec::new();
    let mut k: usize = 0;
    while k < targets.len()
        invariant
            k <= targets@.len(),
            scores == Some(*held),
            width == held@.width,
            held@.rectangular(),
            rows_view(rows@) == held@.rows,
            wanted == held@.select(targets@),
            out@.len() == k,
            forall|t: int| 0 <= t < k ==> targets@[t] < held@.height(),
            forall|t: int| 0 <= t < k ==> (#[trigger] out@[t])@ == wanted.rows[t],
        decreases targets.len() - k,
    {
        let node = targets[k];
        if node >= rows.len() {
            assert(0 <= k < targets@.len() && targets@[k as int] >= held@.height());
            return Err(PropagationError::IndexOutOfRange);
        }
        assert(rows@[node as int]@ == held@.rows[node as int]);
        out.push(copy_row(&rows[node]));
        k += 1;
    }
    assert(rows_view(out@) =~= wanted.rows);
    assert forall|t: int| 0 <= t < out@.len() implies (#[trigger] rows_view(out@)[t]).len()
        == width by {
        assert(wanted.rows[t] == held@.rows[targets@[t] as int]);
    }
    Ok(Matrix::assemble(out, width))
}

} // verus!
