//! Label seeds: the partial labelling that a model is fitted to.
//!
//! A seed is two aligned sequences, `nodes` and `labels`: entry `k` says that
//! node `nodes[k]` carries label `labels[k]`. A node may be named more than
//! once; the last entry that names it decides its label.

use vstd::prelude::*;
use crate::error::PropagationError;
use crate::matrix::{rows_view, Grid, Matrix};
use crate::dense::non_negative;
use crate::scalar::{one, zero, NonNegativeClosed, Scalar};

verus! {

/// The error type of the minimum and maximum functions of `ndarray_stats`,
/// `ndarray_stats::errors::MinMaxError`. Nothing is read from a value of it.
#[verifier::external_type_specification]
#[verifier::external_body]
pub struct ExMinMaxError(ndarray_stats::errors::MinMaxError);

/// The largest of `labels`, and zero if there is none.
pub open spec fn largest_label(labels: Seq<usize>) -> usize
    decreases labels.len(),
{
    if labels.len() == 0 {
        0
    } else if labels.last() > largest_label(labels.drop_last()) {
        labels.last()
    } else {
        largest_label(labels.drop_last())
    }
}

/// The largest label bounds every label, and is one of them if there is any.
pub proof fn lemma_largest_label(labels: Seq<usize>)
    ensures
        forall|k: int| 0 <= k < labels.len() ==> labels[k] <= largest_label(labels),
        labels.len() > 0 ==> labels.contains(largest_label(labels)),
    decreases labels.len(),
{
    if labels.len() > 0 {
        let front = labels.drop_last();
        lemma_largest_label(front);
        assert forall|k: int| 0 <= k < labels.len() implies labels[k] <= largest_label(labels) by {
            if k < front.len() {
                assert(front[k] == labels[k]);
            }
        }
        if labels.last() > largest_label(front) || front.len() == 0 {
            assert(labels[labels.len() - 1] == labels.last());
        } else {
            let at = choose|k: int| 0 <= k < front.len() && front[k] == largest_label(front);
            assert(labels[at] == largest_label(labels));
        }
    }
}

/// Calls `ndarray_stats::QuantileExt::max` on a one-dimensional view of
/// `values`. For an empty array that function returns its error; otherwise
/// it folds the array with `partial_cmp`, which is total on `usize`, and
/// returns an element that no other exceeds.
#[verifier::external_body]
fn largest(values: &[usize]) -> (r: Result<usize, ndarray_stats::errors::MinMaxError>)
    ensures
        r is Err <==> values@.len() == 0,
        r matches Ok(m) ==> values@.contains(m) && forall|k: int|
            0 <= k < values@.len() ==> values@[k] <= m,
{
    let view = ndarray::ArrayView1::from(values);
    match ndarray_stats::QuantileExt::max(&view) {
        Ok(m) => Ok(*m),
        Err(e) => Err(e),
    }
}

/// The number of classes of a seed with these labels.
///
/// Fails with `EmptyLabelSet` when there is no label, and with
/// `IndexOutOfRange` when the largest label is so large that the count does
/// not fit the machine's index type.
pub fn class_count(labels: &[usize]) -> (r: Result<usize, PropagationError>)
    ensures
        r == if labels@.len() == 0 {
            Err::<usize, PropagationError>(PropagationError::EmptyLabelSet)
        } else if largest_label(labels@) == usize::MAX {
            Err(PropagationError::IndexOutOfRange)
        } else {
            Ok((largest_label(labels@) + 1) as usize)
        },
{
    match largest(labels) {
        Err(_) => Err(PropagationError::EmptyLabelSet),
        Ok(m) => {
            proof {
                lemma_largest_label(labels@);
            }
            if m == usize::MAX {
                Err(PropagationError::IndexOutOfRange)
            } else {
                Ok(m + 1)
            }
        },
    }
}

/// What checking a seed against a graph of `size` nodes yields: the number
/// of classes, or the reason for which the seed is refused.
///
/// A seed without labels is refused as `EmptyLabelSet`. Otherwise it is
/// refused as `IndexOutOfRange` when its two sequences differ in length (an
/// entry of the longer one then has no partner), when it names a node that
/// the graph does not have, or when its class count does not fit the
/// machine's index type.
pub open spec fn seed_verdict(size: nat, nodes: Seq<usize>, labels: Seq<usize>) -> Result<
    usize,
    PropagationError,
> {
    if labels.len() == 0 {
        Err(PropagationError::EmptyLabelSet)
    } else if nodes.len() != labels.len() || largest_label(labels) == usize::MAX || exists|k: int|
        0 <= k < nodes.len() && nodes[k] >= size {
        Err(PropagationError::IndexOutOfRange)
    } else {
        Ok((largest_label(labels) + 1) as usize)
    }
}

/// Checks a seed against a graph of `size` nodes and counts its classes.
pub fn check_seed(size: usize, nodes: &[usize], labels: &[usize]) -> (r: Result<
    usize,
    PropagationError,
>)
    ensures
        r == seed_verdict(size as nat, nodes@, labels@),
{
    let classes = match class_count(labels) {
        Err(PropagationError::EmptyLabelSet) => {
            return Err(PropagationError::EmptyLabelSet);
        },
        Err(_) => {
            return Err(PropagationError::IndexOutOfRange);
        },
        Ok(classes) => classes,
    };
    if nodes.len() != labels.len() {
        return Err(PropagationError::IndexOutOfRange);
    }
    let mut k: usize = 0;
    while k < nodes.len()
        invariant
            k <= nodes.len(),
            labels@.len() > 0,
            nodes@.len() == labels@.len(),
            largest_label(labels@) != usize::MAX,
            classes == largest_label(labels@) + 1,
            forall|t: int| 0 <= t < k ==> nodes@[t] < size,
        decreases nodes.len() - k,
    {
        if nodes[k] >= size {
            assert(0 <= k < nodes@.len() && nodes@[k as int] >= size);
            return Err(PropagationError::IndexOutOfRange);
        }
        k += 1;
    }
    Ok(classes)
}

/// The label that a seed gives to `node`: that of the last entry naming the
/// node, and `None` if no entry names it.
pub open spec fn assigned(nodes: Seq<usize>, labels: Seq<usize>, node: int) -> Option<usize>
    decreases nodes.len(),
{
    if nodes.len() == 0 {
        None
    } else if nodes.last() == node {
        Some(labels[nodes.len() - 1])
    } else {
        assigned(nodes.drop_last(), labels, node)
    }
}

/// A node that no entry names has no label.
pub proof fn lemma_unnamed_node(nodes: Seq<usize>, labels: Seq<usize>, node: int)
    requires
        forall|k: int| 0 <= k < nodes.len() ==> nodes[k] != node,
    ensures
        assigned(nodes, labels, node) is None,
    decreases nodes.len(),
{
    if nodes.len() > 0 {
        assert(nodes.last() == nodes[nodes.len() - 1]);
        lemma_unnamed_node(nodes.drop_last(), labels, node);
    }
}

/// The last entry that names a node decides its label, whatever earlier
/// entries said of the node.
pub proof fn lemma_last_entry_wins(nodes: Seq<usize>, labels: Seq<usize>, k: int)
    requires
        0 <= k < nodes.len(),
        forall|later: int| k < later < nodes.len() ==> nodes[later] != nodes[k],
    ensures
        assigned(nodes, labels, nodes[k] as int) == Some(labels[k]),
    decreases nodes.len(),
{
    if k < nodes.len() - 1 {
        assert(nodes.last() == nodes[nodes.len() - 1]);
        lemma_last_entry_wins(nodes.drop_last(), labels, k);
    }
}

/// A row that holds `value` in each of `width` columns.
pub open spec fn constant_row<S>(width: nat, value: S) -> Seq<S> {
    Seq::new(width, |j: int| value)
}

/// A row of `width` columns that holds one in column `label` and zero in
/// every other column.
pub open spec fn indicator_row<S: Scalar>(width: nat, label: usize) -> Seq<S> {
    Seq::new(
        width,
        |j: int|
            if j == label {
                one::<S>()
            } else {
                zero::<S>()
            },
    )
}

/// The belief that a seed puts on `node`: the indicator of its label where
/// the seed gives it one, and `background` in every column where not.
pub open spec fn belief_row<S: Scalar>(
    nodes: Seq<usize>,
    labels: Seq<usize>,
    node: int,
    width: nat,
    background: S,
) -> Seq<S> {
    match assigned(nodes, labels, node) {
        Some(label) => indicator_row(width, label),
        None => constant_row(width, background),
    }
}

/// The belief matrix of a seed on a graph of `size` nodes: one belief row
/// for each node.
pub open spec fn belief<S: Scalar>(
    nodes: Seq<usize>,
    labels: Seq<usize>,
    size: nat,
    width: nat,
    background: S,
) -> Grid<S> {
    Grid { rows: Seq::new(size, |i: int| belief_row(nodes, labels, i, width, background)), width }
}

/// A belief matrix on a background of zero or more has no entry below zero.
pub proof fn lemma_belief_non_negative<S: NonNegativeClosed>(
    nodes: Seq<usize>,
    labels: Seq<usize>,
    size: nat,
    width: nat,
    background: S,
)
    requires
        background.non_negative_spec(),
    ensures
        non_negative(belief(nodes, labels, size, width, background)),
{
    S::lemma_count_non_negative(0);
    S::lemma_count_non_negative(1);
}

fn make_constant_row<S: Scalar>(width: usize, value: S) -> (row: Vec<S>)
    ensures
        row@ == constant_row(width as nat, value),
{
    let mut row: Vec<S> = Vec::new();
    let mut j: usize = 0;
    while j < width
        invariant
            j <= width,
            row@ == constant_row(j as nat, value),
        decreases width - j,
    {
        row.push(value);
        j += 1;
        assert(row@ =~= constant_row(j as nat, value));
    }
    row
}

fn make_indicator_row<S: Scalar>(width: usize, label: usize) -> (row: Vec<S>)
    ensures
        row@ == indicator_row::<S>(width as nat, label),
{
    let mut row: Vec<S> = Vec::new();
    let mut j: usize = 0;
    while j < width
        invariant
            j <= width,
            row@ == indicator_row::<S>(j as nat, label),
        decreases width - j,
    {
        if j == label {
            row.push(S::count(1));
        } else {
            row.push(S::count(0));
        }
        j += 1;
        assert(row@ =~= indicator_row::<S>(j as nat, label));
    }
    row
}

/// Builds the belief matrix of a seed: every row starts as `background`
/// throughout, and then each entry of the seed, in order, replaces the row of
/// its node by the indicator of its label. Entries that name a node outside
/// the graph change nothing.
pub fn belief_matrix<S: Scalar>(
    size: usize,
    width: usize,
    nodes: &[usize],
    labels: &[usize],
    background: S,
) -> (b: Matrix<S>)
    requires
        nodes@.len() == labels@.len(),
    ensures
        b@ == belief(nodes@, labels@, size as nat, width as nat, background),
{
    let mut rows: Vec<Vec<S>> = Vec::new();
    let mut i: usize = 0;
    while i < size
        invariant
            i <= size,
            rows@.len() == i,
            forall|t: int| 0 <= t < i ==> (#[trigger] rows@[t])@ == constant_row(width as nat, background),
        decreases size - i,
    {
        rows.push(make_constant_row(width, background));
        i += 1;
    }
    let mut k: usize = 0;
    while k < nodes.len()
        invariant
            k <= nodes@.len(),
            nodes@.len() == labels@.len(),
            rows@.len() == size,
            forall|t: int|
                0 <= t < size ==> (#[trigger] rows@[t])@ == belief_row(
                    nodes@.take(k as int),
                    labels@,
                    t,
                    width as nat,
                    background,
                ),
        decreases nodes.len() - k,
    {
        let node = nodes[k];
        let ghost before = nodes@.take(k as int);
        let ghost after = nodes@.take(k + 1);
        assert(after.drop_last() =~= before);
        assert(after.last() == node);
        if node < size {
            rows.set(node, make_indicator_row(width, labels[k]));
        }
        k += 1;
    }
    assert(nodes@.take(k as int) =~= nodes@);
    let ghost wanted = belief(nodes@, labels@, size as nat, width as nat, background);
    assert(rows_view(rows@) =~= wanted.rows);
    Matrix::assemble(rows, width)
}

} // verus!
