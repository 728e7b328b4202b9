//! The fixed-point iteration that both models share.
//!
//! A round replaces the state `f` by `P f + B`, where `P` is the diffusion
//! operator and `B` the belief matrix. The rounds are counted, not tested for
//! convergence. Every sum is taken in index order, so that the outcome is a
//! function of the inputs alone.

use vstd::prelude::*;
use crate::dense::{column, non_negative};
use crate::matrix::{rows_view, Grid, Matrix};
use crate::scalar::{lemma_sum_non_negative, lemma_sum_step, sum, NonNegativeClosed, Scalar};

verus! {

/// The products of the entries of `a` with the entries of `b` at the same
/// positions.
pub open spec fn products<S: Scalar>(a: Seq<S>, b: Seq<S>) -> Seq<S> {
    Seq::new(a.len(), |t: int| a[t].times_spec(b[t]))
}

/// The inner product of `a` and `b`.
pub open spec fn dot<S: Scalar>(a: Seq<S>, b: Seq<S>) -> S {
    sum(products(a, b))
}

/// One round: the entry in row `i` and column `c` of the new state is the
/// inner product of row `i` of the operator with column `c` of the old state,
/// plus the belief in that place.
pub open spec fn step<S: Scalar>(operator: Grid<S>, state: Grid<S>, belief: Grid<S>) -> Grid<S> {
    Grid {
        rows: Seq::new(
            operator.rows.len(),
            |i: int|
                Seq::new(
                    state.width,
                    |c: int|
                        dot(operator.rows[i], column(state.rows, c)).plus_spec(belief.rows[i][c]),
                ),
        ),
        width: state.width,
    }
}

/// The state after `rounds` rounds from `start`.
pub open spec fn iterate<S: Scalar>(
    operator: Grid<S>,
    start: Grid<S>,
    belief: Grid<S>,
    rounds: nat,
) -> Grid<S>
    decreases rounds,
{
    if rounds == 0 {
        start
    } else {
        step(operator, iterate(operator, start, belief, (rounds - 1) as nat), belief)
    }
}

/// Whether an operator, a state and a belief matrix fit together: the
/// operator is square, and the other two have one row for each of its rows
/// and the same width.
pub open spec fn conformable<S>(operator: Grid<S>, state: Grid<S>, belief: Grid<S>) -> bool {
    &&& operator.square()
    &&& state.rectangular()
    &&& belief.rectangular()
    &&& state.rows.len() == operator.rows.len()
    &&& belief.rows.len() == operator.rows.len()
    &&& belief.width == state.width
}

/// A round keeps the shape of the state.
pub proof fn lemma_step_shape<S: Scalar>(operator: Grid<S>, state: Grid<S>, belief: Grid<S>)
    requires
        conformable(operator, state, belief),
    ensures
        conformable(operator, step(operator, state, belief), belief),
        step(operator, state, belief).width == state.width,
{
}

/// Any number of rounds keeps the shape of the state.
pub proof fn lemma_iterate_shape<S: Scalar>(
    operator: Grid<S>,
    start: Grid<S>,
    belief: Grid<S>,
    rounds: nat,
)
    requires
        conformable(operator, start, belief),
    ensures
        conformable(operator, iterate(operator, start, belief, rounds), belief),
        iterate(operator, start, belief, rounds).width == start.width,
    decreases rounds,
{
    if rounds > 0 {
        lemma_iterate_shape(operator, start, belief, (rounds - 1) as nat);
        lemma_step_shape(operator, iterate(operator, start, belief, (rounds - 1) as nat), belief);
    }
}

/// A round on an operator, a state and a belief matrix without an entry
/// below zero leaves no entry below zero.
pub proof fn lemma_step_non_negative<S: NonNegativeClosed>(
    operator: Grid<S>,
    state: Grid<S>,
    belief: Grid<S>,
)
    requires
        conformable(operator, state, belief),
        non_negative(operator),
        non_negative(state),
        non_negative(belief),
    ensures
        non_negative(step(operator, state, belief)),
{
    let next = step(operator, state, belief);
    assert forall|i: int, c: int| 0 <= i < next.rows.len() && 0 <= c < next.width implies (
    #[trigger] next.rows[i][c]).non_negative_spec() by {
        let terms = products(operator.rows[i], column(state.rows, c));
        assert forall|t: int| 0 <= t < terms.len() implies (#[trigger] terms[t]).non_negative_spec() by {
            assert(operator.rows[i][t].non_negative_spec());
            assert(state.rows[t][c].non_negative_spec());
            S::lemma_times_non_negative(operator.rows[i][t], state.rows[t][c]);
        }
        lemma_sum_non_negative(terms);
        assert(belief.rows[i][c].non_negative_spec());
        S::lemma_plus_non_negative(sum(terms), belief.rows[i][c]);
    }
}

/// Any number of rounds on an operator, a state and a belief matrix without
/// an entry below zero leaves no entry below zero.
pub proof fn lemma_iterate_non_negative<S: NonNegativeClosed>(
    operator: Grid<S>,
    start: Grid<S>,
    belief: Grid<S>,
    rounds: nat,
)
    requires
        conformable(operator, start, belief),
        non_negative(operator),
        non_negative(start),
        non_negative(belief),
    ensures
        non_negative(iterate(operator, start, belief, rounds)),
    decreases rounds,
{
    if rounds > 0 {
        let before = iterate(operator, start, belief, (rounds - 1) as nat);
        lemma_iterate_shape(operator, start, belief, (rounds - 1) as nat);
        lemma_iterate_non_negative(operator, start, belief, (rounds - 1) as nat);
        lemma_step_non_negative(operator, before, belief);
    }
}

fn dot_column<S: Scalar>(row: &Vec<S>, state: &Vec<Vec<S>>, c: usize) -> (r: S)
    requires
        row@.len() == state@.len(),
        forall|t: int| 0 <= t < state@.len() ==> c < (#[trigger] state@[t])@.len(),
    ensures
        r == dot(row@, column(rows_view(state@), c as int)),
{
    let ghost terms = products(row@, column(rows_view(state@), c as int));
    let mut total = S::count(0);
    let mut t: usize = 0;
    while t < row.len()
        invariant
            t <= row@.len(),
            row@.len() == state@.len(),
            terms == products(row@, column(rows_view(state@), c as int)),
            forall|u: int| 0 <= u < state@.len() ==> c < (#[trigger] state@[u])@.len(),
            total == sum(terms.take(t as int)),
        decreases row.len() - t,
    {
        proof {
            lemma_sum_step(terms, t as int);
        }
        total = total.plus(row[t].times(state[t][c]));
        t += 1;
    }
    assert(terms.take(t as int) =~= terms);
    total
}

fn advance<S: Scalar>(operator: &Matrix<S>, state: &Matrix<S>, belief: &Matrix<S>) -> (next: Matrix<S>)
    requires
        conformable(operator@, state@, belief@),
    ensures
        next@ == step(operator@, state@, belief@),
{
    let weights = operator.rows();
    let old_rows = state.rows();
    let held = belief.rows();
    let width = state.width();
    let ghost wanted = step(operator@, state@, belief@);
    let mut rows: Vec<Vec<S>> = Vec::new();
    let mut i: usize = 0;
    while i < weights.len()
        invariant
            i <= weights@.len(),
            conformable(operator@, state@, belief@),
            rows_view(weights@) == operator@.rows,
            rows_view(old_rows@) == state@.rows,
            rows_view(held@) == belief@.rows,
            width == state@.width,
            wanted == step(operator@, state@, belief@),
            rows@.len() == i,
            forall|t: int| 0 <= t < i ==> (#[trigger] rows@[t])@ == wanted.rows[t],
        decreases weights.len() - i,
    {
        let mut row: Vec<S> = Vec::new();
        let mut c: usize = 0;
        assert(weights@[i as int]@ == operator@.rows[i as int]);
        assert(held@[i as int]@ == belief@.rows[i as int]);
        while c < width
            invariant
                c <= width,
                i < weights@.len(),
                conformable(operator@, state@, belief@),
                rows_view(weights@) == operator@.rows,
                rows_view(old_rows@) == state@.rows,
                rows_view(held@) == belief@.rows,
                weights@[i as int]@ == operator@.rows[i as int],
                held@[i as int]@ == belief@.rows[i as int],
                width == state@.width,
                wanted == step(operator@, state@, belief@),
                row@.len() == c,
                forall|d: int| 0 <= d < c ==> (#[trigger] row@[d]) == wanted.rows[i as int][d],
            decreases width - c,
        {
            assert forall|t: int| 0 <= t < old_rows@.len() implies c < (#[trigger] old_rows@[t])@.len() by {
                assert(old_rows@[t]@ == state@.rows[t]);
            }
            let through = dot_column(&weights[i], old_rows, c);
            row.push(through.plus(held[i][c]));
            c += 1;
        }
        assert(row@ =~= wanted.rows[i as int]);
        rows.push(row);
        i += 1;
    }
    assert(rows_view(rows@) =~= wanted.rows);
    Matrix::assemble(rows, width)
}

/// Runs `rounds` rounds from `start`.
pub fn propagate<S: Scalar>(
    operator: &Matrix<S>,
    start: Matrix<S>,
    belief: &Matrix<S>,
    rounds: usize,
) -> (reached: Matrix<S>)
    requires
        conformable(operator@, start@, belief@),
    ensures
        reached@ == iterate(operator@, start@, belief@, rounds as nat),
{
    let ghost origin = start@;
    let mut state = start;
    let mut done: usize = 0;
    while done < rounds
        invariant
            done <= rounds,
            conformable(operator@, origin, belief@),
            state@ == iterate(operator@, origin, belief@, done as nat),
        decreases rounds - done,
    {
        proof {
            lemma_iterate_shape(operator@, origin, belief@, done as nat);
        }
        state = advance(operator, &state, belief);
        done += 1;
    }
    state
}

} // verus!
