//! The order in which the pairs of bodies act, and the proof that every unordered
//! pair acts exactly once.

use crate::body::{SimObj, SimObjDerivative};
use crate::scalar::Scalar;
use crate::system::{
    coasting_all, derivatives, lemma_row_unfold, lemma_rows_unfold, with_pair, with_row,
    with_rows,
};
use vstd::prelude::*;

verus! {

/// The pairs `(i, i + 1)`, ..., `(i, end - 1)`.
pub open spec fn row_pairs(i: int, end: int) -> Seq<(int, int)>
    decreases end - i,
{
    if end <= i + 1 {
        Seq::empty()
    } else {
        row_pairs(i, end - 1).push((i, end - 1))
    }
}

/// The pairs of the rows `0`, ..., `rows - 1` among `n` bodies, row after row.
pub open spec fn pair_order(n: int, rows: int) -> Seq<(int, int)>
    decreases rows,
{
    if rows <= 0 {
        Seq::empty()
    } else {
        pair_order(n, rows - 1) + row_pairs(rows - 1, n)
    }
}

/// The rates `d` after the given pairs have acted, one after the other.
pub open spec fn with_pairs(
    bodies: Seq<SimObj>,
    g: Scalar,
    d: Seq<SimObjDerivative>,
    pairs: Seq<(int, int)>,
) -> Seq<SimObjDerivative>
    decreases pairs.len(),
{
    if pairs.len() == 0 {
        d
    } else {
        with_pair(
            bodies,
            g,
            with_pairs(bodies, g, d, pairs.drop_last()),
            pairs.last().0,
            pairs.last().1,
        )
    }
}

/// Row `i` holds the partners of `i` in rising order.
pub proof fn lemma_row_pairs(i: int, end: int)
    ensures
        row_pairs(i, end).len() == if end > i + 1 {
            end - i - 1
        } else {
            0
        },
        forall|k: int|
            0 <= k < row_pairs(i, end).len() ==> #[trigger] row_pairs(i, end)[k] == (i, i + 1 + k),
    decreases end - i,
{
    if end > i + 1 {
        lemma_row_pairs(i, end - 1);
    }
}

/// Letting two lists of pairs act one after the other is letting their
/// concatenation act.
pub proof fn lemma_with_pairs_concat(
    bodies: Seq<SimObj>,
    g: Scalar,
    d: Seq<SimObjDerivative>,
    first: Seq<(int, int)>,
    second: Seq<(int, int)>,
)
    ensures
        with_pairs(bodies, g, d, first + second) == with_pairs(
            bodies,
            g,
            with_pairs(bodies, g, d, first),
            second,
        ),
    decreases second.len(),
{
    if second.len() == 0 {
        assert(first + second =~= first);
    } else {
        lemma_with_pairs_concat(bodies, g, d, first, second.drop_last());
        assert((first + second).drop_last() =~= first + second.drop_last());
        assert((first + second).last() == second.last());
    }
}

/// A row of the accumulator lets the pairs of that row act.
pub proof fn lemma_row_is_its_pairs(
    bodies: Seq<SimObj>,
    g: Scalar,
    d: Seq<SimObjDerivative>,
    i: int,
    end: int,
)
    ensures
        with_row(bodies, g, d, i, end) == with_pairs(bodies, g, d, row_pairs(i, end)),
    decreases end - i,
{
    lemma_row_unfold(bodies, g, d, i, end);
    if end > i + 1 {
        lemma_row_is_its_pairs(bodies, g, d, i, end - 1);
        assert(row_pairs(i, end).drop_last() =~= row_pairs(i, end - 1));
    }
}

/// The first rows of the accumulator let the pairs of those rows act.
pub proof fn lemma_rows_are_their_pairs(
    bodies: Seq<SimObj>,
    g: Scalar,
    d: Seq<SimObjDerivative>,
    rows: int,
)
    ensures
        with_rows(bodies, g, d, rows) == with_pairs(
            bodies,
            g,
            d,
            pair_order(bodies.len() as int, rows),
        ),
    decreases rows,
{
    let n = bodies.len() as int;
    lemma_rows_unfold(bodies, g, d, rows);
    if rows > 0 {
        lemma_rows_are_their_pairs(bodies, g, d, rows - 1);
        let before = with_rows(bodies, g, d, rows - 1);
        lemma_row_is_its_pairs(bodies, g, before, rows - 1, n);
        lemma_with_pairs_concat(bodies, g, d, pair_order(n, rows - 1), row_pairs(rows - 1, n));
    }
}

/// The force accumulator lets the pairs act in the order of [`pair_order`],
/// starting from bodies that coast.
pub proof fn lemma_derivatives_follow_pair_order(bodies: Seq<SimObj>, g: Scalar)
    ensures
        derivatives(bodies, g) == with_pairs(
            bodies,
            g,
            coasting_all(bodies),
            pair_order(bodies.len() as int, bodies.len() as int),
        ),
{
    lemma_rows_are_their_pairs(bodies, g, coasting_all(bodies), bodies.len() as int);
}

/// The first `rows` rows hold `rows * (2 n - rows - 1) / 2` pairs; all `n` rows
/// together hold `n * (n - 1) / 2`.
pub proof fn lemma_pair_count(n: int, rows: int)
    requires
        0 <= rows <= n,
    ensures
        2 * pair_order(n, rows).len() == rows * (2 * n - rows - 1),
        rows == n ==> 2 * pair_order(n, rows).len() == n * (n - 1),
    decreases rows,
{
    if rows > 0 {
        lemma_pair_count(n, rows - 1);
        lemma_row_pairs(rows - 1, n);
        assert((rows - 1) * (2 * n - rows) + 2 * (n - rows) == rows * (2 * n - rows - 1))
            by (nonlinear_arith);
    } else {
        assert(0 * (2 * n - 1) == 0);
    }
    if rows == n {
        assert(n * (2 * n - n - 1) == n * (n - 1));
    }
}

/// Every pair in the order names two bodies, the first with the smaller index.
pub proof fn lemma_pairs_are_ordered(n: int, rows: int, k: int)
    requires
        0 <= k < pair_order(n, rows).len(),
    ensures
        0 <= pair_order(n, rows)[k].0 < rows,
        pair_order(n, rows)[k].0 < pair_order(n, rows)[k].1 < n,
    decreases rows,
{
    if rows > 0 {
        let before = pair_order(n, rows - 1);
        lemma_row_pairs(rows - 1, n);
        if k < before.len() {
            lemma_pairs_are_ordered(n, rows - 1, k);
        } else {
            assert(pair_order(n, rows)[k] == row_pairs(rows - 1, n)[k - before.len()]);
        }
    }
}

/// Every unordered pair of bodies is in the order.
pub proof fn lemma_every_pair_acts(n: int, rows: int, i: int, j: int) -> (k: int)
    requires
        0 <= i < rows,
        i < j < n,
    ensures
        0 <= k < pair_order(n, rows).len(),
        pair_order(n, rows)[k] == (i, j),
    decreases rows,
{
    let before = pair_order(n, rows - 1);
    lemma_row_pairs(rows - 1, n);
    if i < rows - 1 {
        lemma_every_pair_acts(n, rows - 1, i, j)
    } else {
        let k = before.len() + (j - i - 1);
        assert(pair_order(n, rows)[k] == row_pairs(rows - 1, n)[j - i - 1]);
        k
    }
}

/// No pair is in the order twice.
pub proof fn lemma_no_pair_acts_twice(n: int, rows: int, k1: int, k2: int)
    requires
        0 <= k1 < k2 < pair_order(n, rows).len(),
    ensures
        pair_order(n, rows)[k1] != pair_order(n, rows)[k2],
    decreases rows,
{
    if rows > 0 {
        let before = pair_order(n, rows - 1);
        lemma_row_pairs(rows - 1, n);
        if k2 < before.len() {
            lemma_no_pair_acts_twice(n, rows - 1, k1, k2);
        } else {
            assert(pair_order(n, rows)[k2] == row_pairs(rows - 1, n)[k2 - before.len()]);
            if k1 < before.len() {
                lemma_pairs_are_ordered(n, rows - 1, k1);
            } else {
                assert(pair_order(n, rows)[k1] == row_pairs(rows - 1, n)[k1 - before.len()]);
            }
        }
    }
}

} // verus!
