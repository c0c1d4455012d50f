//! Pricing a market order of a given size against a depth ladder.

use vstd::prelude::*;
use crate::quote::LadderRow;
use crate::ladder::{depth_before, lemma_depth_before_grows, running_sum_holds, DepthLadder};

verus! {

/// What is still to fill when the walk reaches row `i`: the target less the
/// depth in front of the row, and nothing once that depth covers the target.
pub open spec fn remaining_to_fill(rows: Seq<LadderRow>, target: nat, i: int) -> nat {
    if target >= depth_before(rows, i) {
        (target - depth_before(rows, i)) as nat
    } else {
        0
    }
}

/// The quantity taken from row `i`: all of it, or what is still to fill if
/// that is less.
pub open spec fn filled_at_level(rows: Seq<LadderRow>, target: nat, i: int) -> nat {
    if rows[i].quantity as nat <= remaining_to_fill(rows, target, i) {
        rows[i].quantity as nat
    } else {
        remaining_to_fill(rows, target, i)
    }
}

/// The cost of what is taken from the first `n` rows.
pub open spec fn cost_of_levels(rows: Seq<LadderRow>, target: nat, n: nat) -> nat
    decreases n,
{
    if n == 0 {
        0
    } else {
        cost_of_levels(rows, target, (n - 1) as nat) + filled_at_level(rows, target, n - 1)
            * rows[n - 1].price as nat
    }
}

/// The cost of filling `target` against the whole ladder.
pub open spec fn execution_cost(rows: Seq<LadderRow>, target: nat) -> nat {
    cost_of_levels(rows, target, rows.len())
}

/// The quantity taken from the first `n` rows.
pub open spec fn filled_through(rows: Seq<LadderRow>, target: nat, n: nat) -> nat {
    if target <= depth_before(rows, n as int) {
        target
    } else {
        depth_before(rows, n as int)
    }
}

/// The cost of taking the first `n` rows whole.
pub open spec fn cost_of_whole_levels(rows: Seq<LadderRow>, n: nat) -> nat
    decreases n,
{
    if n == 0 {
        0
    } else {
        cost_of_whole_levels(rows, (n - 1) as nat) + rows[n - 1].quantity as nat * rows[n
            - 1].price as nat
    }
}

/// What an order of size `target` costs and how much of it the ladder fills.
#[derive(Clone, Copy, Debug, PartialEq, Eq, Structural)]
pub struct Execution {
    pub total_cost: u128,
    pub filled_quantity: u64,
}

/// Walking one more row adds what the row fills to what was filled, and the
/// cost so far stays under the filled quantity at the highest price a row
/// can have.
pub proof fn lemma_cost_step(rows: Seq<LadderRow>, target: nat, n: nat)
    requires
        running_sum_holds(rows),
        n < rows.len(),
    ensures
        filled_through(rows, target, n + 1) == filled_through(rows, target, n) + filled_at_level(
            rows,
            target,
            n as int,
        ),
        filled_at_level(rows, target, n as int) * rows[n as int].price as nat <= filled_at_level(
            rows,
            target,
            n as int,
        ) * (u64::MAX as nat),
{
    assert(rows[n as int].cumulative_quantity == depth_before(rows, n as int)
        + rows[n as int].quantity);
    let fill = filled_at_level(rows, target, n as int);
    let price = rows[n as int].price as nat;
    assert(fill * price <= fill * (u64::MAX as nat)) by (nonlinear_arith)
        requires
            price <= u64::MAX as nat,
    ;
}

/// The cost of the first `n` rows is at most the quantity they fill at the
/// highest price a row can have.
pub proof fn lemma_cost_bounded(rows: Seq<LadderRow>, target: nat, n: nat)
    requires
        running_sum_holds(rows),
        n <= rows.len(),
    ensures
        cost_of_levels(rows, target, n) <= filled_through(rows, target, n) * (u64::MAX as nat),
    decreases n,
{
    if n > 0 {
        let m = (n - 1) as nat;
        lemma_cost_bounded(rows, target, m);
        lemma_cost_step(rows, target, m);
        let a = filled_through(rows, target, m);
        let b = filled_at_level(rows, target, m as int);
        assert((a + b) * (u64::MAX as nat) == a * (u64::MAX as nat) + b * (u64::MAX as nat))
            by (nonlinear_arith);
    } else {
        assert(filled_through(rows, target, 0) == 0);
    }
}

/// Prices an order of size `target` against the ladder, best price first,
/// and says how much of the order the ladder fills. A ladder that is not
/// deep enough gives the cost of what it holds, without an error.
pub fn fill_execution(ladder: &DepthLadder, target: u64) -> (e: Execution)
    requires
        ladder.well_formed(),
    ensures
        e.total_cost == execution_cost(ladder@, target as nat),
        e.filled_quantity == filled_through(ladder@, target as nat, ladder@.len()),
{
    let rows = ladder.rows();
    let n: usize = rows.len();
    let mut cost: u128 = 0;
    let mut depth: u64 = 0;
    let mut i: usize = 0;
    while i < n
        invariant
            0 <= i <= n,
            n == rows@.len(),
            running_sum_holds(rows@),
            depth == depth_before(rows@, i as int),
            cost == cost_of_levels(rows@, target as nat, i as nat),
        decreases n - i,
    {
        let row = rows[i];
        let remaining: u64 = if target >= depth {
            target - depth
        } else {
            0
        };
        let fill: u64 = if row.quantity <= remaining {
            row.quantity
        } else {
            remaining
        };
        proof {
            lemma_cost_bounded(rows@, target as nat, (i + 1) as nat);
            let f = filled_through(rows@, target as nat, (i + 1) as nat);
            assert(f * 0xffff_ffff_ffff_ffff <= 0xffff_ffff_ffff_ffff_ffff_ffff_ffff_ffff)
                by (nonlinear_arith)
                requires
                    f <= 0xffff_ffff_ffff_ffff,
            ;
            assert(fill == filled_at_level(rows@, target as nat, i as int));
            assert((fill as u128) * (row.price as u128) == fill as nat * row.price as nat)
                by (nonlinear_arith)
                requires
                    (fill as nat) * (row.price as nat) <= u128::MAX,
            ;
        }
        cost = cost + (fill as u128) * (row.price as u128);
        depth = row.cumulative_quantity;
        i += 1;
    }
    let filled: u64 = if target <= depth {
        target
    } else {
        depth
    };
    Execution { total_cost: cost, filled_quantity: filled }
}

/// The total cost of filling `target` against the ladder, best price first.
/// A ladder that is not deep enough gives the cost of what it holds.
pub fn price_execution(ladder: &DepthLadder, target: u64) -> (total_cost: u128)
    requires
        ladder.well_formed(),
    ensures
        total_cost == execution_cost(ladder@, target as nat),
{
    fill_execution(ladder, target).total_cost
}

/// An order of size zero costs nothing, whatever the ladder.
pub proof fn lemma_zero_target_costs_nothing(rows: Seq<LadderRow>)
    ensures
        execution_cost(rows, 0) == 0,
{
    lemma_zero_target_prefix(rows, rows.len());
}

/// An order of size zero takes nothing from any prefix of the ladder.
pub proof fn lemma_zero_target_prefix(rows: Seq<LadderRow>, n: nat)
    ensures
        cost_of_levels(rows, 0, n) == 0,
    decreases n,
{
    if n > 0 {
        lemma_zero_target_prefix(rows, (n - 1) as nat);
        assert(filled_at_level(rows, 0, n - 1) == 0);
        assert(0 * (rows[n - 1].price as nat) == 0) by (nonlinear_arith);
    }
}

/// An order at least as large as the ladder is deep takes every row whole:
/// its cost is the sum of quantity times price over all rows.
pub proof fn lemma_deep_target_takes_all(rows: Seq<LadderRow>, target: nat)
    requires
        running_sum_holds(rows),
        target >= depth_before(rows, rows.len() as int),
    ensures
        execution_cost(rows, target) == cost_of_whole_levels(rows, rows.len()),
{
    lemma_deep_target_prefix(rows, target, rows.len());
}

/// An order at least as large as the ladder is deep takes each of the
/// first `n` rows whole.
pub proof fn lemma_deep_target_prefix(rows: Seq<LadderRow>, target: nat, n: nat)
    requires
        running_sum_holds(rows),
        target >= depth_before(rows, rows.len() as int),
        n <= rows.len(),
    ensures
        cost_of_levels(rows, target, n) == cost_of_whole_levels(rows, n),
    decreases n,
{
    if n > 0 {
        lemma_deep_target_prefix(rows, target, (n - 1) as nat);
        lemma_depth_before_grows(rows, n as int, rows.len() as int);
        assert(rows[n - 1].cumulative_quantity == depth_before(rows, n - 1) + rows[n
            - 1].quantity);
        assert(filled_at_level(rows, target, n - 1) == rows[n - 1].quantity);
    }
}

/// The walk never fills more than the order asks for nor more than the
/// ladder holds, and fills the order whole where the ladder is deep enough.
pub proof fn lemma_filled_quantity(rows: Seq<LadderRow>, target: nat)
    ensures
        filled_through(rows, target, rows.len()) <= target,
        filled_through(rows, target, rows.len()) <= depth_before(rows, rows.len() as int),
        depth_before(rows, rows.len() as int) >= target ==> filled_through(
            rows,
            target,
            rows.len(),
        ) == target,
{
}

} // verus!
