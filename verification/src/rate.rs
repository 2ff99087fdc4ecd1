//! Exact ratio values. The source data only ever divides one count by
//! another, so every rate is kept as its two counts and compared by
//! cross-multiplication; nothing is rounded.

use vstd::prelude::*;
use vstd::arithmetic::mul::lemma_mul_upper_bound;

verus! {

/// An exact result rate: `count` qualifying games out of `total`,
/// standing for the percentage `100 * count / total`.
#[derive(Clone, Copy, Debug, PartialEq, Eq, Structural)]
pub struct Rate {
    pub count: usize,
    pub total: usize,
}

/// `a` stands for a strictly greater ratio than `b`.
pub open spec fn rate_gt(a: Rate, b: Rate) -> bool {
    a.count * b.total > b.count * a.total
}

/// `a` and `b` stand for the same ratio.
pub open spec fn rate_eq(a: Rate, b: Rate) -> bool {
    a.count * b.total == b.count * a.total
}

/// Compares two rates exactly, by cross-multiplication.
pub fn rate_is_gt(a: &Rate, b: &Rate) -> (r: bool)
    ensures
        r == rate_gt(*a, *b),
{
    proof {
        lemma_mul_upper_bound(a.count as int, u64::MAX as int, b.total as int, u64::MAX as int);
        lemma_mul_upper_bound(b.count as int, u64::MAX as int, a.total as int, u64::MAX as int);
    }
    (a.count as u128) * (b.total as u128) > (b.count as u128) * (a.total as u128)
}

/// Decides whether two rates stand for the same ratio.
pub fn rate_is_eq(a: &Rate, b: &Rate) -> (r: bool)
    ensures
        r == rate_eq(*a, *b),
{
    proof {
        lemma_mul_upper_bound(a.count as int, u64::MAX as int, b.total as int, u64::MAX as int);
        lemma_mul_upper_bound(b.count as int, u64::MAX as int, a.total as int, u64::MAX as int);
    }
    (a.count as u128) * (b.total as u128) == (b.count as u128) * (a.total as u128)
}

/// The ratio order is transitive over positive denominators, taking
/// exact equality of ratios into account.
pub proof fn lemma_rate_order_trans(a: Rate, b: Rate, c: Rate)
    requires
        0 < a.total,
        0 < b.total,
        0 < c.total,
    ensures
        rate_gt(a, b) && rate_gt(b, c) ==> rate_gt(a, c),
        rate_gt(a, b) && rate_eq(b, c) ==> rate_gt(a, c),
        rate_eq(a, b) && rate_gt(b, c) ==> rate_gt(a, c),
        rate_eq(a, b) && rate_eq(b, c) ==> rate_eq(a, c),
{
    lemma_ratio_order_trans(
        a.count as int,
        a.total as int,
        b.count as int,
        b.total as int,
        c.count as int,
        c.total as int,
    );
}

/// The shared algebra behind both ratio orders: cross-multiplied
/// comparisons chain over positive denominators.
proof fn lemma_ratio_order_trans(an: int, ad: int, bn: int, bd: int, cn: int, cd: int)
    requires
        0 < ad,
        0 < bd,
        0 < cd,
    ensures
        an * bd > bn * ad && bn * cd > cn * bd ==> an * cd > cn * ad,
        an * bd > bn * ad && bn * cd == cn * bd ==> an * cd > cn * ad,
        an * bd == bn * ad && bn * cd > cn * bd ==> an * cd > cn * ad,
        an * bd == bn * ad && bn * cd == cn * bd ==> an * cd == cn * ad,
{
    if an * bd > bn * ad && bn * cd > cn * bd {
        assert(an * cd > cn * ad) by (nonlinear_arith)
            requires
                an * bd > bn * ad,
                bn * cd > cn * bd,
                0 < ad,
                0 < bd,
                0 < cd,
        ;
    }
    if an * bd > bn * ad && bn * cd == cn * bd {
        assert(an * cd > cn * ad) by (nonlinear_arith)
            requires
                an * bd > bn * ad,
                bn * cd == cn * bd,
                0 < ad,
                0 < bd,
                0 < cd,
        ;
    }
    if an * bd == bn * ad && bn * cd > cn * bd {
        assert(an * cd > cn * ad) by (nonlinear_arith)
            requires
                an * bd == bn * ad,
                bn * cd > cn * bd,
                0 < ad,
                0 < bd,
                0 < cd,
        ;
    }
    if an * bd == bn * ad && bn * cd == cn * bd {
        assert(an * cd == cn * ad) by (nonlinear_arith)
            requires
                an * bd == bn * ad,
                bn * cd == cn * bd,
                0 < ad,
                0 < bd,
                0 < cd,
        ;
    }
}

/// An exact goal average: `goals` scored over `games` games, standing
/// for the average `goals / games`.
#[derive(Clone, Copy, Debug, PartialEq, Eq, Structural)]
pub struct GoalAvg {
    pub goals: usize,
    pub games: usize,
}

/// `a` stands for a strictly greater average than `b`.
pub open spec fn avg_gt(a: GoalAvg, b: GoalAvg) -> bool {
    a.goals * b.games > b.goals * a.games
}

/// `a` and `b` stand for the same average.
pub open spec fn avg_eq(a: GoalAvg, b: GoalAvg) -> bool {
    a.goals * b.games == b.goals * a.games
}

/// The goal-average order is transitive over positive game counts.
pub proof fn lemma_avg_order_trans(a: GoalAvg, b: GoalAvg, c: GoalAvg)
    requires
        0 < a.games,
        0 < b.games,
        0 < c.games,
    ensures
        avg_gt(a, b) && avg_gt(b, c) ==> avg_gt(a, c),
        avg_gt(a, b) && avg_eq(b, c) ==> avg_gt(a, c),
        avg_eq(a, b) && avg_gt(b, c) ==> avg_gt(a, c),
        avg_eq(a, b) && avg_eq(b, c) ==> avg_eq(a, c),
{
    lemma_ratio_order_trans(
        a.goals as int,
        a.games as int,
        b.goals as int,
        b.games as int,
        c.goals as int,
        c.games as int,
    );
}

/// Compares two goal averages exactly, by cross-multiplication.
pub fn avg_is_gt(a: &GoalAvg, b: &GoalAvg) -> (r: bool)
    ensures
        r == avg_gt(*a, *b),
{
    proof {
        lemma_mul_upper_bound(a.goals as int, u64::MAX as int, b.games as int, u64::MAX as int);
        lemma_mul_upper_bound(b.goals as int, u64::MAX as int, a.games as int, u64::MAX as int);
    }
    (a.goals as u128) * (b.games as u128) > (b.goals as u128) * (a.games as u128)
}

} // verus!
