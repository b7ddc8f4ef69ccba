//! General properties of the engine, stated and proved once for all inputs.
//!
//! The allocators' own `ensures` already pin the schedule length, the price
//! of every rung and the share count of every rung. The lemmas here state
//! what follows for every valid input: the shape of the price ladder, how
//! much capital the pyramid policy spends, and that both policies are
//! deterministic functions of their inputs.

use vstd::prelude::*;

use crate::engine::{
    base_left, base_shares, flat_spec, ladder, lemma_price_antitone, lemma_redistribute_props,
    pyramid_left, pyramid_shares, pyramid_spec, pyramid_stop, sched_prices, sched_shares,
    spec_cps, spec_price, spec_step, spent_below, sum_prefix,
};
use crate::model::{Error, OrderSchedule};

verus! {

/// The price ladder is an arithmetic sequence: its first element is the start
/// price and consecutive rungs differ by exactly the common step
/// `(start - dip) / (res - 1)`.
pub proof fn lemma_ladder_arithmetic(start: int, dip: int, res: int, i: int)
    requires
        0 <= dip < start,
        res >= 2,
        0 <= i < res - 1,
    ensures
        ladder(start, dip, res)[0] == start,
        ladder(start, dip, res)[i] - ladder(start, dip, res)[i + 1] == spec_step(start, dip, res),
{
    let q = spec_step(start, dip, res);
    assert(q * (i + 1) == q * i + q) by (nonlinear_arith);
}

/// Whenever the price range is at least as wide as the number of gaps, the
/// rung prices are strictly decreasing.
pub proof fn lemma_ladder_strictly_decreasing(start: int, dip: int, res: int, i: int, j: int)
    requires
        0 <= dip < start,
        res >= 2,
        start - dip >= res - 1,
        0 <= i < j < res,
    ensures
        ladder(start, dip, res)[j] < ladder(start, dip, res)[i],
{
    let q = spec_step(start, dip, res);
    vstd::arithmetic::div_mod::lemma_div_is_ordered(res - 1, start - dip, res - 1);
    vstd::arithmetic::div_mod::lemma_div_by_self(res - 1);
    assert(q >= 1);
    assert(q * i + 1 <= q * j) by (nonlinear_arith)
        requires
            q >= 1,
            0 <= i < j,
    ;
}

/// The first pass of the pyramid policy spends at most `n` capital slices
/// over its first `n` rungs.
proof fn lemma_base_spent_le(position: int, start: int, dip: int, res: int, n: int)
    requires
        position >= 1,
        0 <= dip < start,
        res >= 2,
        spec_price(start, dip, res, res - 1) >= 1,
        0 <= n <= res,
    ensures
        spent_below(ladder(start, dip, res), base_shares(position, start, dip, res), n) <= n
            * spec_cps(position, res),
    decreases n,
{
    let cps = spec_cps(position, res);
    if n > 0 {
        lemma_base_spent_le(position, start, dip, res, n - 1);
        let price = spec_price(start, dip, res, n - 1);
        lemma_price_antitone(start, dip, res, n - 1, res - 1);
        vstd::arithmetic::div_mod::lemma_fundamental_div_mod(cps, price);
        vstd::arithmetic::div_mod::lemma_mod_division_less_than_divisor(cps, price);
        assert(price * (cps / price) <= cps);
        assert(n * cps == (n - 1) * cps + cps) by (nonlinear_arith);
    }
}

/// Well-formedness of the pyramid policy's first pass: every rung price is
/// positive, every base share count is non-negative, and the stranded
/// capital is non-negative and at most the whole position.
proof fn lemma_pyramid_base_wf(position: int, start: int, dip: int, res: int)
    requires
        position >= 1,
        0 <= dip < start,
        res >= 2,
        spec_price(start, dip, res, res - 1) >= 1,
    ensures
        forall|j: int| 0 <= j < res ==> #[trigger] ladder(start, dip, res)[j] >= 1,
        forall|j: int| 0 <= j < res ==> #[trigger] base_shares(position, start, dip, res)[j] >= 0,
        0 <= base_left(position, start, dip, res) <= position,
{
    let prices = ladder(start, dip, res);
    let shares = base_shares(position, start, dip, res);
    let cps = spec_cps(position, res);
    assert forall|j: int| 0 <= j < res implies #[trigger] prices[j] >= 1 by {
        lemma_price_antitone(start, dip, res, j, res - 1);
    }
    vstd::arithmetic::div_mod::lemma_div_pos_is_pos(position, res);
    assert forall|j: int| 0 <= j < res implies #[trigger] shares[j] >= 0 by {
        vstd::arithmetic::div_mod::lemma_div_pos_is_pos(cps, prices[j]);
    }
    lemma_base_spent_le(position, start, dip, res, res);
    vstd::arithmetic::div_mod::lemma_fundamental_div_mod(position, res);
    vstd::arithmetic::div_mod::lemma_mod_division_less_than_divisor(position, res);
    assert(res * cps <= position);
    crate::engine::lemma_spent_below_nonneg(prices, shares, res);
}

/// The first pass of the pyramid policy leaves at least
/// `n * cps - sum_prefix(n) + n` spent over its first `n` rungs: each rung
/// strands strictly less than its own price.
proof fn lemma_base_spent_ge(position: int, start: int, dip: int, res: int, n: int)
    requires
        position >= 1,
        0 <= dip < start,
        res >= 2,
        spec_price(start, dip, res, res - 1) >= 1,
        0 <= n <= res,
    ensures
        spent_below(ladder(start, dip, res), base_shares(position, start, dip, res), n) >= n
            * spec_cps(position, res) - sum_prefix(ladder(start, dip, res), n) + n,
    decreases n,
{
    let cps = spec_cps(position, res);
    if n > 0 {
        lemma_base_spent_ge(position, start, dip, res, n - 1);
        let price = spec_price(start, dip, res, n - 1);
        lemma_price_antitone(start, dip, res, n - 1, res - 1);
        vstd::arithmetic::div_mod::lemma_fundamental_div_mod(cps, price);
        vstd::arithmetic::div_mod::lemma_mod_division_less_than_divisor(cps, price);
        assert(price * (cps / price) >= cps - price + 1);
        assert(n * cps == (n - 1) * cps + cps) by (nonlinear_arith);
    }
}

/// The stranded capital never reaches the sum of all rung prices, so the
/// redistribution walk can never afford a full descent of the ladder.
proof fn lemma_base_left_lt_sum(position: int, start: int, dip: int, res: int)
    requires
        position >= 1,
        0 <= dip < start,
        res >= 2,
        spec_price(start, dip, res, res - 1) >= 1,
    ensures
        base_left(position, start, dip, res) < sum_prefix(ladder(start, dip, res), res),
{
    let cps = spec_cps(position, res);
    lemma_base_spent_ge(position, start, dip, res, res);
    vstd::arithmetic::div_mod::lemma_fundamental_div_mod(position, res);
    vstd::arithmetic::div_mod::lemma_mod_division_less_than_divisor(position, res);
    assert(position <= res * cps + res - 1);
}

/// The redistribution walk descends from the cheapest rung without ever
/// wrapping past rung 0: it buys exactly one extra share at every rung from
/// the cheapest down to (but excluding) the rung it stops at, and leaves
/// every other rung's share count as the first pass set it.
pub proof fn lemma_pyramid_adds_one_share_down_to_stop(
    position: u32,
    start: u32,
    dip: u32,
    res: u32,
)
    requires
        position > 0,
        start > dip,
        res >= 2,
        spec_price(start as int, dip as int, res as int, res as int - 1) >= 1,
    ensures
        ({
            let t = pyramid_stop(position as int, start as int, dip as int, res as int);
            let base = base_shares(position as int, start as int, dip as int, res as int);
            let fin = pyramid_shares(position as int, start as int, dip as int, res as int);
            &&& 0 <= t < res
            &&& forall|j: int| t < j < res ==> fin[j] == base[j] + 1
            &&& forall|j: int| 0 <= j <= t ==> fin[j] == base[j]
        }),
{
    let gp = position as int;
    let gs = start as int;
    let gd = dip as int;
    let gr = res as int;
    lemma_pyramid_base_wf(gp, gs, gd, gr);
    lemma_base_left_lt_sum(gp, gs, gd, gr);
    crate::engine::lemma_redistribute_descent(
        ladder(gs, gd, gr),
        base_shares(gp, gs, gd, gr),
        base_left(gp, gs, gd, gr),
        gr - 1,
    );
}

/// The pyramid weighting: share counts never shrink as price falls, neither
/// after the first pass nor after redistribution.
pub proof fn lemma_pyramid_shares_grow_toward_dip(
    position: u32,
    start: u32,
    dip: u32,
    res: u32,
    i: int,
    j: int,
)
    requires
        position > 0,
        start > dip,
        res >= 2,
        spec_price(start as int, dip as int, res as int, res as int - 1) >= 1,
        0 <= i <= j < res,
    ensures
        base_shares(position as int, start as int, dip as int, res as int)[i] <= base_shares(
            position as int,
            start as int,
            dip as int,
            res as int,
        )[j],
        pyramid_shares(position as int, start as int, dip as int, res as int)[i]
            <= pyramid_shares(position as int, start as int, dip as int, res as int)[j],
{
    let gp = position as int;
    let gs = start as int;
    let gd = dip as int;
    let gr = res as int;
    let cps = spec_cps(gp, gr);
    let pi = spec_price(gs, gd, gr, i);
    let pj = spec_price(gs, gd, gr, j);
    lemma_pyramid_base_wf(gp, gs, gd, gr);
    lemma_price_antitone(gs, gd, gr, i, j);
    lemma_price_antitone(gs, gd, gr, j, gr - 1);
    vstd::arithmetic::div_mod::lemma_div_pos_is_pos(gp, gr);
    vstd::arithmetic::div_mod::lemma_div_is_ordered_by_denominator(cps, pj, pi);
    lemma_pyramid_adds_one_share_down_to_stop(position, start, dip, res);
}

/// The pyramid policy never spends more than the position: the total of
/// `price * shares` over the finished schedule is at most the position, and
/// the leftover is exactly the unspent difference.
pub proof fn lemma_pyramid_spends_within_position(position: u32, start: u32, dip: u32, res: u32)
    requires
        position > 0,
        start > dip,
        res >= 2,
        spec_price(start as int, dip as int, res as int, res as int - 1) >= 1,
    ensures
        pyramid_shares(position as int, start as int, dip as int, res as int).len() == res,
        spent_below(
            ladder(start as int, dip as int, res as int),
            pyramid_shares(position as int, start as int, dip as int, res as int),
            res as int,
        ) <= position,
        pyramid_left(position as int, start as int, dip as int, res as int) == position
            - spent_below(
            ladder(start as int, dip as int, res as int),
            pyramid_shares(position as int, start as int, dip as int, res as int),
            res as int,
        ),
        pyramid_left(position as int, start as int, dip as int, res as int) >= 0,
{
    let gp = position as int;
    let gs = start as int;
    let gd = dip as int;
    let gr = res as int;
    lemma_pyramid_base_wf(gp, gs, gd, gr);
    lemma_redistribute_props(ladder(gs, gd, gr), base_shares(gp, gs, gd, gr), base_left(gp, gs, gd, gr), gr - 1);
}

/// Once redistribution stops, the leftover no longer covers the price of the
/// rung the walk stopped at.
pub proof fn lemma_pyramid_no_share_at_stop(position: u32, start: u32, dip: u32, res: u32)
    requires
        position > 0,
        start > dip,
        res >= 2,
        spec_price(start as int, dip as int, res as int, res as int - 1) >= 1,
    ensures
        0 <= pyramid_stop(position as int, start as int, dip as int, res as int) < res,
        pyramid_left(position as int, start as int, dip as int, res as int) < ladder(
            start as int,
            dip as int,
            res as int,
        )[pyramid_stop(position as int, start as int, dip as int, res as int)],
{
    let gp = position as int;
    let gs = start as int;
    let gd = dip as int;
    let gr = res as int;
    lemma_pyramid_base_wf(gp, gs, gd, gr);
    lemma_redistribute_props(ladder(gs, gd, gr), base_shares(gp, gs, gd, gr), base_left(gp, gs, gd, gr), gr - 1);
}

/// Where the redistribution walk stops at the last (cheapest) rung, the
/// leftover is smaller than every rung price: no further whole share is
/// affordable anywhere in the schedule. (When the walk stops higher up the
/// ladder, the leftover can still cover a cheaper rung's price.)
pub proof fn lemma_pyramid_leftover_below_all_prices(position: u32, start: u32, dip: u32, res: u32)
    requires
        position > 0,
        start > dip,
        res >= 2,
        spec_price(start as int, dip as int, res as int, res as int - 1) >= 1,
        pyramid_stop(position as int, start as int, dip as int, res as int) == res as int - 1,
    ensures
        forall|j: int|
            0 <= j < res ==> pyramid_left(position as int, start as int, dip as int, res as int)
                < #[trigger] ladder(start as int, dip as int, res as int)[j],
{
    let gp = position as int;
    let gs = start as int;
    let gd = dip as int;
    let gr = res as int;
    lemma_pyramid_no_share_at_stop(position, start, dip, res);
    assert forall|j: int| 0 <= j < gr implies pyramid_left(gp, gs, gd, gr) < #[trigger] ladder(
        gs,
        gd,
        gr,
    )[j] by {
        lemma_price_antitone(gs, gd, gr, j, gr - 1);
    }
}

/// The flat policy is a pure function of its inputs: any two results that
/// its contract admits for the same inputs agree, error for error and rung
/// for rung.
pub proof fn lemma_flat_deterministic(
    position: u32,
    start: u32,
    dip: u32,
    res: u32,
    r1: Result<OrderSchedule, Error>,
    r2: Result<OrderSchedule, Error>,
)
    requires
        flat_spec(position as int, start as int, dip as int, res as int, r1),
        flat_spec(position as int, start as int, dip as int, res as int, r2),
    ensures
        r1 is Ok <==> r2 is Ok,
        r1 is Err ==> r1 == r2,
        r1 is Ok && r2 is Ok ==> r1->Ok_0.tranches@ == r2->Ok_0.tranches@,
{
    if r1 is Ok && r2 is Ok {
        let s1 = r1->Ok_0;
        let s2 = r2->Ok_0;
        assert forall|i: int| 0 <= i < s1.tranches@.len() implies s1.tranches@[i]
            == s2.tranches@[i] by {
            assert(sched_prices(s1.tranches@)[i] == s1.tranches@[i].price as int);
            assert(sched_prices(s2.tranches@)[i] == s2.tranches@[i].price as int);
            assert(sched_shares(s1.tranches@)[i] == s1.tranches@[i].shares as int);
            assert(sched_shares(s2.tranches@)[i] == s2.tranches@[i].shares as int);
        }
        assert(s1.tranches@ =~= s2.tranches@);
    }
}

/// The pyramid policy is a pure function of its inputs, in the same sense.
pub proof fn lemma_pyramid_deterministic(
    position: u32,
    start: u32,
    dip: u32,
    res: u32,
    r1: Result<OrderSchedule, Error>,
    r2: Result<OrderSchedule, Error>,
)
    requires
        pyramid_spec(position as int, start as int, dip as int, res as int, r1),
        pyramid_spec(position as int, start as int, dip as int, res as int, r2),
    ensures
        r1 is Ok <==> r2 is Ok,
        r1 is Err ==> r1 == r2,
        r1 is Ok && r2 is Ok ==> r1->Ok_0.tranches@ == r2->Ok_0.tranches@,
{
    if r1 is Ok && r2 is Ok {
        let s1 = r1->Ok_0;
        let s2 = r2->Ok_0;
        assert forall|i: int| 0 <= i < s1.tranches@.len() implies s1.tranches@[i]
            == s2.tranches@[i] by {
            assert(sched_prices(s1.tranches@)[i] == s1.tranches@[i].price as int);
            assert(sched_prices(s2.tranches@)[i] == s2.tranches@[i].price as int);
            assert(sched_shares(s1.tranches@)[i] == s1.tranches@[i].shares as int);
            assert(sched_shares(s2.tranches@)[i] == s2.tranches@[i].shares as int);
        }
        assert(s1.tranches@ =~= s2.tranches@);
    }
}

} // verus!

