//! The allocation engine: turns a validated request into a tranche schedule.
//!
//! Both allocators are pure functions over four scalars. Their contracts are
//! stated against a mathematical model: `ladder` gives the price of every
//! rung, `flat_shares` the uniform share count of the flat policy, and
//! `redistribute` the leftover-capital pass of the pyramid policy.

use vstd::prelude::*;

use crate::model::{Error, Model, OrderRequest, OrderSchedule, Tranche};

verus! {

/// Price decrement between consecutive rungs (floor division).
pub open spec fn spec_step(start: int, dip: int, res: int) -> int {
    (start - dip) / (res - 1)
}

/// Price of rung `i`: an arithmetic sequence starting at `start`.
pub open spec fn spec_price(start: int, dip: int, res: int, i: int) -> int {
    start - spec_step(start, dip, res) * i
}

/// The whole price ladder, rung 0 (at `start`) through rung `res - 1`.
pub open spec fn ladder(start: int, dip: int, res: int) -> Seq<int> {
    Seq::new(res as nat, |i: int| spec_price(start, dip, res, i))
}

/// Blended mid price used by the flat policy (floor division).
pub open spec fn spec_mid(start: int, dip: int) -> int {
    (start + dip) / 2
}

/// Share count of every rung under the flat policy.
pub open spec fn flat_shares(position: int, start: int, dip: int, res: int) -> int {
    (position / spec_mid(start, dip)) / res
}

/// Capital assigned to each rung under the pyramid policy's first pass.
pub open spec fn spec_cps(position: int, res: int) -> int {
    position / res
}

/// Share count bought at rung `i` by the pyramid policy's first pass.
pub open spec fn base_shares(position: int, start: int, dip: int, res: int) -> Seq<int> {
    Seq::new(res as nat, |i: int| spec_cps(position, res) / spec_price(start, dip, res, i))
}

/// Capital spent by the first `n` rungs: the sum of `price * shares`.
pub open spec fn spent_below(prices: Seq<int>, shares: Seq<int>, n: int) -> int
    decreases n,
{
    if n <= 0 {
        0
    } else {
        spent_below(prices, shares, n - 1) + prices[n - 1] * shares[n - 1]
    }
}

/// Capital left stranded by the pyramid policy's first pass.
pub open spec fn base_left(position: int, start: int, dip: int, res: int) -> int {
    position - spent_below(
        ladder(start, dip, res),
        base_shares(position, start, dip, res),
        res,
    )
}

/// The pyramid policy's second pass. Starting at the cursor and walking
/// toward rung 0 (wrapping to the last rung after 0), buy one more share
/// wherever the leftover still covers the rung's price; stop at the first
/// rung it does not cover. Returns the share counts, the leftover and the
/// cursor at which the walk stopped.
pub open spec fn redistribute(prices: Seq<int>, shares: Seq<int>, left: int, cursor: int) -> (
    Seq<int>,
    int,
    int,
)
    decreases left,
{
    if 0 <= cursor < prices.len() && prices[cursor] > 0 && left >= prices[cursor] {
        redistribute(
            prices,
            shares.update(cursor, shares[cursor] + 1),
            left - prices[cursor],
            if cursor == 0 {
                prices.len() as int - 1
            } else {
                cursor - 1
            },
        )
    } else {
        (shares, left, cursor)
    }
}

/// Final state of the pyramid policy: first pass then redistribution,
/// starting at the last (cheapest) rung.
pub open spec fn pyramid_final(position: int, start: int, dip: int, res: int) -> (
    Seq<int>,
    int,
    int,
) {
    redistribute(
        ladder(start, dip, res),
        base_shares(position, start, dip, res),
        base_left(position, start, dip, res),
        res - 1,
    )
}

/// Share count of every rung once the pyramid policy is complete.
pub open spec fn pyramid_shares(position: int, start: int, dip: int, res: int) -> Seq<int> {
    pyramid_final(position, start, dip, res).0
}

/// Capital still unspent once the pyramid policy is complete.
pub open spec fn pyramid_left(position: int, start: int, dip: int, res: int) -> int {
    pyramid_final(position, start, dip, res).1
}

/// The rung at which the redistribution walk stopped.
pub open spec fn pyramid_stop(position: int, start: int, dip: int, res: int) -> int {
    pyramid_final(position, start, dip, res).2
}

/// The prices of a schedule, as mathematical integers.
pub open spec fn sched_prices(ts: Seq<Tranche>) -> Seq<int> {
    ts.map_values(|t: Tranche| t.price as int)
}

/// The share counts of a schedule, as mathematical integers.
pub open spec fn sched_shares(ts: Seq<Tranche>) -> Seq<int> {
    ts.map_values(|t: Tranche| t.shares as int)
}

/// Which domain check fails first, if any, mirroring the engine's guards.
pub open spec fn domain_error(position: int, start: int, dip: int, res: int) -> Option<Error> {
    if position == 0 {
        Some(Error::NonPositivePosition)
    } else if start <= dip {
        Some(Error::InvertedPriceRange)
    } else if res < 2 {
        Some(Error::DegenerateResolution)
    } else {
        None
    }
}

/// The flat policy's full input/output relation: exactly which error comes
/// back on which inputs, and the exact schedule otherwise.
pub open spec fn flat_spec(
    position: int,
    start: int,
    dip: int,
    res: int,
    r: Result<OrderSchedule, Error>,
) -> bool {
    if domain_error(position, start, dip, res) is Some {
        r == Err::<OrderSchedule, Error>(domain_error(position, start, dip, res)->Some_0)
    } else if spec_mid(start, dip) == 0 {
        r == Err::<OrderSchedule, Error>(Error::DivisionByZero)
    } else {
        &&& r is Ok
        &&& r matches Ok(s) ==> {
            &&& s.tranches@.len() == res
            &&& sched_prices(s.tranches@) == ladder(start, dip, res)
            &&& forall|i: int|
                0 <= i < res ==> sched_shares(s.tranches@)[i] == flat_shares(
                    position,
                    start,
                    dip,
                    res,
                )
        }
    }
}

/// The pyramid policy's full input/output relation: exactly which error comes
/// back on which inputs, and the exact schedule otherwise.
pub open spec fn pyramid_spec(
    position: int,
    start: int,
    dip: int,
    res: int,
    r: Result<OrderSchedule, Error>,
) -> bool {
    if domain_error(position, start, dip, res) is Some {
        r == Err::<OrderSchedule, Error>(domain_error(position, start, dip, res)->Some_0)
    } else if spec_price(start, dip, res, res - 1) == 0 {
        r == Err::<OrderSchedule, Error>(Error::DivisionByZero)
    } else {
        &&& r is Ok
        &&& r matches Ok(s) ==> {
            &&& s.tranches@.len() == res
            &&& sched_prices(s.tranches@) == ladder(start, dip, res)
            &&& sched_shares(s.tranches@) == pyramid_shares(position, start, dip, res)
        }
    }
}

/// Distribute the capital evenly over the price ladder: every rung receives
/// the same share count, and truncation leftovers are deliberately ignored.
pub fn flathat_calc(position: u32, start: u32, dip: u32, res: u32) -> (r: Result<
    OrderSchedule,
    Error,
>)
    ensures
        flat_spec(position as int, start as int, dip as int, res as int, r),
{
    if position == 0 {
        return Err(Error::NonPositivePosition);
    }
    if start <= dip {
        return Err(Error::InvertedPriceRange);
    }
    if res < 2 {
        return Err(Error::DegenerateResolution);
    }
    let mid: u32 = (((start as u64) + (dip as u64)) / 2) as u32;
    if mid == 0 {
        return Err(Error::DivisionByZero);
    }
    let total_share: u32 = position / mid;
    let share_per_step: u32 = total_share / res;
    let step: u32 = (start - dip) / (res - 1);
    let mut tranches: Vec<Tranche> = Vec::new();
    let mut i: u32 = 0;
    while i < res
        invariant
            i <= res,
            res >= 2,
            start > dip,
            step as int == spec_step(start as int, dip as int, res as int),
            tranches@.len() == i,
            forall|j: int|
                0 <= j < i ==> tranches@[j] == (Tranche {
                    price: spec_price(start as int, dip as int, res as int, j) as u32,
                    shares: share_per_step,
                }),
            forall|j: int|
                0 <= j < i ==> tranches@[j].price as int == spec_price(
                    start as int,
                    dip as int,
                    res as int,
                    j,
                ),
        decreases res - i,
    {
        proof {
            lemma_price_in_range(start as int, dip as int, res as int, i as int);
        }
        let price: u32 = start - step * i;
        tranches.push(Tranche { price, shares: share_per_step });
        i = i + 1;
    }
    proof {
        assert(sched_prices(tranches@) =~= ladder(start as int, dip as int, res as int));
    }
    Ok(OrderSchedule { tranches })
}

/// Spend the same slice of capital at every rung, so that share counts grow
/// as price falls, then push the stranded remainder back into the schedule,
/// cheapest rungs first.
#[verifier::loop_isolation(false)]
pub fn pyramid_calc(position: u32, start: u32, dip: u32, res: u32) -> (r: Result<
    OrderSchedule,
    Error,
>)
    ensures
        pyramid_spec(position as int, start as int, dip as int, res as int, r),
{
    if position == 0 {
        return Err(Error::NonPositivePosition);
    }
    if start <= dip {
        return Err(Error::InvertedPriceRange);
    }
    if res < 2 {
        return Err(Error::DegenerateResolution);
    }
    let ghost gp = position as int;
    let ghost gs = start as int;
    let ghost gd = dip as int;
    let ghost gr = res as int;
    let step: u32 = (start - dip) / (res - 1);
    proof {
        lemma_price_in_range(gs, gd, gr, gr - 1);
    }
    let lowest: u32 = start - step * (res - 1);
    if lowest == 0 {
        return Err(Error::DivisionByZero);
    }
    proof {
        assert forall|j: int| 0 <= j < gr implies #[trigger] ladder(gs, gd, gr)[j] >= lowest by {
            lemma_price_antitone(gs, gd, gr, j, gr - 1);
        }
    }
    let cps: u32 = position / res;
    proof {
        vstd::arithmetic::div_mod::lemma_fundamental_div_mod(gp, gr);
        vstd::arithmetic::div_mod::lemma_mod_division_less_than_divisor(gp, gr);
        assert(gr * spec_cps(gp, gr) <= gp);
    }
    let mut tranches: Vec<Tranche> = Vec::new();
    let mut left: u32 = position;
    let mut i: u32 = 0;
    while i < res
        invariant
            i <= res,
            tranches@.len() == i as int,
            forall|j: int|
                0 <= j < i as int ==> (#[trigger] tranches@[j]).price as int == spec_price(
                    gs,
                    gd,
                    gr,
                    j,
                ),
            forall|j: int|
                0 <= j < i as int ==> (#[trigger] tranches@[j]).shares as int == spec_cps(gp, gr)
                    / spec_price(gs, gd, gr, j),
            left as int == gp - spent_below(
                sched_prices(tranches@),
                sched_shares(tranches@),
                i as int,
            ),
            spent_below(sched_prices(tranches@), sched_shares(tranches@), i as int) <= i as int
                * spec_cps(gp, gr),
        decreases res - i,
    {
        proof {
            lemma_price_in_range(gs, gd, gr, i as int);
            lemma_price_antitone(gs, gd, gr, i as int, gr - 1);
        }
        let price: u32 = start - step * i;
        let share: u32 = cps / price;
        proof {
            vstd::arithmetic::div_mod::lemma_fundamental_div_mod(cps as int, price as int);
            vstd::arithmetic::div_mod::lemma_mod_division_less_than_divisor(
                cps as int,
                price as int,
            );
            assert(price as int * share as int <= cps as int);
            assert((gr - i as int) * spec_cps(gp, gr) >= spec_cps(gp, gr)) by (nonlinear_arith)
                requires
                    gr - i as int >= 1,
                    spec_cps(gp, gr) >= 0,
            ;
            assert((gr - i as int) * spec_cps(gp, gr) == gr * spec_cps(gp, gr) - i as int
                * spec_cps(gp, gr)) by (nonlinear_arith);
            assert(left as int >= cps as int);
        }
        let spend: u32 = price * share;
        let ghost pre = tranches@;
        tranches.push(Tranche { price, shares: share });
        proof {
            lemma_spent_below_agree(
                sched_prices(tranches@),
                sched_shares(tranches@),
                sched_prices(pre),
                sched_shares(pre),
                i as int,
            );
            assert((i as int + 1) * spec_cps(gp, gr) == i as int * spec_cps(gp, gr) + spec_cps(
                gp,
                gr,
            )) by (nonlinear_arith);
        }
        left = left - spend;
        i = i + 1;
    }
    proof {
        assert(sched_prices(tranches@) =~= ladder(gs, gd, gr));
        assert(sched_shares(tranches@) =~= base_shares(gp, gs, gd, gr));
        assert(left as int == base_left(gp, gs, gd, gr));
    }
    let end: usize = (res - 1) as usize;
    let mut tail: usize = end;
    while left >= tranches[tail].price
        invariant
            tranches@.len() == gr,
            tail < res as usize,
            sched_prices(tranches@) == ladder(gs, gd, gr),
            left as int == gp - spent_below(
                ladder(gs, gd, gr),
                sched_shares(tranches@),
                gr,
            ),
            redistribute(ladder(gs, gd, gr), sched_shares(tranches@), left as int, tail as int)
                == pyramid_final(gp, gs, gd, gr),
        decreases left,
    {
        let t = tranches[tail];
        proof {
            lemma_term_le_spent(
                ladder(gs, gd, gr),
                sched_shares(tranches@),
                gr,
                tail as int,
            );
            assert(t.price as int * (t.shares as int + 1) == t.price as int * t.shares as int
                + t.price as int) by (nonlinear_arith);
            assert(t.shares as int + 1 <= t.price as int * (t.shares as int + 1))
                by (nonlinear_arith)
                requires
                    t.price as int >= 1,
                    t.shares as int + 1 >= 1,
            ;
        }
        let ghost pre = tranches@;
        let ghost preleft = left as int;
        let ghost pretail = tail as int;
        tranches[tail] = Tranche { price: t.price, shares: t.shares + 1 };
        left = left - t.price;
        if tail == 0 {
            tail = end;
        } else {
            tail = tail - 1;
        }
        proof {
            assert(sched_prices(tranches@) =~= sched_prices(pre));
            assert(sched_shares(tranches@) =~= sched_shares(pre).update(
                pretail,
                sched_shares(pre)[pretail] + 1,
            ));
            lemma_spent_below_update(ladder(gs, gd, gr), sched_shares(pre), gr, pretail);
            assert(redistribute(ladder(gs, gd, gr), sched_shares(pre), preleft, pretail)
                == redistribute(
                ladder(gs, gd, gr),
                sched_shares(tranches@),
                left as int,
                tail as int,
            ));
        }
    }
    proof {
        assert(redistribute(ladder(gs, gd, gr), sched_shares(tranches@), left as int, tail as int)
            == (sched_shares(tranches@), left as int, tail as int));
    }
    Ok(OrderSchedule { tranches })
}

/// Run the policy the request selects over its scalars.
pub fn allocate(req: &OrderRequest) -> (r: Result<OrderSchedule, Error>)
    ensures
        req.model == Model::FlatHat ==> flat_spec(
            req.position as int,
            req.start_price as int,
            req.dip_price as int,
            req.resolution as int,
            r,
        ),
        req.model == Model::Pyramid ==> pyramid_spec(
            req.position as int,
            req.start_price as int,
            req.dip_price as int,
            req.resolution as int,
            r,
        ),
{
    match req.model {
        Model::FlatHat => flathat_calc(req.position, req.start_price, req.dip_price, req.resolution),
        Model::Pyramid => pyramid_calc(req.position, req.start_price, req.dip_price, req.resolution),
    }
}

/// Every rung price lies between the dip and the start price.
pub proof fn lemma_price_in_range(start: int, dip: int, res: int, i: int)
    requires
        0 <= dip < start,
        res >= 2,
        0 <= i < res,
    ensures
        dip <= spec_price(start, dip, res, i) <= start,
        spec_step(start, dip, res) * i <= start - dip,
{
    let d = start - dip;
    let m = res - 1;
    let q = spec_step(start, dip, res);
    vstd::arithmetic::div_mod::lemma_fundamental_div_mod(d, m);
    vstd::arithmetic::div_mod::lemma_mod_division_less_than_divisor(d, m);
    assert(m * q <= d);
    vstd::arithmetic::div_mod::lemma_div_pos_is_pos(d, m);
    assert(q * i <= q * m) by (nonlinear_arith)
        requires
            0 <= q,
            0 <= i <= m,
    ;
    assert(q * m == m * q) by (nonlinear_arith);
}

/// Rung prices never increase as the index grows.
pub proof fn lemma_price_antitone(start: int, dip: int, res: int, i: int, j: int)
    requires
        0 <= dip < start,
        res >= 2,
        0 <= i <= j < res,
    ensures
        spec_price(start, dip, res, j) <= spec_price(start, dip, res, i),
{
    let q = spec_step(start, dip, res);
    vstd::arithmetic::div_mod::lemma_div_pos_is_pos(start - dip, res - 1);
    assert(q * i <= q * j) by (nonlinear_arith)
        requires
            0 <= q,
            0 <= i <= j,
    ;
}

/// `spent_below` only reads the first `n` entries of either sequence.
proof fn lemma_spent_below_agree(
    p1: Seq<int>,
    s1: Seq<int>,
    p2: Seq<int>,
    s2: Seq<int>,
    n: int,
)
    requires
        forall|j: int| 0 <= j < n ==> p1[j] == p2[j] && s1[j] == s2[j],
    ensures
        spent_below(p1, s1, n) == spent_below(p2, s2, n),
    decreases n,
{
    if n > 0 {
        lemma_spent_below_agree(p1, s1, p2, s2, n - 1);
    }
}

/// With non-negative prices and shares, no prefix spends negative capital.
pub proof fn lemma_spent_below_nonneg(prices: Seq<int>, shares: Seq<int>, n: int)
    requires
        forall|j: int| 0 <= j < n ==> prices[j] >= 0 && shares[j] >= 0,
    ensures
        spent_below(prices, shares, n) >= 0,
    decreases n,
{
    if n > 0 {
        lemma_spent_below_nonneg(prices, shares, n - 1);
        assert(prices[n - 1] * shares[n - 1] >= 0) by (nonlinear_arith)
            requires
                prices[n - 1] >= 0,
                shares[n - 1] >= 0,
        ;
    }
}

/// Buying one more share at rung `t` raises the total spend by `prices[t]`.
proof fn lemma_spent_below_update(prices: Seq<int>, shares: Seq<int>, n: int, t: int)
    requires
        0 <= t < n <= shares.len(),
    ensures
        spent_below(prices, shares.update(t, shares[t] + 1), n) == spent_below(prices, shares, n)
            + prices[t],
    decreases n,
{
    let shares2 = shares.update(t, shares[t] + 1);
    if t == n - 1 {
        lemma_spent_below_agree(prices, shares2, prices, shares, n - 1);
        assert(prices[t] * (shares[t] + 1) == prices[t] * shares[t] + prices[t])
            by (nonlinear_arith);
    } else {
        lemma_spent_below_update(prices, shares, n - 1, t);
    }
}

/// A single rung never spends more than the whole prefix containing it.
proof fn lemma_term_le_spent(prices: Seq<int>, shares: Seq<int>, n: int, t: int)
    requires
        0 <= t < n,
        forall|j: int| 0 <= j < n ==> prices[j] >= 0 && shares[j] >= 0,
    ensures
        prices[t] * shares[t] <= spent_below(prices, shares, n),
    decreases n,
{
    if t == n - 1 {
        lemma_spent_below_nonneg(prices, shares, n - 1);
    } else {
        lemma_term_le_spent(prices, shares, n - 1, t);
        assert(prices[n - 1] * shares[n - 1] >= 0) by (nonlinear_arith)
            requires
                prices[n - 1] >= 0,
                shares[n - 1] >= 0,
        ;
    }
}

/// Total of the first `n` rung prices.
pub open spec fn sum_prefix(prices: Seq<int>, n: int) -> int
    decreases n,
{
    if n <= 0 {
        0
    } else {
        sum_prefix(prices, n - 1) + prices[n - 1]
    }
}

/// When the leftover cannot cover a full descent from the cursor to rung 0,
/// the walk never wraps: it adds exactly one share at every rung it passes
/// and stops at the first rung it cannot afford.
pub proof fn lemma_redistribute_descent(prices: Seq<int>, shares: Seq<int>, left: int, cursor: int)
    requires
        prices.len() == shares.len(),
        0 <= cursor < prices.len(),
        forall|i: int| 0 <= i < prices.len() ==> prices[i] >= 1,
        0 <= left < sum_prefix(prices, cursor + 1),
    ensures
        ({
            let r = redistribute(prices, shares, left, cursor);
            &&& 0 <= r.2 <= cursor
            &&& forall|j: int| r.2 < j <= cursor ==> r.0[j] == shares[j] + 1
            &&& forall|j: int|
                0 <= j < prices.len() && !(r.2 < j <= cursor) ==> r.0[j] == shares[j]
        }),
    decreases left,
{
    if left >= prices[cursor] {
        if cursor == 0 {
            assert(sum_prefix(prices, 1) == sum_prefix(prices, 0) + prices[0]);
            assert(sum_prefix(prices, 0) == 0);
        }
        assert(cursor > 0);
        assert(sum_prefix(prices, cursor + 1) == sum_prefix(prices, cursor) + prices[cursor]);
        let shares2 = shares.update(cursor, shares[cursor] + 1);
        assert(redistribute(prices, shares, left, cursor) == redistribute(
            prices,
            shares2,
            left - prices[cursor],
            cursor - 1,
        ));
        lemma_redistribute_descent(prices, shares2, left - prices[cursor], cursor - 1);
        let r = redistribute(prices, shares, left, cursor);
        assert forall|j: int| r.2 < j <= cursor implies r.0[j] == shares[j] + 1 by {
            if j == cursor {
                assert(r.0[j] == shares2[j]);
            } else {
                assert(r.0[j] == shares2[j] + 1);
            }
        }
        assert forall|j: int| 0 <= j < prices.len() && !(r.2 < j <= cursor) implies r.0[j]
            == shares[j] by {
            assert(r.0[j] == shares2[j]);
        }
    } else {
        assert(redistribute(prices, shares, left, cursor) == (shares, left, cursor));
    }
}

/// What the redistribution walk guarantees, whatever state it starts from:
/// it only adds shares, it stops inside the ladder at a rung whose price the
/// leftover no longer covers, and leftover plus total spend is conserved.
pub proof fn lemma_redistribute_props(prices: Seq<int>, shares: Seq<int>, left: int, cursor: int)
    requires
        prices.len() == shares.len(),
        0 <= cursor < prices.len(),
        forall|i: int| 0 <= i < prices.len() ==> prices[i] >= 1,
        forall|i: int| 0 <= i < shares.len() ==> shares[i] >= 0,
        0 <= left,
    ensures
        ({
            let r = redistribute(prices, shares, left, cursor);
            &&& r.0.len() == prices.len()
            &&& forall|i: int| 0 <= i < prices.len() ==> r.0[i] >= shares[i]
            &&& 0 <= r.2 < prices.len()
            &&& 0 <= r.1
            &&& r.1 < prices[r.2]
            &&& r.1 + spent_below(prices, r.0, prices.len() as int) == left + spent_below(
                prices,
                shares,
                prices.len() as int,
            )
        }),
    decreases left,
{
    if left >= prices[cursor] {
        let shares2 = shares.update(cursor, shares[cursor] + 1);
        let cursor2: int = if cursor == 0 {
            prices.len() as int - 1
        } else {
            cursor - 1
        };
        assert(redistribute(prices, shares, left, cursor) == redistribute(
            prices,
            shares2,
            left - prices[cursor],
            cursor2,
        ));
        lemma_redistribute_props(prices, shares2, left - prices[cursor], cursor2);
        lemma_spent_below_update(prices, shares, prices.len() as int, cursor);
        let r = redistribute(prices, shares, left, cursor);
        assert(forall|i: int| 0 <= i < prices.len() ==> r.0[i] >= shares[i]) by {
            assert(forall|i: int| 0 <= i < prices.len() ==> r.0[i] >= shares2[i]);
            assert(forall|i: int| 0 <= i < prices.len() ==> shares2[i] >= shares[i]);
        }
    } else {
        assert(redistribute(prices, shares, left, cursor) == (shares, left, cursor));
    }
}

} // verus!
