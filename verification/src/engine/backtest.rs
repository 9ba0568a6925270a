//! The back test of a strategy on one security.
//!
//! At each bar the order that the strategy has given at the bar before is filled at the
//! opening price; then the strategy is asked again. So no order knows a price of the bar
//! that it is filled at.
use super::context;
use super::context::{lots_to_buy, Account, Ctx, Inner, Order, TradeRec, TradeRecView};
use super::metrics;
use super::metrics::Metrics;
use super::rules;
use super::rules::FeeModel;
use crate::data::models;
use crate::data::models::KLineView;
use crate::fixed::{Fixed, SCALE};
use crate::num;
use crate::num::Scalar;
use vstd::prelude::*;

verus! {

/// What a back test yields.
pub struct BacktestResult<N: Scalar> {
    pub metrics: Metrics<N>,
    pub trades: Vec<TradeRec<N>>,
}

/// How many shares an order buys: whole lots, no more than were ordered, and no more than
/// the cash is enough for, costs included.
pub open spec fn shares_bought<N: Scalar>(
    cash: N,
    price: N,
    order: Order,
    fee: FeeModel<N>,
    lot: i64,
) -> int {
    context::lots_bought(cash, price, rules::rate_to_buy(fee), order.shares, lot as int)
}

/// How many shares an order sells: no more than are held.
pub open spec fn shares_sold(position: i64, order: Order) -> i64 {
    if order.shares <= position {
        order.shares
    } else {
        position
    }
}

/// The gain of a sale as a part of the cost, where there was a cost.
pub open spec fn gain_on_sale<N: Scalar>(price: N, avg_cost: N) -> Option<N> {
    if num::above_zero(avg_cost) {
        Some(price.difference(avg_cost).quotient(avg_cost))
    } else {
        None
    }
}

/// An account after an order has been filled at the opening price of a bar. Where the
/// price is not above zero, or there is nothing to buy or to sell, it stays as it is.
/// Shares are counted as `i64` counts, wrapping around at its ends.
pub open spec fn filled<N: Scalar>(
    a: Account<N>,
    bar: KLineView<N>,
    order: Order,
    fee: FeeModel<N>,
    lot: i64,
) -> Account<N> {
    let price = bar.open;
    if num::not_above_zero(price) {
        a
    } else if order.buy {
        let shares = shares_bought(a.cash, price, order, fee, lot);
        if shares <= 0 {
            a
        } else {
            let cost = N::whole(shares).product(price);
            let position = a.position.wrapping_add(shares as i64);
            Account {
                cash: a.cash.difference(cost.sum(rules::cost_to_buy(fee, cost))),
                position,
                avg_cost: a.avg_cost.product(N::whole(a.position as int)).sum(cost).quotient(
                    N::whole(position as int),
                ),
                trades: a.trades.push(
                    TradeRecView {
                        date: bar.date,
                        action: "BUY"@,
                        price,
                        shares: shares as i64,
                        pnl_pct: None,
                    },
                ),
            }
        }
    } else {
        let shares = shares_sold(a.position, order);
        if shares <= 0 {
            a
        } else {
            let proceeds = N::whole(shares as int).product(price);
            let position = (a.position - shares) as i64;
            Account {
                cash: a.cash.sum(proceeds.difference(rules::cost_to_sell(fee, proceeds))),
                position,
                avg_cost: if position == 0 {
                    num::nil::<N>()
                } else {
                    a.avg_cost
                },
                trades: a.trades.push(
                    TradeRecView {
                        date: bar.date,
                        action: "SELL"@,
                        price,
                        shares,
                        pnl_pct: gain_on_sale(price, a.avg_cost),
                    },
                ),
            }
        }
    }
}

/// Fills an order at the opening price of the bar that the strategy is to see.
fn fill<N: Scalar>(s: &mut Inner<N>, order: Order)
    requires
        old(s).wf(),
        old(s).i < old(s).klines@.len(),
    ensures
        final(s).wf(),
        final(s).same_market(&*old(s)),
        final(s).i == old(s).i,
        final(s).pending == old(s).pending,
        final(s).equity@ == old(s).equity@,
        final(s).state@ == old(s).state@,
        final(s).account() == filled(
            old(s).account(),
            old(s).klines@[old(s).i as int]@,
            order,
            old(s).fee,
            old(s).lot,
        ),
{
    let price = s.klines[s.i].open;
    let date = s.klines[s.i].date.clone();
    let ghost seen = context::records(s.trades@);
    if num::non_positive(price) {
        return;
    }
    if order.buy {
        let shares: i64 = lots_to_buy(
            s.cash,
            price,
            s.fee.buy_rate_approx(),
            order.shares,
            s.lot,
        );
        if shares <= 0 {
            return;
        }
        let cost = N::from_int(shares as i128).times(price);
        let fee = s.fee.buy_cost(cost);
        let prev_cost = s.avg_cost.times(N::from_int(s.position as i128));
        s.position = s.position.wrapping_add(shares);
        s.avg_cost = prev_cost.plus(cost).over(N::from_int(s.position as i128));
        s.cash = s.cash.minus(cost.plus(fee));
        s.trades.push(
            TradeRec { date, action: "BUY".to_owned(), price, shares, pnl_pct: None },
        );
    } else {
        let shares: i64 = if order.shares <= s.position {
            order.shares
        } else {
            s.position
        };
        if shares <= 0 {
            return;
        }
        let proceeds = N::from_int(shares as i128).times(price);
        let fee = s.fee.sell_cost(proceeds);
        let pnl_pct = if num::positive(s.avg_cost) {
            Some(price.minus(s.avg_cost).over(s.avg_cost))
        } else {
            None
        };
        s.cash = s.cash.plus(proceeds.minus(fee));
        s.position = s.position - shares;
        if s.position == 0 {
            s.avg_cost = num::zero::<N>();
        }
        s.trades.push(TradeRec { date, action: "SELL".to_owned(), price, shares, pnl_pct });
    }
    assert(context::records(s.trades@) =~= seen.push(s.trades@.last()@));
}

/// The account when the order that waits, if any, has been filled at a bar.
pub open spec fn settled<N: Scalar>(s: Inner<N>, i: int) -> Account<N> {
    match s.pending {
        Some(order) => filled(s.account(), s.klines@[i]@, order, s.fee, s.lot),
        None => s.account(),
    }
}

/// Bar `i` has begun: the order that waited is filled at its opening price, and the equity
/// at its closing price is noted.
pub open spec fn begun<N: Scalar>(before: Ctx<N>, i: int, after: Ctx<N>) -> bool {
    &&& after.ready()
    &&& after.0.same_market(&before.0)
    &&& after.0.i == i
    &&& after.0.pending is None
    &&& after.0.state@ == before.0.state@
    &&& after.0.account() == settled(before.0, i)
    &&& after.0.equity@ == before.0.equity@.push(
        context::worth(after.0.cash, after.0.position, before.0.klines@[i].close),
    )
}

/// Moves on to bar `i`. Then the strategy may see the bar and give an order for the next.
pub fn start_bar<N: Scalar>(ctx: &mut Ctx<N>, i: usize)
    requires
        old(ctx).0.wf(),
        i < old(ctx).0.klines@.len(),
    ensures
        begun(*old(ctx), i as int, *final(ctx)),
{
    ctx.0.i = i;
    let order = ctx.0.pending;
    ctx.0.pending = None;
    match order {
        Some(order) => fill(&mut ctx.0, order),
        None => {},
    }
    let equity = ctx.0.cash.plus(
        N::from_int(ctx.0.position as i128).times(ctx.0.klines[i].close),
    );
    ctx.0.equity.push(equity);
}

/// What a back test that began with `initial` has yielded.
pub open spec fn yielded<N: Scalar>(ctx: Ctx<N>, initial: N, r: BacktestResult<N>) -> bool {
    &&& context::records(r.trades@) == context::records(ctx.0.trades@)
    &&& metrics::metrics_of(
        initial,
        ctx.0.equity@,
        context::gains(ctx.0.trades@),
        N::whole(models::year_bars(ctx.0.period)),
        r.metrics,
    )
}

pub fn finish<N: Scalar>(ctx: &Ctx<N>, initial: N) -> (r: BacktestResult<N>)
    ensures
        yielded(*ctx, initial, r),
{
    let metrics = metrics::compute(
        initial,
        ctx.0.equity.as_slice(),
        ctx.0.trades.as_slice(),
        ctx.0.period.bars_per_year(),
    );
    let mut trades: Vec<TradeRec<N>> = Vec::new();
    let mut k: usize = 0;
    while k < ctx.0.trades.len()
        invariant
            k <= ctx.0.trades@.len(),
            context::records(trades@) == context::records(ctx.0.trades@).take(k as int),
        decreases ctx.0.trades@.len() - k,
    {
        let ghost seen = trades@;
        trades.push(ctx.0.trades[k].clone());
        k += 1;
        assert(context::records(trades@) =~= context::records(seen).push(trades@.last()@));
        assert(context::records(trades@) =~= context::records(ctx.0.trades@).take(k as int));
    }
    assert(context::records(trades@) =~= context::records(ctx.0.trades@));
    BacktestResult { metrics, trades }
}

/// What a strategy may change at a bar: the order that waits, what it keeps for later bars,
/// and the lines that the chart has drawn.
pub open spec fn acted<N: Scalar>(before: Ctx<N>, after: Ctx<N>) -> bool {
    &&& after.ready()
    &&& after.0.same_market(&before.0)
    &&& after.0.i == before.0.i
    &&& after.0.account() == before.0.account()
    &&& after.0.equity@ == before.0.equity@
}

/// A strategy may be handed every bar, and keeps to what it may change.
pub open spec fn well_behaved<N: Scalar, F: Fn(Ctx<N>) -> (Ctx<N>, Option<String>)>(
    on_bar: F,
) -> bool {
    &&& forall|c: Ctx<N>| c.ready() ==> #[trigger] call_requires(on_bar, (c,))
    &&& forall|c: Ctx<N>, out: (Ctx<N>, Option<String>)|
        c.ready() && #[trigger] call_ensures(on_bar, (c,), out) ==> acted(c, out.0)
}

/// The state of a back test when the strategy has seen the first `n` bars, each after it
/// has begun, and has made no complaint.
pub open spec fn reached<N: Scalar, F: Fn(Ctx<N>) -> (Ctx<N>, Option<String>)>(
    on_bar: F,
    first: Ctx<N>,
    n: int,
    last: Ctx<N>,
) -> bool
    decreases n,
{
    if n <= 0 {
        last == first
    } else {
        exists|p: Ctx<N>, q: Ctx<N>|
            reached(on_bar, first, n - 1, p) && #[trigger] begun(p, n - 1, q) && call_ensures(
                on_bar,
                (q,),
                (last, None::<String>),
            )
    }
}

/// The strategy complained at one of the bars, and at none before it.
pub open spec fn stopped<N: Scalar, F: Fn(Ctx<N>) -> (Ctx<N>, Option<String>)>(
    on_bar: F,
    first: Ctx<N>,
    complaint: String,
) -> bool {
    exists|i: int, p: Ctx<N>, q: Ctx<N>, last: Ctx<N>|
        0 <= i < first.0.klines@.len() && reached(on_bar, first, i, p) && #[trigger] begun(p, i, q)
            && #[trigger] call_ensures(on_bar, (q,), (last, Some(complaint)))
}

/// Runs a back test: bar by bar the order that waits is filled, and then the strategy is
/// handed the state and gives it back. The first complaint of the strategy ends the test.
/// Returns what the test has yielded, and the state at its end.
pub fn run<N: Scalar, F: Fn(Ctx<N>) -> (Ctx<N>, Option<String>)>(ctx: Ctx<N>, on_bar: F) -> (r:
    Result<(BacktestResult<N>, Ctx<N>), String>)
    requires
        ctx.0.wf(),
        well_behaved(on_bar),
    ensures
        match r {
            Ok((result, last)) => reached(on_bar, ctx, ctx.0.klines@.len() as int, last)
                && yielded(last, ctx.0.cash, result),
            Err(e) => stopped(on_bar, ctx, e),
        },
{
    let ghost first = ctx;
    let n = ctx.0.klines.len();
    let initial = ctx.0.cash;
    let mut cur = ctx;
    let mut i: usize = 0;
    while i < n
        invariant
            first == ctx,
            n == first.0.klines@.len(),
            initial == first.0.cash,
            i <= n,
            cur.0.wf(),
            cur.0.klines@.len() == n,
            well_behaved(on_bar),
            reached(on_bar, first, i as int, cur),
        decreases n - i,
    {
        let ghost p = cur;
        start_bar(&mut cur, i);
        let ghost q = cur;
        let (next, complaint) = on_bar(cur);
        assert(acted(q, next));
        match complaint {
            Some(e) => {
                assert(begun(p, i as int, q) && call_ensures(on_bar, (q,), (next, Some(e))));
                assert(stopped(on_bar, ctx, e));
                return Err(e);
            },
            None => {},
        }
        proof {
            let m = i + 1;
            assert(reached(on_bar, first, m - 1, p) && begun(p, m - 1, q));
            assert(call_ensures(on_bar, (q,), (next, None::<String>)));
            assert(reached(on_bar, first, m, next));
        }
        cur = next;
        i += 1;
    }
    let result = finish(&cur, initial);
    Ok((result, cur))
}

/// A fill adds at most one trade: at the opening price and on the date of the bar, for no
/// more shares than were ordered. A purchase is of whole lots; a sale never sells more than
/// is held.
pub proof fn fill_is_bounded<N: Scalar>(
    a: Account<N>,
    bar: KLineView<N>,
    order: Order,
    fee: FeeModel<N>,
    lot: i64,
)
    requires
        0 <= a.position,
        a.position + order.shares <= i64::MAX,
    ensures
        ({
            let b = filled(a, bar, order, fee, lot);
            &&& 0 <= b.position
            &&& b == a || {
                let t = b.trades.last();
                &&& b.trades == a.trades.push(t)
                &&& t.date == bar.date
                &&& t.price == bar.open
                &&& 0 < t.shares <= order.shares
                &&& order.buy ==> b.position == a.position + t.shares
                &&& order.buy && lot > 0 ==> t.shares as int % (lot as int) == 0
                &&& !order.buy ==> b.position == a.position - t.shares
            }
        }),
{
    let most = context::affordable(a.cash, bar.open, rules::rate_to_buy(fee), lot as int);
    context::bought_in_lots(most, order.shares as int, lot as int);
}

/// A purchase on the mainland is covered by the cash. This is of decimals, where the cash
/// may fall short by what rounding adds, which is less than one unit for each share; where
/// the price with the charge on it needs no rounding, the cash never falls short.
pub proof fn purchase_is_covered(
    a: Account<Fixed>,
    bar: KLineView<Fixed>,
    order: Order,
    fee: FeeModel<Fixed>,
    lot: i64,
)
    requires
        a.cash.defined,
        0 <= a.cash.units <= i64::MAX / 2,
        fee is AShare,
        0 <= rules::rate_to_buy(fee).units,
        order.buy,
    ensures
        ({
            let b = filled(a, bar, order, fee, lot);
            b == a || {
                &&& b.cash.defined
                &&& b.cash.units > -b.trades.last().shares
                &&& (bar.open.units * rules::rate_to_buy(fee).units) % (SCALE as int) == 0
                    ==> b.cash.units >= 0
            }
        }),
{
    let shares = shares_bought(a.cash, bar.open, order, fee, lot);
    let most = context::affordable(a.cash, bar.open, rules::rate_to_buy(fee), lot as int);
    context::bought_in_lots(most, order.shares as int, lot as int);
    if !num::not_above_zero(bar.open) && shares > 0 {
        context::cash_covers_shares(
            a.cash,
            bar.open,
            rules::rate_to_buy(fee),
            lot as int,
            shares,
        );
    }
}

// ---------------------------------------------------------------------------
// No look-ahead
// ---------------------------------------------------------------------------
/// Two back tests have gone alike: the bar, the account, the order that waits, the equity
/// and what the strategy keeps are the same.
pub open spec fn gone_alike<N: Scalar>(a: Ctx<N>, b: Ctx<N>) -> bool {
    &&& a.0.i == b.0.i
    &&& a.0.account() == b.0.account()
    &&& a.0.pending == b.0.pending
    &&& a.0.equity@ == b.0.equity@
    &&& a.0.state@ == b.0.state@
}

/// A strategy that looks back only: where two back tests have gone alike and are the same up
/// to and with the bar that it sees, it does the same in both.
pub open spec fn looks_back<N: Scalar, F: Fn(Ctx<N>) -> (Ctx<N>, Option<String>)>(
    on_bar: F,
) -> bool {
    forall|a: Ctx<N>, b: Ctx<N>, x: (Ctx<N>, Option<String>), y: (Ctx<N>, Option<String>)|
        #[trigger] call_ensures(on_bar, (a,), x) && #[trigger] call_ensures(on_bar, (b,), y)
            && a.ready() && b.ready() && gone_alike(a, b) && context::same_until(a, b, a.0.i + 1)
            ==> gone_alike(x.0, y.0)
}

proof fn market_stays<N: Scalar, F: Fn(Ctx<N>) -> (Ctx<N>, Option<String>)>(
    on_bar: F,
    first: Ctx<N>,
    n: int,
    last: Ctx<N>,
)
    requires
        first.0.wf(),
        well_behaved(on_bar),
        n <= first.0.klines@.len(),
        reached(on_bar, first, n, last),
    ensures
        last.0.wf(),
        last.0.same_market(&first.0),
    decreases n,
{
    if n > 0 {
        let (p, q) = choose|p: Ctx<N>, q: Ctx<N>|
            reached(on_bar, first, n - 1, p) && #[trigger] begun(p, n - 1, q) && call_ensures(
                on_bar,
                (q,),
                (last, None::<String>),
            );
        market_stays(on_bar, first, n - 1, p);
        assert(acted(q, last));
    }
}

/// What a back test has done by a bar does not depend on what comes later: with a strategy
/// that looks back only, two back tests that are the same up to bar `n` have the same
/// trades, the same account and the same equity when it is reached.
pub proof fn past_ignores_the_future<N: Scalar, F: Fn(Ctx<N>) -> (Ctx<N>, Option<String>)>(
    on_bar: F,
    a: Ctx<N>,
    b: Ctx<N>,
    n: int,
    x: Ctx<N>,
    y: Ctx<N>,
)
    requires
        a.0.wf(),
        b.0.wf(),
        well_behaved(on_bar),
        looks_back(on_bar),
        gone_alike(a, b),
        context::same_until(a, b, n),
        reached(on_bar, a, n, x),
        reached(on_bar, b, n, y),
    ensures
        gone_alike(x, y),
    decreases n,
{
    if n > 0 {
        let (p, q) = choose|p: Ctx<N>, q: Ctx<N>|
            reached(on_bar, a, n - 1, p) && #[trigger] begun(p, n - 1, q) && call_ensures(
                on_bar,
                (q,),
                (x, None::<String>),
            );
        let (u, v) = choose|u: Ctx<N>, v: Ctx<N>|
            reached(on_bar, b, n - 1, u) && #[trigger] begun(u, n - 1, v) && call_ensures(
                on_bar,
                (v,),
                (y, None::<String>),
            );
        past_ignores_the_future(on_bar, a, b, n - 1, p, u);
        market_stays(on_bar, a, n - 1, p);
        market_stays(on_bar, b, n - 1, u);
        assert(a.0.klines@[n - 1]@ == b.0.klines@[n - 1]@);
        assert(a.0.klines@[n - 1].close == a.0.klines@[n - 1]@.close);
        assert(b.0.klines@[n - 1].close == b.0.klines@[n - 1]@.close);
        assert(settled(p.0, n - 1) == settled(u.0, n - 1));
        assert(q.0.account().cash == v.0.account().cash);
        assert(q.0.account().position == v.0.account().position);
        assert(gone_alike(q, v));
        assert(context::same_until(q, v, n));
    }
}

} // verus!
