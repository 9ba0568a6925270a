//! How a holding has done since it was bought.
use super::metrics;
use crate::fixed;
use crate::fixed::{is_ratio_of, Fixed, SCALE};
use crate::num;
use crate::num::Scalar;
use crate::text;
use vstd::prelude::*;

verus! {

/// The gain or loss of a holding from the day it was bought to the last day.
pub struct PositionStats<N: Scalar> {
    pub trading_days: usize,
    pub qty: i64,
    pub avg_cost: N,
    pub cost: N,
    pub last_close: N,
    pub value: N,
    pub pnl: N,
    pub pnl_pct: N,
    /// The gain for each trading day.
    pub avg_daily_pnl: N,
    pub ret_day: Option<N>,
    pub ret_week: Option<N>,
    pub ret_month: Option<N>,
    /// The largest gain, the same as a part of the cost, and its day.
    pub max_profit: (N, N, String),
    pub max_loss: (N, N, String),
    /// The deepest fall of the value from a peak: zero or below.
    pub max_drawdown: N,
    /// The gain of each day as a part of the cost.
    pub pnl_pct_series: Vec<N>,
}

/// The values of the holding, day by day.
pub open spec fn values<N: Scalar>(closes: Seq<N>, qty: int) -> Seq<N> {
    Seq::new(closes.len(), |i: int| closes[i].product(N::whole(qty)))
}

/// The gain at a price.
pub open spec fn gain_at<N: Scalar>(close: N, qty: int, cost: N) -> N {
    close.product(N::whole(qty)).difference(cost)
}

/// A gain as a part of the cost; zero where there was no cost.
pub open spec fn part_of<N: Scalar>(gain: N, cost: N) -> N {
    if num::zeroed(cost) {
        num::nil::<N>()
    } else {
        gain.quotient(cost)
    }
}

/// The return of the last `k` days, where there are more than `k`.
pub open spec fn return_of_last<N: Scalar>(closes: Seq<N>, k: int) -> Option<N> {
    if closes.len() > k && !num::zeroed(closes[closes.len() - 1 - k]) {
        Some(closes.last().quotient(closes[closes.len() - 1 - k]).difference(num::unit::<N>()))
    } else {
        None
    }
}

/// The first day among the first `n` after which no gain is larger.
pub open spec fn best_day<N: Scalar>(closes: Seq<N>, qty: int, cost: N, n: int) -> int
    decreases n,
{
    if n <= 1 {
        0
    } else {
        let b = best_day(closes, qty, cost, n - 1);
        if gain_at(closes[b], qty, cost).below(gain_at(closes[n - 1], qty, cost)) {
            n - 1
        } else {
            b
        }
    }
}

/// The first day among the first `n` after which no gain is smaller.
pub open spec fn worst_day<N: Scalar>(closes: Seq<N>, qty: int, cost: N, n: int) -> int
    decreases n,
{
    if n <= 1 {
        0
    } else {
        let b = worst_day(closes, qty, cost, n - 1);
        if gain_at(closes[n - 1], qty, cost).below(gain_at(closes[b], qty, cost)) {
            n - 1
        } else {
            b
        }
    }
}

/// The gain of a day, the same as a part of the cost, and the date.
pub open spec fn gain_on<N: Scalar>(
    closes: Seq<N>,
    dates: Seq<Seq<char>>,
    qty: int,
    cost: N,
    i: int,
    r: (N, N, String),
) -> bool {
    &&& r.0 == gain_at(closes[i], qty, cost)
    &&& r.1 == part_of(gain_at(closes[i], qty, cost), cost)
    &&& r.2@ == dates[i]
}

fn last_return<N: Scalar>(closes: &[N], k: usize) -> (r: Option<N>)
    ensures
        r == return_of_last(closes@, k as int),
{
    let n = closes.len();
    if n > k && !num::is_zero(closes[n - 1 - k]) {
        Some(closes[n - 1].over(closes[n - 1 - k]).minus(num::one::<N>()))
    } else {
        None
    }
}

fn gain<N: Scalar>(close: N, qty: i64, cost: N) -> (r: N)
    ensures
        r == gain_at(close, qty as int, cost),
{
    close.times(N::from_int(qty as i128)).minus(cost)
}

fn part<N: Scalar>(g: N, cost: N) -> (r: N)
    ensures
        r == part_of(g, cost),
{
    if num::is_zero(cost) {
        num::zero::<N>()
    } else {
        g.over(cost)
    }
}

/// The figures of `qty` shares bought at `avg_cost`, by the closing price of each trading
/// day since.
pub open spec fn figures<N: Scalar>(
    avg_cost: N,
    qty: i64,
    dates: Seq<Seq<char>>,
    closes: Seq<N>,
    r: PositionStats<N>,
) -> bool {
    let n = closes.len() as int;
    let cost = avg_cost.product(N::whole(qty as int));
    let last_gain = gain_at(closes.last(), qty as int, cost);
    &&& r.trading_days == n
    &&& r.qty == qty
    &&& r.avg_cost == avg_cost
    &&& r.cost == cost
    &&& r.last_close == closes.last()
    &&& r.value == closes.last().product(N::whole(qty as int))
    &&& r.pnl == last_gain
    &&& r.pnl_pct == part_of(last_gain, cost)
    &&& r.avg_daily_pnl == last_gain.quotient(N::whole(n))
    &&& r.ret_day == return_of_last(closes, 1)
    &&& r.ret_week == return_of_last(closes, 5)
    &&& r.ret_month == return_of_last(closes, 20)
    &&& gain_on(
        closes,
        dates,
        qty as int,
        cost,
        best_day(closes, qty as int, cost, n),
        r.max_profit,
    )
    &&& gain_on(
        closes,
        dates,
        qty as int,
        cost,
        worst_day(closes, qty as int, cost, n),
        r.max_loss,
    )
    &&& r.max_drawdown == metrics::drawdown(values(closes, qty as int))
    &&& r.pnl_pct_series@ == Seq::new(
        n as nat,
        |i: int| part_of(gain_at(closes[i], qty as int, cost), cost),
    )
}

/// The figures of `qty` shares bought at `avg_cost`, by the closing price of each trading
/// day since, the day of the purchase included.
pub fn compute<N: Scalar>(avg_cost: N, qty: i64, dates: &[String], closes: &[N]) -> (r:
    PositionStats<N>)
    requires
        closes@.len() > 0,
        dates@.len() >= closes@.len(),
    ensures
        figures(avg_cost, qty, text::texts(dates@), closes@, r),
{
    let n = closes.len();
    let cost = avg_cost.times(N::from_int(qty as i128));
    let mut value_series: Vec<N> = Vec::new();
    let mut pct_series: Vec<N> = Vec::new();
    let mut best: usize = 0;
    let mut worst: usize = 0;
    let mut i: usize = 0;
    let ghost pcts = Seq::new(
        closes@.len(),
        |i: int| part_of(gain_at(closes@[i], qty as int, cost), cost),
    );
    while i < n
        invariant
            n == closes@.len(),
            n > 0,
            i <= n,
            pcts == Seq::new(
                closes@.len(),
                |i: int| part_of(gain_at(closes@[i], qty as int, cost), cost),
            ),
            value_series@ == values(closes@, qty as int).take(i as int),
            pct_series@ == pcts.take(i as int),
            best < n,
            worst < n,
            best == best_day(closes@, qty as int, cost, i as int),
            worst == worst_day(closes@, qty as int, cost, i as int),
        decreases n - i,
    {
        let v = closes[i].times(N::from_int(qty as i128));
        let g = v.minus(cost);
        value_series.push(v);
        pct_series.push(part(g, cost));
        if i > 0 {
            if gain(closes[best], qty, cost).less(g) {
                best = i;
            }
            if g.less(gain(closes[worst], qty, cost)) {
                worst = i;
            }
        }
        i += 1;
        assert(value_series@ =~= values(closes@, qty as int).take(i as int));
        assert(pct_series@ =~= pcts.take(i as int));
    }
    assert(value_series@ =~= values(closes@, qty as int));
    assert(pct_series@ =~= pcts);
    let best_gain = gain(closes[best], qty, cost);
    let worst_gain = gain(closes[worst], qty, cost);
    let last_close = closes[n - 1];
    let value = value_series[n - 1];
    let pnl = value.minus(cost);
    PositionStats {
        trading_days: n,
        qty,
        avg_cost,
        cost,
        last_close,
        value,
        pnl,
        pnl_pct: part(pnl, cost),
        avg_daily_pnl: pnl.over(N::from_int(n as i128)),
        ret_day: last_return(closes, 1),
        ret_week: last_return(closes, 5),
        ret_month: last_return(closes, 20),
        max_profit: (best_gain, part(best_gain, cost), dates[best].clone()),
        max_loss: (worst_gain, part(worst_gain, cost), dates[worst].clone()),
        max_drawdown: metrics::max_fall(value_series.as_slice()),
        pnl_pct_series: pct_series,
    }
}

// ---------------------------------------------------------------------------
// Laws
// ---------------------------------------------------------------------------
/// Prices of shares whose worth fits twice into what a decimal can hold.
pub open spec fn tradable(closes: Seq<Fixed>, qty: int) -> bool {
    forall|i: int|
        0 <= i < closes.len() ==> (#[trigger] closes[i]).defined && 0 < closes[i].units && qty
            * closes[i].units <= i64::MAX / 2
}

proof fn gain_is_worth_less_cost(close: Fixed, qty: int, cost: Fixed)
    requires
        0 < qty,
        Fixed::whole(qty).defined,
        close.defined,
        0 < close.units,
        qty * close.units <= i64::MAX / 2,
        cost.defined,
        0 <= cost.units <= i64::MAX / 2,
    ensures
        gain_at(close, qty, cost).defined,
        gain_at(close, qty, cost).units == qty * close.units - cost.units,
        close.product(Fixed::whole(qty)).defined,
        close.product(Fixed::whole(qty)).units == qty * close.units,
{
    fixed::multiple_is_exact(qty, close);
    assert(0 < qty * close.units) by (nonlinear_arith)
        requires
            0 < qty,
            0 < close.units,
    ;
}

proof fn best_is_highest(closes: Seq<Fixed>, qty: int, cost: Fixed, n: int)
    requires
        0 < n <= closes.len(),
        0 < qty,
        Fixed::whole(qty).defined,
        tradable(closes, qty),
        cost.defined,
        0 <= cost.units <= i64::MAX / 2,
    ensures
        0 <= best_day(closes, qty, cost, n) < n,
        0 <= worst_day(closes, qty, cost, n) < n,
        forall|i: int|
            0 <= i < n ==> qty * (#[trigger] closes[i]).units <= qty * closes[best_day(
                closes,
                qty,
                cost,
                n,
            )].units,
        forall|i: int|
            0 <= i < n ==> qty * closes[worst_day(closes, qty, cost, n)].units <= qty * (
            #[trigger] closes[i]).units,
    decreases n,
{
    if 1 < n {
        best_is_highest(closes, qty, cost, n - 1);
        let b = best_day(closes, qty, cost, n - 1);
        let w = worst_day(closes, qty, cost, n - 1);
        assert(closes[b].defined && closes[w].defined && closes[n - 1].defined);
        gain_is_worth_less_cost(closes[b], qty, cost);
        gain_is_worth_less_cost(closes[w], qty, cost);
        gain_is_worth_less_cost(closes[n - 1], qty, cost);
    }
}

proof fn last_return_is_the_change(closes: Seq<Fixed>, k: int)
    requires
        0 < k,
        0 < closes.len(),
        forall|i: int|
            0 <= i < closes.len() ==> (#[trigger] closes[i]).defined && 0 < closes[i].units,
    ensures
        return_of_last(closes, k) is Some <==> k < closes.len(),
        return_of_last(closes, k) matches Some(r) ==> r.defined ==> is_ratio_of(
            r.units as int,
            (closes.last().units - closes[closes.len() - 1 - k].units) * SCALE,
            closes[closes.len() - 1 - k].units as int,
        ),
{
    if k < closes.len() {
        let from = closes[closes.len() - 1 - k];
        assert(from.defined && 0 < from.units);
        let r = return_of_last(closes, k).unwrap();
        if r.defined {
            let s = SCALE as int;
            let q = r.units + s;
            let f = from.units as int;
            let t = closes.last().units as int;
            fixed::quotient_is_ratio(closes.last(), from);
            assert((q - s) * f == q * f - s * f) by (nonlinear_arith);
            assert((t - f) * s == t * s - s * f) by (nonlinear_arith);
        }
    }
}

proof fn part_is_ratio(gain: Fixed, cost: Fixed)
    requires
        cost.defined,
        0 < cost.units,
        part_of(gain, cost).defined,
    ensures
        is_ratio_of(part_of(gain, cost).units as int, gain.units * SCALE, cost.units as int),
{
    fixed::quotient_is_ratio(gain, cost);
}

/// The figures of a holding: the cost is that of all shares, the value what they are worth
/// at the last price, and the gain what the value is above the cost; the gain for each day
/// is its mean. Returns are changes as parts of the earlier price, of one, five and twenty
/// days before. No day had a larger gain than the best one, nor a smaller one than the
/// worst.
pub proof fn figures_of_a_holding(
    avg_cost: Fixed,
    qty: i64,
    dates: Seq<Seq<char>>,
    closes: Seq<Fixed>,
    r: PositionStats<Fixed>,
)
    requires
        figures(avg_cost, qty, dates, closes, r),
        0 < closes.len(),
        0 < qty,
        Fixed::whole(qty as int).defined,
        Fixed::whole(closes.len() as int).defined,
        avg_cost.defined,
        0 < avg_cost.units,
        qty * avg_cost.units <= i64::MAX / 2,
        tradable(closes, qty as int),
    ensures
        r.trading_days == closes.len(),
        r.qty == qty,
        r.avg_cost == avg_cost,
        r.last_close == closes.last(),
        r.cost.defined && r.cost.units == qty * avg_cost.units,
        r.value.defined && r.value.units == qty * closes.last().units,
        r.pnl.defined && r.pnl.units == r.value.units - r.cost.units,
        r.pnl_pct.defined ==> is_ratio_of(
            r.pnl_pct.units as int,
            r.pnl.units * SCALE,
            r.cost.units as int,
        ),
        r.avg_daily_pnl.defined,
        is_ratio_of(r.avg_daily_pnl.units as int, r.pnl.units as int, closes.len() as int),
        r.ret_day is Some <==> 1 < closes.len(),
        r.ret_day matches Some(x) ==> x.defined ==> is_ratio_of(
            x.units as int,
            (closes.last().units - closes[closes.len() - 2].units) * SCALE,
            closes[closes.len() - 2].units as int,
        ),
        r.ret_week is Some <==> 5 < closes.len(),
        r.ret_week matches Some(x) ==> x.defined ==> is_ratio_of(
            x.units as int,
            (closes.last().units - closes[closes.len() - 6].units) * SCALE,
            closes[closes.len() - 6].units as int,
        ),
        r.ret_month is Some <==> 20 < closes.len(),
        r.ret_month matches Some(x) ==> x.defined ==> is_ratio_of(
            x.units as int,
            (closes.last().units - closes[closes.len() - 21].units) * SCALE,
            closes[closes.len() - 21].units as int,
        ),
        r.max_profit.0.defined,
        r.max_loss.0.defined,
        forall|i: int|
            0 <= i < closes.len() ==> r.max_loss.0.units <= qty * (#[trigger] closes[i]).units
                - r.cost.units <= r.max_profit.0.units,
        exists|i: int|
            0 <= i < closes.len() && qty * (#[trigger] closes[i]).units - r.cost.units
                == r.max_profit.0.units && r.max_profit.2@ == dates[i],
        exists|i: int|
            0 <= i < closes.len() && qty * (#[trigger] closes[i]).units - r.cost.units
                == r.max_loss.0.units && r.max_loss.2@ == dates[i],
        r.max_profit.1.defined ==> is_ratio_of(
            r.max_profit.1.units as int,
            r.max_profit.0.units * SCALE,
            r.cost.units as int,
        ),
        r.max_loss.1.defined ==> is_ratio_of(
            r.max_loss.1.units as int,
            r.max_loss.0.units * SCALE,
            r.cost.units as int,
        ),
        r.pnl_pct_series@.len() == closes.len(),
        forall|i: int|
            0 <= i < closes.len() && (#[trigger] r.pnl_pct_series@[i]).defined ==> is_ratio_of(
                r.pnl_pct_series@[i].units as int,
                (qty * closes[i].units - r.cost.units) * SCALE,
                r.cost.units as int,
            ),
        exists|v: Seq<Fixed>|
            {
                &&& #[trigger] metrics::drawdown(v) == r.max_drawdown
                &&& v.len() == closes.len()
                &&& forall|i: int|
                    0 <= i < v.len() ==> (#[trigger] v[i]).defined && v[i].units == qty
                        * closes[i].units
            },
{
    let q = qty as int;
    let n = closes.len() as int;
    let cost = avg_cost.product(Fixed::whole(q));
    fixed::multiple_is_exact(q, avg_cost);
    assert(0 < q * avg_cost.units) by (nonlinear_arith)
        requires
            0 < q,
            0 < avg_cost.units,
    ;
    assert(closes[n - 1].defined);
    gain_is_worth_less_cost(closes[n - 1], q, cost);
    fixed::share_is_ratio(r.pnl, n);
    last_return_is_the_change(closes, 1);
    last_return_is_the_change(closes, 5);
    last_return_is_the_change(closes, 20);
    best_is_highest(closes, q, cost, n);
    let b = best_day(closes, q, cost, n);
    let w = worst_day(closes, q, cost, n);
    assert(closes[b].defined && closes[w].defined);
    gain_is_worth_less_cost(closes[b], q, cost);
    gain_is_worth_less_cost(closes[w], q, cost);
    if r.pnl_pct.defined {
        part_is_ratio(r.pnl, cost);
    }
    if r.max_profit.1.defined {
        part_is_ratio(r.max_profit.0, cost);
    }
    if r.max_loss.1.defined {
        part_is_ratio(r.max_loss.0, cost);
    }
    assert forall|i: int|
        0 <= i < closes.len() && (#[trigger] r.pnl_pct_series@[i]).defined implies is_ratio_of(
        r.pnl_pct_series@[i].units as int,
        (qty * closes[i].units - r.cost.units) * SCALE,
        r.cost.units as int,
    ) by {
        assert(closes[i].defined);
        gain_is_worth_less_cost(closes[i], q, cost);
        part_is_ratio(gain_at(closes[i], q, cost), cost);
    }
    let v = values(closes, q);
    assert forall|i: int| 0 <= i < v.len() implies (#[trigger] v[i]).defined && v[i].units == qty
        * closes[i].units by {
        assert(closes[i].defined);
        gain_is_worth_less_cost(closes[i], q, cost);
    }
    assert(metrics::drawdown(v) == r.max_drawdown);
}

} // verus!
