//! What a strategy sees of one security, and the orders that it gives.
use super::chart;
use super::chart::{Chart, Line};
use super::rules;
use super::rules::{floor_to_lot, FeeModel};
use crate::data::fundamental;
use crate::data::fundamental::align;
use crate::data::models;
use crate::data::models::FundamentalView;
use crate::data::{Fundamental, KLine, Period};
use crate::fixed;
use crate::fixed::{Fixed, SCALE};
use crate::num;
use crate::num::Scalar;
use crate::table::Table;
use crate::text;
use vstd::prelude::*;

verus! {

/// A trade of a back test. A sale knows its gain as a part of the cost.
pub struct TradeRec<N: Scalar> {
    pub date: String,
    pub action: String,
    pub price: N,
    pub shares: i64,
    pub pnl_pct: Option<N>,
}

/// A trade with its texts as sequences of characters.
pub ghost struct TradeRecView<N: Scalar> {
    pub date: Seq<char>,
    pub action: Seq<char>,
    pub price: N,
    pub shares: i64,
    pub pnl_pct: Option<N>,
}

impl<N: Scalar> View for TradeRec<N> {
    type V = TradeRecView<N>;

    open spec fn view(&self) -> TradeRecView<N> {
        TradeRecView {
            date: self.date@,
            action: self.action@,
            price: self.price,
            shares: self.shares,
            pnl_pct: self.pnl_pct,
        }
    }
}

impl<N: Scalar> Clone for TradeRec<N> {
    fn clone(&self) -> (r: Self)
        ensures
            r@ == self@,
    {
        TradeRec {
            date: self.date.clone(),
            action: self.action.clone(),
            price: self.price,
            shares: self.shares,
            pnl_pct: self.pnl_pct,
        }
    }
}

/// The trades made.
pub open spec fn records<N: Scalar>(trades: Seq<TradeRec<N>>) -> Seq<TradeRecView<N>> {
    Seq::new(trades.len(), |i: int| trades[i]@)
}

/// The gains of the trades.
pub open spec fn gains<N: Scalar>(trades: Seq<TradeRec<N>>) -> Seq<Option<N>> {
    Seq::new(trades.len(), |i: int| trades[i].pnl_pct)
}

/// An order that waits for the next bar.
#[derive(Debug, Clone, Copy)]
pub struct Order {
    pub buy: bool,
    pub shares: i64,
}

/// The rates of a trade on the mainland.
#[derive(Debug)]
pub struct Fees<N: Scalar> {
    pub buy_rate: N,
    pub sell_rate: N,
    pub stamp_rate: N,
}

impl<N: Scalar> Clone for Fees<N> {
    fn clone(&self) -> (r: Self)
        ensures
            r == *self,
    {
        *self
    }
}

impl<N: Scalar> Copy for Fees<N> {

}

/// 0.03% on each side and 0.1% stamp duty on a sale.
pub open spec fn usual_fees<N: Scalar>() -> Fees<N> {
    Fees {
        buy_rate: num::fraction::<N>(3, 10_000),
        sell_rate: num::fraction::<N>(3, 10_000),
        stamp_rate: num::fraction::<N>(1, 1_000),
    }
}

impl<N: Scalar> Default for Fees<N> {
    fn default() -> (r: Self)
        ensures
            r == usual_fees::<N>(),
    {
        Fees {
            buy_rate: num::ratio::<N>(3, 10_000),
            sell_rate: num::ratio::<N>(3, 10_000),
            stamp_rate: num::ratio::<N>(1, 1_000),
        }
    }
}

/// The state of a back test.
pub struct Inner<N: Scalar> {
    pub klines: Vec<KLine<N>>,
    /// The prices of the bars, with the indicators that have been asked for.
    pub chart: Chart<N>,
    /// The bar that the strategy sees.
    pub i: usize,
    pub cash: N,
    pub position: i64,
    pub avg_cost: N,
    pub pending: Option<Order>,
    pub trades: Vec<TradeRec<N>>,
    pub equity: Vec<N>,
    pub fee: FeeModel<N>,
    /// Shares of a board lot.
    pub lot: i64,
    pub period: Period,
    /// Parameters given from outside, by name.
    pub params: Table<N>,
    /// Valuations along the bars, undefined where none is known.
    pub pe: Vec<N>,
    pub pb: Vec<N>,
    pub ps: Vec<N>,
    pub mv: Vec<N>,
    /// What the strategy keeps from bar to bar, by name.
    pub state: Table<N>,
}

/// The money and the shares of a back test.
pub ghost struct Account<N: Scalar> {
    pub cash: N,
    pub position: i64,
    pub avg_cost: N,
    pub trades: Seq<TradeRecView<N>>,
}

/// The dates of bars.
pub open spec fn bar_dates<N: Scalar>(klines: Seq<KLine<N>>) -> Seq<Seq<char>> {
    Seq::new(klines.len(), |i: int| klines[i].date@)
}

impl<N: Scalar> Inner<N> {
    /// The chart shows the prices of the bars, and the valuations are as many.
    pub open spec fn wf(&self) -> bool {
        &&& self.chart.wf()
        &&& self.chart.closes@.len() == self.klines@.len()
        &&& forall|k: int|
            0 <= k < self.klines@.len() ==> #[trigger] self.chart.closes@[k]
                == self.klines@[k].close
        &&& forall|k: int|
            0 <= k < self.klines@.len() ==> #[trigger] self.chart.highs@[k] == self.klines@[k].high
        &&& forall|k: int|
            0 <= k < self.klines@.len() ==> #[trigger] self.chart.lows@[k] == self.klines@[k].low
        &&& self.pe@.len() == self.klines@.len()
        &&& self.pb@.len() == self.klines@.len()
        &&& self.ps@.len() == self.klines@.len()
        &&& self.mv@.len() == self.klines@.len()
    }

    /// The money and the shares.
    pub open spec fn account(&self) -> Account<N> {
        Account {
            cash: self.cash,
            position: self.position,
            avg_cost: self.avg_cost,
            trades: records(self.trades@),
        }
    }

    /// The bars, the prices, the rules, the parameters and the valuations are the same.
    pub open spec fn same_market(&self, other: &Self) -> bool {
        &&& self.klines@ == other.klines@
        &&& self.chart.same_prices(&other.chart)
        &&& self.fee == other.fee
        &&& self.lot == other.lot
        &&& self.period == other.period
        &&& self.params@ == other.params@
        &&& self.pe@ == other.pe@
        &&& self.pb@ == other.pb@
        &&& self.ps@ == other.ps@
        &&& self.mv@ == other.mv@
    }

    /// All but the lines kept by the chart is the same.
    pub open spec fn same_but_lines(&self, other: &Self) -> bool {
        &&& self.same_market(other)
        &&& self.i == other.i
        &&& self.account() == other.account()
        &&& self.pending == other.pending
        &&& self.equity@ == other.equity@
        &&& self.state@ == other.state@
    }
}

/// What a strategy is handed.
pub struct Ctx<N: Scalar>(pub Inner<N>);

/// The number of shares that some cash buys at a price, costs at a rate included, in whole
/// lots.
pub open spec fn affordable<N: Scalar>(cash: N, price: N, rate: N, lot: int) -> int {
    rules::in_lots(
        cash.quotient(price.product(num::unit::<N>().sum(rate))).integral() as int,
        lot,
    )
}

/// The number of shares that some cash buys at a price, none where the price is not above
/// zero.
pub open spec fn most_shares<N: Scalar>(cash: N, price: N, rate: N, lot: int) -> int {
    if num::not_above_zero(price) {
        0
    } else {
        affordable(cash, price, rate, lot)
    }
}

/// The closing price so many bars before one; undefined before the first.
pub open spec fn close_before<N: Scalar>(closes: Seq<N>, i: int, n: int) -> N {
    if i - n < 0 {
        N::undefined()
    } else {
        closes[i - n]
    }
}

/// The order that waits when another has been given: that one, unless it is of no shares.
pub open spec fn order_given(pending: Option<Order>, buy: bool, shares: i64) -> Option<Order> {
    if shares > 0 {
        Some(Order { buy, shares })
    } else {
        pending
    }
}

/// What shares that some cash is enough for cost, the charge included, is covered by the
/// cash. This is of decimals, where the cash may fall short by what rounding adds, which is
/// less than one unit for each share; where the price with the charge on it needs no
/// rounding, the cash never falls short.
pub proof fn cash_covers_shares(cash: Fixed, price: Fixed, rate: Fixed, lot: int, shares: int)
    requires
        cash.defined,
        0 <= cash.units <= i64::MAX / 2,
        !num::not_above_zero(price),
        0 <= rate.units,
        0 < shares <= affordable(cash, price, rate, lot),
    ensures
        ({
            let cost = Fixed::whole(shares).product(price);
            let left = cash.difference(cost.sum(cost.product(rate)));
            &&& left.defined
            &&& left.units > -shares
            &&& (price.units * rate.units) % (SCALE as int) == 0 ==> left.units >= 0
        }),
{
    let s = SCALE as int;
    let c = cash.units as int;
    let p = price.units as int;
    let r = rate.units as int;
    let each = price.product(num::unit::<Fixed>().sum(rate));
    let many = cash.quotient(each);
    let most = many.integral() as int;
    if lot > 0 {
        rules::whole_lots(most, lot);
    }
    assert(many.defined);
    assert(each.defined);
    let u = each.units as int;
    let n = shares;
    assert(u == p * (s + r) / s);
    assert(u >= p) by (nonlinear_arith)
        requires
            s == 1_000_000,
            r >= 0,
            p > 0,
            u == p * (s + r) / s,
    ;
    let q = many.units as int;
    assert(q == c * s / u);
    assert(n <= q / s);
    assert(n * s <= q) by (nonlinear_arith)
        requires
            n <= q / s,
            s == 1_000_000,
    ;
    assert(q * u <= c * s) by (nonlinear_arith)
        requires
            q == c * s / u,
            u > 0,
    ;
    assert(n * u <= c) by (nonlinear_arith)
        requires
            n * s <= q,
            q * u <= c * s,
            u > 0,
            s == 1_000_000,
    ;
    assert(n * p <= n * u) by (nonlinear_arith)
        requires
            n > 0,
            p <= u,
    ;
    assert(n <= n * u) by (nonlinear_arith)
        requires
            n > 0,
            u > 0,
    ;
    let cost = Fixed::whole(n).product(price);
    assert((n * s) * p / s == n * p) by (nonlinear_arith)
        requires
            s == 1_000_000,
    ;
    assert(n * p >= 0) by (nonlinear_arith)
        requires
            n > 0,
            p > 0,
    ;
    assert(cost.defined && cost.units == n * p);
    let fee = (n * p) * r / s;
    assert(s * fee <= (n * p) * r && fee >= 0) by (nonlinear_arith)
        requires
            fee == (n * p) * r / s,
            s == 1_000_000,
            n * p >= 0,
            r >= 0,
    ;
    assert(p * (s + r) < s * (u + 1)) by (nonlinear_arith)
        requires
            u == p * (s + r) / s,
            s == 1_000_000,
    ;
    assert(n * (p * (s + r)) == s * (n * p) + (n * p) * r) by (nonlinear_arith);
    assert(n * (p * (s + r)) < n * (s * (u + 1))) by (nonlinear_arith)
        requires
            n > 0,
            p * (s + r) < s * (u + 1),
    ;
    assert(n * (s * (u + 1)) == s * (n * u + n)) by (nonlinear_arith);
    assert(s * (n * p + fee) < s * (n * u + n));
    assert(n * p + fee < n * u + n);
    if (p * r) % s == 0 {
        assert(p * (s + r) == s * u) by (nonlinear_arith)
            requires
                u == p * (s + r) / s,
                (p * r) % s == 0,
                s == 1_000_000,
        ;
        assert(n * (s * u) == s * (n * u)) by (nonlinear_arith);
        assert(s * (n * p + fee) <= s * (n * u));
    }
}

/// The number of shares that some cash buys at a price.
pub(crate) fn can_afford<N: Scalar>(cash: N, price: N, rate: N, lot: i64) -> (r: i64)
    ensures
        r == affordable(cash, price, rate, lot as int),
{
    let unit_cost = price.times(num::one::<N>().plus(rate));
    floor_to_lot(cash.over(unit_cost).trunc(), lot)
}

/// The smaller of two numbers of shares, in whole lots.
pub open spec fn lesser_in_lots(a: int, b: int, lot: int) -> int {
    rules::in_lots(
        if a <= b {
            a
        } else {
            b
        },
        lot,
    )
}

/// The number of shares that an order for `wanted` of them buys with some cash: whole lots,
/// and no more than the cash is enough for.
pub open spec fn lots_bought<N: Scalar>(
    cash: N,
    price: N,
    rate: N,
    wanted: i64,
    lot: int,
) -> int {
    lesser_in_lots(wanted as int, affordable(cash, price, rate, lot), lot)
}

/// The number of shares that an order for `wanted` of them buys with some cash.
pub(crate) fn lots_to_buy<N: Scalar>(cash: N, price: N, rate: N, wanted: i64, lot: i64) -> (r: i64)
    ensures
        r == lots_bought(cash, price, rate, wanted, lot as int),
{
    let most = can_afford(cash, price, rate, lot);
    floor_to_lot(
        if wanted <= most {
            wanted
        } else {
            most
        },
        lot,
    )
}

/// What is bought is no more than is wanted and no more than the cash is enough for, and is
/// made of whole lots.
pub proof fn bought_in_lots(most: int, wanted: int, lot: int)
    ensures
        ({
            let n = lesser_in_lots(wanted, most, lot);
            &&& n > 0 ==> n <= wanted && n <= most
            &&& lot > 0 ==> n % lot == 0
        }),
{
    if lot > 0 {
        rules::whole_lots(
            if wanted <= most {
                wanted
            } else {
                most
            },
            lot,
        );
    }
}

/// The value of a named number, rounded, or another one where it has no value.
pub open spec fn named_int<N: Scalar>(m: Map<Seq<char>, N>, name: Seq<char>, default: i64) -> i64 {
    if m.contains_key(name) {
        m[name].nearest()
    } else {
        default
    }
}

/// The value of a named number, or another one where it has no value.
pub open spec fn named<N: Scalar>(m: Map<Seq<char>, N>, name: Seq<char>, default: N) -> N {
    if m.contains_key(name) {
        m[name]
    } else {
        default
    }
}

pub(crate) fn look_up_int<N: Scalar>(t: &Table<N>, name: &str, default: i64) -> (r: i64)
    ensures
        r == named_int(t@, name@, default),
{
    match t.get(name) {
        Some(v) => v.round(),
        None => default,
    }
}

pub(crate) fn look_up<N: Scalar>(t: &Table<N>, name: &str, default: N) -> (r: N)
    ensures
        r == named(t@, name@, default),
{
    match t.get(name) {
        Some(v) => v,
        None => default,
    }
}

impl<N: Scalar> Ctx<N> {
    /// The state is well-formed, and the strategy sees one of the bars.
    pub open spec fn ready(&self) -> bool {
        self.0.wf() && self.0.i < self.0.klines@.len()
    }

    /// The bar that the strategy sees.
    pub open spec fn bar(&self) -> KLine<N> {
        self.0.klines@[self.0.i as int]
    }

    /// A line of the chart, `back` bars before the one that the strategy sees.
    pub open spec fn line(&self, line: Line<N>, back: int) -> N {
        chart::value_at(
            line,
            self.0.chart.highs@,
            self.0.chart.lows@,
            self.0.chart.closes@,
            self.0.i - back,
        )
    }

    /// A back test that begins with some capital.
    pub open spec fn begins(
        &self,
        klines: Seq<KLine<N>>,
        capital: N,
        params: Map<Seq<char>, N>,
        funda: Seq<Fundamental<N>>,
    ) -> bool {
        let dates = bar_dates(klines);
        let fs = models::valuations(funda);
        &&& self.0.wf()
        &&& self.0.klines@ == klines
        &&& self.0.i == 0
        &&& self.0.account() == (Account {
            cash: capital,
            position: 0,
            avg_cost: num::nil::<N>(),
            trades: Seq::empty(),
        })
        &&& self.0.pending is None
        &&& self.0.equity@.len() == 0
        &&& self.0.params@ == params
        &&& self.0.state@ == Map::<Seq<char>, N>::empty()
        &&& self.0.pe@ == fundamental::ratios(dates, fs, |f: FundamentalView<N>| f.pe_ttm)
        &&& self.0.pb@ == fundamental::ratios(dates, fs, |f: FundamentalView<N>| f.pb_mrq)
        &&& self.0.ps@ == fundamental::ratios(dates, fs, |f: FundamentalView<N>| f.ps_ttm)
        &&& self.0.mv@ == fundamental::ratios(dates, fs, |f: FundamentalView<N>| f.total_mv)
    }

    /// A back test over some bars that begins with some capital.
    pub fn new(
        klines: Vec<KLine<N>>,
        capital: N,
        funda: &[Fundamental<N>],
        lot: i64,
        fee: FeeModel<N>,
        period: Period,
    ) -> (r: Ctx<N>)
        ensures
            r.begins(klines@, capital, Map::empty(), funda@),
            r.0.lot == lot,
            r.0.fee == fee,
            r.0.period == period,
    {
        Ctx::new_with_params(klines, capital, Table::new(), funda, lot, fee, period)
    }

    /// The same with parameters that the strategy can ask for.
    pub fn new_with_params(
        klines: Vec<KLine<N>>,
        capital: N,
        params: Table<N>,
        funda: &[Fundamental<N>],
        lot: i64,
        fee: FeeModel<N>,
        period: Period,
    ) -> (r: Ctx<N>)
        ensures
            r.begins(klines@, capital, params@, funda@),
            r.0.lot == lot,
            r.0.fee == fee,
            r.0.period == period,
    {
        let mut closes: Vec<N> = Vec::new();
        let mut highs: Vec<N> = Vec::new();
        let mut lows: Vec<N> = Vec::new();
        let mut dates: Vec<String> = Vec::new();
        let mut k: usize = 0;
        while k < klines.len()
            invariant
                k <= klines@.len(),
                closes@.len() == k,
                highs@.len() == k,
                lows@.len() == k,
                dates@.len() == k,
                forall|j: int| 0 <= j < k ==> #[trigger] closes@[j] == klines@[j].close,
                forall|j: int| 0 <= j < k ==> #[trigger] highs@[j] == klines@[j].high,
                forall|j: int| 0 <= j < k ==> #[trigger] lows@[j] == klines@[j].low,
                forall|j: int| 0 <= j < k ==> (#[trigger] dates@[j])@ == klines@[j].date@,
            decreases klines@.len() - k,
        {
            closes.push(klines[k].close);
            highs.push(klines[k].high);
            lows.push(klines[k].low);
            dates.push(klines[k].date.clone());
            k += 1;
        }
        assert(text::texts(dates@) =~= bar_dates(klines@));
        let a = align(dates.as_slice(), funda);
        let r = Ctx(
            Inner {
                klines,
                chart: Chart::new(highs, lows, closes),
                i: 0,
                cash: capital,
                position: 0,
                avg_cost: num::zero::<N>(),
                pending: None,
                trades: Vec::new(),
                equity: Vec::new(),
                fee,
                lot,
                period,
                params,
                pe: a.pe,
                pb: a.pb,
                ps: a.ps,
                mv: a.mv,
                state: Table::new(),
            },
        );
        assert(records(r.0.trades@) =~= Seq::<TradeRecView<N>>::empty());
        r
    }

    /// The equity at each bar so far.
    pub fn equity_curve(&self) -> (r: Vec<N>)
        ensures
            r@ == self.0.equity@,
    {
        let mut out: Vec<N> = Vec::new();
        let mut k: usize = 0;
        while k < self.0.equity.len()
            invariant
                k <= self.0.equity@.len(),
                out@ == self.0.equity@.take(k as int),
            decreases self.0.equity@.len() - k,
        {
            out.push(self.0.equity[k]);
            k += 1;
            assert(out@ =~= self.0.equity@.take(k as int));
        }
        assert(out@ =~= self.0.equity@);
        out
    }

    // ---- Prices ----
    pub fn open(&self) -> (r: N)
        requires
            self.ready(),
        ensures
            r == self.bar().open,
    {
        self.0.klines[self.0.i].open
    }

    pub fn high(&self) -> (r: N)
        requires
            self.ready(),
        ensures
            r == self.bar().high,
    {
        self.0.klines[self.0.i].high
    }

    pub fn low(&self) -> (r: N)
        requires
            self.ready(),
        ensures
            r == self.bar().low,
    {
        self.0.klines[self.0.i].low
    }

    pub fn close(&self) -> (r: N)
        requires
            self.ready(),
        ensures
            r == self.bar().close,
    {
        self.0.klines[self.0.i].close
    }

    pub fn volume(&self) -> (r: N)
        requires
            self.ready(),
        ensures
            r == self.bar().volume,
    {
        self.0.klines[self.0.i].volume
    }

    pub fn date(&self) -> (r: String)
        requires
            self.ready(),
        ensures
            r@ == self.bar().date@,
    {
        self.0.klines[self.0.i].date.clone()
    }

    /// Whether [`Ctx::close_at`] can be asked for `n`: there is a bar, or none so early. For
    /// an `n` of 0 or more it always can.
    pub fn close_fits(&self, n: i64) -> (r: bool)
        requires
            self.ready(),
        ensures
            r == (self.0.i - n < self.0.klines@.len()),
            n >= 0 ==> r,
    {
        (self.0.i as i128 - n as i128) < self.0.klines.len() as i128
    }

    /// The closing price `n` bars ago; undefined before the first bar.
    pub fn close_at(&self, n: i64) -> (r: N)
        requires
            self.ready(),
            self.0.i - n < self.0.klines@.len(),
        ensures
            r == (if self.0.i - n < 0 {
                N::undefined()
            } else {
                self.0.klines@[self.0.i - n].close
            }),
            r == close_before(self.0.chart.closes@, self.0.i as int, n as int),
    {
        let bars = self.0.chart.closes.len();
        let idx: i128 = self.0.i as i128 - n as i128;
        if idx < 0 {
            N::nan()
        } else {
            assert(idx < bars);
            self.0.chart.closes[idx as usize]
        }
    }

    // ---- Indicators ----
    /// A line of the chart, `back` bars ago.
    fn indi_at(&mut self, line: Line<N>, back: i64) -> (r: N)
        requires
            old(self).ready(),
        ensures
            final(self).ready(),
            final(self).0.same_but_lines(&old(self).0),
            r == old(self).line(line, back as int),
    {
        let i = self.0.i;
        self.0.chart.value(line, i, back)
    }

    /// The simple moving average; undefined where there are not enough bars.
    pub fn sma(&mut self, period: i64) -> (r: N)
        requires
            old(self).ready(),
        ensures
            final(self).ready(),
            final(self).0.same_but_lines(&old(self).0),
            r == old(self).line(Line::Sma(period), 0),
    {
        self.sma_at(period, 0)
    }

    /// The simple moving average `n` bars ago.
    pub fn sma_at(&mut self, period: i64, n: i64) -> (r: N)
        requires
            old(self).ready(),
        ensures
            final(self).ready(),
            final(self).0.same_but_lines(&old(self).0),
            r == old(self).line(Line::Sma(period), n as int),
    {
        if period <= 0 {
            return N::nan();
        }
        self.indi_at(Line::Sma(period), n)
    }

    /// The exponential moving average.
    pub fn ema(&mut self, period: i64) -> (r: N)
        requires
            old(self).ready(),
        ensures
            final(self).ready(),
            final(self).0.same_but_lines(&old(self).0),
            r == old(self).line(Line::Ema(period), 0),
    {
        if period <= 0 {
            return N::nan();
        }
        self.indi_at(Line::Ema(period), 0)
    }

    /// The relative strength index.
    pub fn rsi(&mut self, period: i64) -> (r: N)
        requires
            old(self).ready(),
        ensures
            final(self).ready(),
            final(self).0.same_but_lines(&old(self).0),
            r == old(self).line(Line::Rsi(period), 0),
    {
        if period <= 0 {
            return N::nan();
        }
        self.indi_at(Line::Rsi(period), 0)
    }

    /// The difference of two exponential moving averages, its average, and twice the
    /// distance of the two.
    pub fn macd(&mut self, fast: i64, slow: i64, signal: i64) -> (r: (N, N, N))
        requires
            old(self).ready(),
        ensures
            final(self).ready(),
            final(self).0.same_but_lines(&old(self).0),
            r.0 == old(self).line(Line::MacdDif(fast, slow, signal), 0),
            r.1 == old(self).line(Line::MacdDea(fast, slow, signal), 0),
            r.2 == old(self).line(Line::MacdBar(fast, slow, signal), 0),
    {
        let dif = self.indi_at(Line::MacdDif(fast, slow, signal), 0);
        let dea = self.indi_at(Line::MacdDea(fast, slow, signal), 0);
        let bar = self.indi_at(Line::MacdBar(fast, slow, signal), 0);
        (dif, dea, bar)
    }

    /// The lines K, D and J.
    pub fn kdj(&mut self, period: i64) -> (r: (N, N, N))
        requires
            old(self).ready(),
        ensures
            final(self).ready(),
            final(self).0.same_but_lines(&old(self).0),
            r.0 == old(self).line(Line::KdjK(period), 0),
            r.1 == old(self).line(Line::KdjD(period), 0),
            r.2 == old(self).line(Line::KdjJ(period), 0),
    {
        let k = self.indi_at(Line::KdjK(period), 0);
        let d = self.indi_at(Line::KdjD(period), 0);
        let j = self.indi_at(Line::KdjJ(period), 0);
        (k, d, j)
    }

    /// The upper, the middle and the lower Bollinger band.
    pub fn boll(&mut self, period: i64, mult: N) -> (r: (N, N, N))
        requires
            old(self).ready(),
        ensures
            final(self).ready(),
            final(self).0.same_but_lines(&old(self).0),
            r.0 == old(self).line(Line::BollUpper(period, mult), 0),
            r.1 == old(self).line(Line::BollMid(period, mult), 0),
            r.2 == old(self).line(Line::BollLower(period, mult), 0),
    {
        let upper = self.indi_at(Line::BollUpper(period, mult), 0);
        let mid = self.indi_at(Line::BollMid(period, mult), 0);
        let lower = self.indi_at(Line::BollLower(period, mult), 0);
        (upper, mid, lower)
    }

    // ---- The account ----
    pub fn position(&self) -> (r: i64)
        ensures
            r == self.0.position,
    {
        self.0.position
    }

    pub fn cash(&self) -> (r: N)
        ensures
            r == self.0.cash,
    {
        self.0.cash
    }

    /// The cash and the worth of the shares at the closing price.
    pub fn total_value(&self) -> (r: N)
        requires
            self.ready(),
        ensures
            r == worth(self.0.cash, self.0.position, self.bar().close),
    {
        self.0.cash.plus(
            N::from_int(self.0.position as i128).times(self.0.klines[self.0.i].close),
        )
    }

    /// How many shares the cash buys at the closing price, in whole lots.
    pub fn max_shares(&self) -> (r: i64)
        requires
            self.ready(),
        ensures
            r == (if num::not_above_zero(self.bar().close) {
                0
            } else {
                affordable(
                    self.0.cash,
                    self.bar().close,
                    rules::rate_to_buy(self.0.fee),
                    self.0.lot as int,
                )
            }),
            r == most_shares(
                self.0.cash,
                self.bar().close,
                rules::rate_to_buy(self.0.fee),
                self.0.lot as int,
            ),
    {
        let price = self.0.klines[self.0.i].close;
        if num::non_positive(price) {
            return 0;
        }
        can_afford(self.0.cash, price, self.0.fee.buy_rate_approx(), self.0.lot)
    }

    // ---- Parameters ----
    /// A parameter, rounded to an integer.
    pub fn param_i(&self, name: String, default: i64) -> (r: i64)
        ensures
            r == named_int(self.0.params@, name@, default),
    {
        look_up_int(&self.0.params, name.as_str(), default)
    }

    /// A parameter.
    pub fn param_f(&self, name: String, default: N) -> (r: N)
        ensures
            r == named(self.0.params@, name@, default),
    {
        look_up(&self.0.params, name.as_str(), default)
    }

    // ---- Valuations ----
    pub fn pe(&self) -> (r: N)
        requires
            self.ready(),
        ensures
            r == self.0.pe@[self.0.i as int],
    {
        self.0.pe[self.0.i]
    }

    pub fn pb(&self) -> (r: N)
        requires
            self.ready(),
        ensures
            r == self.0.pb@[self.0.i as int],
    {
        self.0.pb[self.0.i]
    }

    pub fn ps(&self) -> (r: N)
        requires
            self.ready(),
        ensures
            r == self.0.ps@[self.0.i as int],
    {
        self.0.ps[self.0.i]
    }

    pub fn mktcap(&self) -> (r: N)
        requires
            self.ready(),
        ensures
            r == self.0.mv@[self.0.i as int],
    {
        self.0.mv[self.0.i]
    }

    // ---- What the strategy keeps ----
    /// Keeps a number under a name.
    pub fn set_f(&mut self, key: String, val: N)
        ensures
            final(self).0.state@ == old(self).0.state@.insert(key@, val),
            final(self).0 == (Inner { state: final(self).0.state, ..old(self).0 }),
    {
        self.0.state.set(key, val);
    }

    /// Keeps an integer under a name.
    pub fn set_i(&mut self, key: String, val: i64)
        ensures
            final(self).0.state@ == old(self).0.state@.insert(key@, N::whole(val as int)),
            final(self).0 == (Inner { state: final(self).0.state, ..old(self).0 }),
    {
        self.0.state.set(key, N::from_int(val as i128));
    }

    /// What is kept under a name.
    pub fn get_f(&self, key: String, default: N) -> (r: N)
        ensures
            r == named(self.0.state@, key@, default),
    {
        look_up(&self.0.state, key.as_str(), default)
    }

    /// What is kept under a name, rounded to an integer.
    pub fn get_i(&self, key: String, default: i64) -> (r: i64)
        ensures
            r == named_int(self.0.state@, key@, default),
    {
        look_up_int(&self.0.state, key.as_str(), default)
    }

    /// Whether anything is kept under a name.
    pub fn has(&self, key: String) -> (r: bool)
        ensures
            r == self.0.state@.contains_key(key@),
    {
        self.0.state.get(key.as_str()).is_some()
    }

    // ---- Orders ----
    /// Orders shares at the opening price of the next bar, in place of an order given
    /// before. An order of no shares is none.
    pub fn buy(&mut self, _price: N, shares: i64)
        ensures
            shares > 0 ==> final(self).0.pending == Some(Order { buy: true, shares }),
            shares <= 0 ==> final(self).0.pending == old(self).0.pending,
            final(self).0.pending == order_given(old(self).0.pending, true, shares),
            final(self).0 == (Inner { pending: final(self).0.pending, ..old(self).0 }),
    {
        if shares > 0 {
            self.0.pending = Some(Order { buy: true, shares });
        }
    }

    /// Offers shares at the opening price of the next bar, in place of an order given
    /// before. An order of no shares is none.
    pub fn sell(&mut self, _price: N, shares: i64)
        ensures
            shares > 0 ==> final(self).0.pending == Some(Order { buy: false, shares }),
            shares <= 0 ==> final(self).0.pending == old(self).0.pending,
            final(self).0.pending == order_given(old(self).0.pending, false, shares),
            final(self).0 == (Inner { pending: final(self).0.pending, ..old(self).0 }),
    {
        if shares > 0 {
            self.0.pending = Some(Order { buy: false, shares });
        }
    }
}

/// Cash and shares at a price.
pub open spec fn worth<N: Scalar>(cash: N, shares: i64, price: N) -> N {
    cash.sum(N::whole(shares as int).product(price))
}

/// What has been kept under a name is what is found there, whatever is asked for by
/// default, and nothing else changes.
pub proof fn kept_is_found<N: Scalar>(
    m: Map<Seq<char>, N>,
    key: Seq<char>,
    val: N,
    other: Seq<char>,
    default: N,
)
    ensures
        named(m.insert(key, val), key, default) == val,
        other != key ==> named(m.insert(key, val), other, default) == named(m, other, default),
{
}

// ---------------------------------------------------------------------------
// No look-ahead
// ---------------------------------------------------------------------------
/// Two back tests are of one security up to bar `n`: the bars and the valuations before it
/// are the same, and so are the rules and the parameters. What comes later may differ.
pub open spec fn same_until<N: Scalar>(a: Ctx<N>, b: Ctx<N>, n: int) -> bool {
    &&& n <= a.0.klines@.len()
    &&& n <= b.0.klines@.len()
    &&& forall|k: int| 0 <= k < n ==> (#[trigger] a.0.klines@[k])@ == b.0.klines@[k]@
    &&& forall|k: int| 0 <= k < n ==> #[trigger] a.0.pe@[k] == b.0.pe@[k]
    &&& forall|k: int| 0 <= k < n ==> #[trigger] a.0.pb@[k] == b.0.pb@[k]
    &&& forall|k: int| 0 <= k < n ==> #[trigger] a.0.ps@[k] == b.0.ps@[k]
    &&& forall|k: int| 0 <= k < n ==> #[trigger] a.0.mv@[k] == b.0.mv@[k]
    &&& a.0.fee == b.0.fee
    &&& a.0.lot == b.0.lot
    &&& a.0.params@ == b.0.params@
}

/// What a strategy learns at a bar, looking back or not, does not depend on later bars:
/// the bar, the valuations, the earlier closing prices and the lines of the chart are the
/// same in two back tests that are the same up to and with that bar.
pub proof fn answers_know_no_future<N: Scalar>(a: Ctx<N>, b: Ctx<N>, line: Line<N>, back: int)
    requires
        a.ready(),
        b.ready(),
        a.0.i == b.0.i,
        same_until(a, b, a.0.i + 1),
        back >= 0,
    ensures
        a.bar()@ == b.bar()@,
        a.line(line, back) == b.line(line, back),
        a.0.i - back >= 0 ==> a.0.klines@[a.0.i - back].close == b.0.klines@[b.0.i - back].close,
        a.0.pe@[a.0.i as int] == b.0.pe@[b.0.i as int],
        a.0.pb@[a.0.i as int] == b.0.pb@[b.0.i as int],
        a.0.ps@[a.0.i as int] == b.0.ps@[b.0.i as int],
        a.0.mv@[a.0.i as int] == b.0.mv@[b.0.i as int],
{
    let i = a.0.i - back;
    assert forall|k: int| 0 <= k <= i implies a.0.chart.closes@[k] == b.0.chart.closes@[k]
        && a.0.chart.highs@[k] == b.0.chart.highs@[k] && a.0.chart.lows@[k]
        == b.0.chart.lows@[k] by {
        assert(a.0.klines@[k]@ == b.0.klines@[k]@);
        assert(a.0.klines@[k].close == a.0.klines@[k]@.close);
        assert(b.0.klines@[k].close == b.0.klines@[k]@.close);
        assert(a.0.klines@[k].high == a.0.klines@[k]@.high);
        assert(b.0.klines@[k].high == b.0.klines@[k]@.high);
        assert(a.0.klines@[k].low == a.0.klines@[k]@.low);
        assert(b.0.klines@[k].low == b.0.klines@[k]@.low);
    }
    chart::same_past_same_lines(
        line,
        a.0.chart.highs@,
        a.0.chart.lows@,
        a.0.chart.closes@,
        b.0.chart.highs@,
        b.0.chart.lows@,
        b.0.chart.closes@,
        i,
    );
}

/// Back tests that begin with histories of one security are the same up to a bar where the
/// bars before it are the same and the valuations dated later are left aside.
pub proof fn histories_agree<N: Scalar>(
    a: Ctx<N>,
    b: Ctx<N>,
    bars_a: Seq<KLine<N>>,
    bars_b: Seq<KLine<N>>,
    valued_a: Seq<Fundamental<N>>,
    valued_b: Seq<Fundamental<N>>,
    capital: N,
    params: Map<Seq<char>, N>,
    n: int,
    known: int,
)
    requires
        a.begins(bars_a, capital, params, valued_a),
        b.begins(bars_b, capital, params, valued_b),
        a.0.fee == b.0.fee,
        a.0.lot == b.0.lot,
        0 < n <= bars_a.len(),
        n <= bars_b.len(),
        forall|k: int| 0 <= k < n ==> (#[trigger] bars_a[k])@ == bars_b[k]@,
        fundamental::ascending(bar_dates(bars_a)),
        fundamental::ascending(bar_dates(bars_b)),
        fundamental::ascending(fundamental::valuation_dates(models::valuations(valued_a))),
        fundamental::ascending(fundamental::valuation_dates(models::valuations(valued_b))),
        0 <= known <= valued_a.len(),
        known <= valued_b.len(),
        forall|k: int| 0 <= k < known ==> (#[trigger] valued_a[k])@ == valued_b[k]@,
        forall|k: int|
            known <= k < valued_a.len() ==> !text::not_after(
                (#[trigger] valued_a[k]).date@,
                bars_a[n - 1].date@,
            ),
        forall|k: int|
            known <= k < valued_b.len() ==> !text::not_after(
                (#[trigger] valued_b[k]).date@,
                bars_a[n - 1].date@,
            ),
    ensures
        same_until(a, b, n),
{
    let da = bar_dates(bars_a);
    let db = bar_dates(bars_b);
    let fa = models::valuations(valued_a);
    let fb = models::valuations(valued_b);
    assert forall|k: int| 0 <= k < n implies fundamental::current(da, fa, k)
        == fundamental::current(db, fb, k) by {
        assert(bars_a[k]@ == bars_b[k]@);
        assert(bars_a[k]@.date == da[k] && bars_b[k]@.date == db[k]);
        fundamental::aligned_to_the_day(da, fa, k);
        fundamental::aligned_to_the_day(db, fb, k);
        let p = fundamental::passed(da, fa, k);
        let q = fundamental::passed(db, fb, k);
        assert(text::not_after(da[k], da[n - 1])) by {
            if k < n - 1 {
            } else {
                text::before_irreflexive(da[k]);
            }
        }
        if p > known {
            assert(text::not_after(fa[known].date, da[k]));
            text::not_after_transitive(fa[known].date, da[k], da[n - 1]);
            assert(valued_a[known].date@ == fa[known].date);
        }
        if q > known {
            assert(text::not_after(fb[known].date, db[k]));
            text::not_after_transitive(fb[known].date, da[k], da[n - 1]);
            assert(valued_b[known].date@ == fb[known].date);
        }
        if p < q {
            assert(valued_a[p]@ == valued_b[p]@);
            assert(fa[p].date == fb[p].date);
        }
        if q < p {
            assert(valued_a[q]@ == valued_b[q]@);
            assert(fa[q].date == fb[q].date);
        }
        if p > 0 {
            assert(valued_a[p - 1]@ == valued_b[p - 1]@);
        }
    }
}

/// The usual rates of a portfolio are those of the mainland.
pub proof fn usual_fees_are_of_the_mainland()
    ensures
        usual_fees::<Fixed>() == (Fees {
            buy_rate: fixed::of_units(300),
            sell_rate: fixed::of_units(300),
            stamp_rate: fixed::of_units(1_000),
        }),
{
    rules::fraction_in_units(3, 10_000, 300);
    rules::fraction_in_units(1, 1_000, 1_000);
}

// ---------------------------------------------------------------------------
// Looking back and ordering
// ---------------------------------------------------------------------------
/// Looking back is seeing what was seen before: the closing price some bars before a bar is
/// that of the bar itself when it was the one seen, and one bar further back is as far back
/// from the bar before.
pub proof fn looking_back_is_seeing_again<N: Scalar>(closes: Seq<N>, i: int, n: int)
    requires
        0 <= i < closes.len(),
        0 <= n,
    ensures
        n <= i ==> close_before(closes, i, n) == close_before(closes, i - n, 0),
        close_before(closes, i, 0) == closes[i],
        0 < i ==> close_before(closes, i, n + 1) == close_before(closes, i - 1, n),
        i < n ==> close_before(closes, i, n) == N::undefined(),
{
}

/// A line some bars back is what the line was when the strategy saw that bar.
pub proof fn line_back_is_the_line_then<N: Scalar>(
    now: Ctx<N>,
    earlier: Ctx<N>,
    line: Line<N>,
    back: int,
)
    requires
        now.ready(),
        earlier.ready(),
        now.0.chart.same_prices(&earlier.0.chart),
        earlier.0.i == now.0.i - back,
    ensures
        now.line(line, back) == earlier.line(line, 0),
{
}

/// The order given last stands, whatever was ordered before, and an order of no shares
/// changes nothing.
pub proof fn last_order_stands(pending: Option<Order>, first: (bool, i64), second: (bool, i64))
    ensures
        ({
            let one = order_given(pending, first.0, first.1);
            let both = order_given(one, second.0, second.1);
            &&& 0 < second.1 ==> both is Some && both.unwrap().buy == second.0
                && both.unwrap().shares == second.1
            &&& second.1 <= 0 ==> both == one
            &&& first.1 <= 0 && second.1 <= 0 ==> both == pending
        }),
{
}

/// What is kept under a name is told as the nearest whole number, where that is asked for.
pub proof fn kept_is_rounded(m: Map<Seq<char>, Fixed>, name: Seq<char>, default: i64)
    requires
        m.contains_key(name),
        m[name].defined,
    ensures
        2 * (named_int(m, name, default) * SCALE - m[name].units) <= SCALE,
        2 * (m[name].units - named_int(m, name, default) * SCALE) <= SCALE,
{
    fixed::nearest_is_closest(m[name]);
}

} // verus!
