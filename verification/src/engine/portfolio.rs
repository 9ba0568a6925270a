//! The back test of a strategy on several securities.
//!
//! The strategy is asked once for each trading day and sees every security. The days are
//! those on which any of them was traded. An order is filled at the opening price of the
//! next day, the sales before the purchases, so that their proceeds can be spent; a
//! security that is not traded that day drops its orders. What is held is valued at the
//! last closing price known.
use super::backtest;
use super::chart;
use super::chart::{Chart, Line};
use super::context;
use super::context::{can_afford, look_up, look_up_int, lots_to_buy, Fees, TradeRec};
use super::metrics;
use super::metrics::Metrics;
use super::rules;
use super::rules::floor_to_lot;
use crate::data::fundamental;
use crate::data::fundamental::align;
use crate::data::models;
use crate::data::models::FundamentalView;
use crate::data::{Fundamental, KLine};
use crate::fixed::{Fixed, SCALE};
use crate::num;
use crate::num::Scalar;
use crate::order;
use crate::order::{Entry, EntryView};
use crate::table::Table;
use crate::text;
use vstd::prelude::*;

verus! {

// ---------------------------------------------------------------------------
// Records
// ---------------------------------------------------------------------------
/// The bars and the valuations of one security.
pub struct StockData<N: Scalar> {
    pub code: String,
    pub name: String,
    pub klines: Vec<KLine<N>>,
    pub funda: Vec<Fundamental<N>>,
}

/// A trade of a portfolio.
pub struct PfTrade<N: Scalar> {
    pub date: String,
    pub code: String,
    pub action: String,
    pub price: N,
    pub shares: i64,
    pub pnl_pct: Option<N>,
}

/// A trade with its texts as sequences of characters.
pub ghost struct PfTradeView<N: Scalar> {
    pub date: Seq<char>,
    pub code: Seq<char>,
    pub action: Seq<char>,
    pub price: N,
    pub shares: i64,
    pub pnl_pct: Option<N>,
}

impl<N: Scalar> View for PfTrade<N> {
    type V = PfTradeView<N>;

    open spec fn view(&self) -> PfTradeView<N> {
        PfTradeView {
            date: self.date@,
            code: self.code@,
            action: self.action@,
            price: self.price,
            shares: self.shares,
            pnl_pct: self.pnl_pct,
        }
    }
}

impl<N: Scalar> Clone for PfTrade<N> {
    fn clone(&self) -> (r: Self)
        ensures
            r@ == self@,
    {
        PfTrade {
            date: self.date.clone(),
            code: self.code.clone(),
            action: self.action.clone(),
            price: self.price,
            shares: self.shares,
            pnl_pct: self.pnl_pct,
        }
    }
}

/// The trades made.
pub open spec fn records<N: Scalar>(trades: Seq<PfTrade<N>>) -> Seq<PfTradeView<N>> {
    Seq::new(trades.len(), |i: int| trades[i]@)
}

/// What is held of one security in the end.
pub struct Holding<N: Scalar> {
    pub code: String,
    pub name: String,
    pub shares: i64,
    pub avg_cost: N,
    pub last_price: N,
    pub value: N,
    pub pnl_pct: N,
}

/// A holding with its texts as sequences of characters.
pub ghost struct HoldingView<N: Scalar> {
    pub code: Seq<char>,
    pub name: Seq<char>,
    pub shares: i64,
    pub avg_cost: N,
    pub last_price: N,
    pub value: N,
    pub pnl_pct: N,
}

impl<N: Scalar> View for Holding<N> {
    type V = HoldingView<N>;

    open spec fn view(&self) -> HoldingView<N> {
        HoldingView {
            code: self.code@,
            name: self.name@,
            shares: self.shares,
            avg_cost: self.avg_cost,
            last_price: self.last_price,
            value: self.value,
            pnl_pct: self.pnl_pct,
        }
    }
}

/// What the back test of a portfolio yields.
pub struct PortfolioResult<N: Scalar> {
    pub metrics: Metrics<N>,
    pub trades: Vec<PfTrade<N>>,
    pub equity: Vec<N>,
    pub dates: Vec<String>,
    pub holdings: Vec<Holding<N>>,
    pub stock_count: usize,
}

/// An order for one of the securities that waits for the next day.
#[derive(Debug, Clone, Copy)]
pub struct PfOrder {
    pub series: usize,
    pub buy: bool,
    pub shares: i64,
}

/// Shares held and what they cost on average, fees left aside.
#[derive(Debug)]
pub struct Pos<N: Scalar> {
    pub shares: i64,
    pub avg_cost: N,
}

impl<N: Scalar> Clone for Pos<N> {
    fn clone(&self) -> (r: Self)
        ensures
            r == *self,
    {
        *self
    }
}

impl<N: Scalar> Copy for Pos<N> {

}

// ---------------------------------------------------------------------------
// The state
// ---------------------------------------------------------------------------
/// One security: its own bars, one after the other.
pub struct Series<N: Scalar> {
    pub code: String,
    pub name: String,
    pub opens: Vec<N>,
    pub vols: Vec<N>,
    pub chart: Chart<N>,
    pub pe: Vec<N>,
    pub pb: Vec<N>,
    pub ps: Vec<N>,
    pub mv: Vec<N>,
    /// The bar of each trading day, where the security was traded.
    pub local: Vec<Option<usize>>,
}

impl<N: Scalar> Series<N> {
    /// All series are of one length, and the bars of the trading days are among them.
    pub open spec fn wf(&self, days: nat) -> bool {
        let n = self.chart.closes@.len();
        &&& self.chart.wf()
        &&& self.opens@.len() == n
        &&& self.vols@.len() == n
        &&& self.pe@.len() == n
        &&& self.pb@.len() == n
        &&& self.ps@.len() == n
        &&& self.mv@.len() == n
        &&& self.local@.len() == days
        &&& forall|d: int|
            0 <= d < days ==> (#[trigger] self.local@[d] matches Some(l) ==> l < n)
    }

    /// All but the lines kept by the chart is the same.
    pub open spec fn same(&self, other: &Self) -> bool {
        &&& self.code@ == other.code@
        &&& self.name@ == other.name@
        &&& self.opens@ == other.opens@
        &&& self.vols@ == other.vols@
        &&& self.chart.same_prices(&other.chart)
        &&& self.pe@ == other.pe@
        &&& self.pb@ == other.pb@
        &&& self.ps@ == other.ps@
        &&& self.mv@ == other.mv@
        &&& self.local@ == other.local@
    }
}

/// The last bar of a date.
pub open spec fn last_bar<N: Scalar>(klines: Seq<KLine<N>>, date: Seq<char>) -> Option<usize>
    decreases klines.len(),
{
    if klines.len() == 0 {
        None
    } else if klines.last().date@ == date {
        Some((klines.len() - 1) as usize)
    } else {
        last_bar(klines.drop_last(), date)
    }
}

/// A series is made of the bars of a security, laid out along trading days.
pub open spec fn laid_out<N: Scalar>(s: Series<N>, stock: StockData<N>, dates: Seq<Seq<char>>) -> bool {
    let ks = stock.klines@;
    let own = context::bar_dates(ks);
    let fs = models::valuations(stock.funda@);
    &&& s.wf(dates.len())
    &&& s.code@ == stock.code@
    &&& s.name@ == stock.name@
    &&& s.opens@ == Seq::new(ks.len(), |i: int| ks[i].open)
    &&& s.chart.highs@ == Seq::new(ks.len(), |i: int| ks[i].high)
    &&& s.chart.lows@ == Seq::new(ks.len(), |i: int| ks[i].low)
    &&& s.chart.closes@ == Seq::new(ks.len(), |i: int| ks[i].close)
    &&& s.vols@ == Seq::new(ks.len(), |i: int| ks[i].volume)
    &&& s.pe@ == fundamental::ratios(own, fs, |f: FundamentalView<N>| f.pe_ttm)
    &&& s.pb@ == fundamental::ratios(own, fs, |f: FundamentalView<N>| f.pb_mrq)
    &&& s.ps@ == fundamental::ratios(own, fs, |f: FundamentalView<N>| f.ps_ttm)
    &&& s.mv@ == fundamental::ratios(own, fs, |f: FundamentalView<N>| f.total_mv)
    &&& forall|d: int| 0 <= d < dates.len() ==> #[trigger] s.local@[d] == last_bar(ks, dates[d])
}

/// A day on which one of the securities was traded.
pub open spec fn traded<N: Scalar>(stocks: Seq<StockData<N>>, date: Seq<char>) -> bool {
    exists|s: int, k: int|
        0 <= s < stocks.len() && 0 <= k < stocks[s].klines@.len()
            && #[trigger] stocks[s].klines@[k].date@ == date
}

/// The state of the back test of a portfolio.
pub struct PfInner<N: Scalar> {
    pub dates: Vec<String>,
    pub series: Vec<Series<N>>,
    /// The day that the strategy sees.
    pub i: usize,
    pub cash: N,
    pub initial: N,
    /// What is held of each security.
    pub positions: Vec<Option<Pos<N>>>,
    /// The last closing price known of each security; zero before the first.
    pub last_price: Vec<N>,
    pub pending: Vec<PfOrder>,
    pub trades: Vec<PfTrade<N>>,
    pub equity: Vec<N>,
    pub fees: Fees<N>,
    pub params: Table<N>,
    /// What the strategy keeps for later days.
    pub state: Table<N>,
}

/// The money, the holdings and the trades of a portfolio.
pub ghost struct Book<N: Scalar> {
    pub cash: N,
    pub positions: Seq<Option<Pos<N>>>,
    pub trades: Seq<PfTradeView<N>>,
}

/// The codes of the securities.
pub open spec fn codes<N: Scalar>(series: Seq<Series<N>>) -> Seq<Seq<char>> {
    Seq::new(series.len(), |s: int| series[s].code@)
}

/// The last of the texts that is a given one.
pub open spec fn last_of(s: Seq<Seq<char>>, t: Seq<char>) -> Option<int>
    decreases s.len(),
{
    if s.len() == 0 {
        None
    } else if s.last() == t {
        Some(s.len() - 1)
    } else {
        last_of(s.drop_last(), t)
    }
}

pub proof fn last_of_bound(s: Seq<Seq<char>>, t: Seq<char>)
    ensures
        last_of(s, t) matches Some(k) ==> 0 <= k < s.len() && s[k] == t,
    decreases s.len(),
{
    if s.len() > 0 && s.last() != t {
        last_of_bound(s.drop_last(), t);
    }
}

/// What is held is worth, added to the cash security by security.
pub open spec fn valued<N: Scalar>(
    cash: N,
    positions: Seq<Option<Pos<N>>>,
    prices: Seq<N>,
    n: int,
) -> N
    decreases n,
{
    if n <= 0 {
        cash
    } else {
        let sum = valued(cash, positions, prices, n - 1);
        match positions[n - 1] {
            Some(p) => sum.sum(N::whole(p.shares as int).product(prices[n - 1])),
            None => sum,
        }
    }
}

impl<N: Scalar> PfInner<N> {
    /// The series are laid out along the days, there is a place for what is held of each,
    /// and the orders are for securities that exist.
    pub open spec fn wf(&self) -> bool {
        let n = self.series@.len();
        &&& forall|s: int| 0 <= s < n ==> (#[trigger] self.series@[s]).wf(self.dates@.len())
        &&& self.positions@.len() == n
        &&& self.last_price@.len() == n
        &&& forall|k: int|
            0 <= k < self.pending@.len() ==> (#[trigger] self.pending@[k]).series < n
    }

    /// The days, the series, the rates and the parameters are the same.
    pub open spec fn same_market(&self, other: &Self) -> bool {
        &&& text::texts(self.dates@) == text::texts(other.dates@)
        &&& self.series@.len() == other.series@.len()
        &&& forall|s: int|
            0 <= s < self.series@.len() ==> (#[trigger] self.series@[s]).same(&other.series@[s])
        &&& self.initial == other.initial
        &&& self.fees == other.fees
        &&& self.params@ == other.params@
    }

    /// All but the lines kept by the charts is the same.
    pub open spec fn same_but_lines(&self, other: &Self) -> bool {
        &&& self.same_market(other)
        &&& self.i == other.i
        &&& self.book() == other.book()
        &&& self.last_price@ == other.last_price@
        &&& self.pending@ == other.pending@
        &&& self.equity@ == other.equity@
        &&& self.state@ == other.state@
    }

    /// The money, the holdings and the trades.
    pub open spec fn book(&self) -> Book<N> {
        Book { cash: self.cash, positions: self.positions@, trades: records(self.trades@) }
    }

    /// The security of a code; the last where several have it.
    pub open spec fn find(&self, code: Seq<char>) -> Option<int> {
        last_of(codes(self.series@), code)
    }

    /// The bar of a security on a day.
    pub open spec fn bar_on(&self, s: int, day: int) -> Option<usize> {
        self.series@[s].local@[day]
    }

    /// The security of a code and its bar on the day that the strategy sees.
    pub open spec fn here(&self, code: Seq<char>) -> Option<(int, int)> {
        match self.find(code) {
            Some(s) => match self.bar_on(s, self.i as int) {
                Some(l) => Some((s, l as int)),
                None => None,
            },
            None => None,
        }
    }

    /// Cash and holdings at the last prices known.
    pub open spec fn worth(&self) -> N {
        valued(self.cash, self.positions@, self.last_price@, self.series@.len() as int)
    }

    /// What is held of a security.
    pub open spec fn held(&self, code: Seq<char>) -> Option<Pos<N>> {
        match self.find(code) {
            Some(s) => self.positions@[s],
            None => None,
        }
    }

    fn find_code(&self, code: &str) -> (r: Option<usize>)
        ensures
            match r {
                Some(s) => self.find(code@) == Some(s as int) && s < self.series@.len(),
                None => self.find(code@) is None,
            },
    {
        let ghost cs = codes(self.series@);
        let mut k: usize = self.series.len();
        assert(cs.take(k as int) =~= cs);
        while k > 0
            invariant
                cs == codes(self.series@),
                k <= cs.len(),
                last_of(cs.take(k as int), code@) == last_of(cs, code@),
            decreases k,
        {
            k -= 1;
            assert(cs.take(k + 1).drop_last() =~= cs.take(k as int));
            assert(cs.take(k + 1).last() == self.series@[k as int].code@);
            if text::same(self.series[k].code.as_str(), code) {
                return Some(k);
            }
        }
        None
    }

    /// The security of a code and its bar on the day that the strategy sees.
    fn locate(&self, code: &str) -> (r: Option<(usize, usize)>)
        requires
            self.wf(),
            self.i < self.dates@.len(),
        ensures
            match r {
                Some((s, l)) => self.here(code@) == Some((s as int, l as int)) && s
                    < self.series@.len() && l < self.series@[s as int].chart.closes@.len(),
                None => self.here(code@) is None,
            },
    {
        match self.find_code(code) {
            Some(s) => {
                assert(self.series@[s as int].wf(self.dates@.len()));
                match self.series[s].local[self.i] {
                    Some(l) => Some((s, l)),
                    None => None,
                }
            },
            None => None,
        }
    }

    fn total(&self) -> (r: N)
        requires
            self.wf(),
        ensures
            r == self.worth(),
    {
        let mut tv = self.cash;
        let mut s: usize = 0;
        while s < self.series.len()
            invariant
                self.wf(),
                s <= self.series@.len(),
                tv == valued(self.cash, self.positions@, self.last_price@, s as int),
            decreases self.series@.len() - s,
        {
            match self.positions[s] {
                Some(p) => {
                    tv = tv.plus(N::from_int(p.shares as i128).times(self.last_price[s]));
                },
                None => {},
            }
            s += 1;
        }
        tv
    }
}

// ---------------------------------------------------------------------------
// Filling orders
// ---------------------------------------------------------------------------
/// A portfolio after an order for a security has been filled at a price. Where there is
/// nothing to buy or to sell it stays as it is.
pub open spec fn filled<N: Scalar>(
    b: Book<N>,
    order: PfOrder,
    price: N,
    date: Seq<char>,
    code: Seq<char>,
    fees: Fees<N>,
) -> Book<N> {
    let s = order.series as int;
    if num::not_above_zero(price) {
        b
    } else if order.buy {
        let shares = context::lots_bought(b.cash, price, fees.buy_rate, order.shares, 100);
        if shares <= 0 {
            b
        } else {
            let cost = N::whole(shares).product(price);
            let before = match b.positions[s] {
                Some(p) => p,
                None => Pos { shares: 0, avg_cost: num::nil::<N>() },
            };
            let total = before.shares.wrapping_add(shares as i64);
            Book {
                cash: b.cash.difference(cost.sum(cost.product(fees.buy_rate))),
                positions: b.positions.update(
                    s,
                    Some(
                        Pos {
                            shares: total,
                            avg_cost: before.avg_cost.product(N::whole(before.shares as int)).sum(
                                cost,
                            ).quotient(N::whole(total as int)),
                        },
                    ),
                ),
                trades: b.trades.push(
                    PfTradeView {
                        date,
                        code,
                        action: "BUY"@,
                        price,
                        shares: shares as i64,
                        pnl_pct: None,
                    },
                ),
            }
        }
    } else {
        match b.positions[s] {
            Some(p) => {
                let shares = if order.shares <= p.shares {
                    order.shares
                } else {
                    p.shares
                };
                if shares <= 0 {
                    b
                } else {
                    let proceeds = N::whole(shares as int).product(price);
                    Book {
                        cash: b.cash.sum(
                            proceeds.difference(
                                proceeds.product(fees.sell_rate.sum(fees.stamp_rate)),
                            ),
                        ),
                        positions: b.positions.update(
                            s,
                            if p.shares == shares {
                                None
                            } else {
                                Some(Pos { shares: (p.shares - shares) as i64, ..p })
                            },
                        ),
                        trades: b.trades.push(
                            PfTradeView {
                                date,
                                code,
                                action: "SELL"@,
                                price,
                                shares,
                                pnl_pct: backtest::gain_on_sale(price, p.avg_cost),
                            },
                        ),
                    }
                }
            },
            None => b,
        }
    }
}

impl<N: Scalar> PfInner<N> {
    /// A book after an order has been filled on a day. A security that is not traded that
    /// day drops the order.
    pub open spec fn fill_one(&self, b: Book<N>, order: PfOrder, day: int) -> Book<N> {
        let s = order.series as int;
        match self.bar_on(s, day) {
            Some(l) => filled(
                b,
                order,
                self.series@[s].opens@[l as int],
                self.dates@[day]@,
                self.series@[s].code@,
                self.fees,
            ),
            None => b,
        }
    }

    /// A book after orders have been filled one after the other.
    pub open spec fn fill_all(&self, b: Book<N>, orders: Seq<PfOrder>, day: int) -> Book<N>
        decreases orders.len(),
    {
        if orders.len() == 0 {
            b
        } else {
            self.fill_one(self.fill_all(b, orders.drop_last(), day), orders.last(), day)
        }
    }

    /// Everything that filling an order reads besides the book.
    spec fn same_venue(&self, other: &Self) -> bool {
        &&& self.series@ == other.series@
        &&& self.dates@ == other.dates@
        &&& self.fees == other.fees
    }

    proof fn same_fills(&self, other: &Self, b: Book<N>, orders: Seq<PfOrder>, day: int)
        requires
            self.same_venue(other),
        ensures
            self.fill_all(b, orders, day) == other.fill_all(b, orders, day),
        decreases orders.len(),
    {
        if orders.len() > 0 {
            self.same_fills(other, b, orders.drop_last(), day);
        }
    }

    /// Fills an order at the opening price of the day that the strategy is to see.
    fn fill(&mut self, order: PfOrder)
        requires
            old(self).wf(),
            old(self).i < old(self).dates@.len(),
            order.series < old(self).series@.len(),
        ensures
            final(self).wf(),
            final(self).same_venue(&*old(self)),
            final(self).i == old(self).i,
            final(self).initial == old(self).initial,
            final(self).params@ == old(self).params@,
            final(self).last_price@ == old(self).last_price@,
            final(self).pending@ == old(self).pending@,
            final(self).equity@ == old(self).equity@,
            final(self).state@ == old(self).state@,
            final(self).book() == old(self).fill_one(
                old(self).book(),
                order,
                old(self).i as int,
            ),
    {
        let si = order.series;
        assert(self.series@[si as int].wf(self.dates@.len()));
        let li = match self.series[si].local[self.i] {
            Some(l) => l,
            None => {
                return;
            },
        };
        let price = self.series[si].opens[li];
        if num::non_positive(price) {
            return;
        }
        let date = self.dates[self.i].clone();
        let code = self.series[si].code.clone();
        let ghost seen = records(self.trades@);
        if order.buy {
            let shares: i64 = lots_to_buy(
                self.cash,
                price,
                self.fees.buy_rate,
                order.shares,
                100,
            );
            if shares <= 0 {
                return;
            }
            let cost = N::from_int(shares as i128).times(price);
            let fee = cost.times(self.fees.buy_rate);
            let before = match self.positions[si] {
                Some(p) => p,
                None => Pos { shares: 0, avg_cost: num::zero::<N>() },
            };
            let prev_cost = before.avg_cost.times(N::from_int(before.shares as i128));
            let total: i64 = before.shares.wrapping_add(shares);
            let avg_cost = prev_cost.plus(cost).over(N::from_int(total as i128));
            self.positions.set(si, Some(Pos { shares: total, avg_cost }));
            self.cash = self.cash.minus(cost.plus(fee));
            self.trades.push(
                PfTrade { date, code, action: "BUY".to_owned(), price, shares, pnl_pct: None },
            );
        } else {
            let p = match self.positions[si] {
                Some(p) => p,
                None => {
                    return;
                },
            };
            let shares: i64 = if order.shares <= p.shares {
                order.shares
            } else {
                p.shares
            };
            if shares <= 0 {
                return;
            }
            let proceeds = N::from_int(shares as i128).times(price);
            let fee = proceeds.times(self.fees.sell_rate.plus(self.fees.stamp_rate));
            let pnl_pct = if num::positive(p.avg_cost) {
                Some(price.minus(p.avg_cost).over(p.avg_cost))
            } else {
                None
            };
            self.cash = self.cash.plus(proceeds.minus(fee));
            if p.shares == shares {
                self.positions.set(si, None);
            } else {
                self.positions.set(
                    si,
                    Some(Pos { shares: p.shares - shares, avg_cost: p.avg_cost }),
                );
            }
            self.trades.push(
                PfTrade { date, code, action: "SELL".to_owned(), price, shares, pnl_pct },
            );
        }
        assert(records(self.trades@) =~= seen.push(self.trades@.last()@));
    }
}

/// The purchases or the sales among orders, in order.
pub open spec fn side(orders: Seq<PfOrder>, buy: bool) -> Seq<PfOrder>
    decreases orders.len(),
{
    if orders.len() == 0 {
        orders
    } else if orders.last().buy == buy {
        side(orders.drop_last(), buy).push(orders.last())
    } else {
        side(orders.drop_last(), buy)
    }
}

impl<N: Scalar> PfInner<N> {
    /// Fills the purchases or the sales among orders, one after the other.
    fn fill_side(&mut self, orders: &Vec<PfOrder>, buy: bool)
        requires
            old(self).wf(),
            old(self).i < old(self).dates@.len(),
            forall|k: int|
                0 <= k < orders@.len() ==> (#[trigger] orders@[k]).series
                    < old(self).series@.len(),
        ensures
            final(self).wf(),
            final(self).same_venue(&*old(self)),
            final(self).i == old(self).i,
            final(self).initial == old(self).initial,
            final(self).params@ == old(self).params@,
            final(self).last_price@ == old(self).last_price@,
            final(self).pending@ == old(self).pending@,
            final(self).equity@ == old(self).equity@,
            final(self).state@ == old(self).state@,
            final(self).book() == old(self).fill_all(
                old(self).book(),
                side(orders@, buy),
                old(self).i as int,
            ),
    {
        let ghost start = *self;
        let mut k: usize = 0;
        assert(orders@.take(0) =~= Seq::<PfOrder>::empty());
        while k < orders.len()
            invariant
                start == *old(self),
                self.wf(),
                start.i < start.dates@.len(),
                k <= orders@.len(),
                forall|k: int|
                    0 <= k < orders@.len() ==> (#[trigger] orders@[k]).series
                        < start.series@.len(),
                self.same_venue(&start),
                self.i == start.i,
                self.initial == start.initial,
                self.params@ == start.params@,
                self.last_price@ == start.last_price@,
                self.pending@ == start.pending@,
                self.equity@ == start.equity@,
                self.state@ == start.state@,
                self.book() == start.fill_all(
                    start.book(),
                    side(orders@.take(k as int), buy),
                    start.i as int,
                ),
            decreases orders@.len() - k,
        {
            let ghost before = *self;
            let ghost done = side(orders@.take(k as int), buy);
            assert(orders@.take(k + 1).drop_last() =~= orders@.take(k as int));
            assert(orders@.take(k + 1).last() == orders@[k as int]);
            if orders[k].buy == buy {
                self.fill(orders[k]);
                assert(done.push(orders@[k as int]).drop_last() =~= done);
                assert(before.fill_one(before.book(), orders@[k as int], start.i as int)
                    == start.fill_one(before.book(), orders@[k as int], start.i as int));
            }
            k += 1;
        }
        assert(orders@.take(orders@.len() as int) =~= orders@);
    }
}

// ---------------------------------------------------------------------------
// What a strategy is handed
// ---------------------------------------------------------------------------
/// What a strategy is handed.
pub struct PortfolioCtx<N: Scalar>(pub PfInner<N>);

/// The momentum of a security over some bars: its return, where the earlier price is above
/// zero and the later one finite.
pub open spec fn momentum<N: Scalar>(s: Series<N>, l: int, lookback: int) -> Option<N> {
    if l - lookback < 0 {
        None
    } else {
        let past = s.chart.closes@[l - lookback];
        let cur = s.chart.closes@[l];
        if num::above_zero(past) && cur.bounded() {
            Some(cur.quotient(past).difference(num::unit::<N>()))
        } else {
            None
        }
    }
}

/// The first `n` securities that are traded on a day and have a momentum, with its rank.
pub open spec fn scored<N: Scalar>(
    series: Seq<Series<N>>,
    day: int,
    lookback: int,
    n: int,
) -> Seq<EntryView>
    decreases n,
{
    if n <= 0 {
        Seq::empty()
    } else {
        let before = scored(series, day, lookback, n - 1);
        let s = series[n - 1];
        match s.local@[day] {
            Some(l) => match momentum(s, l as int, lookback) {
                Some(m) => before.push(
                    EntryView { key: m.rank(), name: s.code@, tag: (n - 1) as usize },
                ),
                None => before,
            },
            None => before,
        }
    }
}

/// The momentum of the security that an entry stands for.
pub open spec fn score_of<N: Scalar>(
    series: Seq<Series<N>>,
    day: int,
    lookback: int,
    e: EntryView,
) -> Option<N> {
    let s = series[e.tag as int];
    match s.local@[day] {
        Some(l) => momentum(s, l as int, lookback),
        None => None,
    }
}

/// No security has a smaller momentum than one that comes after it.
pub open spec fn highest_first<N: Scalar>(
    series: Seq<Series<N>>,
    day: int,
    lookback: int,
    list: Seq<EntryView>,
) -> bool {
    forall|i: int, j: int|
        0 <= i < j < list.len() ==> match (
            score_of(series, day, lookback, #[trigger] list[i]),
            score_of(series, day, lookback, #[trigger] list[j]),
        ) {
            (Some(a), Some(b)) => !a.below(b),
            _ => false,
        }
}

/// The entry of a security is ordered as its momentum is.
spec fn scored_by<N: Scalar>(
    series: Seq<Series<N>>,
    day: int,
    lookback: int,
    e: EntryView,
) -> bool {
    match score_of(series, day, lookback, e) {
        Some(m) => e.key == m.rank() && num::ranked(m),
        None => false,
    }
}

proof fn ordered_by_score<N: Scalar>(
    series: Seq<Series<N>>,
    day: int,
    lookback: int,
    all: Seq<EntryView>,
    list: Seq<EntryView>,
)
    requires
        order::ordered(all, list),
        forall|k: int|
            0 <= k < all.len() ==> scored_by(series, day, lookback, #[trigger] all[k]),
    ensures
        highest_first(series, day, lookback, list),
{
    assert forall|i: int, j: int| 0 <= i < j < list.len() implies match (
        score_of(series, day, lookback, #[trigger] list[i]),
        score_of(series, day, lookback, #[trigger] list[j]),
    ) {
        (Some(a), Some(b)) => !a.below(b),
        _ => false,
    } by {
        order::ordered_keeps(all, list, i);
        order::ordered_keeps(all, list, j);
        let x = choose|x: int| 0 <= x < all.len() && all[x] == list[i];
        let y = choose|y: int| 0 <= y < all.len() && all[y] == list[j];
        assert(scored_by(series, day, lookback, all[x]));
        assert(scored_by(series, day, lookback, all[y]));
        assert(!order::ahead(list[j], list[i]));
    }
}

/// The first `n` securities that are traded on a day.
pub open spec fn active<N: Scalar>(series: Seq<Series<N>>, day: int, n: int) -> Seq<Seq<char>>
    decreases n,
{
    if n <= 0 {
        Seq::empty()
    } else if series[n - 1].local@[day] is Some {
        active(series, day, n - 1).push(series[n - 1].code@)
    } else {
        active(series, day, n - 1)
    }
}

/// The names of entries.
pub open spec fn names(s: Seq<EntryView>) -> Seq<Seq<char>> {
    Seq::new(s.len(), |i: int| s[i].name)
}

impl<N: Scalar> PortfolioCtx<N> {
    /// The state is well-formed, and the strategy sees one of the days.
    pub open spec fn ready(&self) -> bool {
        self.0.wf() && self.0.i < self.0.dates@.len()
    }

    /// A line of the chart of a security, `back` bars before the day that the strategy
    /// sees; undefined where the security is not traded that day.
    pub open spec fn line(&self, code: Seq<char>, line: Line<N>, back: int) -> N {
        match self.0.here(code) {
            Some((s, l)) => chart::value_at(
                line,
                self.0.series@[s].chart.highs@,
                self.0.series@[s].chart.lows@,
                self.0.series@[s].chart.closes@,
                l - back,
            ),
            None => N::undefined(),
        }
    }

    /// The back test of some securities that begins with some capital. Its days are those
    /// on which any of them was traded, in order.
    pub fn new(stocks: Vec<StockData<N>>, capital: N, params: Table<N>) -> (r: PortfolioCtx<N>)
        ensures
            r.0.wf(),
            order::strictly_ascending(text::texts(r.0.dates@)),
            forall|d: Seq<char>| #[trigger]
                text::texts(r.0.dates@).contains(d) <==> traded(stocks@, d),
            r.0.series@.len() == stocks@.len(),
            forall|s: int|
                0 <= s < stocks@.len() ==> laid_out(
                    #[trigger] r.0.series@[s],
                    stocks@[s],
                    text::texts(r.0.dates@),
                ),
            r.0.i == 0,
            r.0.initial == capital,
            r.0.book() == (Book {
                cash: capital,
                positions: Seq::new(stocks@.len(), |s: int| None),
                trades: Seq::empty(),
            }),
            r.0.last_price@ == Seq::new(stocks@.len(), |s: int| num::nil::<N>()),
            r.0.pending@.len() == 0,
            r.0.equity@.len() == 0,
            r.0.fees == context::usual_fees::<N>(),
            r.0.params@ == params@,
            r.0.state@ == Map::<Seq<char>, N>::empty(),
    {
        let dates = union_of_dates(&stocks);
        let ns = stocks.len();
        let mut series: Vec<Series<N>> = Vec::new();
        let mut s: usize = 0;
        while s < ns
            invariant
                ns == stocks@.len(),
                s <= ns,
                order::strictly_ascending(text::texts(dates@)),
                forall|d: Seq<char>| #[trigger]
                    text::texts(dates@).contains(d) <==> traded(stocks@, d),
                series@.len() == s,
                forall|j: int|
                    0 <= j < s ==> laid_out(
                        #[trigger] series@[j],
                        stocks@[j],
                        text::texts(dates@),
                    ),
            decreases ns - s,
        {
            assert forall|k: int| 0 <= k < stocks@[s as int].klines@.len() implies #[trigger] text::texts(
                dates@,
            ).contains(stocks@[s as int].klines@[k].date@) by {
                assert(traded(stocks@, stocks@[s as int].klines@[k].date@));
            }
            series.push(lay_out(&stocks[s], &dates));
            s += 1;
        }
        let positions: Vec<Option<Pos<N>>> = num::filled(None, ns);
        let last_price: Vec<N> = num::filled(num::zero::<N>(), ns);
        let r = PortfolioCtx(
            PfInner {
                dates,
                series,
                i: 0,
                cash: capital,
                initial: capital,
                positions,
                last_price,
                pending: Vec::new(),
                trades: Vec::new(),
                equity: Vec::new(),
                fees: Fees::default(),
                params,
                state: Table::new(),
            },
        );
        assert(records(r.0.trades@) =~= Seq::<PfTradeView<N>>::empty());
        assert(r.0.last_price@ =~= Seq::new(stocks@.len(), |s: int| num::nil::<N>()));
        r
    }

    /// All trading days.
    pub fn dates(&self) -> (r: Vec<String>)
        ensures
            text::texts(r@) == text::texts(self.0.dates@),
    {
        copy_texts(&self.0.dates)
    }

    /// The day that the strategy sees.
    pub fn date(&self) -> (r: String)
        requires
            self.ready(),
        ensures
            r@ == self.0.dates@[self.0.i as int]@,
    {
        self.0.dates[self.0.i].clone()
    }

    /// The codes of the securities that are traded today.
    pub fn stocks(&self) -> (r: Vec<String>)
        requires
            self.ready(),
        ensures
            text::texts(r@) == active(
                self.0.series@,
                self.0.i as int,
                self.0.series@.len() as int,
            ),
    {
        let mut out: Vec<String> = Vec::new();
        let mut s: usize = 0;
        assert(text::texts(out@) =~= Seq::<Seq<char>>::empty());
        while s < self.0.series.len()
            invariant
                self.ready(),
                s <= self.0.series@.len(),
                text::texts(out@) == active(self.0.series@, self.0.i as int, s as int),
            decreases self.0.series@.len() - s,
        {
            assert(self.0.series@[s as int].wf(self.0.dates@.len()));
            if self.0.series[s].local[self.0.i].is_some() {
                let ghost before = out@;
                out.push(self.0.series[s].code.clone());
                assert(text::texts(out@) =~= text::texts(before).push(
                    self.0.series@[s as int].code@,
                ));
            }
            s += 1;
        }
        out
    }

    /// The codes of all securities.
    pub fn universe(&self) -> (r: Vec<String>)
        ensures
            text::texts(r@) == codes(self.0.series@),
    {
        let mut out: Vec<String> = Vec::new();
        let mut s: usize = 0;
        while s < self.0.series.len()
            invariant
                s <= self.0.series@.len(),
                text::texts(out@) == codes(self.0.series@).take(s as int),
            decreases self.0.series@.len() - s,
        {
            let ghost before = out@;
            out.push(self.0.series[s].code.clone());
            s += 1;
            assert(text::texts(out@) =~= text::texts(before).push(out@.last()@));
            assert(text::texts(out@) =~= codes(self.0.series@).take(s as int));
        }
        assert(text::texts(out@) =~= codes(self.0.series@));
        out
    }

    /// Every security that is traded today has the bar that a lookback asks for, or none
    /// so early.
    pub open spec fn can_look_back(&self, lookback: int) -> bool {
        forall|s: int|
            0 <= s < self.0.series@.len() ==> (#[trigger] self.0.bar_on(s, self.0.i as int) matches Some(
                l,
            ) ==> l - lookback < self.0.series@[s].chart.closes@.len())
    }

    /// Whether [`PortfolioCtx::rank`] can be asked for a lookback. A lookback of 0 or more
    /// always can.
    pub fn rank_fits(&self, lookback: i64) -> (r: bool)
        requires
            self.ready(),
        ensures
            r == self.can_look_back(lookback as int),
            lookback >= 0 ==> r,
    {
        let mut s: usize = 0;
        while s < self.0.series.len()
            invariant
                self.ready(),
                s <= self.0.series@.len(),
                forall|j: int|
                    0 <= j < s ==> (#[trigger] self.0.bar_on(j, self.0.i as int) matches Some(l)
                        ==> l - lookback < self.0.series@[j].chart.closes@.len()),
            decreases self.0.series@.len() - s,
        {
            assert(self.0.series@[s as int].wf(self.0.dates@.len()));
            match self.0.series[s].local[self.0.i] {
                Some(l) => {
                    assert(self.0.bar_on(s as int, self.0.i as int) == Some(l));
                    if l as i128 - lookback as i128 >= self.0.series[s].chart.closes.len() as i128 {
                        return false;
                    }
                },
                None => {},
            }
            s += 1;
        }
        true
    }

    /// The codes of the securities that are traded today, by their momentum over
    /// `lookback` bars, the highest first; the codes ascend where it is the same. Those
    /// without a momentum are left out.
    pub fn rank(&self, lookback: i64) -> (r: Vec<String>)
        requires
            self.ready(),
            self.can_look_back(lookback as int),
        ensures
            exists|s: Seq<EntryView>|
                order::ordered(
                    scored(
                        self.0.series@,
                        self.0.i as int,
                        lookback as int,
                        self.0.series@.len() as int,
                    ),
                    s,
                ) && highest_first(self.0.series@, self.0.i as int, lookback as int, s)
                    && text::texts(r@) == #[trigger] names(s),
    {
        let mut list: Vec<Entry> = Vec::new();
        let mut s: usize = 0;
        assert(order::entry_views(list@) =~= Seq::<EntryView>::empty());
        while s < self.0.series.len()
            invariant
                self.ready(),
                self.can_look_back(lookback as int),
                s <= self.0.series@.len(),
                order::entry_views(list@) == scored(
                    self.0.series@,
                    self.0.i as int,
                    lookback as int,
                    s as int,
                ),
                forall|k: int|
                    0 <= k < list@.len() ==> scored_by(
                        self.0.series@,
                        self.0.i as int,
                        lookback as int,
                        #[trigger] order::entry_views(list@)[k],
                    ),
            decreases self.0.series@.len() - s,
        {
            assert(self.0.series@[s as int].wf(self.0.dates@.len()));
            match self.0.series[s].local[self.0.i] {
                Some(l) => {
                    assert(self.0.bar_on(s as int, self.0.i as int) == Some(l));
                    let bars = self.0.series[s].chart.closes.len();
                    let idx: i128 = l as i128 - lookback as i128;
                    if idx >= 0 {
                        assert(idx < bars);
                        let past = self.0.series[s].chart.closes[idx as usize];
                        let cur = self.0.series[s].chart.closes[l];
                        if num::positive(past) && cur.is_finite() {
                            let m = cur.over(past).minus(num::one::<N>());
                            let ghost before = list@;
                            list.push(
                                Entry {
                                    key: m.order_key(),
                                    name: self.0.series[s].code.clone(),
                                    tag: s,
                                },
                            );
                            assert(order::entry_views(list@) =~= order::entry_views(before).push(
                                list@.last()@,
                            ));
                        }
                    }
                },
                None => {},
            }
            s += 1;
        }
        let ghost all = order::entry_views(list@);
        let sorted = order::sort(list);
        proof {
            ordered_by_score(
                self.0.series@,
                self.0.i as int,
                lookback as int,
                all,
                order::entry_views(sorted@),
            );
        }
        let mut out: Vec<String> = Vec::new();
        let mut k: usize = 0;
        while k < sorted.len()
            invariant
                k <= sorted@.len(),
                text::texts(out@) == names(order::entry_views(sorted@)).take(k as int),
            decreases sorted@.len() - k,
        {
            let ghost before = out@;
            out.push(sorted[k].name.clone());
            k += 1;
            assert(text::texts(out@) =~= text::texts(before).push(out@.last()@));
            assert(text::texts(out@) =~= names(order::entry_views(sorted@)).take(k as int));
        }
        assert(text::texts(out@) =~= names(order::entry_views(sorted@)));
        out
    }

    // ---- Prices ----
    /// The opening price of a security; undefined where it is not traded today.
    pub fn open(&self, code: String) -> (r: N)
        requires
            self.ready(),
        ensures
            r == (match self.0.here(code@) {
                Some((s, l)) => self.0.series@[s].opens@[l],
                None => N::undefined(),
            }),
    {
        match self.0.locate(code.as_str()) {
            Some((s, l)) => {
                assert(self.0.series@[s as int].wf(self.0.dates@.len()));
                self.0.series[s].opens[l]
            },
            None => N::nan(),
        }
    }

    pub fn high(&self, code: String) -> (r: N)
        requires
            self.ready(),
        ensures
            r == (match self.0.here(code@) {
                Some((s, l)) => self.0.series@[s].chart.highs@[l],
                None => N::undefined(),
            }),
    {
        match self.0.locate(code.as_str()) {
            Some((s, l)) => {
                assert(self.0.series@[s as int].wf(self.0.dates@.len()));
                self.0.series[s].chart.highs[l]
            },
            None => N::nan(),
        }
    }

    pub fn low(&self, code: String) -> (r: N)
        requires
            self.ready(),
        ensures
            r == (match self.0.here(code@) {
                Some((s, l)) => self.0.series@[s].chart.lows@[l],
                None => N::undefined(),
            }),
    {
        match self.0.locate(code.as_str()) {
            Some((s, l)) => {
                assert(self.0.series@[s as int].wf(self.0.dates@.len()));
                self.0.series[s].chart.lows[l]
            },
            None => N::nan(),
        }
    }

    pub fn close(&self, code: String) -> (r: N)
        requires
            self.ready(),
        ensures
            r == (match self.0.here(code@) {
                Some((s, l)) => self.0.series@[s].chart.closes@[l],
                None => N::undefined(),
            }),
    {
        match self.0.locate(code.as_str()) {
            Some((s, l)) => {
                assert(self.0.series@[s as int].wf(self.0.dates@.len()));
                self.0.series[s].chart.closes[l]
            },
            None => N::nan(),
        }
    }

    pub fn volume(&self, code: String) -> (r: N)
        requires
            self.ready(),
        ensures
            r == (match self.0.here(code@) {
                Some((s, l)) => self.0.series@[s].vols@[l],
                None => N::undefined(),
            }),
    {
        match self.0.locate(code.as_str()) {
            Some((s, l)) => {
                assert(self.0.series@[s as int].wf(self.0.dates@.len()));
                self.0.series[s].vols[l]
            },
            None => N::nan(),
        }
    }

    /// Whether [`PortfolioCtx::close_at`] can be asked for `n`: there is a bar, or none so
    /// early. For an `n` of 0 or more it always can.
    pub fn close_fits(&self, code: &str, n: i64) -> (r: bool)
        requires
            self.ready(),
        ensures
            r == (self.0.here(code@) matches Some((s, l)) ==> l - n
                < self.0.series@[s].chart.closes@.len()),
            n >= 0 ==> r,
    {
        match self.0.locate(code) {
            Some((s, l)) => {
                assert(self.0.series@[s as int].wf(self.0.dates@.len()));
                (l as i128 - n as i128) < self.0.series[s].chart.closes.len() as i128
            },
            None => true,
        }
    }

    /// The closing price of a security `n` of its bars ago; undefined before its first bar
    /// and where it is not traded today.
    pub fn close_at(&self, code: String, n: i64) -> (r: N)
        requires
            self.ready(),
            self.0.here(code@) matches Some((s, l)) ==> l - n
                < self.0.series@[s].chart.closes@.len(),
        ensures
            r == (match self.0.here(code@) {
                Some((s, l)) => if l - n < 0 {
                    N::undefined()
                } else {
                    self.0.series@[s].chart.closes@[l - n]
                },
                None => N::undefined(),
            }),
            self.0.here(code@) matches Some((s, l)) ==> r == context::close_before(
                self.0.series@[s].chart.closes@,
                l,
                n as int,
            ),
    {
        match self.0.locate(code.as_str()) {
            Some((s, l)) => {
                assert(self.0.series@[s as int].wf(self.0.dates@.len()));
                let bars = self.0.series[s].chart.closes.len();
                let idx: i128 = l as i128 - n as i128;
                if idx < 0 {
                    N::nan()
                } else {
                    assert(idx < bars);
                    self.0.series[s].chart.closes[idx as usize]
                }
            },
            None => N::nan(),
        }
    }

    // ---- Indicators ----
    /// A line of the chart of a security, `back` of its bars ago.
    fn indicator_at(&mut self, code: &str, line: Line<N>, back: i64) -> (r: N)
        requires
            old(self).ready(),
        ensures
            final(self).ready(),
            final(self).0.same_but_lines(&old(self).0),
            forall|c: Seq<char>, l: Line<N>, b: int| #[trigger]
                final(self).line(c, l, b) == old(self).line(c, l, b),
            r == old(self).line(code@, line, back as int),
    {
        let ghost before = self.0;
        match self.0.locate(code) {
            Some((s, l)) => {
                assert(self.0.series@[s as int].wf(self.0.dates@.len()));
                let series = &mut self.0.series[s];
                let r = series.chart.value(line, l, back);
                proof {
                    assert(self.0.series@[s as int].same(&before.series@[s as int]));
                    assert forall|j: int| 0 <= j < self.0.series@.len() implies (
                    #[trigger] self.0.series@[j]).same(&before.series@[j])
                        && self.0.series@[j].wf(self.0.dates@.len()) by {
                        assert(before.series@[j].wf(before.dates@.len()));
                    }
                    assert(codes(self.0.series@) =~= codes(before.series@));
                    assert forall|c: Seq<char>, l: Line<N>, b: int| #[trigger]
                        self.line(c, l, b) == old(self).line(c, l, b) by {
                        last_of_bound(codes(before.series@), c);
                    }
                }
                r
            },
            None => N::nan(),
        }
    }

    /// The simple moving average of a security.
    pub fn sma(&mut self, code: String, period: i64) -> (r: N)
        requires
            old(self).ready(),
        ensures
            final(self).ready(),
            final(self).0.same_but_lines(&old(self).0),
            r == old(self).line(code@, Line::Sma(period), 0),
    {
        self.sma_at(code, period, 0)
    }

    /// The simple moving average of a security `n` of its bars ago.
    pub fn sma_at(&mut self, code: String, period: i64, n: i64) -> (r: N)
        requires
            old(self).ready(),
        ensures
            final(self).ready(),
            final(self).0.same_but_lines(&old(self).0),
            r == old(self).line(code@, Line::Sma(period), n as int),
    {
        self.indicator_at(code.as_str(), Line::Sma(period), n)
    }

    /// The exponential moving average of a security.
    pub fn ema(&mut self, code: String, period: i64) -> (r: N)
        requires
            old(self).ready(),
        ensures
            final(self).ready(),
            final(self).0.same_but_lines(&old(self).0),
            r == old(self).line(code@, Line::Ema(period), 0),
    {
        self.indicator_at(code.as_str(), Line::Ema(period), 0)
    }

    /// The relative strength index of a security.
    pub fn rsi(&mut self, code: String, period: i64) -> (r: N)
        requires
            old(self).ready(),
        ensures
            final(self).ready(),
            final(self).0.same_but_lines(&old(self).0),
            r == old(self).line(code@, Line::Rsi(period), 0),
    {
        self.indicator_at(code.as_str(), Line::Rsi(period), 0)
    }

    /// The difference of two exponential moving averages of a security, its average, and
    /// twice the distance of the two.
    pub fn macd(&mut self, code: String, fast: i64, slow: i64, signal: i64) -> (r: (N, N, N))
        requires
            old(self).ready(),
        ensures
            final(self).ready(),
            final(self).0.same_but_lines(&old(self).0),
            r.0 == old(self).line(code@, Line::MacdDif(fast, slow, signal), 0),
            r.1 == old(self).line(code@, Line::MacdDea(fast, slow, signal), 0),
            r.2 == old(self).line(code@, Line::MacdBar(fast, slow, signal), 0),
    {
        let dif = self.indicator_at(code.as_str(), Line::MacdDif(fast, slow, signal), 0);
        let dea = self.indicator_at(code.as_str(), Line::MacdDea(fast, slow, signal), 0);
        let bar = self.indicator_at(code.as_str(), Line::MacdBar(fast, slow, signal), 0);
        (dif, dea, bar)
    }

    /// The lines K, D and J of a security.
    pub fn kdj(&mut self, code: String, period: i64) -> (r: (N, N, N))
        requires
            old(self).ready(),
        ensures
            final(self).ready(),
            final(self).0.same_but_lines(&old(self).0),
            r.0 == old(self).line(code@, Line::KdjK(period), 0),
            r.1 == old(self).line(code@, Line::KdjD(period), 0),
            r.2 == old(self).line(code@, Line::KdjJ(period), 0),
    {
        let k = self.indicator_at(code.as_str(), Line::KdjK(period), 0);
        let d = self.indicator_at(code.as_str(), Line::KdjD(period), 0);
        let j = self.indicator_at(code.as_str(), Line::KdjJ(period), 0);
        (k, d, j)
    }

    /// The Bollinger bands of a security: upper, middle and lower.
    pub fn boll(&mut self, code: String, period: i64, mult: N) -> (r: (N, N, N))
        requires
            old(self).ready(),
        ensures
            final(self).ready(),
            final(self).0.same_but_lines(&old(self).0),
            r.0 == old(self).line(code@, Line::BollUpper(period, mult), 0),
            r.1 == old(self).line(code@, Line::BollMid(period, mult), 0),
            r.2 == old(self).line(code@, Line::BollLower(period, mult), 0),
    {
        let upper = self.indicator_at(code.as_str(), Line::BollUpper(period, mult), 0);
        let mid = self.indicator_at(code.as_str(), Line::BollMid(period, mult), 0);
        let lower = self.indicator_at(code.as_str(), Line::BollLower(period, mult), 0);
        (upper, mid, lower)
    }

    // ---- The account ----
    /// The shares of a security that are held.
    pub fn position(&self, code: String) -> (r: i64)
        requires
            self.0.wf(),
        ensures
            r == (match self.0.held(code@) {
                Some(p) => p.shares,
                None => 0,
            }),
    {
        match self.0.find_code(code.as_str()) {
            Some(s) => match self.0.positions[s] {
                Some(p) => p.shares,
                None => 0,
            },
            None => 0,
        }
    }

    /// What the shares of a security cost on average; zero where none are held.
    pub fn avg_cost(&self, code: String) -> (r: N)
        requires
            self.0.wf(),
        ensures
            r == (match self.0.held(code@) {
                Some(p) => p.avg_cost,
                None => num::nil::<N>(),
            }),
    {
        match self.0.find_code(code.as_str()) {
            Some(s) => match self.0.positions[s] {
                Some(p) => p.avg_cost,
                None => num::zero::<N>(),
            },
            None => num::zero::<N>(),
        }
    }

    pub fn cash(&self) -> (r: N)
        ensures
            r == self.0.cash,
    {
        self.0.cash
    }

    /// The cash and the worth of all holdings at the last prices known.
    pub fn total_value(&self) -> (r: N)
        requires
            self.0.wf(),
        ensures
            r == self.0.worth(),
    {
        self.0.total()
    }

    /// How many shares of a security the cash buys at the closing price, in lots of 100.
    pub fn max_shares(&self, code: String) -> (r: i64)
        requires
            self.ready(),
        ensures
            r == (match self.0.here(code@) {
                Some((s, l)) => {
                    let price = self.0.series@[s].chart.closes@[l];
                    if num::not_above_zero(price) {
                        0
                    } else {
                        context::affordable(self.0.cash, price, self.0.fees.buy_rate, 100)
                    }
                },
                None => 0,
            }),
            self.0.here(code@) matches Some((s, l)) ==> r == context::most_shares(
                self.0.cash,
                self.0.series@[s].chart.closes@[l],
                self.0.fees.buy_rate,
                100,
            ),
    {
        match self.0.locate(code.as_str()) {
            Some((s, l)) => {
                assert(self.0.series@[s as int].wf(self.0.dates@.len()));
                let price = self.0.series[s].chart.closes[l];
                if num::non_positive(price) {
                    0
                } else {
                    can_afford(self.0.cash, price, self.0.fees.buy_rate, 100)
                }
            },
            None => 0,
        }
    }

    // ---- Valuations ----
    pub fn pe(&self, code: String) -> (r: N)
        requires
            self.ready(),
        ensures
            r == (match self.0.here(code@) {
                Some((s, l)) => self.0.series@[s].pe@[l],
                None => N::undefined(),
            }),
    {
        match self.0.locate(code.as_str()) {
            Some((s, l)) => {
                assert(self.0.series@[s as int].wf(self.0.dates@.len()));
                self.0.series[s].pe[l]
            },
            None => N::nan(),
        }
    }

    pub fn pb(&self, code: String) -> (r: N)
        requires
            self.ready(),
        ensures
            r == (match self.0.here(code@) {
                Some((s, l)) => self.0.series@[s].pb@[l],
                None => N::undefined(),
            }),
    {
        match self.0.locate(code.as_str()) {
            Some((s, l)) => {
                assert(self.0.series@[s as int].wf(self.0.dates@.len()));
                self.0.series[s].pb[l]
            },
            None => N::nan(),
        }
    }

    pub fn ps(&self, code: String) -> (r: N)
        requires
            self.ready(),
        ensures
            r == (match self.0.here(code@) {
                Some((s, l)) => self.0.series@[s].ps@[l],
                None => N::undefined(),
            }),
    {
        match self.0.locate(code.as_str()) {
            Some((s, l)) => {
                assert(self.0.series@[s as int].wf(self.0.dates@.len()));
                self.0.series[s].ps[l]
            },
            None => N::nan(),
        }
    }

    pub fn mktcap(&self, code: String) -> (r: N)
        requires
            self.ready(),
        ensures
            r == (match self.0.here(code@) {
                Some((s, l)) => self.0.series@[s].mv@[l],
                None => N::undefined(),
            }),
    {
        match self.0.locate(code.as_str()) {
            Some((s, l)) => {
                assert(self.0.series@[s as int].wf(self.0.dates@.len()));
                self.0.series[s].mv[l]
            },
            None => N::nan(),
        }
    }

    // ---- Orders ----
    fn queue(&mut self, code: &str, buy: bool, shares: i64)
        requires
            old(self).0.wf(),
        ensures
            final(self).0.wf(),
            final(self).0.pending@ == queued(old(self).0, code@, buy, shares),
            final(self).0 == (PfInner { pending: final(self).0.pending, ..old(self).0 }),
    {
        if shares <= 0 {
            return;
        }
        match self.0.find_code(code) {
            Some(s) => {
                self.0.pending.push(PfOrder { series: s, buy, shares });
            },
            None => {},
        }
    }

    /// Orders shares of a security at the opening price of the next day. An order of no
    /// shares, or of an unknown security, is none.
    pub fn buy(&mut self, code: String, shares: i64)
        requires
            old(self).0.wf(),
        ensures
            final(self).0.wf(),
            final(self).0.pending@ == queued(old(self).0, code@, true, shares),
            final(self).0 == (PfInner { pending: final(self).0.pending, ..old(self).0 }),
    {
        self.queue(code.as_str(), true, shares);
    }

    /// Offers shares of a security at the opening price of the next day.
    pub fn sell(&mut self, code: String, shares: i64)
        requires
            old(self).0.wf(),
        ensures
            final(self).0.wf(),
            final(self).0.pending@ == queued(old(self).0, code@, false, shares),
            final(self).0 == (PfInner { pending: final(self).0.pending, ..old(self).0 }),
    {
        self.queue(code.as_str(), false, shares);
    }

    /// Orders or offers the shares by which a security differs from a part of the whole
    /// worth, in lots of 100.
    pub fn order_target_pct_f(&mut self, code: String, pct: N)
        requires
            old(self).ready(),
        ensures
            final(self).ready(),
            final(self).0.pending@ == rebalanced(old(self).0, code@, pct),
            final(self).0 == (PfInner { pending: final(self).0.pending, ..old(self).0 }),
    {
        match self.0.locate(code.as_str()) {
            Some((s, l)) => {
                assert(self.0.series@[s as int].wf(self.0.dates@.len()));
                let price = self.0.series[s].chart.closes[l];
                if num::non_positive(price) {
                    return;
                }
                let target_value = pct.times(self.0.total());
                let target_shares = floor_to_lot(target_value.over(price).trunc(), 100);
                let cur: i64 = match self.0.positions[s] {
                    Some(p) => p.shares,
                    None => 0,
                };
                let diff: i64 = target_shares.wrapping_sub(cur);
                if diff > 0 {
                    self.0.pending.push(PfOrder { series: s, buy: true, shares: diff });
                } else if diff < 0 {
                    let shares: i64 = 0i64.wrapping_sub(diff);
                    self.0.pending.push(PfOrder { series: s, buy: false, shares });
                }
            },
            None => {},
        }
    }

    /// The same with a whole number in place of a part.
    pub fn order_target_pct_i(&mut self, code: String, pct: i64)
        requires
            old(self).ready(),
        ensures
            final(self).ready(),
            final(self).0.pending@ == rebalanced(old(self).0, code@, N::whole(pct as int)),
            final(self).0 == (PfInner { pending: final(self).0.pending, ..old(self).0 }),
    {
        self.order_target_pct_f(code, N::from_int(pct as i128));
    }

    // ---- Parameters ----
    /// A parameter, rounded to an integer.
    pub fn param_i(&self, name: String, default: i64) -> (r: i64)
        ensures
            r == context::named_int(self.0.params@, name@, default),
    {
        look_up_int(&self.0.params, name.as_str(), default)
    }

    /// A parameter.
    pub fn param_f(&self, name: String, default: N) -> (r: N)
        ensures
            r == context::named(self.0.params@, name@, default),
    {
        look_up(&self.0.params, name.as_str(), default)
    }

    // ---- What the strategy keeps ----
    /// Keeps a number under a name.
    pub fn set_f(&mut self, key: String, val: N)
        ensures
            final(self).0.state@ == old(self).0.state@.insert(key@, val),
            final(self).0 == (PfInner { state: final(self).0.state, ..old(self).0 }),
    {
        self.0.state.set(key, val);
    }

    /// Keeps an integer under a name.
    pub fn set_i(&mut self, key: String, val: i64)
        ensures
            final(self).0.state@ == old(self).0.state@.insert(key@, N::whole(val as int)),
            final(self).0 == (PfInner { state: final(self).0.state, ..old(self).0 }),
    {
        self.0.state.set(key, N::from_int(val as i128));
    }

    /// What is kept under a name.
    pub fn get_f(&self, key: String, default: N) -> (r: N)
        ensures
            r == context::named(self.0.state@, key@, default),
    {
        look_up(&self.0.state, key.as_str(), default)
    }

    /// What is kept under a name, rounded to an integer.
    pub fn get_i(&self, key: String, default: i64) -> (r: i64)
        ensures
            r == context::named_int(self.0.state@, key@, default),
    {
        look_up_int(&self.0.state, key.as_str(), default)
    }

    /// Whether anything is kept under a name.
    pub fn has(&self, key: String) -> (r: bool)
        ensures
            r == self.0.state@.contains_key(key@),
    {
        self.0.state.get(key.as_str()).is_some()
    }
}

/// The orders that wait when one more has been given.
pub open spec fn queued<N: Scalar>(
    s: PfInner<N>,
    code: Seq<char>,
    buy: bool,
    shares: i64,
) -> Seq<PfOrder> {
    match s.find(code) {
        Some(k) => if shares > 0 {
            s.pending@.push(PfOrder { series: k as usize, buy, shares })
        } else {
            s.pending@
        },
        None => s.pending@,
    }
}

/// The orders that wait when a security is to be brought to a part of the whole worth.
pub open spec fn rebalanced<N: Scalar>(s: PfInner<N>, code: Seq<char>, pct: N) -> Seq<PfOrder> {
    match s.here(code) {
        Some((k, l)) => {
            let price = s.series@[k].chart.closes@[l];
            let target = rules::in_lots(
                pct.product(s.worth()).quotient(price).integral() as int,
                100,
            ) as i64;
            let cur = match s.positions@[k] {
                Some(p) => p.shares,
                None => 0,
            };
            let diff = target.wrapping_sub(cur);
            if num::not_above_zero(price) {
                s.pending@
            } else if diff > 0 {
                s.pending@.push(PfOrder { series: k as usize, buy: true, shares: diff })
            } else if diff < 0 {
                s.pending@.push(
                    PfOrder { series: k as usize, buy: false, shares: 0i64.wrapping_sub(diff) },
                )
            } else {
                s.pending@
            }
        },
        None => s.pending@,
    }
}

fn copy_texts(v: &Vec<String>) -> (r: Vec<String>)
    ensures
        text::texts(r@) == text::texts(v@),
{
    let mut out: Vec<String> = Vec::new();
    let mut k: usize = 0;
    while k < v.len()
        invariant
            k <= v@.len(),
            text::texts(out@) == text::texts(v@).take(k as int),
        decreases v@.len() - k,
    {
        let ghost before = out@;
        out.push(v[k].clone());
        k += 1;
        assert(text::texts(out@) =~= text::texts(before).push(out@.last()@));
        assert(text::texts(out@) =~= text::texts(v@).take(k as int));
    }
    assert(text::texts(out@) =~= text::texts(v@));
    out
}

/// The days on which any of the securities was traded, in order.
fn union_of_dates<N: Scalar>(stocks: &Vec<StockData<N>>) -> (r: Vec<String>)
    ensures
        order::strictly_ascending(text::texts(r@)),
        forall|d: Seq<char>| #[trigger] text::texts(r@).contains(d) <==> traded(stocks@, d),
{
    let mut dates: Vec<String> = Vec::new();
    let mut s: usize = 0;
    while s < stocks.len()
        invariant
            s <= stocks@.len(),
            order::strictly_ascending(text::texts(dates@)),
            forall|d: Seq<char>| #[trigger]
                text::texts(dates@).contains(d) <==> traded(stocks@.take(s as int), d),
        decreases stocks@.len() - s,
    {
        let ks = &stocks[s].klines;
        let mut k: usize = 0;
        let ghost so_far = stocks@.take(s as int);
        while k < ks.len()
            invariant
                s < stocks@.len(),
                ks@ == stocks@[s as int].klines@,
                so_far == stocks@.take(s as int),
                k <= ks@.len(),
                order::strictly_ascending(text::texts(dates@)),
                forall|d: Seq<char>| #[trigger]
                    text::texts(dates@).contains(d) <==> (traded(so_far, d) || exists|j: int|
                        0 <= j < k && #[trigger] ks@[j].date@ == d),
            decreases ks@.len() - k,
        {
            let ghost before = text::texts(dates@);
            order::insert_once(&mut dates, ks[k].date.as_str());
            let ghost after = text::texts(dates@);
            assert forall|d: Seq<char>| #[trigger] after.contains(d) <==> (traded(so_far, d)
                || exists|j: int| 0 <= j < k + 1 && #[trigger] ks@[j].date@ == d) by {
                assert(after.contains(d) <==> (before.contains(d) || d == ks@[k as int].date@));
            }
            k += 1;
        }
        let ghost next = stocks@.take(s + 1);
        assert forall|d: Seq<char>| #[trigger] text::texts(dates@).contains(d) <==> traded(
            next,
            d,
        ) by {
            if traded(so_far, d) {
                let (a, b) = choose|a: int, b: int|
                    0 <= a < so_far.len() && 0 <= b < so_far[a].klines@.len()
                        && #[trigger] so_far[a].klines@[b].date@ == d;
                assert(next[a].klines@[b].date@ == d);
            }
            if exists|j: int| 0 <= j < ks@.len() && #[trigger] ks@[j].date@ == d {
                let j = choose|j: int| 0 <= j < ks@.len() && #[trigger] ks@[j].date@ == d;
                assert(next[s as int].klines@[j].date@ == d);
            }
            if traded(next, d) {
                let (a, b) = choose|a: int, b: int|
                    0 <= a < next.len() && 0 <= b < next[a].klines@.len()
                        && #[trigger] next[a].klines@[b].date@ == d;
                if a < s {
                    assert(so_far[a].klines@[b].date@ == d);
                } else {
                    assert(ks@[b].date@ == d);
                }
            }
        }
        s += 1;
    }
    assert(stocks@.take(stocks@.len() as int) =~= stocks@);
    dates
}

/// Lays the bars of a security out along trading days.
fn lay_out<N: Scalar>(stock: &StockData<N>, dates: &Vec<String>) -> (r: Series<N>)
    requires
        order::strictly_ascending(text::texts(dates@)),
        forall|k: int|
            0 <= k < stock.klines@.len() ==> text::texts(dates@).contains(
                #[trigger] stock.klines@[k].date@,
            ),
    ensures
        laid_out(r, *stock, text::texts(dates@)),
{
    let ks = &stock.klines;
    let n = ks.len();
    let days = dates.len();
    let ghost ds = text::texts(dates@);
    let mut opens: Vec<N> = Vec::new();
    let mut highs: Vec<N> = Vec::new();
    let mut lows: Vec<N> = Vec::new();
    let mut closes: Vec<N> = Vec::new();
    let mut vols: Vec<N> = Vec::new();
    let mut own: Vec<String> = Vec::new();
    let mut local: Vec<Option<usize>> = num::filled(None, days);
    let mut l: usize = 0;
    assert(ks@.take(0) =~= Seq::<KLine<N>>::empty());
    while l < n
        invariant
            n == ks@.len(),
            ks@ == stock.klines@,
            l <= n,
            ds == text::texts(dates@),
            order::strictly_ascending(ds),
            forall|k: int| 0 <= k < n ==> ds.contains(#[trigger] ks@[k].date@),
            opens@ == Seq::new(l as nat, |i: int| ks@[i].open),
            highs@ == Seq::new(l as nat, |i: int| ks@[i].high),
            lows@ == Seq::new(l as nat, |i: int| ks@[i].low),
            closes@ == Seq::new(l as nat, |i: int| ks@[i].close),
            vols@ == Seq::new(l as nat, |i: int| ks@[i].volume),
            text::texts(own@) == context::bar_dates(ks@).take(l as int),
            local@.len() == ds.len(),
            forall|d: int|
                0 <= d < ds.len() ==> #[trigger] local@[d] == last_bar(ks@.take(l as int), ds[d]),
            forall|d: int|
                0 <= d < ds.len() ==> (#[trigger] local@[d] matches Some(b) ==> b < l),
        decreases n - l,
    {
        let k = &ks[l];
        let ghost before = local@;
        let ghost own0 = own@;
        assert(ds.contains(ks@[l as int].date@));
        let (p, found) = order::place(dates, k.date.as_str());
        local.set(p, Some(l));
        opens.push(k.open);
        highs.push(k.high);
        lows.push(k.low);
        closes.push(k.close);
        vols.push(k.volume);
        own.push(k.date.clone());
        assert(ks@.take(l + 1).drop_last() =~= ks@.take(l as int));
        assert forall|d: int| 0 <= d < ds.len() implies #[trigger] local@[d] == last_bar(
            ks@.take(l + 1),
            ds[d],
        ) by {
            if d != p {
                assert(ds[p as int] == ks@[l as int].date@);
                if d < p {
                    assert(text::before(ds[d], ds[p as int]));
                    text::before_irreflexive(ds[d]);
                } else {
                    assert(text::before(ds[p as int], ds[d]));
                    text::before_irreflexive(ds[d]);
                }
            }
        }
        l += 1;
        assert(opens@ =~= Seq::new(l as nat, |i: int| ks@[i].open));
        assert(highs@ =~= Seq::new(l as nat, |i: int| ks@[i].high));
        assert(lows@ =~= Seq::new(l as nat, |i: int| ks@[i].low));
        assert(closes@ =~= Seq::new(l as nat, |i: int| ks@[i].close));
        assert(vols@ =~= Seq::new(l as nat, |i: int| ks@[i].volume));
        assert(text::texts(own@) =~= text::texts(own0).push(own@.last()@));
        assert(text::texts(own@) =~= context::bar_dates(ks@).take(l as int));
    }
    assert(ks@.take(n as int) =~= ks@);
    assert(text::texts(own@) =~= context::bar_dates(ks@));
    let a = align(own.as_slice(), stock.funda.as_slice());
    Series {
        code: stock.code.clone(),
        name: stock.name.clone(),
        opens,
        vols,
        chart: Chart::new(highs, lows, closes),
        pe: a.pe,
        pb: a.pb,
        ps: a.ps,
        mv: a.mv,
        local,
    }
}

// ---------------------------------------------------------------------------
// The days of the back test
// ---------------------------------------------------------------------------
impl<N: Scalar> PfInner<N> {
    /// The book when the orders that wait have been filled on a day: the sales, then the
    /// purchases.
    pub open spec fn settled(&self, day: int) -> Book<N> {
        self.fill_all(
            self.fill_all(self.book(), side(self.pending@, false), day),
            side(self.pending@, true),
            day,
        )
    }

    /// The last closing price known of each security when a day has ended.
    pub open spec fn closing(&self, day: int) -> Seq<N> {
        Seq::new(
            self.series@.len(),
            |s: int|
                match self.bar_on(s, day) {
                    Some(l) => self.series@[s].chart.closes@[l as int],
                    None => self.last_price@[s],
                },
        )
    }
}

/// Day `i` has begun: the orders that waited are filled at its opening prices, the sales
/// first; the closing prices and the equity are noted.
pub open spec fn begun<N: Scalar>(before: PortfolioCtx<N>, i: int, after: PortfolioCtx<N>) -> bool {
    &&& after.ready()
    &&& after.0.same_market(&before.0)
    &&& after.0.i == i
    &&& after.0.pending@.len() == 0
    &&& after.0.state@ == before.0.state@
    &&& after.0.book() == before.0.settled(i)
    &&& after.0.last_price@ == before.0.closing(i)
    &&& after.0.equity@ == before.0.equity@.push(after.0.worth())
}

/// Moves on to day `i`. Then the strategy may see the day and give orders for the next.
pub fn start_day<N: Scalar>(ctx: &mut PortfolioCtx<N>, i: usize)
    requires
        old(ctx).0.wf(),
        i < old(ctx).0.dates@.len(),
    ensures
        begun(*old(ctx), i as int, *final(ctx)),
{
    let ghost first = ctx.0;
    ctx.0.i = i;
    let mut orders: Vec<PfOrder> = Vec::new();
    std::mem::swap(&mut orders, &mut ctx.0.pending);
    let ghost start = ctx.0;
    ctx.0.fill_side(&orders, false);
    let ghost sold = ctx.0;
    ctx.0.fill_side(&orders, true);
    proof {
        start.same_fills(&first, first.book(), side(orders@, false), i as int);
        sold.same_fills(&first, sold.book(), side(orders@, true), i as int);
    }
    let ghost filled_state = ctx.0;
    assert(filled_state.book() == first.settled(i as int));
    let ghost old_prices = ctx.0.last_price@;
    let mut s: usize = 0;
    while s < ctx.0.series.len()
        invariant
            filled_state.wf(),
            i < filled_state.dates@.len(),
            ctx.0 == (PfInner { last_price: ctx.0.last_price, ..filled_state }),
            ctx.0.last_price@.len() == filled_state.series@.len(),
            old_prices == filled_state.last_price@,
            s <= filled_state.series@.len(),
            forall|j: int|
                0 <= j < filled_state.series@.len() ==> #[trigger] ctx.0.last_price@[j] == (if j
                    < s {
                    filled_state.closing(i as int)[j]
                } else {
                    old_prices[j]
                }),
        decreases filled_state.series@.len() - s,
    {
        assert(filled_state.series@[s as int].wf(filled_state.dates@.len()));
        match ctx.0.series[s].local[i] {
            Some(l) => {
                let px = ctx.0.series[s].chart.closes[l];
                ctx.0.last_price.set(s, px);
            },
            None => {},
        }
        s += 1;
    }
    assert(ctx.0.last_price@ =~= first.closing(i as int));
    let eq = ctx.0.total();
    ctx.0.equity.push(eq);
    assert(ctx.0.book() == filled_state.book());
}

/// What is held of a security, at the last price known.
pub open spec fn holding_of<N: Scalar>(s: PfInner<N>, k: int) -> HoldingView<N> {
    let p = s.positions@[k].unwrap();
    let last = s.last_price@[k];
    HoldingView {
        code: s.series@[k].code@,
        name: s.series@[k].name@,
        shares: p.shares,
        avg_cost: p.avg_cost,
        last_price: last,
        value: N::whole(p.shares as int).product(last),
        pnl_pct: if num::above_zero(p.avg_cost) {
            last.difference(p.avg_cost).quotient(p.avg_cost)
        } else {
            num::nil::<N>()
        },
    }
}

/// The first `n` securities of which something is held.
pub open spec fn held_list<N: Scalar>(s: PfInner<N>, n: int) -> Seq<EntryView>
    decreases n,
{
    if n <= 0 {
        Seq::empty()
    } else if s.positions@[n - 1] is Some {
        held_list(s, n - 1).push(
            EntryView { key: 0, name: s.series@[n - 1].code@, tag: (n - 1) as usize },
        )
    } else {
        held_list(s, n - 1)
    }
}

/// The holdings of securities, by their numbers.
pub open spec fn holdings_of<N: Scalar>(s: PfInner<N>, list: Seq<EntryView>) -> Seq<HoldingView<N>> {
    Seq::new(list.len(), |j: int| holding_of(s, list[j].tag as int))
}

/// Several holdings.
pub open spec fn holding_views<N: Scalar>(v: Seq<Holding<N>>) -> Seq<HoldingView<N>> {
    Seq::new(v.len(), |j: int| v[j]@)
}

proof fn held_tags<N: Scalar>(s: PfInner<N>, n: int)
    requires
        0 <= n <= s.positions@.len(),
        n <= usize::MAX,
    ensures
        forall|e: EntryView| #[trigger]
            held_list(s, n).contains(e) ==> e.tag < n && s.positions@[e.tag as int] is Some,
    decreases n,
{
    if n > 0 {
        held_tags(s, n - 1);
        let before = held_list(s, n - 1);
        assert forall|e: EntryView| #[trigger] held_list(s, n).contains(e) implies e.tag < n
            && s.positions@[e.tag as int] is Some by {
            if !before.contains(e) {
                let k = choose|k: int| 0 <= k < held_list(s, n).len() && held_list(s, n)[k] == e;
                assert(k < before.len() ==> before[k] == e);
            }
        }
    }
}

/// What the back test has yielded.
pub open spec fn yielded<N: Scalar>(ctx: PortfolioCtx<N>, r: PortfolioResult<N>) -> bool {
    &&& records(r.trades@) == records(ctx.0.trades@)
    &&& r.equity@ == ctx.0.equity@
    &&& text::texts(r.dates@) == text::texts(ctx.0.dates@)
    &&& r.stock_count == ctx.0.series@.len()
    &&& metrics::metrics_of(
        ctx.0.initial,
        ctx.0.equity@,
        Seq::new(ctx.0.trades@.len(), |i: int| ctx.0.trades@[i].pnl_pct),
        N::whole(252),
        r.metrics,
    )
    &&& exists|list: Seq<EntryView>|
        order::ordered(held_list(ctx.0, ctx.0.series@.len() as int), list) && holding_views(
            r.holdings@,
        ) == #[trigger] holdings_of(ctx.0, list)
}

pub fn finish<N: Scalar>(ctx: &PortfolioCtx<N>) -> (r: PortfolioResult<N>)
    requires
        ctx.0.wf(),
    ensures
        yielded(*ctx, r),
{
    let s = &ctx.0;
    let mut trs: Vec<TradeRec<N>> = Vec::new();
    let mut trades: Vec<PfTrade<N>> = Vec::new();
    let mut k: usize = 0;
    while k < s.trades.len()
        invariant
            *s == ctx.0,
            k <= s.trades@.len(),
            trs@.len() == k,
            forall|j: int| 0 <= j < k ==> (#[trigger] trs@[j]).pnl_pct == s.trades@[j].pnl_pct,
            records(trades@) == records(s.trades@).take(k as int),
        decreases s.trades@.len() - k,
    {
        let t = &s.trades[k];
        let ghost before = trades@;
        trs.push(
            TradeRec {
                date: t.date.clone(),
                action: t.action.clone(),
                price: t.price,
                shares: t.shares,
                pnl_pct: t.pnl_pct,
            },
        );
        trades.push(t.clone());
        k += 1;
        assert(records(trades@) =~= records(before).push(trades@.last()@));
        assert(records(trades@) =~= records(s.trades@).take(k as int));
    }
    assert(records(trades@) =~= records(s.trades@));
    assert(context::gains(trs@) =~= Seq::new(s.trades@.len(), |i: int| s.trades@[i].pnl_pct));
    let metrics = metrics::compute(
        s.initial,
        s.equity.as_slice(),
        trs.as_slice(),
        N::from_int(252),
    );
    let mut equity: Vec<N> = Vec::new();
    let mut k: usize = 0;
    while k < s.equity.len()
        invariant
            k <= s.equity@.len(),
            equity@ == s.equity@.take(k as int),
        decreases s.equity@.len() - k,
    {
        equity.push(s.equity[k]);
        k += 1;
        assert(equity@ =~= s.equity@.take(k as int));
    }
    assert(equity@ =~= s.equity@);
    let mut list: Vec<Entry> = Vec::new();
    let n = s.series.len();
    let mut k: usize = 0;
    assert(order::entry_views(list@) =~= Seq::<EntryView>::empty());
    while k < n
        invariant
            *s == ctx.0,
            s.wf(),
            n == s.series@.len(),
            k <= n,
            order::entry_views(list@) == held_list(*s, k as int),
        decreases n - k,
    {
        if s.positions[k].is_some() {
            let ghost before = list@;
            list.push(Entry { key: 0, name: s.series[k].code.clone(), tag: k });
            assert(order::entry_views(list@) =~= order::entry_views(before).push(list@.last()@));
        }
        k += 1;
    }
    let sorted = order::sort(list);
    let ghost sv = order::entry_views(sorted@);
    proof {
        broadcast use vstd::seq_lib::group_to_multiset_ensures;

        held_tags(*s, n as int);
        assert forall|j: int| 0 <= j < sv.len() implies (#[trigger] sv[j]).tag < n
            && s.positions@[sv[j].tag as int] is Some by {
            assert(sv.contains(sv[j]));
            assert(sv.to_multiset().count(sv[j]) > 0);
            assert(held_list(*s, n as int).contains(sv[j]));
        }
    }
    let mut holdings: Vec<Holding<N>> = Vec::new();
    let mut k: usize = 0;
    while k < sorted.len()
        invariant
            *s == ctx.0,
            s.wf(),
            n == s.series@.len(),
            sv == order::entry_views(sorted@),
            forall|j: int|
                0 <= j < sv.len() ==> (#[trigger] sv[j]).tag < n
                    && s.positions@[sv[j].tag as int] is Some,
            k <= sorted@.len(),
            holding_views(holdings@) == holdings_of(*s, sv).take(k as int),
        decreases sorted@.len() - k,
    {
        let si = sorted[k].tag;
        assert(sv[k as int].tag == si);
        let last = s.last_price[si];
        let ghost before = holdings@;
        match s.positions[si] {
            Some(pos) => {
                holdings.push(
                    Holding {
                        code: s.series[si].code.clone(),
                        name: s.series[si].name.clone(),
                        shares: pos.shares,
                        avg_cost: pos.avg_cost,
                        last_price: last,
                        value: N::from_int(pos.shares as i128).times(last),
                        pnl_pct: if num::positive(pos.avg_cost) {
                            last.minus(pos.avg_cost).over(pos.avg_cost)
                        } else {
                            num::zero::<N>()
                        },
                    },
                );
            },
            None => {},
        }
        k += 1;
        assert(holding_views(holdings@) =~= holding_views(before).push(holdings@.last()@));
        assert(holding_views(holdings@) =~= holdings_of(*s, sv).take(k as int));
    }
    assert(holding_views(holdings@) =~= holdings_of(*s, sv));
    PortfolioResult { metrics, trades, equity, dates: ctx.dates(), holdings, stock_count: n }
}

/// What a strategy may change on a day: the orders that wait, what it keeps for later days,
/// and the lines that the charts have drawn.
pub open spec fn acted<N: Scalar>(before: PortfolioCtx<N>, after: PortfolioCtx<N>) -> bool {
    &&& after.ready()
    &&& after.0.same_market(&before.0)
    &&& after.0.i == before.0.i
    &&& after.0.book() == before.0.book()
    &&& after.0.last_price@ == before.0.last_price@
    &&& after.0.equity@ == before.0.equity@
}

/// A strategy may be handed every day, and keeps to what it may change.
pub open spec fn well_behaved<
    N: Scalar,
    F: Fn(PortfolioCtx<N>) -> (PortfolioCtx<N>, Option<String>),
>(on_bar: F) -> bool {
    &&& forall|c: PortfolioCtx<N>| c.ready() ==> #[trigger] call_requires(on_bar, (c,))
    &&& forall|c: PortfolioCtx<N>, out: (PortfolioCtx<N>, Option<String>)|
        c.ready() && #[trigger] call_ensures(on_bar, (c,), out) ==> acted(c, out.0)
}

/// The state of a back test when the strategy has seen the first `n` days, each after it
/// has begun, and has made no complaint.
pub open spec fn reached<
    N: Scalar,
    F: Fn(PortfolioCtx<N>) -> (PortfolioCtx<N>, Option<String>),
>(on_bar: F, first: PortfolioCtx<N>, n: int, last: PortfolioCtx<N>) -> bool
    decreases n,
{
    if n <= 0 {
        last == first
    } else {
        exists|p: PortfolioCtx<N>, q: PortfolioCtx<N>|
            reached(on_bar, first, n - 1, p) && #[trigger] begun(p, n - 1, q) && call_ensures(
                on_bar,
                (q,),
                (last, None::<String>),
            )
    }
}

/// The strategy complained on one of the days, and on none before it.
pub open spec fn stopped<
    N: Scalar,
    F: Fn(PortfolioCtx<N>) -> (PortfolioCtx<N>, Option<String>),
>(on_bar: F, first: PortfolioCtx<N>, complaint: String) -> bool {
    exists|i: int, p: PortfolioCtx<N>, q: PortfolioCtx<N>, last: PortfolioCtx<N>|
        0 <= i < first.0.dates@.len() && reached(on_bar, first, i, p) && #[trigger] begun(p, i, q)
            && #[trigger] call_ensures(on_bar, (q,), (last, Some(complaint)))
}

/// The strategy has seen every day without a complaint, and this is what the test yielded.
pub open spec fn ran<
    N: Scalar,
    F: Fn(PortfolioCtx<N>) -> (PortfolioCtx<N>, Option<String>),
>(on_bar: F, first: PortfolioCtx<N>, r: PortfolioResult<N>) -> bool {
    exists|last: PortfolioCtx<N>| #[trigger]
        reached(on_bar, first, first.0.dates@.len() as int, last) && yielded(last, r)
}

/// Runs a back test: day by day the orders that wait are filled, and then the strategy is
/// handed the state and gives it back. The first complaint of the strategy ends the test.
pub fn run<N: Scalar, F: Fn(PortfolioCtx<N>) -> (PortfolioCtx<N>, Option<String>)>(
    ctx: PortfolioCtx<N>,
    on_bar: F,
) -> (r: Result<PortfolioResult<N>, String>)
    requires
        ctx.0.wf(),
        well_behaved(on_bar),
    ensures
        match r {
            Ok(result) => ran(on_bar, ctx, result),
            Err(e) => stopped(on_bar, ctx, e),
        },
{
    let ghost first = ctx;
    let n = ctx.0.dates.len();
    let mut cur = ctx;
    let mut i: usize = 0;
    while i < n
        invariant
            first == ctx,
            n == first.0.dates@.len(),
            i <= n,
            cur.0.wf(),
            cur.0.dates@.len() == n,
            well_behaved(on_bar),
            reached(on_bar, first, i as int, cur),
        decreases n - i,
    {
        let ghost p = cur;
        start_day(&mut cur, i);
        let ghost q = cur;
        assert(text::texts(q.0.dates@).len() == text::texts(p.0.dates@).len());
        let (next, complaint) = on_bar(cur);
        assert(acted(q, next));
        assert(text::texts(next.0.dates@).len() == text::texts(q.0.dates@).len());
        match complaint {
            Some(e) => {
                assert(begun(p, i as int, q) && call_ensures(on_bar, (q,), (next, Some(e))));
                assert(stopped(on_bar, ctx, e));
                return Err(e);
            },
            None => {},
        }
        proof {
            let m = i + 1;
            assert(reached(on_bar, first, m - 1, p) && begun(p, m - 1, q));
            assert(call_ensures(on_bar, (q,), (next, None::<String>)));
            assert(reached(on_bar, first, m, next));
        }
        cur = next;
        i += 1;
    }
    Ok(finish(&cur))
}

// ---------------------------------------------------------------------------
// Laws
// ---------------------------------------------------------------------------
/// A fill adds at most one trade, at the given price and on the given day, for no more
/// shares than were ordered. A purchase is of whole lots of a hundred; a sale never sells
/// more than is held. Nothing but the holding of its security changes.
pub proof fn fill_is_bounded<N: Scalar>(
    b: Book<N>,
    order: PfOrder,
    price: N,
    date: Seq<char>,
    code: Seq<char>,
    fees: Fees<N>,
    held: int,
)
    requires
        order.series < b.positions.len(),
        held == (match b.positions[order.series as int] {
            Some(p) => p.shares as int,
            None => 0,
        }),
        0 <= held,
        held + order.shares <= i64::MAX,
    ensures
        ({
            let c = filled(b, order, price, date, code, fees);
            let now = match c.positions[order.series as int] {
                Some(p) => p.shares as int,
                None => 0,
            };
            &&& c.positions.len() == b.positions.len()
            &&& forall|s: int|
                0 <= s < b.positions.len() && s != order.series ==> c.positions[s]
                    == b.positions[s]
            &&& c == b || {
                let t = c.trades.last();
                &&& c.trades == b.trades.push(t)
                &&& t.date == date
                &&& t.code == code
                &&& t.price == price
                &&& 0 < t.shares <= order.shares
                &&& order.buy ==> now == held + t.shares && t.shares % 100 == 0
                &&& !order.buy ==> now == held - t.shares && 0 <= now
            }
        }),
{
    let most = context::affordable(b.cash, price, fees.buy_rate, 100);
    context::bought_in_lots(most, order.shares as int, 100);
}

/// A purchase is covered by the cash. This is of decimals, where the cash may fall short by
/// what rounding adds, which is less than one unit for each share; where the price with the
/// charge on it needs no rounding, the cash never falls short.
pub proof fn purchase_is_covered(
    b: Book<Fixed>,
    order: PfOrder,
    price: Fixed,
    date: Seq<char>,
    code: Seq<char>,
    fees: Fees<Fixed>,
)
    requires
        b.cash.defined,
        0 <= b.cash.units <= i64::MAX / 2,
        0 <= fees.buy_rate.units,
        order.buy,
    ensures
        ({
            let c = filled(b, order, price, date, code, fees);
            c == b || {
                &&& c.cash.defined
                &&& c.cash.units > -c.trades.last().shares
                &&& (price.units * fees.buy_rate.units) % (SCALE as int) == 0 ==> c.cash.units >= 0
            }
        }),
{
    let shares = context::lots_bought(b.cash, price, fees.buy_rate, order.shares, 100);
    let most = context::affordable(b.cash, price, fees.buy_rate, 100);
    context::bought_in_lots(most, order.shares as int, 100);
    if !num::not_above_zero(price) && shares > 0 {
        context::cash_covers_shares(b.cash, price, fees.buy_rate, 100, shares);
    }
}

/// The sales among orders are sales and the purchases are purchases, and none is lost.
pub proof fn sides_are_complete(orders: Seq<PfOrder>)
    ensures
        side(orders, true).len() + side(orders, false).len() == orders.len(),
        forall|i: int| 0 <= i < side(orders, true).len() ==> (#[trigger] side(orders, true)[i]).buy,
        forall|i: int|
            0 <= i < side(orders, false).len() ==> !(#[trigger] side(orders, false)[i]).buy,
    decreases orders.len(),
{
    if orders.len() > 0 {
        sides_are_complete(orders.drop_last());
    }
}

// ---------------------------------------------------------------------------
// No look-ahead
// ---------------------------------------------------------------------------
/// Two series of one security are the same up to a bar and with it.
pub open spec fn same_series<N: Scalar>(a: Series<N>, b: Series<N>, l: int) -> bool {
    &&& l < a.chart.closes@.len()
    &&& l < b.chart.closes@.len()
    &&& forall|k: int| 0 <= k <= l ==> #[trigger] a.opens@[k] == b.opens@[k]
    &&& forall|k: int| 0 <= k <= l ==> #[trigger] a.vols@[k] == b.vols@[k]
    &&& forall|k: int| 0 <= k <= l ==> #[trigger] a.chart.highs@[k] == b.chart.highs@[k]
    &&& forall|k: int| 0 <= k <= l ==> #[trigger] a.chart.lows@[k] == b.chart.lows@[k]
    &&& forall|k: int| 0 <= k <= l ==> #[trigger] a.chart.closes@[k] == b.chart.closes@[k]
    &&& forall|k: int| 0 <= k <= l ==> #[trigger] a.pe@[k] == b.pe@[k]
    &&& forall|k: int| 0 <= k <= l ==> #[trigger] a.pb@[k] == b.pb@[k]
    &&& forall|k: int| 0 <= k <= l ==> #[trigger] a.ps@[k] == b.ps@[k]
    &&& forall|k: int| 0 <= k <= l ==> #[trigger] a.mv@[k] == b.mv@[k]
}

/// Two back tests are of the same securities up to day `n`: the days before it, the bars of
/// these days and all bars before them are the same, and so are the rates and the
/// parameters. What comes later may differ.
pub open spec fn same_until<N: Scalar>(a: PortfolioCtx<N>, b: PortfolioCtx<N>, n: int) -> bool {
    &&& n <= a.0.dates@.len()
    &&& n <= b.0.dates@.len()
    &&& forall|d: int| 0 <= d < n ==> (#[trigger] a.0.dates@[d])@ == b.0.dates@[d]@
    &&& codes(a.0.series@) == codes(b.0.series@)
    &&& forall|s: int, d: int|
        0 <= s < a.0.series@.len() && 0 <= d < n ==> {
            &&& #[trigger] a.0.bar_on(s, d) == b.0.bar_on(s, d)
            &&& a.0.bar_on(s, d) matches Some(l) ==> same_series(
                a.0.series@[s],
                b.0.series@[s],
                l as int,
            )
        }
    &&& a.0.fees == b.0.fees
    &&& a.0.params@ == b.0.params@
}

/// What a strategy learns on a day, looking back or not, does not depend on later days: the
/// securities that are traded, their prices, valuations, earlier closing prices and lines,
/// and their ranks are the same in two back tests that are the same up to and with that day.
pub proof fn answers_know_no_future<N: Scalar>(
    a: PortfolioCtx<N>,
    b: PortfolioCtx<N>,
    code: Seq<char>,
    line: Line<N>,
    back: int,
)
    requires
        a.ready(),
        b.ready(),
        a.0.i == b.0.i,
        same_until(a, b, a.0.i + 1),
        back >= 0,
    ensures
        a.0.dates@[a.0.i as int]@ == b.0.dates@[b.0.i as int]@,
        a.0.here(code) == b.0.here(code),
        a.0.here(code) matches Some((s, l)) ==> {
            &&& same_series(a.0.series@[s], b.0.series@[s], l)
            &&& l - back >= 0 ==> a.0.series@[s].chart.closes@[l - back]
                == b.0.series@[s].chart.closes@[l - back]
        },
        a.line(code, line, back) == b.line(code, line, back),
        active(a.0.series@, a.0.i as int, a.0.series@.len() as int) == active(
            b.0.series@,
            b.0.i as int,
            b.0.series@.len() as int,
        ),
        scored(a.0.series@, a.0.i as int, back, a.0.series@.len() as int) == scored(
            b.0.series@,
            b.0.i as int,
            back,
            b.0.series@.len() as int,
        ),
{
    let i = a.0.i as int;
    assert(a.0.series@.len() == codes(a.0.series@).len());
    assert(b.0.series@.len() == codes(b.0.series@).len());
    last_of_bound(codes(a.0.series@), code);
    if let Some(s) = a.0.find(code) {
        assert(a.0.bar_on(s, i) == b.0.bar_on(s, i));
        assert(a.0.series@[s].wf(a.0.dates@.len()) && b.0.series@[s].wf(b.0.dates@.len()));
        if let Some(l) = a.0.bar_on(s, i) {
            chart::same_past_same_lines(
                line,
                a.0.series@[s].chart.highs@,
                a.0.series@[s].chart.lows@,
                a.0.series@[s].chart.closes@,
                b.0.series@[s].chart.highs@,
                b.0.series@[s].chart.lows@,
                b.0.series@[s].chart.closes@,
                l - back,
            );
        }
    }
    same_lists(a, b, back, a.0.series@.len() as int);
}

proof fn same_lists<N: Scalar>(a: PortfolioCtx<N>, b: PortfolioCtx<N>, back: int, n: int)
    requires
        a.ready(),
        b.ready(),
        a.0.i == b.0.i,
        same_until(a, b, a.0.i + 1),
        back >= 0,
        0 <= n <= a.0.series@.len(),
        a.0.series@.len() == b.0.series@.len(),
    ensures
        active(a.0.series@, a.0.i as int, n) == active(b.0.series@, b.0.i as int, n),
        scored(a.0.series@, a.0.i as int, back, n) == scored(b.0.series@, b.0.i as int, back, n),
    decreases n,
{
    if n > 0 {
        same_lists(a, b, back, n - 1);
        let i = a.0.i as int;
        assert(a.0.bar_on(n - 1, i) == b.0.bar_on(n - 1, i));
        assert(codes(a.0.series@)[n - 1] == codes(b.0.series@)[n - 1]);
    }
}

/// Two back tests have gone alike: the day, the book, the last prices, the orders that wait,
/// the equity and what the strategy keeps are the same.
pub open spec fn gone_alike<N: Scalar>(a: PortfolioCtx<N>, b: PortfolioCtx<N>) -> bool {
    &&& a.0.i == b.0.i
    &&& a.0.book() == b.0.book()
    &&& a.0.last_price@ == b.0.last_price@
    &&& a.0.pending@ == b.0.pending@
    &&& a.0.equity@ == b.0.equity@
    &&& a.0.state@ == b.0.state@
}

/// A strategy that looks back only: where two back tests have gone alike and are the same up
/// to and with the day that it sees, it does the same in both.
pub open spec fn looks_back<
    N: Scalar,
    F: Fn(PortfolioCtx<N>) -> (PortfolioCtx<N>, Option<String>),
>(on_bar: F) -> bool {
    forall|
        a: PortfolioCtx<N>,
        b: PortfolioCtx<N>,
        x: (PortfolioCtx<N>, Option<String>),
        y: (PortfolioCtx<N>, Option<String>),
    |
        #[trigger] call_ensures(on_bar, (a,), x) && #[trigger] call_ensures(on_bar, (b,), y)
            && a.ready() && b.ready() && gone_alike(a, b) && same_until(a, b, a.0.i + 1)
            ==> gone_alike(x.0, y.0)
}

/// The market stays as it is throughout a back test.
pub proof fn market_stays<
    N: Scalar,
    F: Fn(PortfolioCtx<N>) -> (PortfolioCtx<N>, Option<String>),
>(on_bar: F, first: PortfolioCtx<N>, n: int, last: PortfolioCtx<N>)
    requires
        first.0.wf(),
        well_behaved(on_bar),
        n <= first.0.dates@.len(),
        reached(on_bar, first, n, last),
    ensures
        last.0.wf(),
        last.0.same_market(&first.0),
    decreases n,
{
    if n > 0 {
        let (p, q) = choose|p: PortfolioCtx<N>, q: PortfolioCtx<N>|
            reached(on_bar, first, n - 1, p) && #[trigger] begun(p, n - 1, q) && call_ensures(
                on_bar,
                (q,),
                (last, None::<String>),
            );
        market_stays(on_bar, first, n - 1, p);
        assert(acted(q, last));
        assert forall|s: int| 0 <= s < last.0.series@.len() implies (
        #[trigger] last.0.series@[s]).same(&first.0.series@[s]) by {
            assert(q.0.series@[s].same(&p.0.series@[s]));
            assert(p.0.series@[s].same(&first.0.series@[s]));
        }
    }
}

proof fn still_same<N: Scalar>(
    a: PortfolioCtx<N>,
    b: PortfolioCtx<N>,
    p: PortfolioCtx<N>,
    u: PortfolioCtx<N>,
    n: int,
)
    requires
        same_until(a, b, n),
        p.0.same_market(&a.0),
        u.0.same_market(&b.0),
    ensures
        same_until(p, u, n),
{
    assert(text::texts(p.0.dates@).len() == text::texts(a.0.dates@).len());
    assert(text::texts(u.0.dates@).len() == text::texts(b.0.dates@).len());
    assert(codes(p.0.series@) =~= codes(a.0.series@));
    assert(codes(u.0.series@) =~= codes(b.0.series@));
    assert(codes(a.0.series@).len() == a.0.series@.len());
    assert(codes(b.0.series@).len() == b.0.series@.len());
    assert forall|d: int| 0 <= d < n implies (#[trigger] p.0.dates@[d])@ == u.0.dates@[d]@ by {
        assert(text::texts(p.0.dates@)[d] == text::texts(a.0.dates@)[d]);
        assert(text::texts(u.0.dates@)[d] == text::texts(b.0.dates@)[d]);
        assert(a.0.dates@[d]@ == b.0.dates@[d]@);
    }
    assert forall|s: int, d: int| 0 <= s < p.0.series@.len() && 0 <= d < n implies {
        &&& #[trigger] p.0.bar_on(s, d) == u.0.bar_on(s, d)
        &&& p.0.bar_on(s, d) matches Some(l) ==> same_series(
            p.0.series@[s],
            u.0.series@[s],
            l as int,
        )
    } by {
        assert(p.0.series@[s].same(&a.0.series@[s]));
        assert(u.0.series@[s].same(&b.0.series@[s]));
        assert(a.0.bar_on(s, d) == b.0.bar_on(s, d));
    }
}

proof fn same_fills_until<N: Scalar>(
    a: PortfolioCtx<N>,
    b: PortfolioCtx<N>,
    book: Book<N>,
    orders: Seq<PfOrder>,
    day: int,
)
    requires
        same_until(a, b, day + 1),
        0 <= day,
        forall|k: int|
            0 <= k < orders.len() ==> (#[trigger] orders[k]).series < a.0.series@.len(),
    ensures
        a.0.fill_all(book, orders, day) == b.0.fill_all(book, orders, day),
    decreases orders.len(),
{
    if orders.len() > 0 {
        same_fills_until(a, b, book, orders.drop_last(), day);
        let s = orders.last().series as int;
        assert(orders[orders.len() - 1].series < a.0.series@.len());
        assert(a.0.bar_on(s, day) == b.0.bar_on(s, day));
        assert(codes(a.0.series@)[s] == a.0.series@[s].code@);
        assert(codes(a.0.series@).len() == codes(b.0.series@).len());
        assert(codes(b.0.series@)[s] == b.0.series@[s].code@);
        assert(a.0.dates@[day]@ == b.0.dates@[day]@);
    }
}

proof fn side_of_known(orders: Seq<PfOrder>, buy: bool, n: int)
    requires
        forall|k: int| 0 <= k < orders.len() ==> (#[trigger] orders[k]).series < n,
    ensures
        forall|k: int|
            0 <= k < side(orders, buy).len() ==> (#[trigger] side(orders, buy)[k]).series < n,
    decreases orders.len(),
{
    if orders.len() > 0 {
        let t = orders.drop_last();
        assert forall|k: int| 0 <= k < t.len() implies (#[trigger] t[k]).series < n by {
            assert(t[k] == orders[k]);
        }
        side_of_known(t, buy, n);
        assert(orders[orders.len() - 1].series < n);
        let now = side(orders, buy);
        let earlier = side(t, buy);
        assert forall|k: int| 0 <= k < now.len() implies (#[trigger] now[k]).series < n by {
            if k < earlier.len() {
                assert(now[k] == earlier[k]);
            }
        }
    }
}

/// What a back test has done by a day does not depend on what comes later: with a strategy
/// that looks back only, two back tests that are the same up to day `n` have the same
/// trades, the same holdings and the same equity when it is reached.
pub proof fn past_ignores_the_future<
    N: Scalar,
    F: Fn(PortfolioCtx<N>) -> (PortfolioCtx<N>, Option<String>),
>(
    on_bar: F,
    a: PortfolioCtx<N>,
    b: PortfolioCtx<N>,
    n: int,
    x: PortfolioCtx<N>,
    y: PortfolioCtx<N>,
)
    requires
        a.0.wf(),
        b.0.wf(),
        well_behaved(on_bar),
        looks_back(on_bar),
        gone_alike(a, b),
        same_until(a, b, n),
        reached(on_bar, a, n, x),
        reached(on_bar, b, n, y),
    ensures
        gone_alike(x, y),
    decreases n,
{
    if n > 0 {
        let (p, q) = choose|p: PortfolioCtx<N>, q: PortfolioCtx<N>|
            reached(on_bar, a, n - 1, p) && #[trigger] begun(p, n - 1, q) && call_ensures(
                on_bar,
                (q,),
                (x, None::<String>),
            );
        let (u, v) = choose|u: PortfolioCtx<N>, v: PortfolioCtx<N>|
            reached(on_bar, b, n - 1, u) && #[trigger] begun(u, n - 1, v) && call_ensures(
                on_bar,
                (v,),
                (y, None::<String>),
            );
        past_ignores_the_future(on_bar, a, b, n - 1, p, u);
        market_stays(on_bar, a, n - 1, p);
        market_stays(on_bar, b, n - 1, u);
        still_same(a, b, p, u, n);
        let m = p.0.series@.len() as int;
        assert(codes(p.0.series@).len() == p.0.series@.len());
        assert(codes(u.0.series@).len() == u.0.series@.len());
        side_of_known(p.0.pending@, false, m);
        side_of_known(p.0.pending@, true, m);
        let sales = side(p.0.pending@, false);
        let purchases = side(p.0.pending@, true);
        same_fills_until(p, u, p.0.book(), sales, n - 1);
        same_fills_until(p, u, p.0.fill_all(p.0.book(), sales, n - 1), purchases, n - 1);
        assert(p.0.settled(n - 1) == u.0.settled(n - 1));
        let closed = p.0.closing(n - 1);
        let as_closed = u.0.closing(n - 1);
        assert forall|s: int| 0 <= s < m implies #[trigger] closed[s] == as_closed[s] by {
            assert(p.0.bar_on(s, n - 1) == u.0.bar_on(s, n - 1));
        }
        assert(closed =~= as_closed);
        assert(q.0.series@.len() == v.0.series@.len());
        assert(q.0.book().cash == v.0.book().cash);
        assert(q.0.book().positions == v.0.book().positions);
        assert(q.0.worth() == v.0.worth());
        assert(q.0.pending@ =~= v.0.pending@);
        assert(gone_alike(q, v));
        still_same(p, u, q, v, n);
    }
}

// ---------------------------------------------------------------------------
// Finding
// ---------------------------------------------------------------------------
/// Where several texts are the same, the last of them is found, and none is found only
/// where there is none.
pub proof fn last_is_found(s: Seq<Seq<char>>, t: Seq<char>)
    ensures
        match last_of(s, t) {
            Some(k) => 0 <= k < s.len() && s[k] == t && forall|j: int|
                k < j < s.len() ==> #[trigger] s[j] != t,
            None => forall|j: int| 0 <= j < s.len() ==> #[trigger] s[j] != t,
        },
    decreases s.len(),
{
    if s.len() > 0 && s.last() != t {
        let r = s.drop_last();
        last_is_found(r, t);
        assert forall|j: int|
            0 <= j < s.len() && (forall|i: int| 0 <= i < r.len() ==> #[trigger] r[i] != t)
            implies #[trigger] s[j] != t by {
            if j < r.len() {
                assert(r[j] == s[j]);
            }
        }
        if let Some(k) = last_of(r, t) {
            assert forall|j: int| k < j < s.len() implies #[trigger] s[j] != t by {
                if j < r.len() {
                    assert(r[j] == s[j]);
                }
            }
        }
    }
}

/// The bar of a security on a day is the last that has its date; there is none only where
/// no bar has it.
pub proof fn last_bar_is_of_the_day<N: Scalar>(klines: Seq<KLine<N>>, date: Seq<char>)
    requires
        klines.len() <= usize::MAX,
    ensures
        match last_bar(klines, date) {
            Some(l) => l < klines.len() && klines[l as int].date@ == date && forall|j: int|
                l < j < klines.len() ==> (#[trigger] klines[j]).date@ != date,
            None => forall|j: int| 0 <= j < klines.len() ==> (#[trigger] klines[j]).date@ != date,
        },
    decreases klines.len(),
{
    if klines.len() > 0 && klines.last().date@ != date {
        let r = klines.drop_last();
        last_bar_is_of_the_day(r, date);
        assert(forall|j: int| 0 <= j < r.len() ==> #[trigger] r[j] == klines[j]);
        match last_bar(r, date) {
            Some(l) => {
                assert forall|j: int| l < j < klines.len() implies (#[trigger] klines[j]).date@
                    != date by {
                    if j < r.len() {
                        assert(r[j] == klines[j]);
                    }
                }
            },
            None => {
                assert forall|j: int| 0 <= j < klines.len() implies (#[trigger] klines[j]).date@
                    != date by {
                    if j < r.len() {
                        assert(r[j] == klines[j]);
                    }
                }
            },
        }
    }
}

/// The securities that are traded on a day are listed in their order, and no others.
pub proof fn active_are_traded<N: Scalar>(series: Seq<Series<N>>, day: int, n: int) -> (at: Seq<
    int,
>)
    requires
        0 <= n <= series.len(),
    ensures
        active(series, day, n).len() == at.len(),
        forall|j: int, k: int| 0 <= j < k < at.len() ==> #[trigger] at[j] < #[trigger] at[k],
        forall|k: int|
            0 <= k < at.len() ==> 0 <= #[trigger] at[k] < n && series[at[k]].local@[day] is Some
                && active(series, day, n)[k] == series[at[k]].code@,
        forall|s: int|
            0 <= s < n && (#[trigger] series[s]).local@[day] is Some ==> at.contains(s),
    decreases n,
{
    if n <= 0 {
        Seq::empty()
    } else {
        let before = active_are_traded(series, day, n - 1);
        if series[n - 1].local@[day] is Some {
            let at = before.push(n - 1);
            assert forall|s: int|
                0 <= s < n && (#[trigger] series[s]).local@[day] is Some implies at.contains(
                s,
            ) by {
                if s < n - 1 {
                    let k = choose|k: int| 0 <= k < before.len() && before[k] == s;
                    assert(at[k] == s);
                } else {
                    assert(at[before.len() as int] == s);
                }
            }
            at
        } else {
            before
        }
    }
}

} // verus!
