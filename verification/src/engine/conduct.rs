//! What a whole back test of a portfolio keeps to: when its trades were ordered, at which
//! prices and in which order they were made, and what is held in the end.
use super::portfolio;
use super::portfolio::{
    Book, HoldingView, PfInner, PfOrder, PfTradeView, PortfolioCtx, PortfolioResult,
};
use crate::num::Scalar;
use crate::order;
use crate::order::EntryView;
use crate::text;
use vstd::prelude::*;

verus! {

// ---------------------------------------------------------------------------
// One day
// ---------------------------------------------------------------------------
/// A trade was made by an order on a day: for its security, at the opening price, and for no
/// more shares than were ordered.
pub open spec fn made_by<N: Scalar>(
    s: PfInner<N>,
    o: PfOrder,
    day: int,
    t: PfTradeView<N>,
) -> bool {
    let k = o.series as int;
    &&& k < s.series@.len()
    &&& s.bar_on(k, day) matches Some(l) && t.price == s.series@[k].opens@[l as int]
    &&& t.date == text::texts(s.dates@)[day]
    &&& t.code == s.series@[k].code@
    &&& t.action == (if o.buy {
        "BUY"@
    } else {
        "SELL"@
    })
    &&& 0 < t.shares <= o.shares
}

/// A trade was made by one of some orders.
pub open spec fn made_by_one<N: Scalar>(
    s: PfInner<N>,
    orders: Seq<PfOrder>,
    day: int,
    t: PfTradeView<N>,
) -> bool {
    exists|j: int| 0 <= j < orders.len() && made_by(s, #[trigger] orders[j], day, t)
}

/// How many shares the first `n` trades bought.
pub open spec fn shares_bought<N: Scalar>(ts: Seq<PfTradeView<N>>, n: int) -> int
    decreases n,
{
    if n <= 0 {
        0
    } else {
        shares_bought(ts, n - 1) + (if ts[n - 1].action == "BUY"@ && ts[n - 1].shares > 0 {
            ts[n - 1].shares as int
        } else {
            0
        })
    }
}

/// What is held of each security is more than nothing, and no more than was bought.
spec fn holds_something<N: Scalar>(b: Book<N>) -> bool {
    forall|s: int|
        0 <= s < b.positions.len() ==> (#[trigger] b.positions[s] matches Some(p) ==> 0 < p.shares
            <= shares_bought(b.trades, b.trades.len() as int))
}

/// Where the shares bought can be counted in `i64`, something is held of each security that
/// is held.
spec fn holds_if_counted<N: Scalar>(b: Book<N>) -> bool {
    shares_bought(b.trades, b.trades.len() as int) <= i64::MAX ==> holds_something(b)
}

proof fn bought_prefix<N: Scalar>(a: Seq<PfTradeView<N>>, b: Seq<PfTradeView<N>>, n: int)
    requires
        n <= a.len(),
        n <= b.len(),
        forall|i: int| 0 <= i < n ==> a[i] == b[i],
    ensures
        shares_bought(a, n) == shares_bought(b, n),
    decreases n,
{
    if n > 0 {
        bought_prefix(a, b, n - 1);
    }
}

proof fn one_fill<N: Scalar>(s: PfInner<N>, b: Book<N>, o: PfOrder, day: int)
    requires
        s.wf(),
        0 <= day < s.dates@.len(),
        o.series < s.series@.len(),
        b.positions.len() == s.series@.len(),
        holds_if_counted(b),
    ensures
        ({
            let c = s.fill_one(b, o, day);
            &&& c.positions.len() == b.positions.len()
            &&& holds_if_counted(c)
            &&& c.trades == b.trades || {
                &&& c.trades.len() == b.trades.len() + 1
                &&& c.trades.drop_last() == b.trades
                &&& made_by(s, o, day, c.trades.last())
            }
        }),
{
    let c = s.fill_one(b, o, day);
    let k = o.series as int;
    reveal_strlit("BUY");
    reveal_strlit("SELL");
    assert("BUY"@[0] == 'B' && "SELL"@[0] == 'S');
    if let Some(l) = s.bar_on(k, day) {
        let price = s.series@[k].opens@[l as int];
        let most = super::context::affordable(b.cash, price, s.fees.buy_rate, 100);
        super::context::bought_in_lots(most, o.shares as int, 100);
        if c.trades.len() > b.trades.len() {
            let t = c.trades.last();
            let n = b.trades.len() as int;
            assert(c.trades.drop_last() =~= b.trades);
            bought_prefix(c.trades, b.trades, n);
            assert(text::texts(s.dates@)[day] == s.dates@[day]@);
            assert(shares_bought(c.trades, n + 1) >= shares_bought(b.trades, n));
            if shares_bought(c.trades, n + 1) <= i64::MAX {
                assert(holds_something(b));
                assert forall|x: int| 0 <= x < c.positions.len() implies (
                #[trigger] c.positions[x] matches Some(p) ==> 0 < p.shares <= shares_bought(
                    c.trades,
                    n + 1,
                )) by {
                    assert(b.positions[x] matches Some(p) ==> 0 < p.shares <= shares_bought(
                        b.trades,
                        n,
                    ));
                    bought_not_below_zero(b.trades, n);
                }
            }
        }
    }
}

proof fn bought_not_below_zero<N: Scalar>(ts: Seq<PfTradeView<N>>, n: int)
    requires
        n <= ts.len(),
    ensures
        0 <= shares_bought(ts, n),
    decreases n,
{
    if n > 0 {
        bought_not_below_zero(ts, n - 1);
    }
}

/// Filling orders adds trades, each made by one of them.
proof fn all_fills<N: Scalar>(s: PfInner<N>, b: Book<N>, orders: Seq<PfOrder>, day: int)
    requires
        s.wf(),
        0 <= day < s.dates@.len(),
        forall|j: int| 0 <= j < orders.len() ==> (#[trigger] orders[j]).series < s.series@.len(),
        b.positions.len() == s.series@.len(),
        holds_if_counted(b),
    ensures
        ({
            let c = s.fill_all(b, orders, day);
            &&& c.positions.len() == b.positions.len()
            &&& holds_if_counted(c)
            &&& b.trades.len() <= c.trades.len()
            &&& c.trades.take(b.trades.len() as int) == b.trades
            &&& forall|k: int|
                b.trades.len() <= k < c.trades.len() ==> made_by_one(
                    s,
                    orders,
                    day,
                    #[trigger] c.trades[k],
                )
        }),
    decreases orders.len(),
{
    let m = b.trades.len() as int;
    if orders.len() == 0 {
        assert(b.trades.take(m) =~= b.trades);
    } else {
        let rest = orders.drop_last();
        assert forall|j: int| 0 <= j < rest.len() implies (#[trigger] rest[j]).series
            < s.series@.len() by {
            assert(rest[j] == orders[j]);
        }
        all_fills(s, b, rest, day);
        let a = s.fill_all(b, rest, day);
        let c = s.fill_all(b, orders, day);
        let o = orders.last();
        assert(orders[orders.len() - 1] == o);
        one_fill(s, a, o, day);
        assert(c.trades.take(m) =~= b.trades) by {
            if c.trades != a.trades {
                assert(c.trades.take(m) =~= c.trades.drop_last().take(m));
            }
        }
        assert forall|k: int| m <= k < c.trades.len() implies made_by_one(
            s,
            orders,
            day,
            #[trigger] c.trades[k],
        ) by {
            if k < a.trades.len() {
                assert(c.trades[k] == a.trades[k]) by {
                    if c.trades != a.trades {
                        assert(c.trades[k] == c.trades.drop_last()[k]);
                    }
                }
                assert(made_by_one(s, rest, day, a.trades[k]));
                let j = choose|j: int|
                    0 <= j < rest.len() && made_by(s, #[trigger] rest[j], day, a.trades[k]);
                assert(made_by(s, orders[j], day, c.trades[k]));
            } else {
                assert(made_by(s, orders[orders.len() - 1], day, c.trades[k]));
            }
        }
    }
}

/// The purchases or the sales among orders are some of them.
proof fn side_is_some(orders: Seq<PfOrder>, buy: bool)
    ensures
        forall|i: int|
            0 <= i < portfolio::side(orders, buy).len() ==> {
                &&& (#[trigger] portfolio::side(orders, buy)[i]).buy == buy
                &&& orders.contains(portfolio::side(orders, buy)[i])
            },
    decreases orders.len(),
{
    if orders.len() > 0 {
        let rest = orders.drop_last();
        side_is_some(rest, buy);
        let a = portfolio::side(rest, buy);
        let c = portfolio::side(orders, buy);
        assert forall|i: int| 0 <= i < c.len() implies (#[trigger] c[i]).buy == buy
            && orders.contains(c[i]) by {
            if i < a.len() {
                assert(c[i] == a[i]);
                assert(rest.contains(a[i]));
                let j = choose|j: int| 0 <= j < rest.len() && rest[j] == a[i];
                assert(orders[j] == c[i]);
            } else {
                assert(orders[orders.len() - 1] == c[i]);
            }
        }
    }
}

/// What a day adds to the trades: trades made by the orders that waited, the sales first.
spec fn day_added<N: Scalar>(s: PfInner<N>, day: int, m: int, ts: Seq<PfTradeView<N>>) -> bool {
    &&& forall|k: int| m <= k < ts.len() ==> made_by_one(s, s.pending@, day, #[trigger] ts[k])
    &&& forall|i: int, j: int|
        m <= i < j < ts.len() && (#[trigger] ts[j]).action == "SELL"@ ==> (
        #[trigger] ts[i]).action == "SELL"@
}

proof fn one_day<N: Scalar>(s: PfInner<N>, day: int)
    requires
        s.wf(),
        0 <= day < s.dates@.len(),
        holds_if_counted(s.book()),
    ensures
        ({
            let b = s.book();
            let c = s.settled(day);
            &&& c.positions.len() == b.positions.len()
            &&& holds_if_counted(c)
            &&& b.trades.len() <= c.trades.len()
            &&& c.trades.take(b.trades.len() as int) == b.trades
            &&& day_added(s, day, b.trades.len() as int, c.trades)
        }),
{
    let b = s.book();
    let sales = portfolio::side(s.pending@, false);
    let purchases = portfolio::side(s.pending@, true);
    side_is_some(s.pending@, false);
    side_is_some(s.pending@, true);
    let a = s.fill_all(b, sales, day);
    let c = s.settled(day);
    let m = b.trades.len() as int;
    let x = a.trades.len() as int;
    all_fills(s, b, sales, day);
    all_fills(s, a, purchases, day);
    reveal_strlit("BUY");
    reveal_strlit("SELL");
    assert("BUY"@[0] == 'B' && "SELL"@[0] == 'S');
    assert(c.trades.take(m) =~= b.trades) by {
        assert(c.trades.take(m) =~= c.trades.take(x).take(m));
    }
    assert forall|k: int| m <= k < c.trades.len() implies {
        &&& made_by_one(s, s.pending@, day, #[trigger] c.trades[k])
        &&& c.trades[k].action == (if k < x {
            "SELL"@
        } else {
            "BUY"@
        })
    } by {
        let from = if k < x {
            sales
        } else {
            purchases
        };
        if k < x {
            assert(c.trades[k] == c.trades.take(x)[k]);
            assert(made_by_one(s, sales, day, a.trades[k]));
        }
        assert(made_by_one(s, from, day, c.trades[k]));
        let j = choose|j: int|
            0 <= j < from.len() && made_by(s, #[trigger] from[j], day, c.trades[k]);
        assert(s.pending@.contains(from[j]));
        let i = choose|i: int| 0 <= i < s.pending@.len() && s.pending@[i] == from[j];
        assert(made_by(s, s.pending@[i], day, c.trades[k]));
    }
    assert forall|i: int, j: int| m <= i < j < c.trades.len() && (#[trigger] c.trades[j]).action
        == "SELL"@ implies (#[trigger] c.trades[i]).action == "SELL"@ by {
        assert(j < x);
    }
}

// ---------------------------------------------------------------------------
// The whole back test
// ---------------------------------------------------------------------------
/// A back test before its first day: nothing is held, ordered or noted.
pub open spec fn fresh<N: Scalar>(ctx: PortfolioCtx<N>) -> bool {
    &&& ctx.0.wf()
    &&& ctx.0.trades@.len() == 0
    &&& ctx.0.pending@.len() == 0
    &&& ctx.0.equity@.len() == 0
    &&& forall|s: int| 0 <= s < ctx.0.positions@.len() ==> #[trigger] ctx.0.positions@[s] is None
}

/// A trade of a day was made by an order that the strategy had given on the day before: one
/// of those that waited when it had seen the days before that day, and only those.
pub open spec fn ordered_the_day_before<
    N: Scalar,
    F: Fn(PortfolioCtx<N>) -> (PortfolioCtx<N>, Option<String>),
>(on_bar: F, first: PortfolioCtx<N>, day: int, t: PfTradeView<N>) -> bool {
    exists|p: PortfolioCtx<N>| #[trigger]
        portfolio::reached(on_bar, first, day, p) && made_by_one(first.0, p.0.pending@, day, t)
}

/// Trades and the days of the first `n` on which they were made: every one was ordered on
/// the day before, so none on the first day and none by an order of the last; the days
/// ascend, and the sales of a day come before its purchases.
pub open spec fn conducted<
    N: Scalar,
    F: Fn(PortfolioCtx<N>) -> (PortfolioCtx<N>, Option<String>),
>(
    on_bar: F,
    first: PortfolioCtx<N>,
    n: int,
    ts: Seq<PfTradeView<N>>,
    days: Seq<int>,
) -> bool {
    &&& days.len() == ts.len()
    &&& forall|k: int|
        0 <= k < ts.len() ==> 1 <= #[trigger] days[k] < n && ordered_the_day_before(
            on_bar,
            first,
            days[k],
            ts[k],
        )
    &&& forall|i: int, j: int|
        0 <= i < j < ts.len() ==> {
            &&& #[trigger] days[i] <= #[trigger] days[j]
            &&& days[i] == days[j] && ts[j].action == "SELL"@ ==> ts[i].action == "SELL"@
        }
}

proof fn same_orders<N: Scalar>(
    p: PfInner<N>,
    first: PfInner<N>,
    orders: Seq<PfOrder>,
    day: int,
    t: PfTradeView<N>,
)
    requires
        p.same_market(&first),
        made_by_one(p, orders, day, t),
    ensures
        made_by_one(first, orders, day, t),
{
    let j = choose|j: int| 0 <= j < orders.len() && made_by(p, #[trigger] orders[j], day, t);
    assert(p.series@[orders[j].series as int].same(&first.series@[orders[j].series as int]));
    assert(made_by(first, orders[j], day, t));
}

/// What has been traded and what is held when the strategy has seen the first `n` days.
proof fn conduct_so_far<
    N: Scalar,
    F: Fn(PortfolioCtx<N>) -> (PortfolioCtx<N>, Option<String>),
>(on_bar: F, first: PortfolioCtx<N>, n: int, last: PortfolioCtx<N>)
    requires
        fresh(first),
        portfolio::well_behaved(on_bar),
        0 <= n <= first.0.dates@.len(),
        portfolio::reached(on_bar, first, n, last),
    ensures
        last.0.equity@.len() == n,
        holds_if_counted(last.0.book()),
        exists|days: Seq<int>| #[trigger]
            conducted(on_bar, first, n, portfolio::records(last.0.trades@), days),
        n == 0 ==> last.0.pending@.len() == 0,
    decreases n,
{
    if n == 0 {
        let days = Seq::<int>::empty();
        assert(conducted(on_bar, first, n, portfolio::records(last.0.trades@), days));
        assert(holds_something(last.0.book()));
    } else {
        let (p, q) = choose|p: PortfolioCtx<N>, q: PortfolioCtx<N>|
            portfolio::reached(on_bar, first, n - 1, p) && #[trigger] portfolio::begun(p, n - 1, q)
                && call_ensures(on_bar, (q,), (last, None::<String>));
        conduct_so_far(on_bar, first, n - 1, p);
        portfolio::market_stays(on_bar, first, n - 1, p);
        assert(portfolio::acted(q, last));
        assert(text::texts(p.0.dates@).len() == text::texts(first.0.dates@).len());
        let day = n - 1;
        one_day(p.0, day);
        let before = portfolio::records(p.0.trades@);
        let after = portfolio::records(last.0.trades@);
        let m = before.len() as int;
        assert(after == p.0.settled(day).trades);
        let days = choose|days: Seq<int>| #[trigger]
            conducted(on_bar, first, n - 1, before, days);
        let more = days + Seq::new((after.len() - m) as nat, |k: int| day);
        assert forall|k: int| 0 <= k < after.len() implies 1 <= #[trigger] more[k] < n
            && ordered_the_day_before(on_bar, first, more[k], after[k]) by {
            if k < m {
                assert(after[k] == after.take(m)[k]);
                assert(1 <= days[k] < n - 1);
            } else {
                assert(made_by_one(p.0, p.0.pending@, day, after[k]));
                same_orders(p.0, first.0, p.0.pending@, day, after[k]);
                assert(portfolio::reached(on_bar, first, day, p));
            }
        }
        assert forall|i: int, j: int| 0 <= i < j < after.len() implies {
            &&& #[trigger] more[i] <= #[trigger] more[j]
            &&& more[i] == more[j] && after[j].action == "SELL"@ ==> after[i].action == "SELL"@
        } by {
            if j < m {
                assert(days[i] <= days[j]);
                assert(after[i] == after.take(m)[i]);
                assert(after[j] == after.take(m)[j]);
            } else if i < m {
                assert(days[i] < n - 1);
            }
        }
        assert(conducted(on_bar, first, n, after, more));
    }
}

/// A whole back test that began with nothing has noted its worth once for each day. Each
/// trade was made at the opening price of its security on its day, by an order of the day
/// before, so an order of the last day is never filled; the trades stand by their days, and
/// on one day the sales come before the purchases.
pub proof fn back_test_keeps_to_the_rules<
    N: Scalar,
    F: Fn(PortfolioCtx<N>) -> (PortfolioCtx<N>, Option<String>),
>(on_bar: F, first: PortfolioCtx<N>, r: PortfolioResult<N>)
    requires
        fresh(first),
        portfolio::well_behaved(on_bar),
        portfolio::ran(on_bar, first, r),
    ensures
        r.equity@.len() == r.dates@.len() == first.0.dates@.len(),
        text::texts(r.dates@) == text::texts(first.0.dates@),
        exists|days: Seq<int>| #[trigger]
            conducted(
                on_bar,
                first,
                first.0.dates@.len() as int,
                portfolio::records(r.trades@),
                days,
            ),
{
    let n = first.0.dates@.len() as int;
    let last = choose|last: PortfolioCtx<N>| #[trigger]
        portfolio::reached(on_bar, first, n, last) && portfolio::yielded(last, r);
    conduct_so_far(on_bar, first, n, last);
    portfolio::market_stays(on_bar, first, n, last);
    assert(text::texts(r.dates@).len() == text::texts(first.0.dates@).len());
}

// ---------------------------------------------------------------------------
// What is held in the end
// ---------------------------------------------------------------------------
proof fn held_entries<N: Scalar>(s: PfInner<N>, n: int)
    requires
        0 <= n <= s.positions@.len(),
        n <= usize::MAX,
    ensures
        forall|k: int|
            0 <= k < portfolio::held_list(s, n).len() ==> {
                let e = #[trigger] portfolio::held_list(s, n)[k];
                &&& e.tag < n
                &&& e.key == 0
                &&& e.name == s.series@[e.tag as int].code@
                &&& s.positions@[e.tag as int] is Some
            },
        portfolio::held_list(s, n).no_duplicates(),
    decreases n,
{
    if n > 0 {
        held_entries(s, n - 1);
        let a = portfolio::held_list(s, n - 1);
        let c = portfolio::held_list(s, n);
        if c.len() > a.len() {
            assert forall|k: int| 0 <= k < c.len() implies {
                let e = #[trigger] c[k];
                &&& e.tag < n
                &&& e.key == 0
                &&& e.name == s.series@[e.tag as int].code@
                &&& s.positions@[e.tag as int] is Some
            } by {
                if k < a.len() {
                    assert(c[k] == a[k]);
                }
            }
            assert forall|i: int, j: int| 0 <= i < c.len() && 0 <= j < c.len() && i != j implies c[i]
                != c[j] by {
                if i < a.len() {
                    assert(c[i] == a[i] && a[i].tag < n - 1);
                }
                if j < a.len() {
                    assert(c[j] == a[j] && a[j].tag < n - 1);
                }
            }
        }
    }
}

/// Holdings ascend by their codes.
pub open spec fn by_code<N: Scalar>(hs: Seq<HoldingView<N>>) -> bool {
    forall|i: int, j: int|
        0 <= i < j < hs.len() ==> text::before((#[trigger] hs[i]).code, (#[trigger] hs[j]).code)
            || hs[i].code == hs[j].code
}

/// Holdings ascend by their codes, and no code occurs twice.
pub open spec fn by_code_once<N: Scalar>(hs: Seq<HoldingView<N>>) -> bool {
    forall|i: int, j: int|
        0 <= i < j < hs.len() ==> text::before((#[trigger] hs[i]).code, (#[trigger] hs[j]).code)
}

/// What is held at the end of a back test that began with nothing ascends by the codes, each
/// once where no two securities have one code; and of each more than nothing is held, where
/// all the shares that were bought can be counted in `i64`.
pub proof fn holdings_are_in_order<
    N: Scalar,
    F: Fn(PortfolioCtx<N>) -> (PortfolioCtx<N>, Option<String>),
>(on_bar: F, first: PortfolioCtx<N>, r: PortfolioResult<N>)
    requires
        fresh(first),
        portfolio::well_behaved(on_bar),
        portfolio::ran(on_bar, first, r),
    ensures
        by_code(portfolio::holding_views(r.holdings@)),
        portfolio::codes(first.0.series@).no_duplicates() ==> by_code_once(
            portfolio::holding_views(r.holdings@),
        ),
        shares_bought(portfolio::records(r.trades@), r.trades@.len() as int) <= i64::MAX
            ==> forall|k: int| 0 <= k < r.holdings@.len() ==> (#[trigger] r.holdings@[k]).shares > 0,
{
    let days = first.0.dates@.len() as int;
    let last = choose|last: PortfolioCtx<N>| #[trigger]
        portfolio::reached(on_bar, first, days, last) && portfolio::yielded(last, r);
    conduct_so_far(on_bar, first, days, last);
    portfolio::market_stays(on_bar, first, days, last);
    let s = last.0;
    let n = s.series@.len() as int;
    let all = portfolio::held_list(s, n);
    let list = choose|list: Seq<EntryView>|
        order::ordered(all, list) && portfolio::holding_views(r.holdings@)
            == #[trigger] portfolio::holdings_of(s, list);
    let hs = portfolio::holding_views(r.holdings@);
    held_entries(s, n);
    all.lemma_multiset_has_no_duplicates();
    list.lemma_multiset_has_no_duplicates_conv();
    assert forall|i: int| 0 <= i < list.len() implies {
        let e = #[trigger] list[i];
        &&& e.tag < n
        &&& e.key == 0
        &&& e.name == s.series@[e.tag as int].code@
        &&& s.positions@[e.tag as int] is Some
    } by {
        order::ordered_keeps(all, list, i);
        let x = choose|x: int| 0 <= x < all.len() && all[x] == list[i];
        assert(all[x].tag < n);
    }
    assert forall|i: int, j: int| 0 <= i < j < hs.len() implies {
        &&& text::before((#[trigger] hs[i]).code, (#[trigger] hs[j]).code) || hs[i].code
            == hs[j].code
        &&& portfolio::codes(first.0.series@).no_duplicates() ==> hs[i].code != hs[j].code
    } by {
        let a = list[i];
        let b = list[j];
        assert(!order::ahead(b, a));
        assert(a != b);
        text::before_total(a.name, b.name);
        assert(hs[i].code == a.name && hs[j].code == b.name);
        let cs = portfolio::codes(first.0.series@);
        assert(s.series@[a.tag as int].same(&first.0.series@[a.tag as int]));
        assert(s.series@[b.tag as int].same(&first.0.series@[b.tag as int]));
        assert(cs[a.tag as int] == a.name && cs[b.tag as int] == b.name);
    }
    if shares_bought(portfolio::records(r.trades@), r.trades@.len() as int) <= i64::MAX {
        assert(portfolio::records(r.trades@).len() == portfolio::records(s.trades@).len());
        assert(holds_something(s.book()));
        assert forall|k: int| 0 <= k < r.holdings@.len() implies (#[trigger] r.holdings@[k]).shares
            > 0 by {
            assert(hs.len() == r.holdings@.len());
            assert(portfolio::holdings_of(s, list).len() == list.len());
            let e = list[k];
            assert(hs[k] == r.holdings@[k]@);
            assert(hs[k] == portfolio::holding_of(s, e.tag as int));
            assert(s.book().positions[e.tag as int] is Some);
        }
    }
}

} // verus!
