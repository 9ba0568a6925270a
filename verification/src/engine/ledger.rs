//! What orders and trades do to cash and holdings, in units of the currency.
//!
//! The laws here are of decimals. They are stated over whole units, where each sum and each
//! comparison is exact, and say what rounding leaves open.
use super::backtest;
use super::context;
use super::context::{Account, Fees, Order};
use super::portfolio;
use super::portfolio::{Book, PfInner, PfOrder, Pos};
use super::rules;
use super::rules::{FeeModel, HkFees};
use crate::data::models::KLineView;
use crate::fixed;
use crate::fixed::{is_part_of, is_ratio_of, of_units, Fixed, SCALE};
use crate::num;
use crate::num::Scalar;
use vstd::prelude::*;

verus! {

// ---------------------------------------------------------------------------
// Charges
// ---------------------------------------------------------------------------
/// The larger of two numbers.
pub open spec fn at_least(n: int, least: int) -> int {
    if n < least {
        least
    } else {
        n
    }
}

/// On the mainland a purchase is charged its rate on the worth of the shares, a sale its
/// rate and stamp duty together; both are rounded down to the unit.
pub proof fn mainland_charges_a_rate(buy_rate: Fixed, sell_rate: Fixed, stamp_rate: Fixed, v: Fixed)
    ensures
        ({
            let fee = FeeModel::AShare { buy_rate, sell_rate, stamp_rate };
            let buy = rules::cost_to_buy(fee, v);
            let sell = rules::cost_to_sell(fee, v);
            &&& buy.defined ==> is_part_of(buy.units as int, v.units as int, buy_rate.units as int)
            &&& sell.defined ==> is_part_of(
                sell.units as int,
                v.units as int,
                sell_rate.units + stamp_rate.units,
            )
        }),
{
    let fee = FeeModel::AShare { buy_rate, sell_rate, stamp_rate };
    if rules::cost_to_buy(fee, v).defined {
        fixed::product_is_part(v, buy_rate);
    }
    if rules::cost_to_sell(fee, v).defined {
        fixed::product_is_part(v, sell_rate.sum(stamp_rate));
    }
}

/// In Hong Kong a side of a trade is charged stamp duty, rounded up to whole dollars, the
/// trading fee, the two levies, the settlement fee within its bounds where there are any,
/// and what the broker takes: a commission, not below the least one, and the platform fee.
/// The rounded amount of each rate is given, and there is but one such amount.
pub proof fn hong_kong_charges_add_up(
    h: HkFees<Fixed>,
    v: Fixed,
    duty: int,
    dollars: int,
    trading: int,
    first_levy: int,
    second_levy: int,
    settling: int,
    commission: int,
)
    requires
        rules::hk_cost(h, v).defined,
        is_part_of(duty, v.units as int, h.stamp_rate.units as int),
        (dollars - 1) * SCALE < duty <= dollars * SCALE,
        is_part_of(trading, v.units as int, h.trading_fee_rate.units as int),
        is_part_of(first_levy, v.units as int, h.sfc_rate.units as int),
        is_part_of(second_levy, v.units as int, h.afrc_rate.units as int),
        is_part_of(settling, v.units as int, h.settlement_rate.units as int),
        is_part_of(commission, v.units as int, h.commission_rate.units as int),
        h.settlement_rate.defined,
        h.commission_rate.defined,
        of_units(settling).defined,
        of_units(commission).defined,
        h.settlement_min.defined,
        h.settlement_max.defined,
        h.commission_min.defined,
    ensures
        ({
            let low = h.settlement_min.units as int;
            let high = h.settlement_max.units as int;
            let from = if 0 < low {
                at_least(settling, low)
            } else {
                settling
            };
            let settled = if 0 < high && high < from {
                high
            } else {
                from
            };
            rules::hk_cost(h, v).units == dollars * SCALE + trading + first_levy + second_levy
                + settled + at_least(commission, h.commission_min.units as int)
                + h.platform_fee.units
        }),
{
    let stamp = v.product(h.stamp_rate);
    let s = SCALE as int;
    assert(stamp.ceiling().defined);
    assert(stamp.defined);
    fixed::product_is_part(v, h.stamp_rate);
    fixed::one_ratio(duty, stamp.units as int, v.units * h.stamp_rate.units, s);
    fixed::floored(-stamp.units as int, s);
    fixed::one_ratio((-stamp.units) / s, -dollars, -stamp.units as int, s);
    fixed::product_is_part(v, h.trading_fee_rate);
    fixed::one_ratio(
        trading,
        v.product(h.trading_fee_rate).units as int,
        v.units * h.trading_fee_rate.units,
        s,
    );
    fixed::product_is_part(v, h.sfc_rate);
    fixed::one_ratio(
        first_levy,
        v.product(h.sfc_rate).units as int,
        v.units * h.sfc_rate.units,
        s,
    );
    fixed::product_is_part(v, h.afrc_rate);
    fixed::one_ratio(
        second_levy,
        v.product(h.afrc_rate).units as int,
        v.units * h.afrc_rate.units,
        s,
    );
    assert(rules::settlement(h, v).defined);
    assert(v.units * h.settlement_rate.units / s == settling) by {
        fixed::floored(v.units * h.settlement_rate.units, s);
        fixed::one_ratio(
            settling,
            v.units * h.settlement_rate.units / s,
            v.units * h.settlement_rate.units,
            s,
        );
    }
    assert(v.units * h.commission_rate.units / s == commission) by {
        fixed::floored(v.units * h.commission_rate.units, s);
        fixed::one_ratio(
            commission,
            v.units * h.commission_rate.units / s,
            v.units * h.commission_rate.units,
            s,
        );
    }
    assert(stamp.ceiling().units == dollars * s);
}

// ---------------------------------------------------------------------------
// Worth
// ---------------------------------------------------------------------------
/// What shares are worth at a price, added to cash.
pub open spec fn worth_at(cash: Fixed, shares: int, price: Fixed) -> int {
    cash.units + shares * price.units
}

/// The shares of one security, none where none is held.
pub open spec fn shares_in(p: Option<Pos<Fixed>>) -> int {
    match p {
        Some(p) => p.shares as int,
        None => 0,
    }
}

/// What the first `n` holdings are worth at given prices.
pub open spec fn holdings_at(
    positions: Seq<Option<Pos<Fixed>>>,
    prices: Seq<Fixed>,
    n: int,
) -> int
    decreases n,
{
    if n <= 0 {
        0
    } else {
        holdings_at(positions, prices, n - 1) + shares_in(positions[n - 1]) * prices[n - 1].units
    }
}

/// An account is worth its cash and its shares at the price.
pub proof fn account_is_worth_cash_and_shares(cash: Fixed, shares: i64, price: Fixed)
    requires
        context::worth(cash, shares, price).defined,
    ensures
        context::worth(cash, shares, price).units == worth_at(cash, shares as int, price),
{
    fixed::multiple_is_exact(shares as int, price);
}

/// A portfolio is worth its cash and, of each security held, the shares at its price.
pub proof fn portfolio_is_worth_cash_and_holdings(
    cash: Fixed,
    positions: Seq<Option<Pos<Fixed>>>,
    prices: Seq<Fixed>,
    n: int,
)
    requires
        portfolio::valued(cash, positions, prices, n).defined,
    ensures
        cash.defined,
        portfolio::valued(cash, positions, prices, n).units == cash.units + holdings_at(
            positions,
            prices,
            n,
        ),
    decreases n,
{
    if n > 0 {
        portfolio_is_worth_cash_and_holdings(cash, positions, prices, n - 1);
        match positions[n - 1] {
            Some(p) => {
                fixed::multiple_is_exact(p.shares as int, prices[n - 1]);
            },
            None => {},
        }
    }
}

// ---------------------------------------------------------------------------
// How much cash buys
// ---------------------------------------------------------------------------
/// What cash is enough for is the largest number of whole lots whose shares, each with the
/// charge on it, cost no more than the cash. What a share costs with its charge is given in
/// units, rounded down.
pub proof fn affordable_is_the_most(cash: Fixed, price: Fixed, rate: Fixed, lot: int, each: int)
    requires
        cash.defined,
        price.defined,
        rate.defined,
        0 <= cash.units,
        0 < lot,
        is_part_of(each, price.units as int, SCALE + rate.units),
        0 < each <= i64::MAX,
        SCALE + rate.units <= i64::MAX,
        cash.units * SCALE < each * i64::MAX,
    ensures
        ({
            let n = context::affordable(cash, price, rate, lot);
            &&& 0 <= n
            &&& n % lot == 0
            &&& n * each <= cash.units < (n + lot) * each
        }),
{
    let s = SCALE as int;
    let c = cash.units as int;
    let p = price.units as int;
    let r = rate.units as int;
    let cost = price.product(num::unit::<Fixed>().sum(rate));
    assert(num::unit::<Fixed>().sum(rate) == of_units(s + r));
    fixed::floored(p * (s + r), s);
    fixed::one_ratio(each, p * (s + r) / s, p * (s + r), s);
    assert(cost == of_units(each));
    let q = c * s / each;
    fixed::times_in(c, each);
    fixed::floored(c * s, each);
    assert(q <= i64::MAX) by (nonlinear_arith)
        requires
            q * each <= c * s,
            c * s < each * i64::MAX,
            0 < each,
    ;
    assert(cash.quotient(cost) == of_units(q));
    let k = q / s;
    assert(cash.quotient(cost).integral() == k);
    rules::whole_lots(k, lot);
    let n = rules::in_lots(k, lot);
    assert(n * each <= c) by (nonlinear_arith)
        requires
            0 <= n <= k,
            k * each <= c,
            0 < each,
    ;
    assert(c < (n + lot) * each) by (nonlinear_arith)
        requires
            k + 1 <= n + lot,
            c < k * each + each,
            0 < each,
    ;
}

/// An order to buy is filled with the largest number of whole lots that is no more than was
/// ordered and that the cash is enough for; where it is for less than a lot, with none.
pub proof fn purchase_is_the_most(
    cash: Fixed,
    price: Fixed,
    rate: Fixed,
    wanted: i64,
    lot: int,
    each: int,
)
    requires
        cash.defined,
        price.defined,
        rate.defined,
        0 <= cash.units,
        0 < lot,
        0 <= wanted,
        is_part_of(each, price.units as int, SCALE + rate.units),
        0 < each <= i64::MAX,
        SCALE + rate.units <= i64::MAX,
        cash.units * SCALE < each * i64::MAX,
    ensures
        ({
            let n = context::lots_bought(cash, price, rate, wanted, lot);
            &&& 0 <= n <= wanted
            &&& n % lot == 0
            &&& n * each <= cash.units
            &&& wanted < n + lot || cash.units < (n + lot) * each
        }),
{
    let n = context::lots_bought(cash, price, rate, wanted, lot);
    let most = context::affordable(cash, price, rate, lot);
    affordable_is_the_most(cash, price, rate, lot, each);
    rules::whole_lots(wanted as int, lot);
    rules::whole_lots(most, lot);
    if wanted > most {
        vstd::arithmetic::div_mod::lemma_fundamental_div_mod(most, lot);
        vstd::arithmetic::mul::lemma_mul_is_commutative(lot, most / lot);
        assert(n == most);
    } else {
        assert(n * each <= most * each) by (nonlinear_arith)
            requires
                n <= most,
                0 < each,
        ;
    }
}

// ---------------------------------------------------------------------------
// Fills
// ---------------------------------------------------------------------------
/// Through a sale an account gains the worth of the shares sold and loses the charge: its
/// worth at the price of the sale falls by just the charge. All that is ordered is sold as
/// far as it is held, the cost of what is left stays, and the gain is the part of the cost
/// by which the price is above it.
pub proof fn sale_moves_money(
    a: Account<Fixed>,
    bar: KLineView<Fixed>,
    order: Order,
    fee: FeeModel<Fixed>,
    lot: i64,
)
    requires
        bar.open.defined,
        0 < bar.open.units,
        !order.buy,
        0 < order.shares,
        0 < a.position,
        backtest::filled(a, bar, order, fee, lot).cash.defined,
    ensures
        ({
            let b = backtest::filled(a, bar, order, fee, lot);
            let t = b.trades.last();
            let p = bar.open;
            let n = t.shares as int;
            let charge = worth_at(a.cash, a.position as int, p) - worth_at(
                b.cash,
                b.position as int,
                p,
            );
            &&& b.trades == a.trades.push(t)
            &&& t.date == bar.date
            &&& t.action == "SELL"@
            &&& t.price == p
            &&& n <= order.shares
            &&& n <= a.position
            &&& n == order.shares || n == a.position
            &&& b.position == a.position - n
            &&& b.cash.units == a.cash.units + n * p.units - charge
            &&& charge == rules::cost_to_sell(fee, of_units(n * p.units)).units
            &&& fee matches FeeModel::AShare { sell_rate, stamp_rate, .. } ==> is_part_of(
                charge,
                n * p.units,
                sell_rate.units + stamp_rate.units,
            )
            &&& 0 < b.position ==> b.avg_cost == a.avg_cost
            &&& b.position == 0 ==> b.avg_cost == of_units(0)
            &&& a.avg_cost.defined && 0 < a.avg_cost.units ==> {
                &&& t.pnl_pct is Some
                &&& t.pnl_pct.unwrap().defined ==> is_ratio_of(
                    t.pnl_pct.unwrap().units as int,
                    (p.units - a.avg_cost.units) * SCALE,
                    a.avg_cost.units as int,
                )
            }
            &&& a.avg_cost.defined && a.avg_cost.units <= 0 ==> t.pnl_pct is None
        }),
{
    let n = backtest::shares_sold(a.position, order) as int;
    let p = bar.open;
    fixed::multiple_is_exact(n, p);
    assert((a.position - n) * p.units == a.position * p.units - n * p.units) by (nonlinear_arith);
    match fee {
        FeeModel::AShare { buy_rate, sell_rate, stamp_rate } => {
            mainland_charges_a_rate(buy_rate, sell_rate, stamp_rate, of_units(n * p.units));
        },
        FeeModel::Hk(h) => {},
    }
    gain_is_a_part(p, a.avg_cost);
}

proof fn gain_is_a_part(price: Fixed, avg_cost: Fixed)
    ensures
        match backtest::gain_on_sale(price, avg_cost) {
            Some(g) => {
                &&& avg_cost.defined
                &&& 0 < avg_cost.units
                &&& g.defined ==> is_ratio_of(
                    g.units as int,
                    (price.units - avg_cost.units) * SCALE,
                    avg_cost.units as int,
                )
            },
            None => !(avg_cost.defined && 0 < avg_cost.units),
        },
{
    match backtest::gain_on_sale(price, avg_cost) {
        Some(g) => {
            if g.defined {
                fixed::quotient_is_ratio(price.difference(avg_cost), avg_cost);
            }
        },
        None => {},
    }
}

/// Through a purchase an account gains shares and loses what they are worth and the charge:
/// its worth at the price of the purchase falls by just the charge. The cost of a share is
/// then the mean of what all shares held have cost, rounded down to the unit.
pub proof fn purchase_moves_money(
    a: Account<Fixed>,
    bar: KLineView<Fixed>,
    order: Order,
    fee: FeeModel<Fixed>,
    lot: i64,
)
    requires
        bar.open.defined,
        0 < bar.open.units,
        order.buy,
        0 <= a.position,
        a.position + order.shares <= i64::MAX,
        0 < backtest::shares_bought(a.cash, bar.open, order, fee, lot),
        backtest::filled(a, bar, order, fee, lot).cash.defined,
    ensures
        ({
            let b = backtest::filled(a, bar, order, fee, lot);
            let t = b.trades.last();
            let p = bar.open;
            let n = t.shares as int;
            let charge = worth_at(a.cash, a.position as int, p) - worth_at(
                b.cash,
                b.position as int,
                p,
            );
            &&& b.trades == a.trades.push(t)
            &&& t.date == bar.date
            &&& t.action == "BUY"@
            &&& t.price == p
            &&& t.pnl_pct is None
            &&& n == backtest::shares_bought(a.cash, p, order, fee, lot)
            &&& b.position == a.position + n
            &&& b.cash.units == a.cash.units - n * p.units - charge
            &&& charge == rules::cost_to_buy(fee, of_units(n * p.units)).units
            &&& fee matches FeeModel::AShare { buy_rate, .. } ==> is_part_of(
                charge,
                n * p.units,
                buy_rate.units as int,
            )
            &&& b.avg_cost.defined ==> is_ratio_of(
                b.avg_cost.units as int,
                a.position * a.avg_cost.units + n * p.units,
                b.position as int,
            )
        }),
{
    let n = backtest::shares_bought(a.cash, bar.open, order, fee, lot);
    let most = context::affordable(a.cash, bar.open, rules::rate_to_buy(fee), lot as int);
    context::bought_in_lots(most, order.shares as int, lot as int);
    let p = bar.open;
    let b = backtest::filled(a, bar, order, fee, lot);
    fixed::multiple_is_exact(n, p);
    assert((a.position + n) * p.units == a.position * p.units + n * p.units) by (nonlinear_arith);
    match fee {
        FeeModel::AShare { buy_rate, sell_rate, stamp_rate } => {
            mainland_charges_a_rate(buy_rate, sell_rate, stamp_rate, of_units(n * p.units));
        },
        FeeModel::Hk(h) => {},
    }
    if b.avg_cost.defined {
        mean_cost_is_ratio(a.avg_cost, a.position as int, of_units(n * p.units), a.position + n);
    }
}

proof fn mean_cost_is_ratio(avg: Fixed, held: int, cost: Fixed, total: int)
    requires
        0 <= held,
        0 < total,
        avg.product(Fixed::whole(held)).sum(cost).quotient(Fixed::whole(total)).defined,
    ensures
        is_ratio_of(
            avg.product(Fixed::whole(held)).sum(cost).quotient(Fixed::whole(total)).units as int,
            held * avg.units + cost.units,
            total,
        ),
{
    fixed::multiple_is_exact(held, avg);
    fixed::share_is_ratio(avg.product(Fixed::whole(held)).sum(cost), total);
}

/// Through a sale a portfolio gains the worth of the shares sold and loses the charge, and
/// no other holding changes: its cash and the shares sold at, at the price of the sale, fall
/// by just the charge. All that is ordered is sold as far as it is held.
pub proof fn portfolio_sale_moves_money(
    b: Book<Fixed>,
    order: PfOrder,
    price: Fixed,
    date: Seq<char>,
    code: Seq<char>,
    fees: Fees<Fixed>,
)
    requires
        price.defined,
        0 < price.units,
        !order.buy,
        0 < order.shares,
        order.series < b.positions.len(),
        0 < shares_in(b.positions[order.series as int]),
        portfolio::filled(b, order, price, date, code, fees).cash.defined,
    ensures
        ({
            let c = portfolio::filled(b, order, price, date, code, fees);
            let t = c.trades.last();
            let k = order.series as int;
            let n = t.shares as int;
            let held = shares_in(b.positions[k]);
            let left = shares_in(c.positions[k]);
            let cost = b.positions[k].unwrap().avg_cost;
            let charge = worth_at(b.cash, held, price) - worth_at(c.cash, left, price);
            &&& c.trades == b.trades.push(t)
            &&& t.date == date
            &&& t.code == code
            &&& t.action == "SELL"@
            &&& t.price == price
            &&& n <= order.shares
            &&& n <= held
            &&& n == order.shares || n == held
            &&& left == held - n
            &&& c.positions.len() == b.positions.len()
            &&& forall|j: int|
                0 <= j < b.positions.len() && j != k ==> c.positions[j] == b.positions[j]
            &&& c.positions[k] is None <==> left == 0
            &&& 0 < left ==> c.positions[k].unwrap().avg_cost == cost
            &&& c.cash.units == b.cash.units + n * price.units - charge
            &&& is_part_of(
                charge,
                n * price.units,
                fees.sell_rate.units + fees.stamp_rate.units,
            )
            &&& cost.defined && 0 < cost.units ==> {
                &&& t.pnl_pct is Some
                &&& t.pnl_pct.unwrap().defined ==> is_ratio_of(
                    t.pnl_pct.unwrap().units as int,
                    (price.units - cost.units) * SCALE,
                    cost.units as int,
                )
            }
            &&& cost.defined && cost.units <= 0 ==> t.pnl_pct is None
        }),
{
    let k = order.series as int;
    let held = shares_in(b.positions[k]);
    let n = if order.shares <= held {
        order.shares as int
    } else {
        held
    };
    fixed::multiple_is_exact(n, price);
    assert((held - n) * price.units == held * price.units - n * price.units) by (nonlinear_arith);
    let worth = of_units(n * price.units);
    fixed::product_is_part(worth, fees.sell_rate.sum(fees.stamp_rate));
    gain_is_a_part(price, b.positions[k].unwrap().avg_cost);
}

/// Through a purchase a portfolio gains shares and loses what they are worth and the charge,
/// and no other holding changes. The cost of a share is then the mean of what all shares of
/// the security have cost, rounded down to the unit.
pub proof fn portfolio_purchase_moves_money(
    b: Book<Fixed>,
    order: PfOrder,
    price: Fixed,
    date: Seq<char>,
    code: Seq<char>,
    fees: Fees<Fixed>,
)
    requires
        price.defined,
        0 < price.units,
        order.buy,
        order.series < b.positions.len(),
        0 <= shares_in(b.positions[order.series as int]),
        shares_in(b.positions[order.series as int]) + order.shares <= i64::MAX,
        0 < context::lots_bought(b.cash, price, fees.buy_rate, order.shares, 100),
        portfolio::filled(b, order, price, date, code, fees).cash.defined,
    ensures
        ({
            let c = portfolio::filled(b, order, price, date, code, fees);
            let t = c.trades.last();
            let k = order.series as int;
            let n = t.shares as int;
            let held = shares_in(b.positions[k]);
            let now = shares_in(c.positions[k]);
            let charge = worth_at(b.cash, held, price) - worth_at(c.cash, now, price);
            let spent = match b.positions[k] {
                Some(p) => p.shares * p.avg_cost.units,
                None => 0,
            };
            &&& c.trades == b.trades.push(t)
            &&& t.date == date
            &&& t.code == code
            &&& t.action == "BUY"@
            &&& t.price == price
            &&& t.pnl_pct is None
            &&& n == context::lots_bought(b.cash, price, fees.buy_rate, order.shares, 100)
            &&& now == held + n
            &&& c.positions.len() == b.positions.len()
            &&& forall|j: int|
                0 <= j < b.positions.len() && j != k ==> c.positions[j] == b.positions[j]
            &&& c.cash.units == b.cash.units - n * price.units - charge
            &&& is_part_of(charge, n * price.units, fees.buy_rate.units as int)
            &&& c.positions[k].unwrap().avg_cost.defined ==> is_ratio_of(
                c.positions[k].unwrap().avg_cost.units as int,
                spent + n * price.units,
                now,
            )
        }),
{
    let k = order.series as int;
    let held = shares_in(b.positions[k]);
    let n = context::lots_bought(b.cash, price, fees.buy_rate, order.shares, 100);
    let most = context::affordable(b.cash, price, fees.buy_rate, 100);
    context::bought_in_lots(most, order.shares as int, 100);
    fixed::multiple_is_exact(n, price);
    assert((held + n) * price.units == held * price.units + n * price.units) by (nonlinear_arith);
    let worth = of_units(n * price.units);
    let c = portfolio::filled(b, order, price, date, code, fees);
    fixed::product_is_part(worth, fees.buy_rate);
    if c.positions[k].unwrap().avg_cost.defined {
        match b.positions[k] {
            Some(p) => {
                mean_cost_is_ratio(p.avg_cost, p.shares as int, worth, held + n);
            },
            None => {
                mean_cost_is_ratio(of_units(0), 0, worth, n);
            },
        }
    }
}

// ---------------------------------------------------------------------------
// Orders
// ---------------------------------------------------------------------------
/// The shares of a security that orders buy, less those that they sell.
pub open spec fn ordered_in_all(orders: Seq<PfOrder>, series: int) -> int
    decreases orders.len(),
{
    if orders.len() == 0 {
        0
    } else {
        let o = orders.last();
        ordered_in_all(orders.drop_last(), series) + (if o.series != series {
            0
        } else if o.buy {
            o.shares as int
        } else {
            -o.shares
        })
    }
}

/// An order for a part of the whole worth brings a security to the largest number of lots
/// of 100 that is worth no more than that part: what is held, with what is ordered to buy
/// and without what is ordered to sell, is that number. It adds at most one order, and none
/// for another security. With no part of the worth all that is held is offered.
pub proof fn target_is_the_most_lots(s: PfInner<Fixed>, code: Seq<char>, pct: Fixed)
    requires
        s.wf(),
        s.here(code) is Some,
        ({
            let (k, l) = s.here(code).unwrap();
            let price = s.series@[k].chart.closes@[l];
            let worth = s.worth();
            &&& price.defined
            &&& 0 < price.units
            &&& pct.defined
            &&& 0 <= pct.units
            &&& worth.defined
            &&& 0 <= worth.units
            &&& pct.units * worth.units < i64::MAX * SCALE
            &&& pct.units * worth.units < i64::MAX * price.units
            &&& 0 <= shares_in(s.positions@[k])
        }),
    ensures
        ({
            let (k, l) = s.here(code).unwrap();
            let price = s.series@[k].chart.closes@[l].units as int;
            let orders = portfolio::rebalanced(s, code, pct);
            let held = shares_in(s.positions@[k]);
            let more = ordered_in_all(orders, k) - ordered_in_all(s.pending@, k);
            let target = held + more;
            let part = pct.units * s.worth().units;
            &&& s.series@[k].code@ == code
            &&& 0 <= target
            &&& target % 100 == 0
            &&& target * price * SCALE <= part < (target + 100) * price * SCALE
            &&& more == 0 ==> orders == s.pending@
            &&& 0 < more ==> orders == s.pending@.push(
                PfOrder { series: k as usize, buy: true, shares: more as i64 },
            )
            &&& more < 0 ==> orders == s.pending@.push(
                PfOrder { series: k as usize, buy: false, shares: (-more) as i64 },
            )
            &&& forall|j: int|
                j != k ==> ordered_in_all(orders, j) == ordered_in_all(s.pending@, j)
            &&& pct.units == 0 ==> target == 0
        }),
{
    let (k, l) = s.here(code).unwrap();
    portfolio::last_of_bound(portfolio::codes(s.series@), code);
    assert(s.series@.len() == s.series.len());
    let price = s.series@[k].chart.closes@[l];
    let p = price.units as int;
    let sc = SCALE as int;
    let worth = s.worth();
    let part = pct.units * worth.units;
    let v = part / sc;
    assert(0 <= part) by (nonlinear_arith)
        requires
            part == pct.units * worth.units,
            0 <= pct.units,
            0 <= worth.units,
    ;
    fixed::floored(part, sc);
    assert(pct.product(worth) == of_units(v));
    fixed::times_in(v, p);
    let q = v * sc / p;
    fixed::floored(v * sc, p);
    assert(q <= i64::MAX) by (nonlinear_arith)
        requires
            q * p <= v * sc,
            v * sc <= part,
            part < i64::MAX * p,
            0 < p,
    ;
    assert(pct.product(worth).quotient(price) == of_units(q));
    let n = q / sc;
    rules::whole_lots(n, 100);
    let target = rules::in_lots(n, 100);
    assert(target * p <= v < (target + 100) * p) by (nonlinear_arith)
        requires
            0 <= target <= n,
            n + 1 <= target + 100,
            n * p <= v < n * p + p,
            0 < p,
    ;
    let a = target * p;
    let b = (target + 100) * p;
    assert(a * sc <= part < b * sc) by (nonlinear_arith)
        requires
            a <= v,
            v + 1 <= b,
            v * sc <= part < v * sc + sc,
            sc == 1_000_000,
    ;
    let orders = portfolio::rebalanced(s, code, pct);
    let held = shares_in(s.positions@[k]);
    let more = target - held;
    if more != 0 {
        assert(orders.drop_last() =~= s.pending@);
    }
    if pct.units == 0 {
        assert(target == 0) by (nonlinear_arith)
            requires
                target * p <= v,
                v == 0,
                0 <= target,
                0 < p,
        ;
    }
}

/// An order for shares of a security that is known adds just those shares to what is ordered
/// of it, or takes them off where it sells, and nothing to what is ordered of another.
pub proof fn order_is_for_its_shares(s: PfInner<Fixed>, code: Seq<char>, buy: bool, shares: i64)
    requires
        s.find(code) is Some,
        0 < shares,
    ensures
        ({
            let k = s.find(code).unwrap();
            let orders = portfolio::queued(s, code, buy, shares);
            &&& s.series@[k].code@ == code
            &&& ordered_in_all(orders, k) == ordered_in_all(s.pending@, k) + (if buy {
                shares as int
            } else {
                -shares
            })
            &&& forall|j: int|
                j != k ==> ordered_in_all(orders, j) == ordered_in_all(s.pending@, j)
            &&& orders.len() == s.pending@.len() + 1
            &&& orders.take(s.pending@.len() as int) == s.pending@
        }),
{
    let orders = portfolio::queued(s, code, buy, shares);
    portfolio::last_of_bound(portfolio::codes(s.series@), code);
    assert(s.series@.len() == s.series.len());
    assert(orders.drop_last() =~= s.pending@);
    assert(orders.take(s.pending@.len() as int) =~= s.pending@);
}

/// A holding is worth its shares at the last price, and its gain is the part of the cost by
/// which that price is above it.
pub proof fn holding_is_worth_its_shares(s: PfInner<Fixed>, k: int)
    requires
        s.positions@[k] is Some,
        portfolio::holding_of(s, k).value.defined,
    ensures
        ({
            let h = portfolio::holding_of(s, k);
            let p = s.positions@[k].unwrap();
            let last = s.last_price@[k];
            &&& h.code == s.series@[k].code@
            &&& h.name == s.series@[k].name@
            &&& h.shares == p.shares
            &&& h.avg_cost == p.avg_cost
            &&& h.last_price == last
            &&& h.value.units == h.shares * last.units
            &&& p.avg_cost.defined && 0 < p.avg_cost.units && h.pnl_pct.defined ==> is_ratio_of(
                h.pnl_pct.units as int,
                (last.units - p.avg_cost.units) * SCALE,
                p.avg_cost.units as int,
            )
            &&& p.avg_cost.defined && p.avg_cost.units <= 0 ==> h.pnl_pct == of_units(0)
        }),
{
    let p = s.positions@[k].unwrap();
    fixed::product_is_part(Fixed::whole(p.shares as int), s.last_price@[k]);
    fixed::multiple_is_exact(p.shares as int, s.last_price@[k]);
    gain_is_a_part(s.last_price@[k], p.avg_cost);
}

/// The momentum of a security is the change of its closing price over the bars looked back
/// on, as a part of the earlier price.
pub proof fn momentum_is_the_change(s: portfolio::Series<Fixed>, l: int, lookback: int)
    requires
        0 <= lookback <= l < s.chart.closes@.len(),
        s.chart.closes@[l].defined,
        s.chart.closes@[l - lookback].defined,
        0 < s.chart.closes@[l - lookback].units,
    ensures
        portfolio::momentum(s, l, lookback) is Some,
        portfolio::momentum(s, l, lookback).unwrap().defined ==> is_ratio_of(
            portfolio::momentum(s, l, lookback).unwrap().units as int,
            (s.chart.closes@[l].units - s.chart.closes@[l - lookback].units) * SCALE,
            s.chart.closes@[l - lookback].units as int,
        ),
{
    let from = s.chart.closes@[l - lookback];
    let to = s.chart.closes@[l];
    let m = portfolio::momentum(s, l, lookback).unwrap();
    if m.defined {
        let one = SCALE as int;
        let q = m.units + one;
        fixed::quotient_is_ratio(to, from);
        assert((q - one) * from.units == q * from.units - one * from.units) by (nonlinear_arith);
        assert((to.units - from.units) * one == to.units * one - one * from.units)
            by (nonlinear_arith);
    }
}

/// When a bar has begun, the order that waited has been filled at its opening price, and the
/// worth of the account at its closing price stands at the end of the equity curve.
pub proof fn equity_is_noted_at_the_close(
    before: context::Ctx<Fixed>,
    i: int,
    after: context::Ctx<Fixed>,
)
    requires
        0 <= i < before.0.klines@.len(),
        backtest::begun(before, i, after),
        after.0.equity@.last().defined,
    ensures
        after.0.equity@.len() == before.0.equity@.len() + 1,
        after.0.equity@.take(before.0.equity@.len() as int) == before.0.equity@,
        after.0.equity@.last().units == after.0.cash.units + after.0.position
            * before.0.klines@[i].close.units,
        after.0.pending is None,
        before.0.pending is None ==> after.0.account() == before.0.account(),
        before.0.pending matches Some(o) ==> after.0.account() == backtest::filled(
            before.0.account(),
            before.0.klines@[i]@,
            o,
            before.0.fee,
            before.0.lot,
        ),
{
    let n = before.0.equity@.len() as int;
    assert(after.0.equity@.take(n) =~= before.0.equity@);
    account_is_worth_cash_and_shares(
        after.0.cash,
        after.0.position,
        before.0.klines@[i].close,
    );
}

/// When a day has begun, no order waits, and the worth of the portfolio at the last closing
/// prices known stands at the end of the equity curve: of that day where a security is
/// traded on it, else of an earlier one.
pub proof fn portfolio_equity_is_noted_at_the_close(
    before: portfolio::PortfolioCtx<Fixed>,
    i: int,
    after: portfolio::PortfolioCtx<Fixed>,
)
    requires
        before.0.wf(),
        0 <= i < before.0.dates@.len(),
        portfolio::begun(before, i, after),
        after.0.equity@.last().defined,
    ensures
        after.0.pending@.len() == 0,
        after.0.equity@.len() == before.0.equity@.len() + 1,
        after.0.equity@.take(before.0.equity@.len() as int) == before.0.equity@,
        after.0.equity@.last().units == after.0.cash.units + holdings_at(
            after.0.positions@,
            after.0.last_price@,
            before.0.series@.len() as int,
        ),
        forall|s: int|
            0 <= s < before.0.series@.len() ==> #[trigger] after.0.last_price@[s] == (match
            before.0.bar_on(s, i) {
                Some(l) => before.0.series@[s].chart.closes@[l as int],
                None => before.0.last_price@[s],
            }),
{
    let n = before.0.equity@.len() as int;
    assert(after.0.equity@.take(n) =~= before.0.equity@);
    portfolio_is_worth_cash_and_holdings(
        after.0.cash,
        after.0.positions@,
        after.0.last_price@,
        after.0.series@.len() as int,
    );
}

/// The most shares that cash buys are the largest number of whole lots that it is enough
/// for, and none at a price that is not above zero.
pub proof fn most_shares_fit_the_cash(
    cash: Fixed,
    price: Fixed,
    rate: Fixed,
    lot: int,
    each: int,
)
    requires
        cash.defined,
        price.defined,
        rate.defined,
        0 <= cash.units,
        0 < lot,
        is_part_of(each, price.units as int, SCALE + rate.units),
        0 < each <= i64::MAX,
        SCALE + rate.units <= i64::MAX,
        cash.units * SCALE < each * i64::MAX,
    ensures
        ({
            let n = context::most_shares(cash, price, rate, lot);
            &&& price.units <= 0 ==> n == 0
            &&& 0 < price.units ==> 0 <= n && n % lot == 0 && n * each <= cash.units < (n + lot)
                * each
        }),
{
    affordable_is_the_most(cash, price, rate, lot, each);
}

// ---------------------------------------------------------------------------
// Where nothing happens
// ---------------------------------------------------------------------------
/// An order is dropped without a trace where the price is not above zero, where it sells
/// what is not held or sells nothing, and where the cash is not enough for one lot.
pub proof fn idle_orders_leave_the_account(
    a: Account<Fixed>,
    bar: KLineView<Fixed>,
    order: Order,
    fee: FeeModel<Fixed>,
    lot: i64,
)
    requires
        bar.open.defined,
    ensures
        bar.open.units <= 0 ==> backtest::filled(a, bar, order, fee, lot) == a,
        !order.buy && (order.shares <= 0 || a.position <= 0) ==> backtest::filled(
            a,
            bar,
            order,
            fee,
            lot,
        ) == a,
        order.buy && backtest::shares_bought(a.cash, bar.open, order, fee, lot) <= 0
            ==> backtest::filled(a, bar, order, fee, lot) == a,
        order.buy && order.shares < lot && 0 < lot && 0 <= order.shares ==> backtest::filled(
            a,
            bar,
            order,
            fee,
            lot,
        ) == a,
{
    if order.buy && order.shares < lot && 0 < lot && 0 <= order.shares {
        let most = context::affordable(a.cash, bar.open, rules::rate_to_buy(fee), lot as int);
        context::bought_in_lots(most, order.shares as int, lot as int);
        let n = context::lesser_in_lots(order.shares as int, most, lot as int);
        if 0 < n {
            vstd::arithmetic::div_mod::lemma_small_mod(n as nat, lot as nat);
        }
    }
}

/// The same of a portfolio; besides, an order for a security that is not traded on the day
/// is dropped.
pub proof fn idle_orders_leave_the_portfolio(
    s: PfInner<Fixed>,
    b: Book<Fixed>,
    order: PfOrder,
    price: Fixed,
    date: Seq<char>,
    code: Seq<char>,
    day: int,
)
    requires
        price.defined,
    ensures
        price.units <= 0 ==> portfolio::filled(b, order, price, date, code, s.fees) == b,
        !order.buy && (order.shares <= 0 || shares_in(b.positions[order.series as int]) <= 0)
            ==> portfolio::filled(b, order, price, date, code, s.fees) == b,
        order.buy && context::lots_bought(b.cash, price, s.fees.buy_rate, order.shares, 100) <= 0
            ==> portfolio::filled(b, order, price, date, code, s.fees) == b,
        s.bar_on(order.series as int, day) is None ==> s.fill_one(b, order, day) == b,
        s.bar_on(order.series as int, day) matches Some(l) ==> s.fill_one(b, order, day)
            == portfolio::filled(
            b,
            order,
            s.series@[order.series as int].opens@[l as int],
            s.dates@[day]@,
            s.series@[order.series as int].code@,
            s.fees,
        ),
{
}

/// No order is given for a security that is unknown, not traded on the day or without a
/// price above zero, nor for no shares.
pub proof fn idle_wishes_order_nothing(
    s: PfInner<Fixed>,
    code: Seq<char>,
    pct: Fixed,
    buy: bool,
    shares: i64,
)
    ensures
        s.here(code) is None ==> portfolio::rebalanced(s, code, pct) == s.pending@,
        s.here(code) matches Some((k, l)) ==> (s.series@[k].chart.closes@[l].defined
            && s.series@[k].chart.closes@[l].units <= 0 ==> portfolio::rebalanced(s, code, pct)
            == s.pending@),
        s.find(code) is None || shares <= 0 ==> portfolio::queued(s, code, buy, shares)
            == s.pending@,
{
}

/// Orders are filled one after the other: those that come later are filled with what the
/// earlier ones have left.
pub proof fn fills_follow_one_another(
    s: PfInner<Fixed>,
    b: Book<Fixed>,
    first: Seq<PfOrder>,
    second: Seq<PfOrder>,
    day: int,
)
    ensures
        s.fill_all(b, first + second, day) == s.fill_all(s.fill_all(b, first, day), second, day),
        s.fill_all(b, Seq::empty(), day) == b,
    decreases second.len(),
{
    if second.len() == 0 {
        assert(first + second =~= first);
    } else {
        fills_follow_one_another(s, b, first, second.drop_last(), day);
        assert((first + second).drop_last() =~= first + second.drop_last());
        assert((first + second).last() == second.last());
    }
}

} // verus!
