//! How the figures of the account hang together.
//!
//! The laws here are of decimals. They are stated over whole units, where each sum and each
//! comparison is exact, and say what rounding leaves open.
use super::analysis;
use super::portfolio;
use super::portfolio::{CostMode, DashRowView, DashTotals, Scene, Standing, Versus};
use super::sheet;
use crate::data::models;
use crate::data::models::{PositionView, QuoteView};
use crate::data::store;
use crate::engine::position::PositionStats;
use crate::fixed;
use crate::fixed::{is_ratio_of, Fixed, SCALE};
use crate::num::Scalar;
use crate::text;
use vstd::prelude::*;

verus! {

// ---------------------------------------------------------------------------
// Single figures
// ---------------------------------------------------------------------------
/// The gain and the cost make the value. The cost is what the shares were bought for, and
/// where it is diluted, less what sales gained. The part is the gain by the cost, and there
/// is one where the cost is above zero.
pub proof fn gain_and_cost_make_the_value(
    mode: CostMode,
    cost: Fixed,
    value: Fixed,
    realized: Fixed,
)
    requires
        portfolio::gain_in_mode(mode, cost, value, realized).0.defined,
    ensures
        ({
            let (gain, part) = portfolio::gain_in_mode(mode, cost, value, realized);
            let base = match mode {
                CostMode::Buy => cost.units as int,
                CostMode::Diluted => cost.units - realized.units,
            };
            &&& gain.units + base == value.units
            &&& part is Some <==> 0 < base
            &&& part matches Some(p) ==> p.defined ==> is_ratio_of(
                p.units as int,
                gain.units * SCALE,
                base,
            )
        }),
{
    let (gain, part) = portfolio::gain_in_mode(mode, cost, value, realized);
    let base = portfolio::mode_cost(mode, cost, realized);
    match part {
        Some(p) => {
            if p.defined {
                fixed::quotient_is_ratio(gain, base);
            }
        },
        None => {},
    }
}

/// Today's gain is counted from the purchase price of shares bought today and from the last
/// close of others, where that is above zero.
pub proof fn today_begins_at_its_basis(new_lot: bool, buy_price: Fixed, prev_close: Fixed)
    requires
        buy_price.defined,
        prev_close.defined,
    ensures
        ({
            let b = portfolio::basis_of(new_lot, buy_price, prev_close);
            &&& new_lot && 0 < buy_price.units ==> b == Some(buy_price)
            &&& new_lot && buy_price.units <= 0 ==> b is None
            &&& !new_lot && 0 < prev_close.units ==> b == Some(prev_close)
            &&& !new_lot && prev_close.units <= 0 ==> b is None
        }),
{
}

/// A value as a part of another above zero, times the other, is the value but for rounding;
/// as a part of nothing it is zero.
pub proof fn part_times_the_whole(a: Fixed, b: Fixed)
    requires
        b.defined,
        portfolio::part(a, b).defined,
    ensures
        0 < b.units ==> is_ratio_of(
            portfolio::part(a, b).units as int,
            a.units * SCALE,
            b.units as int,
        ),
        b.units == 0 ==> portfolio::part(a, b).units == 0,
{
    if 0 < b.units {
        fixed::quotient_is_ratio(a, b);
    }
}

/// What a sale gained in per cent, times the cost, is a hundred times what the price is
/// above it, but for rounding.
pub proof fn sale_gain_is_in_per_cent(price: Fixed, avg_cost: Fixed)
    requires
        avg_cost.defined,
        portfolio::sale_gain(price, avg_cost).defined,
    ensures
        ({
            let r = portfolio::sale_gain(price, avg_cost).units as int;
            let c = avg_cost.units as int;
            &&& 0 < c ==> r * c <= 100 * ((price.units - c) * SCALE) < r * c + 100 * c
            &&& c == 0 ==> r == 0
        }),
{
    if 0 < avg_cost.units {
        let gain = price.difference(avg_cost);
        let part = gain.quotient(avg_cost);
        fixed::product_is_part(part, Fixed::whole(100));
        fixed::multiple_is_exact(100, part);
        fixed::quotient_is_ratio(gain, avg_cost);
        let x = part.units as int;
        let c = avg_cost.units as int;
        assert((100 * x) * c == 100 * (x * c)) by (nonlinear_arith);
    }
}

/// The gain of a cleared code by its cost; there is a part where the cost is above zero.
pub proof fn part_of_a_cost(gain: Fixed, cost: Fixed)
    requires
        cost.defined,
    ensures
        portfolio::part_of_cost(gain, cost) is Some <==> 0 < cost.units,
        portfolio::part_of_cost(gain, cost) matches Some(p) ==> p.defined ==> is_ratio_of(
            p.units as int,
            gain.units * SCALE,
            cost.units as int,
        ),
{
    match portfolio::part_of_cost(gain, cost) {
        Some(p) => {
            if p.defined {
                fixed::quotient_is_ratio(gain, cost);
            }
        },
        None => {},
    }
}

/// The return of the index is its change as a part of its first close; with what the holding
/// made beyond it, it is the return of the holding, which is ahead where that is not below
/// the index.
pub proof fn holding_beside_an_index(
    pnl_pct: Fixed,
    first_close: Fixed,
    last_close: Fixed,
    r: Versus<Fixed>,
)
    requires
        portfolio::beside_index(pnl_pct, first_close, last_close, r),
        0 < first_close.units,
        r.excess.defined,
    ensures
        is_ratio_of(
            r.index_return.units as int,
            (last_close.units - first_close.units) * SCALE,
            first_close.units as int,
        ),
        r.index_return.units + r.excess.units == pnl_pct.units,
        r.ahead <==> r.index_return.units <= pnl_pct.units,
{
    let s = SCALE as int;
    let q = r.index_return.units + s;
    let f = first_close.units as int;
    let t = last_close.units as int;
    fixed::quotient_is_ratio(last_close, first_close);
    assert((q - s) * f == q * f - s * f) by (nonlinear_arith);
    assert((t - f) * s == t * s - s * f) by (nonlinear_arith);
}

/// A holding with a quote is worth its shares at the price of the quote, and gains what that
/// is above its cost; without one it stands as at the last close.
pub proof fn holding_at_its_quote(s: PositionStats<Fixed>, quote: Option<QuoteView<Fixed>>)
    requires
        portfolio::present(s, quote).pnl.defined,
        quote is None ==> s.pnl.units == s.value.units - s.cost.units,
    ensures
        ({
            let p = portfolio::present(s, quote);
            &&& quote matches Some(q) ==> p.cur == q.price && p.value.units == s.qty
                * q.price.units && p.today == Some(q.change_pct)
            &&& quote is None ==> p.cur == s.last_close && p.value == s.value && p.today
                == s.ret_day
            &&& p.pnl.units + s.cost.units == p.value.units
            &&& s.cost.defined && 0 < s.cost.units && p.pct.defined ==> is_ratio_of(
                p.pct.units as int,
                p.pnl.units * SCALE,
                s.cost.units as int,
            )
            &&& p.with_curve <==> 6 <= s.trading_days
        }),
{
    let p = portfolio::present(s, quote);
    match quote {
        Some(q) => {
            fixed::product_is_part(q.price, Fixed::whole(s.qty as int));
            fixed::multiple_is_exact(s.qty as int, q.price);
        },
        None => {},
    }
    if s.cost.defined && 0 < s.cost.units && p.pct.defined {
        fixed::quotient_is_ratio(p.pnl, s.cost);
    }
}

// ---------------------------------------------------------------------------
// The positions of a code
// ---------------------------------------------------------------------------
/// What the first `n` positions of a code cost.
pub open spec fn paid(ps: Seq<PositionView<Fixed>>, code: Seq<char>, n: int) -> int
    decreases n,
{
    if n <= 0 {
        0
    } else {
        paid(ps, code, n - 1) + (if ps[n - 1].code == code {
            ps[n - 1].quantity * ps[n - 1].price.units
        } else {
            0
        })
    }
}

/// The first `n` positions of a code at given prices.
pub open spec fn worth(
    ps: Seq<PositionView<Fixed>>,
    price: spec_fn(PositionView<Fixed>) -> int,
    code: Seq<char>,
    n: int,
) -> int
    decreases n,
{
    if n <= 0 {
        0
    } else {
        worth(ps, price, code, n - 1) + (if ps[n - 1].code == code {
            ps[n - 1].quantity * price(ps[n - 1])
        } else {
            0
        })
    }
}

proof fn lots_cost_is_paid(ps: Seq<PositionView<Fixed>>, code: Seq<char>, n: int)
    requires
        portfolio::lots_cost(ps, code, n).defined,
    ensures
        portfolio::lots_cost(ps, code, n).units == paid(ps, code, n),
    decreases n,
{
    if n > 0 {
        lots_cost_is_paid(ps, code, n - 1);
        if ps[n - 1].code == code {
            fixed::multiple_is_exact(ps[n - 1].quantity as int, ps[n - 1].price);
        }
    }
}

proof fn first_date_is_earliest(ps: Seq<PositionView<Fixed>>, code: Seq<char>, n: int)
    requires
        0 <= n <= ps.len(),
    ensures
        match portfolio::first_date(ps, code, n) {
            Some(d) => {
                &&& exists|i: int|
                    0 <= i < n && (#[trigger] ps[i]).code == code && ps[i].date == d
                &&& forall|i: int|
                    0 <= i < n && (#[trigger] ps[i]).code == code ==> !text::before(ps[i].date, d)
            },
            None => forall|i: int| 0 <= i < n ==> (#[trigger] ps[i]).code != code,
        },
    decreases n,
{
    if n > 0 {
        first_date_is_earliest(ps, code, n - 1);
        let p = ps[n - 1];
        if p.code == code {
            text::before_irreflexive(p.date);
            match portfolio::first_date(ps, code, n - 1) {
                Some(d) => {
                    let k = choose|i: int|
                        0 <= i < n - 1 && (#[trigger] ps[i]).code == code && ps[i].date == d;
                    assert(ps[k].date == d);
                    if text::before(p.date, d) {
                        assert forall|i: int|
                            0 <= i < n && (#[trigger] ps[i]).code == code implies !text::before(
                            ps[i].date,
                            p.date,
                        ) by {
                            if i < n - 1 && text::before(ps[i].date, p.date) {
                                text::before_transitive(ps[i].date, p.date, d);
                            }
                        }
                    }
                },
                None => {},
            }
            assert(ps[n - 1].date == p.date);
        } else {
            match portfolio::first_date(ps, code, n - 1) {
                Some(d) => {
                    let k = choose|i: int|
                        0 <= i < n - 1 && (#[trigger] ps[i]).code == code && ps[i].date == d;
                    assert(ps[k].date == d);
                },
                None => {},
            }
        }
    }
}

/// A code of which shares are held stands with what all its positions have cost, the mean of
/// that for a share, and the earliest of their dates.
pub proof fn lots_are_taken_together(
    ps: Seq<PositionView<Fixed>>,
    code: Seq<char>,
    realized: Fixed,
    r: Standing<Fixed>,
)
    requires
        portfolio::stands(ps, code, realized, r),
        realized.defined,
        i64::MIN <= store::held(ps, code) <= i64::MAX,
    ensures
        r is Held <==> store::held(ps, code) != 0,
        r is Cleared <==> store::held(ps, code) == 0 && realized.units != 0,
        r is Unknown <==> store::held(ps, code) == 0 && realized.units == 0,
        r matches Standing::Held(l) ==> {
            &&& l.qty == store::held(ps, code)
            &&& l.cost.defined ==> l.cost.units == paid(ps, code, ps.len() as int)
            &&& l.avg_cost.defined && 0 < l.qty ==> is_ratio_of(
                l.avg_cost.units as int,
                paid(ps, code, ps.len() as int),
                l.qty as int,
            )
            &&& exists|i: int|
                0 <= i < ps.len() && (#[trigger] ps[i]).code == code && ps[i].date == l.buy_date@
            &&& forall|i: int|
                0 <= i < ps.len() && (#[trigger] ps[i]).code == code ==> !text::before(
                    ps[i].date,
                    l.buy_date@,
                )
        },
{
    match r {
        Standing::Held(l) => {
            let n = ps.len() as int;
            if l.cost.defined {
                lots_cost_is_paid(ps, code, n);
            }
            if l.avg_cost.defined && 0 < l.qty {
                fixed::share_is_ratio(l.cost, l.qty as int);
            }
            first_date_is_earliest(ps, code, n);
        },
        _ => {},
    }
}

// ---------------------------------------------------------------------------
// The rows of the dashboard
// ---------------------------------------------------------------------------
/// The price of a position now, in units.
pub open spec fn units_now(s: Scene<Fixed>) -> spec_fn(PositionView<Fixed>) -> int {
    |p: PositionView<Fixed>| portfolio::price_now(p, s).units as int
}

/// The price of a position now, in units, where today's gain of it is counted; else nothing.
pub open spec fn counted_now(s: Scene<Fixed>) -> spec_fn(PositionView<Fixed>) -> int {
    |p: PositionView<Fixed>|
        if portfolio::basis_now(p, s) is Some {
            portfolio::price_now(p, s).units as int
        } else {
            0
        }
}

/// The price that today's gain of a position is counted from, in units; else nothing.
pub open spec fn counted_from(s: Scene<Fixed>) -> spec_fn(PositionView<Fixed>) -> int {
    |p: PositionView<Fixed>|
        match portfolio::basis_now(p, s) {
            Some(b) => b.units as int,
            None => 0,
        }
}

/// A row takes all positions of its code together: their shares, what they cost, and what
/// they are worth at present prices. Today's gain with the worth that it is counted from is
/// the present worth of the positions in it.
pub proof fn row_adds_up(
    ps: Seq<PositionView<Fixed>>,
    s: Scene<Fixed>,
    code: Seq<char>,
    n: int,
)
    requires
        0 <= n <= ps.len(),
    ensures
        portfolio::row_of(ps, s, code, n) matches Some(r) ==> {
            &&& r.code == code
            &&& r.qty == store::held_in(ps, code, n)
            &&& r.cost.defined ==> r.cost.units == paid(ps, code, n)
            &&& r.value.defined ==> r.value.units == worth(ps, units_now(s), code, n)
            &&& r.today_basis_value.defined ==> r.today_basis_value.units == worth(
                ps,
                counted_from(s),
                code,
                n,
            )
            &&& r.today_pnl matches Some(t) ==> t.defined ==> t.units == worth(
                ps,
                counted_now(s),
                code,
                n,
            ) - worth(ps, counted_from(s), code, n)
            &&& r.today_pnl is None ==> worth(ps, counted_now(s), code, n) == 0 && worth(
                ps,
                counted_from(s),
                code,
                n,
            ) == 0
        },
        portfolio::row_of(ps, s, code, n) is None ==> {
            &&& store::held_in(ps, code, n) == 0
            &&& paid(ps, code, n) == 0
            &&& worth(ps, units_now(s), code, n) == 0
            &&& worth(ps, counted_now(s), code, n) == 0
            &&& worth(ps, counted_from(s), code, n) == 0
        },
    decreases n,
{
    if n > 0 {
        row_adds_up(ps, s, code, n - 1);
        let p = ps[n - 1];
        if p.code == code {
            let q = p.quantity as int;
            let cur = portfolio::price_now(p, s);
            let whole = Fixed::whole(q);
            let r = portfolio::row_of(ps, s, code, n).unwrap();
            if r.cost.defined {
                fixed::product_is_part(p.price, whole);
                fixed::multiple_is_exact(q, p.price);
            }
            if r.value.defined {
                fixed::product_is_part(cur, whole);
                fixed::multiple_is_exact(q, cur);
            }
            match portfolio::basis_now(p, s) {
                Some(b) => {
                    if r.today_basis_value.defined {
                        fixed::product_is_part(b, whole);
                        fixed::multiple_is_exact(q, b);
                    }
                    if r.today_pnl.unwrap().defined {
                        fixed::product_is_part(cur.difference(b), whole);
                        fixed::multiple_is_exact(q, cur.difference(b));
                        assert(q * (cur.units - b.units) == q * cur.units - q * b.units)
                            by (nonlinear_arith);
                    }
                },
                None => {
                    assert(q * 0 == 0);
                },
            }
        }
    }
}

/// One figure of each of the first `n` rows, added up.
pub open spec fn column(
    rows: Seq<DashRowView<Fixed>>,
    figure: spec_fn(DashRowView<Fixed>) -> int,
    n: int,
) -> int
    decreases n,
{
    if n <= 0 {
        0
    } else {
        column(rows, figure, n - 1) + figure(rows[n - 1])
    }
}

proof fn sums_are_columns(rows: Seq<DashRowView<Fixed>>, n: int)
    requires
        0 <= n <= rows.len(),
    ensures
        ({
            let s = portfolio::sums_of(rows, n);
            &&& s.0.defined ==> s.0.units == column(
                rows,
                |r: DashRowView<Fixed>| r.cost.units as int,
                n,
            )
            &&& s.1.defined ==> s.1.units == column(
                rows,
                |r: DashRowView<Fixed>| r.value.units as int,
                n,
            )
            &&& s.2.defined ==> s.2.units == column(
                rows,
                |r: DashRowView<Fixed>|
                    match r.today_pnl {
                        Some(t) => t.units as int,
                        None => 0,
                    },
                n,
            )
            &&& s.3.defined ==> s.3.units == column(
                rows,
                |r: DashRowView<Fixed>|
                    match r.today_pnl {
                        Some(t) => r.today_basis_value.units as int,
                        None => 0,
                    },
                n,
            )
        }),
    decreases n,
{
    if n > 0 {
        sums_are_columns(rows, n - 1);
    }
}

/// The sums of a dashboard are its columns added up; the whole gain and the cost make the
/// value, and the parts are the gains by what they are compared with.
pub proof fn totals_add_up(rows: Seq<DashRowView<Fixed>>, t: DashTotals<Fixed>)
    requires
        portfolio::totalled(rows, t),
        t.total_pnl.defined,
        t.today_pnl.defined,
        t.prev_value.defined,
    ensures
        ({
            let n = rows.len() as int;
            &&& t.total_cost.units == column(
                rows,
                |r: DashRowView<Fixed>| r.cost.units as int,
                n,
            )
            &&& t.total_value.units == column(
                rows,
                |r: DashRowView<Fixed>| r.value.units as int,
                n,
            )
            &&& t.today_pnl.units == column(
                rows,
                |r: DashRowView<Fixed>|
                    match r.today_pnl {
                        Some(x) => x.units as int,
                        None => 0,
                    },
                n,
            )
            &&& t.prev_value.units == column(
                rows,
                |r: DashRowView<Fixed>|
                    match r.today_pnl {
                        Some(x) => r.today_basis_value.units as int,
                        None => 0,
                    },
                n,
            )
            &&& t.total_pnl.units + t.total_cost.units == t.total_value.units
            &&& 0 < t.total_cost.units && t.total_pct.defined ==> is_ratio_of(
                t.total_pct.units as int,
                t.total_pnl.units * SCALE,
                t.total_cost.units as int,
            )
            &&& 0 < t.prev_value.units && t.today_pct.defined ==> is_ratio_of(
                t.today_pct.units as int,
                t.today_pnl.units * SCALE,
                t.prev_value.units as int,
            )
            &&& t.has_new_lot <==> exists|i: int| 0 <= i < n && (#[trigger] rows[i]).new_lot
        }),
{
    sums_are_columns(rows, rows.len() as int);
    if 0 < t.total_cost.units && t.total_pct.defined {
        fixed::quotient_is_ratio(t.total_pnl, t.total_cost);
    }
    if 0 < t.prev_value.units && t.today_pct.defined {
        fixed::quotient_is_ratio(t.today_pnl, t.prev_value);
    }
}

/// The gain of a security and what its shares cost make what they are worth and what sales
/// gained.
pub proof fn whole_gain_counts_sales(row: DashRowView<Fixed>)
    requires
        portfolio::gain_in_all(row).defined,
    ensures
        portfolio::gain_in_all(row).units + row.cost.units == row.value.units
            + row.realized.units,
{
}

/// The gains of cleared codes add up exactly.
pub proof fn closed_gains_add_up(v: Seq<store::ClosedView<Fixed>>, n: int)
    requires
        0 < n <= v.len(),
        portfolio::closed_sum(v, n).defined,
    ensures
        portfolio::closed_sum(v, n).units == portfolio::closed_sum(v, n - 1).units + v[n
            - 1].realized_pnl.units,
        portfolio::closed_sum(v, 0).units == 0,
{
}

/// The line of an index beside a holding tells the comparison: ahead or behind, by how much,
/// and the two returns.
pub proof fn line_tells_the_comparison(
    name: Seq<char>,
    pnl_pct: Fixed,
    first_close: Fixed,
    last_close: Fixed,
    r: Versus<Fixed>,
)
    requires
        portfolio::beside_index(pnl_pct, first_close, last_close, r),
    ensures
        analysis::beside(name, pnl_pct, first_close, last_close) == "vs "@ + name
            + "(建仓至今)："@ + (if r.ahead {
            "跑赢"@
        } else {
            "跑输"@
        }) + " "@ + sheet::percent_text(r.excess) + "（本股 "@ + sheet::percent_text(pnl_pct)
            + " 自成本 / 基准 "@ + sheet::percent_text(r.index_return) + " 同期收盘）"@,
{
}

// ---------------------------------------------------------------------------
// Days and quotes
// ---------------------------------------------------------------------------
/// A position counts as new on the day on which it is bought, and is not new any more on a
/// later day.
pub proof fn position_is_new_on_its_day(p: PositionView<Fixed>, s: Scene<Fixed>)
    ensures
        portfolio::is_new(p, s) <==> !text::before(p.date, s.today),
        p.date == s.today ==> portfolio::is_new(p, s),
{
    text::before_total(s.today, p.date);
    text::before_irreflexive(p.date);
    if text::before(s.today, p.date) && text::before(p.date, s.today) {
        text::before_asymmetric(s.today, p.date);
    }
}

/// The price of a position is that of the quote for its code, and without one what it was
/// bought for; today's gain is counted only where there is a quote.
pub proof fn quotes_set_the_price(p: PositionView<Fixed>, s: Scene<Fixed>)
    ensures
        portfolio::quote_meant(s.quotes, p.code) matches Some(q) ==> portfolio::price_now(p, s)
            == q.price && portfolio::basis_now(p, s) == portfolio::basis_of(
            !text::before(p.date, s.today),
            p.price,
            q.prev_close,
        ),
        portfolio::quote_meant(s.quotes, p.code) is None ==> portfolio::price_now(p, s) == p.price
            && portfolio::basis_now(p, s) is None,
{
    position_is_new_on_its_day(p, s);
}

/// The quote of a code is the last that came for it; there is none only where none came.
pub proof fn quote_is_of_the_code(quotes: Seq<QuoteView<Fixed>>, code: Seq<char>)
    ensures
        match portfolio::quote_of(quotes, code) {
            Some(q) => exists|k: int|
                0 <= k < quotes.len() && #[trigger] quotes[k] == q && q.code == code
                    && forall|j: int| k < j < quotes.len() ==> (#[trigger] quotes[j]).code != code,
            None => forall|j: int| 0 <= j < quotes.len() ==> (#[trigger] quotes[j]).code != code,
        },
    decreases quotes.len(),
{
    if quotes.len() > 0 {
        let n = quotes.len() - 1;
        if quotes.last().code == code {
            assert(quotes[n] == quotes.last());
        } else {
            let r = quotes.drop_last();
            quote_is_of_the_code(r, code);
            assert(forall|j: int| 0 <= j < r.len() ==> #[trigger] r[j] == quotes[j]);
            match portfolio::quote_of(r, code) {
                Some(q) => {
                    let k = choose|k: int|
                        0 <= k < r.len() && #[trigger] r[k] == q && q.code == code && forall|j: int|
                            k < j < r.len() ==> (#[trigger] r[j]).code != code;
                    assert(quotes[k] == q);
                    assert forall|j: int| k < j < quotes.len() implies (#[trigger] quotes[j]).code
                        != code by {
                        if j < n {
                            assert(r[j] == quotes[j]);
                        }
                    }
                },
                None => {
                    assert forall|j: int| 0 <= j < quotes.len() implies (#[trigger] quotes[j]).code
                        != code by {
                        if j < n {
                            assert(r[j] == quotes[j]);
                        }
                    }
                },
            }
        }
    }
}

/// A quote is asked for each security that an input means, once, and for no other.
pub proof fn each_code_is_asked_once(codes: Seq<Seq<char>>, n: int, code: Seq<char>)
    requires
        0 <= n <= codes.len(),
    ensures
        forall|i: int, j: int|
            0 <= i < j < portfolio::requests(codes, n).len() ==> (#[trigger] portfolio::requests(
                codes,
                n,
            )[i]).0 != (#[trigger] portfolio::requests(codes, n)[j]).0,
        portfolio::is_asked(portfolio::requests(codes, n), code) <==> exists|i: int|
            0 <= i < n && (models::normalized(#[trigger] codes[i]) matches Some((c, m)) && c == code),
    decreases n,
{
    if n > 0 {
        each_code_is_asked_once(codes, n - 1, code);
        let before = portfolio::requests(codes, n - 1);
        let now = portfolio::requests(codes, n);
        if now.len() > before.len() {
            let c = now.last().0;
            assert forall|i: int, j: int| 0 <= i < j < now.len() implies (#[trigger] now[i]).0 != (
            #[trigger] now[j]).0 by {
                if j == before.len() {
                    assert(now[i] == before[i]);
                    if before[i].0 == c {
                        assert(portfolio::is_asked(before, c));
                    }
                } else {
                    assert(now[i] == before[i] && now[j] == before[j]);
                }
            }
            assert(now[before.len() as int].0 == c);
        }
        if portfolio::is_asked(before, code) {
            let k = choose|k: int| 0 <= k < before.len() && (#[trigger] before[k]).0 == code;
            assert(now[k].0 == code);
            let i = choose|i: int|
                0 <= i < n - 1 && (models::normalized(#[trigger] codes[i]) matches Some((c, m))
                    && c == code);
            assert(models::normalized(codes[i]) is Some);
        }
        if portfolio::is_asked(now, code) && !portfolio::is_asked(before, code) {
            let k = choose|k: int| 0 <= k < now.len() && (#[trigger] now[k]).0 == code;
            if k < before.len() {
                assert(before[k].0 == code);
            }
            assert(models::normalized(codes[n - 1]) is Some);
        }
    }
}

} // verus!
