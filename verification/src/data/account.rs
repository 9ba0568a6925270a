//! What a book adds up to: what was gained, by what was paid and what was brought in.
use super::models::{PositionView, TradeView};
use super::store;
use super::store::SellOutcome;
use crate::fixed;
use crate::fixed::{is_ratio_of, Fixed};
use crate::num::Scalar;
use crate::text;
use vstd::prelude::*;

verus! {

// ---------------------------------------------------------------------------
// What a sale leaves
// ---------------------------------------------------------------------------
/// What a sale leaves of a code had cost what was held before less what the shares sold had
/// cost, whatever the price of each share; what is held of any other code cost what it did.
pub proof fn sale_splits_cost<N: Scalar>(
    ps: Seq<PositionView<N>>,
    code: Seq<char>,
    sell: int,
    other: Seq<char>,
    price: spec_fn(N) -> int,
)
    requires
        0 <= sell,
    ensures
        ({
            let n = ps.len() as int;
            let k = store::kept(ps, code, sell, n);
            let m = k.len() as int;
            &&& store::whole_cost(k, code, m, price) == store::whole_cost(ps, code, n, price)
                - store::cost_in(ps, code, sell, n, price)
            &&& other != code ==> store::whole_cost(k, other, m, price) == store::whole_cost(
                ps,
                other,
                n,
                price,
            )
        }),
{
    cost_of_rest(ps, code, sell, ps.len() as int, other, price);
}

proof fn cost_prefix<N: Scalar>(
    a: Seq<PositionView<N>>,
    b: Seq<PositionView<N>>,
    code: Seq<char>,
    n: int,
    price: spec_fn(N) -> int,
)
    requires
        n <= a.len(),
        n <= b.len(),
        forall|i: int| 0 <= i < n ==> a[i] == b[i],
    ensures
        store::whole_cost(a, code, n, price) == store::whole_cost(b, code, n, price),
    decreases n,
{
    if n > 0 {
        cost_prefix(a, b, code, n - 1, price);
    }
}

proof fn cost_of_rest<N: Scalar>(
    ps: Seq<PositionView<N>>,
    code: Seq<char>,
    sell: int,
    n: int,
    other: Seq<char>,
    price: spec_fn(N) -> int,
)
    requires
        0 <= n <= ps.len(),
        0 <= sell,
    ensures
        ({
            let k = store::kept(ps, code, sell, n);
            let m = k.len() as int;
            &&& store::whole_cost(k, code, m, price) == store::whole_cost(ps, code, n, price)
                - store::cost_in(ps, code, sell, n, price)
            &&& other != code ==> store::whole_cost(k, other, m, price) == store::whole_cost(
                ps,
                other,
                n,
                price,
            )
        }),
    decreases n,
{
    if n > 0 {
        cost_of_rest(ps, code, sell, n - 1, other, price);
        store::left_bounds(ps, code, sell, n - 1);
        let before = store::kept(ps, code, sell, n - 1);
        let p = ps[n - 1];
        let u = price(p.price);
        let t = store::taken(ps, code, sell, n - 1);
        assert(t == 0 ==> u * t == 0);
        if !store::used_up(ps, code, sell, n - 1) {
            let k = store::kept(ps, code, sell, n);
            let m = before.len() as int;
            cost_prefix(k, before, code, m, price);
            cost_prefix(k, before, other, m, price);
            assert(k[m].quantity == p.quantity - t);
            assert(u * (p.quantity - t) == u * p.quantity - u * t) by (nonlinear_arith);
        }
    }
}

proof fn cost_with_another<N: Scalar>(
    ps: Seq<PositionView<N>>,
    k: int,
    p: PositionView<N>,
    code: Seq<char>,
    n: int,
    price: spec_fn(N) -> int,
)
    requires
        0 <= k <= ps.len(),
        0 <= n <= ps.len(),
    ensures
        n <= k ==> store::whole_cost(ps.insert(k, p), code, n, price) == store::whole_cost(
            ps,
            code,
            n,
            price,
        ),
        n >= k ==> store::whole_cost(ps.insert(k, p), code, n + 1, price) == store::whole_cost(
            ps,
            code,
            n,
            price,
        ) + (if p.code == code {
            price(p.price) * p.quantity
        } else {
            0
        }),
    decreases n,
{
    reveal_with_fuel(store::whole_cost, 2);
    let after = ps.insert(k, p);
    if n > 0 {
        cost_with_another(ps, k, p, code, n - 1, price);
        if n <= k {
            assert(after[n - 1] == ps[n - 1]);
        }
        if n > k {
            assert(after[n] == ps[n - 1]);
        }
    }
    if n == k {
        assert(after[n] == p);
    }
}

// ---------------------------------------------------------------------------
// A history of purchases and sales
// ---------------------------------------------------------------------------
/// The positions and the trades of a book.
pub ghost struct BookView<N: Scalar> {
    pub ps: Seq<PositionView<N>>,
    pub ts: Seq<TradeView<N>>,
}

/// One book is the other with a purchase noted.
pub open spec fn bought<N: Scalar>(a: BookView<N>, b: BookView<N>) -> bool {
    exists|k: int, p: PositionView<N>, t: TradeView<N>|
        {
            &&& 0 <= k <= a.ps.len()
            &&& b.ps == #[trigger] a.ps.insert(k, p)
            &&& b.ts == #[trigger] a.ts.push(t)
            &&& t.action == "buy"@
            &&& p.code == t.code
            &&& p.price == t.price
            &&& p.quantity == t.quantity
        }
}

/// One book is the other with a sale noted.
pub open spec fn sold<N: Scalar>(a: BookView<N>, b: BookView<N>) -> bool {
    exists|t: TradeView<N>|
        {
            let n = a.ps.len() as int;
            let q = t.quantity as int;
            &&& b.ts == #[trigger] a.ts.push(t)
            &&& t.action == "sell"@
            &&& 0 < q <= store::held(a.ps, t.code)
            &&& b.ps == store::kept(a.ps, t.code, q, n)
            &&& t.pnl == Some(
                t.price.product(N::whole(q)).difference(store::spent(a.ps, t.code, q, n)),
            )
        }
}

/// Book `i` of a history becomes the next by a purchase or a sale.
pub open spec fn steps<N: Scalar>(h: Seq<BookView<N>>, i: int) -> bool {
    bought(h[i], h[i + 1]) || sold(h[i], h[i + 1])
}

/// A history that begins with an empty book, with nothing but purchases and sales.
pub open spec fn trading<N: Scalar>(h: Seq<BookView<N>>) -> bool {
    &&& h.len() > 0
    &&& h[0].ps.len() == 0
    &&& h[0].ts.len() == 0
    &&& forall|i: int| 0 <= i < h.len() - 1 ==> #[trigger] steps(h, i)
}

/// What the purchases or the sales of a code among the first `n` trades amount to, in units.
pub open spec fn turnover(
    ts: Seq<TradeView<Fixed>>,
    code: Seq<char>,
    action: Seq<char>,
    n: int,
) -> int
    decreases n,
{
    if n <= 0 {
        0
    } else {
        let t = ts[n - 1];
        turnover(ts, code, action, n - 1) + (if t.code == code && t.action == action {
            t.price.units * t.quantity
        } else {
            0
        })
    }
}

/// Every trade is of at least one share, at a price that is a decimal not below zero, and
/// its quantity is a decimal too.
pub open spec fn in_range(ts: Seq<TradeView<Fixed>>) -> bool {
    forall|i: int|
        0 <= i < ts.len() ==> (#[trigger] ts[i]).price.defined && ts[i].price.units >= 0 && 0
            < ts[i].quantity <= 9_000_000_000_000
}

proof fn turnover_prefix(
    a: Seq<TradeView<Fixed>>,
    b: Seq<TradeView<Fixed>>,
    code: Seq<char>,
    action: Seq<char>,
    n: int,
)
    requires
        n <= a.len(),
        n <= b.len(),
        forall|i: int| 0 <= i < n ==> a[i] == b[i],
    ensures
        turnover(a, code, action, n) == turnover(b, code, action, n),
    decreases n,
{
    if n > 0 {
        turnover_prefix(a, b, code, action, n - 1);
    }
}

/// One more trade adds its amount to the turnover, and its gain to what was realized.
proof fn one_more_trade(ts: Seq<TradeView<Fixed>>, t: TradeView<Fixed>, code: Seq<char>)
    requires
        in_range(ts.push(t)),
    ensures
        in_range(ts),
        t.price.defined,
        t.price.units >= 0,
        0 < t.quantity <= 9_000_000_000_000,
        t.price.units * t.quantity >= 0,
        forall|action: Seq<char>| #[trigger]
            turnover(ts.push(t), code, action, ts.len() as int + 1) == turnover(
                ts,
                code,
                action,
                ts.len() as int,
            ) + (if t.code == code && t.action == action {
                t.price.units * t.quantity
            } else {
                0
            }),
        store::realized(ts.push(t), Some(code), ts.len() as int + 1) == (match t.pnl {
            Some(p) => if store::counts(t, Some(code)) {
                store::realized(ts, Some(code), ts.len() as int).sum(p)
            } else {
                store::realized(ts, Some(code), ts.len() as int)
            },
            None => store::realized(ts, Some(code), ts.len() as int),
        }),
{
    let after = ts.push(t);
    let n = ts.len() as int;
    assert(after[n] == t);
    assert forall|i: int| 0 <= i < ts.len() implies (#[trigger] ts[i]).price.defined
        && ts[i].price.units >= 0 && 0 < ts[i].quantity <= 9_000_000_000_000 by {
        assert(after[i] == ts[i]);
    }
    assert(t.price.units * t.quantity >= 0) by (nonlinear_arith)
        requires
            t.price.units >= 0,
            t.quantity > 0,
    ;
    assert forall|action: Seq<char>| #[trigger] turnover(after, code, action, n + 1) == turnover(
        ts,
        code,
        action,
        n,
    ) + (if t.code == code && t.action == action {
        t.price.units * t.quantity
    } else {
        0
    }) by {
        turnover_prefix(after, ts, code, action, n);
    }
    store::gains_prefix(after, ts, Some(code), n);
}

/// What positions had cost is not below zero, and is nothing where nothing is held.
proof fn cost_not_below_zero(ps: Seq<PositionView<Fixed>>, code: Seq<char>, n: int)
    requires
        0 <= n <= ps.len(),
        store::in_decimals(ps),
    ensures
        0 <= store::whole_cost(ps, code, n, store::units_of()),
        0 <= store::held_in(ps, code, n),
        store::held_in(ps, code, n) == 0 ==> store::whole_cost(ps, code, n, store::units_of()) == 0,
    decreases n,
{
    if n > 0 {
        cost_not_below_zero(ps, code, n - 1);
        let p = ps[n - 1];
        assert(p.price.units * p.quantity >= 0) by (nonlinear_arith)
            requires
                p.price.units >= 0,
                p.quantity > 0,
        ;
    }
}

proof fn rest_in_decimals(ps: Seq<PositionView<Fixed>>, code: Seq<char>, sell: int, n: int)
    requires
        0 <= n <= ps.len(),
        0 <= sell,
        store::in_decimals(ps),
    ensures
        store::in_decimals(store::kept(ps, code, sell, n)),
    decreases n,
{
    if n > 0 {
        rest_in_decimals(ps, code, sell, n - 1);
        store::left_bounds(ps, code, sell, n - 1);
        let before = store::kept(ps, code, sell, n - 1);
        let k = store::kept(ps, code, sell, n);
        assert forall|i: int| 0 <= i < k.len() implies (#[trigger] k[i]).price.defined
            && k[i].price.units >= 0 && 0 < k[i].quantity <= 9_000_000_000_000 by {
            if i < before.len() {
                assert(k[i] == before[i]);
            } else {
                assert(ps[n - 1].price.defined);
            }
        }
    }
}

/// Where the books add up: what was realized is what the sales brought in less what the
/// purchases cost, and what is held had cost besides.
spec fn adds_up(b: BookView<Fixed>, code: Seq<char>) -> bool {
    let n = b.ts.len() as int;
    let brought = turnover(b.ts, code, "sell"@, n);
    let paid = turnover(b.ts, code, "buy"@, n);
    let holding = store::whole_cost(b.ps, code, b.ps.len() as int, store::units_of());
    &&& store::in_decimals(b.ps)
    &&& 0 <= brought
    &&& 0 <= holding <= paid
    &&& store::realized(b.ts, Some(code), n) == fixed::of_units(brought - paid + holding)
}

/// The amounts of a code are in range.
pub open spec fn fits(b: BookView<Fixed>, code: Seq<char>) -> bool {
    &&& in_range(b.ts)
    &&& turnover(b.ts, code, "sell"@, b.ts.len() as int) <= i64::MAX
    &&& turnover(b.ts, code, "buy"@, b.ts.len() as int) <= i64::MAX
}

proof fn purchase_adds_up(a: BookView<Fixed>, b: BookView<Fixed>, code: Seq<char>)
    requires
        bought(a, b),
        fits(b, code),
        fits(a, code) ==> adds_up(a, code),
    ensures
        adds_up(b, code),
{
    let (k, p, t) = choose|k: int, p: PositionView<Fixed>, t: TradeView<Fixed>|
        {
            &&& 0 <= k <= a.ps.len()
            &&& b.ps == #[trigger] a.ps.insert(k, p)
            &&& b.ts == #[trigger] a.ts.push(t)
            &&& t.action == "buy"@
            &&& p.code == t.code
            &&& p.price == t.price
            &&& p.quantity == t.quantity
        };
    reveal_strlit("buy");
    reveal_strlit("sell");
    assert("buy"@[0] == 'b' && "sell"@[0] == 's');
    one_more_trade(a.ts, t, code);
    let n = a.ts.len() as int;
    assert(turnover(b.ts, code, "sell"@, n + 1) == turnover(a.ts, code, "sell"@, n));
    assert(turnover(b.ts, code, "buy"@, n + 1) >= turnover(a.ts, code, "buy"@, n));
    cost_with_another(a.ps, k, p, code, a.ps.len() as int, store::units_of());
    assert(store::in_decimals(b.ps)) by {
        assert forall|i: int| 0 <= i < b.ps.len() implies (#[trigger] b.ps[i]).price.defined
            && b.ps[i].price.units >= 0 && 0 < b.ps[i].quantity <= 9_000_000_000_000 by {
            if i < k {
                assert(b.ps[i] == a.ps[i]);
            } else if i > k {
                assert(b.ps[i] == a.ps[i - 1]);
            }
        }
    }
}

proof fn sale_adds_up(a: BookView<Fixed>, b: BookView<Fixed>, code: Seq<char>)
    requires
        sold(a, b),
        fits(b, code),
        fits(a, code) ==> adds_up(a, code),
    ensures
        adds_up(b, code),
{
    let m = a.ps.len() as int;
    let t = choose|t: TradeView<Fixed>|
        {
            let q = t.quantity as int;
            &&& b.ts == #[trigger] a.ts.push(t)
            &&& t.action == "sell"@
            &&& 0 < q <= store::held(a.ps, t.code)
            &&& b.ps == store::kept(a.ps, t.code, q, m)
            &&& t.pnl == Some(
                t.price.product(Fixed::whole(q)).difference(store::spent(a.ps, t.code, q, m)),
            )
        };
    reveal_strlit("buy");
    reveal_strlit("sell");
    assert("buy"@[0] == 'b' && "sell"@[0] == 's');
    one_more_trade(a.ts, t, code);
    let n = a.ts.len() as int;
    let q = t.quantity as int;
    let u = t.price.units as int;
    assert(turnover(b.ts, code, "buy"@, n + 1) == turnover(a.ts, code, "buy"@, n));
    assert(turnover(b.ts, code, "sell"@, n + 1) >= turnover(a.ts, code, "sell"@, n));
    assert(adds_up(a, code));
    sale_splits_cost(a.ps, t.code, q, code, store::units_of());
    rest_in_decimals(a.ps, t.code, q, m);
    cost_not_below_zero(b.ps, code, b.ps.len() as int);
    if t.code == code {
        let spent = store::cost_in(a.ps, code, q, m, store::units_of());
        store::cost_is_exact_in_decimals(a.ps, code, q, m);
        let scale = fixed::SCALE as int;
        assert((u * (q * scale)) / scale == u * q) by {
            vstd::arithmetic::mul::lemma_mul_is_associative(u, q, scale);
            vstd::arithmetic::div_mod::lemma_div_by_multiple(u * q, scale);
        }
        assert(t.price.product(Fixed::whole(q)) == fixed::of_units(u * q));
        assert(t.pnl == Some(fixed::of_units(u * q - spent)));
    }
}

proof fn history_adds_up(h: Seq<BookView<Fixed>>, code: Seq<char>, i: int)
    requires
        trading(h),
        0 <= i < h.len(),
        fits(h[i], code),
    ensures
        adds_up(h[i], code),
    decreases i,
{
    if i > 0 {
        assert(steps(h, i - 1));
        if fits(h[i - 1], code) {
            history_adds_up(h, code, i - 1);
        }
        if bought(h[i - 1], h[i]) {
            purchase_adds_up(h[i - 1], h[i], code);
        } else {
            sale_adds_up(h[i - 1], h[i], code);
        }
    }
}

/// After any purchases and sales that began with an empty book, what a code has realized is
/// what its sales brought in less what its purchases cost, and what the shares that are held
/// had cost besides; so where nothing of it is held any more, it is what the sales brought in
/// less what the purchases cost. This is of decimals, where nothing is lost by rounding, as
/// long as the amounts are in range.
pub proof fn cleared_gain_is_sales_less_purchases(h: Seq<BookView<Fixed>>, code: Seq<char>)
    requires
        trading(h),
        fits(h.last(), code),
    ensures
        ({
            let b = h.last();
            let n = b.ts.len() as int;
            let gain = turnover(b.ts, code, "sell"@, n) - turnover(b.ts, code, "buy"@, n);
            &&& store::realized(b.ts, Some(code), n) == fixed::of_units(
                gain + store::whole_cost(b.ps, code, b.ps.len() as int, store::units_of()),
            )
            &&& store::held(b.ps, code) == 0 ==> store::realized(b.ts, Some(code), n)
                == fixed::of_units(gain)
        }),
{
    history_adds_up(h, code, h.len() - 1);
    cost_not_below_zero(h.last().ps, code, h.last().ps.len() as int);
}

// ---------------------------------------------------------------------------
// All codes together
// ---------------------------------------------------------------------------
/// What the first `n` trades realized, of one code or of all, in units.
pub open spec fn gain_units(
    ts: Seq<TradeView<Fixed>>,
    code: Option<Seq<char>>,
    n: int,
) -> int
    decreases n,
{
    if n <= 0 {
        0
    } else {
        gain_units(ts, code, n - 1) + (match ts[n - 1].pnl {
            Some(p) => if store::counts(ts[n - 1], code) {
                p.units as int
            } else {
                0
            },
            None => 0,
        })
    }
}

/// Every gain is defined, and what was realized, of one code or of all, was always in range.
pub open spec fn gains_fit(ts: Seq<TradeView<Fixed>>, code: Option<Seq<char>>) -> bool {
    &&& forall|i: int|
        0 <= i < ts.len() ==> ((#[trigger] ts[i]).pnl matches Some(p) ==> p.defined)
    &&& forall|k: int|
        0 <= k <= ts.len() ==> i64::MIN <= #[trigger] gain_units(ts, code, k) <= i64::MAX
}

proof fn gains_are_exact(ts: Seq<TradeView<Fixed>>, code: Option<Seq<char>>, n: int)
    requires
        0 <= n <= ts.len(),
        gains_fit(ts, code),
    ensures
        store::realized(ts, code, n) == fixed::of_units(gain_units(ts, code, n)),
        store::realized(ts, code, n).units == gain_units(ts, code, n),
    decreases n,
{
    assert(i64::MIN <= gain_units(ts, code, n) <= i64::MAX);
    if n > 0 {
        gains_are_exact(ts, code, n - 1);
        assert(i64::MIN <= gain_units(ts, code, n - 1) <= i64::MAX);
        assert(ts[n - 1].pnl matches Some(p) ==> p.defined);
    }
}

/// What each of some codes has realized, added up in units.
pub open spec fn gains_over(ts: Seq<TradeView<Fixed>>, codes: Seq<Seq<char>>) -> int
    decreases codes.len(),
{
    if codes.len() == 0 {
        0
    } else {
        gains_over(ts, codes.drop_last()) + store::realized(
            ts,
            Some(codes.last()),
            ts.len() as int,
        ).units
    }
}

/// The units of the first `n` trades, added up over some codes.
spec fn units_over(ts: Seq<TradeView<Fixed>>, codes: Seq<Seq<char>>, n: int) -> int
    decreases codes.len(),
{
    if codes.len() == 0 {
        0
    } else {
        units_over(ts, codes.drop_last(), n) + gain_units(ts, Some(codes.last()), n)
    }
}

/// A trade counts for one code only.
proof fn one_trade_over_codes(ts: Seq<TradeView<Fixed>>, codes: Seq<Seq<char>>, n: int)
    requires
        0 < n <= ts.len(),
        codes.no_duplicates(),
    ensures
        units_over(ts, codes, n) == units_over(ts, codes, n - 1) + (match ts[n - 1].pnl {
            Some(p) => if ts[n - 1].action == "sell"@ && codes.contains(ts[n - 1].code) {
                p.units as int
            } else {
                0
            },
            None => 0,
        }),
    decreases codes.len(),
{
    if codes.len() > 0 {
        let rest = codes.drop_last();
        let x = ts[n - 1].code;
        assert(rest.no_duplicates());
        one_trade_over_codes(ts, rest, n);
        if codes.last() == x {
            assert(codes[codes.len() - 1] == x);
            if rest.contains(x) {
                let i = choose|i: int| 0 <= i < rest.len() && rest[i] == x;
                assert(codes[i] == x);
            }
        } else if codes.contains(x) {
            let i = choose|i: int| 0 <= i < codes.len() && codes[i] == x;
            assert(rest[i] == x);
        } else if rest.contains(x) {
            let i = choose|i: int| 0 <= i < rest.len() && rest[i] == x;
            assert(codes[i] == x);
        }
    }
}

proof fn units_add_up(ts: Seq<TradeView<Fixed>>, codes: Seq<Seq<char>>, n: int)
    requires
        0 <= n <= ts.len(),
        codes.no_duplicates(),
        forall|i: int|
            0 <= i < ts.len() && (#[trigger] ts[i]).action == "sell"@ ==> codes.contains(ts[i].code),
    ensures
        units_over(ts, codes, n) == gain_units(ts, None, n),
    decreases n,
{
    if n > 0 {
        units_add_up(ts, codes, n - 1);
        one_trade_over_codes(ts, codes, n);
        assert(ts[n - 1].action == "sell"@ ==> codes.contains(ts[n - 1].code));
    } else {
        nothing_over_codes(ts, codes);
    }
}

proof fn nothing_over_codes(ts: Seq<TradeView<Fixed>>, codes: Seq<Seq<char>>)
    ensures
        units_over(ts, codes, 0) == 0,
    decreases codes.len(),
{
    if codes.len() > 0 {
        nothing_over_codes(ts, codes.drop_last());
    }
}

proof fn gains_over_are_units(ts: Seq<TradeView<Fixed>>, codes: Seq<Seq<char>>)
    requires
        forall|i: int| 0 <= i < codes.len() ==> gains_fit(ts, Some(#[trigger] codes[i])),
    ensures
        gains_over(ts, codes) == units_over(ts, codes, ts.len() as int),
    decreases codes.len(),
{
    if codes.len() > 0 {
        let rest = codes.drop_last();
        assert forall|i: int| 0 <= i < rest.len() implies gains_fit(ts, Some(#[trigger] rest[i])) by {
            assert(rest[i] == codes[i]);
        }
        gains_over_are_units(ts, rest);
        assert(gains_fit(ts, Some(codes[codes.len() - 1])));
        gains_are_exact(ts, Some(codes.last()), ts.len() as int);
    }
}

/// What all sales have realized is what each code has realized, added up over the codes that
/// were sold. This is of decimals, as long as the amounts are in range.
pub proof fn all_gains_are_those_of_the_codes(ts: Seq<TradeView<Fixed>>, codes: Seq<Seq<char>>)
    requires
        codes.no_duplicates(),
        forall|i: int|
            0 <= i < ts.len() && (#[trigger] ts[i]).action == "sell"@ ==> codes.contains(ts[i].code),
        gains_fit(ts, None),
        forall|i: int| 0 <= i < codes.len() ==> gains_fit(ts, Some(#[trigger] codes[i])),
    ensures
        store::realized(ts, None, ts.len() as int).defined,
        store::realized(ts, None, ts.len() as int).units == gains_over(ts, codes),
{
    gains_are_exact(ts, None, ts.len() as int);
    units_add_up(ts, codes, ts.len() as int);
    gains_over_are_units(ts, codes);
    assert(i64::MIN <= gain_units(ts, None, ts.len() as int) <= i64::MAX);
}

// ---------------------------------------------------------------------------
// Cleared codes
// ---------------------------------------------------------------------------
/// A trade sold shares of a code.
pub open spec fn is_sale(t: TradeView<Fixed>, code: Seq<char>) -> bool {
    t.action == "sell"@ && t.code == code
}

/// One figure of each sale of a code among the first `n` trades, added up.
pub open spec fn over_sales(
    ts: Seq<TradeView<Fixed>>,
    code: Seq<char>,
    figure: spec_fn(TradeView<Fixed>) -> int,
    n: int,
) -> int
    decreases n,
{
    if n <= 0 {
        0
    } else {
        over_sales(ts, code, figure, n - 1) + (if is_sale(ts[n - 1], code) {
            figure(ts[n - 1])
        } else {
            0
        })
    }
}

/// What a trade gained, where that is known.
pub open spec fn gain_of() -> spec_fn(TradeView<Fixed>) -> int {
    |t: TradeView<Fixed>|
        match t.pnl {
            Some(p) => p.units as int,
            None => 0,
        }
}

/// What the shares of a trade had cost, where that is known.
pub open spec fn cost_of() -> spec_fn(TradeView<Fixed>) -> int {
    |t: TradeView<Fixed>|
        match t.cost_basis {
            Some(c) => t.quantity * c.units,
            None => 0,
        }
}

/// How many shares a trade was for.
pub open spec fn shares_of() -> spec_fn(TradeView<Fixed>) -> int {
    |t: TradeView<Fixed>| t.quantity as int
}

proof fn sale_figures(ts: Seq<TradeView<Fixed>>, code: Seq<char>, n: int)
    requires
        0 <= n <= ts.len(),
    ensures
        store::sold_total(ts, code, n) == over_sales(ts, code, shares_of(), n),
        store::cost_total(ts, code, n).defined ==> store::cost_total(ts, code, n).units
            == over_sales(ts, code, cost_of(), n),
        store::realized(ts, Some(code), n).defined ==> store::realized(ts, Some(code), n).units
            == over_sales(ts, code, gain_of(), n),
        forall|i: int|
            0 <= i < n && is_sale(#[trigger] ts[i], code) ==> !text::before(
                store::last_sale(ts, code, n),
                ts[i].date,
            ),
        store::last_sale(ts, code, n).len() > 0 ==> exists|i: int|
            0 <= i < n && is_sale(#[trigger] ts[i], code) && ts[i].date == store::last_sale(
                ts,
                code,
                n,
            ),
    decreases n,
{
    if n > 0 {
        sale_figures(ts, code, n - 1);
        let t = ts[n - 1];
        let old_date = store::last_sale(ts, code, n - 1);
        let new_date = store::last_sale(ts, code, n);
        if is_sale(t, code) {
            match t.cost_basis {
                Some(c) => {
                    if store::cost_total(ts, code, n).defined {
                        fixed::product_is_part(c, Fixed::whole(t.quantity as int));
                        fixed::multiple_is_exact(t.quantity as int, c);
                    }
                },
                None => {},
            }
            text::before_irreflexive(t.date);
            if text::before(old_date, t.date) {
                assert forall|i: int|
                    0 <= i < n && is_sale(#[trigger] ts[i], code) implies !text::before(
                    new_date,
                    ts[i].date,
                ) by {
                    if i < n - 1 && text::before(new_date, ts[i].date) {
                        text::before_transitive(old_date, t.date, ts[i].date);
                    }
                }
                assert(ts[n - 1].date == new_date);
            }
        }
        if new_date.len() > 0 && new_date == old_date {
            let k = choose|i: int|
                0 <= i < n - 1 && is_sale(#[trigger] ts[i], code) && ts[i].date == old_date;
            assert(is_sale(ts[k], code));
        }
    }
}

/// A cleared code is told with the shares that its sales sold, what these had cost and what
/// they gained, each added up over its sales, and the last of their days.
pub proof fn cleared_code_adds_up(ts: Seq<TradeView<Fixed>>, code: Seq<char>)
    requires
        store::closed_of(ts, code).cost.defined,
        store::closed_of(ts, code).realized_pnl.defined,
    ensures
        ({
            let c = store::closed_of(ts, code);
            let n = ts.len() as int;
            &&& c.code == code
            &&& c.sold_qty == over_sales(ts, code, shares_of(), n)
            &&& c.cost.units == over_sales(ts, code, cost_of(), n)
            &&& c.realized_pnl.units == over_sales(ts, code, gain_of(), n)
            &&& forall|i: int|
                0 <= i < n && is_sale(#[trigger] ts[i], code) ==> !text::before(
                    c.last_date,
                    ts[i].date,
                )
            &&& c.last_date.len() > 0 ==> exists|i: int|
                0 <= i < n && is_sale(#[trigger] ts[i], code) && ts[i].date == c.last_date
        }),
{
    sale_figures(ts, code, ts.len() as int);
}

/// A code is cleared where something of it was sold and nothing is held; each is listed once.
pub proof fn cleared_codes_are_complete(
    ts: Seq<TradeView<Fixed>>,
    ps: Seq<PositionView<Fixed>>,
    n: int,
    code: Seq<char>,
)
    requires
        0 <= n <= ts.len(),
    ensures
        store::cleared(ts, ps, n).no_duplicates(),
        store::cleared(ts, ps, n).contains(code) <==> (exists|i: int|
            0 <= i < n && is_sale(#[trigger] ts[i], code)) && forall|i: int|
            0 <= i < ps.len() ==> (#[trigger] ps[i]).code != code,
    decreases n,
{
    if n > 0 {
        cleared_codes_are_complete(ts, ps, n - 1, code);
        let before = store::cleared(ts, ps, n - 1);
        let now = store::cleared(ts, ps, n);
        let t = ts[n - 1];
        if now.len() > before.len() {
            assert forall|i: int, j: int|
                0 <= i < now.len() && 0 <= j < now.len() && i != j implies now[i] != now[j] by {
                if i < before.len() {
                    assert(before.contains(now[i]));
                }
                if j < before.len() {
                    assert(before.contains(now[j]));
                }
            }
            assert(now[before.len() as int] == t.code);
        }
        if before.contains(code) {
            let k = choose|k: int| 0 <= k < before.len() && before[k] == code;
            assert(now[k] == code);
            let i = choose|i: int| 0 <= i < n - 1 && is_sale(#[trigger] ts[i], code);
            assert(is_sale(ts[i], code));
        }
        if now.contains(code) && !before.contains(code) {
            let k = choose|k: int| 0 <= k < now.len() && now[k] == code;
            assert(k < before.len() ==> before[k] == code);
            assert(is_sale(ts[n - 1], code));
        }
        if exists|i: int| 0 <= i < n && is_sale(#[trigger] ts[i], code) {
            let i = choose|i: int| 0 <= i < n && is_sale(#[trigger] ts[i], code);
            if i < n - 1 {
                assert(exists|i: int| 0 <= i < n - 1 && is_sale(#[trigger] ts[i], code));
            }
        }
        assert(store::is_held(ps, code) <==> exists|i: int|
            0 <= i < ps.len() && (#[trigger] ps[i]).code == code);
    }
}

/// What the shares that a sale takes from the first `n` positions had cost, in units.
pub open spec fn cost_drawn(
    ps: Seq<PositionView<Fixed>>,
    code: Seq<char>,
    sell: int,
    n: int,
) -> int
    decreases n,
{
    if n <= 0 {
        0
    } else {
        cost_drawn(ps, code, sell, n - 1) + store::taken(ps, code, sell, n - 1) * ps[n
            - 1].price.units
    }
}

proof fn spent_is_cost_drawn(ps: Seq<PositionView<Fixed>>, code: Seq<char>, sell: int, n: int)
    requires
        0 <= n <= ps.len(),
        store::spent(ps, code, sell, n).defined,
    ensures
        store::spent(ps, code, sell, n).units == cost_drawn(ps, code, sell, n),
    decreases n,
{
    if n > 0 {
        spent_is_cost_drawn(ps, code, sell, n - 1);
        let p = ps[n - 1];
        let t = store::taken(ps, code, sell, n - 1);
        if p.code != code || store::left(ps, code, sell, n - 1) == 0 {
            assert(t * p.price.units == 0) by (nonlinear_arith)
                requires
                    t == 0,
            ;
        } else {
            fixed::product_is_part(p.price, Fixed::whole(t));
            fixed::multiple_is_exact(t, p.price);
        }
    }
}

/// What a sale brought in is what the shares sold had cost and what was gained; a share sold
/// had cost the mean of that, rounded down to the unit. What was held is what was sold and
/// what is left.
pub proof fn sale_is_told_in_full(
    ps: Seq<PositionView<Fixed>>,
    code: Seq<char>,
    price: Fixed,
    quantity: i64,
    o: SellOutcome<Fixed>,
)
    requires
        store::outcome_told(ps, code, price, quantity, o),
        0 < quantity,
        o.realized_pnl.defined,
        o.avg_cost.defined,
    ensures
        ({
            let cost = cost_drawn(ps, code, quantity as int, ps.len() as int);
            &&& o.realized_pnl.units + cost == quantity * price.units
            &&& is_ratio_of(o.avg_cost.units as int, cost, quantity as int)
            &&& o.sold_qty == quantity
            &&& o.remaining_qty + o.sold_qty == store::held(ps, code)
        }),
{
    let n = ps.len() as int;
    let cost = store::spent(ps, code, quantity as int, n);
    spent_is_cost_drawn(ps, code, quantity as int, n);
    fixed::product_is_part(price, Fixed::whole(quantity as int));
    fixed::multiple_is_exact(quantity as int, price);
    fixed::share_is_ratio(cost, quantity as int);
}

} // verus!
