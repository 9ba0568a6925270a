//! The account: what is held, what it is worth today, and what was gained.
use crate::data::models;
use crate::data::models::{normalize_code, Market, Position, PositionView, Quote, QuoteView};
use crate::data::store;
use crate::engine::position::PositionStats;
use crate::fixed::Fixed;
use crate::num;
use crate::num::Scalar;
use crate::table::Table;
use crate::text;
use vstd::prelude::*;

verus! {

/// Below so many trading days extremes, drawdown and curve say little and are left out.
pub const MIN_DAYS_FOR_CURVE: usize = 6;

/// How many cleared codes the dashboard lists at most.
pub const MAX_CLOSED_ROWS: usize = 8;

/// What a holding is said to have cost.
#[derive(Debug, Clone, Copy, PartialEq, Eq, Structural)]
pub enum CostMode {
    /// What the shares held were bought for; gains of sales are shown apart.
    Buy,
    /// The same less the gains of sales, so that the gain shown is that of the security.
    Diluted,
}

// ---------------------------------------------------------------------------
// Single figures
// ---------------------------------------------------------------------------
/// The price that today's gain is counted from, where there is one above zero.
pub open spec fn basis_of<N: Scalar>(new_lot: bool, buy_price: N, prev_close: N) -> Option<N> {
    let basis = if new_lot {
        buy_price
    } else {
        prev_close
    };
    if num::above_zero(basis) {
        Some(basis)
    } else {
        None
    }
}

/// The price that today's gain is counted from: the purchase price of shares bought today,
/// the last close of others. Where it is not above zero there is none, and the position is
/// left out of today's gain and of what it is compared with.
pub fn today_basis<N: Scalar>(new_lot: bool, buy_price: N, prev_close: N) -> (r: Option<N>)
    ensures
        r == basis_of(new_lot, buy_price, prev_close),
{
    let basis = if new_lot {
        buy_price
    } else {
        prev_close
    };
    if num::positive(basis) {
        Some(basis)
    } else {
        None
    }
}

/// What a holding is said to have cost.
pub open spec fn mode_cost<N: Scalar>(mode: CostMode, cost: N, realized: N) -> N {
    match mode {
        CostMode::Buy => cost,
        CostMode::Diluted => cost.difference(realized),
    }
}

/// The gain of a holding, and the same as a part of its cost.
pub open spec fn gain_in_mode<N: Scalar>(mode: CostMode, cost: N, value: N, realized: N) -> (
    N,
    Option<N>,
) {
    let base = mode_cost(mode, cost, realized);
    let gain = value.difference(base);
    (gain, if num::above_zero(base) {
        Some(gain.quotient(base))
    } else {
        None
    })
}

/// The gain of a holding, and the same as a part of its cost. Where the cost is not above
/// zero, as when gains of sales have used it up, there is no such part.
pub fn mode_pnl<N: Scalar>(mode: CostMode, cost: N, value: N, realized: N) -> (r: (N, Option<N>))
    ensures
        r == gain_in_mode(mode, cost, value, realized),
{
    let base = match mode {
        CostMode::Buy => cost,
        CostMode::Diluted => cost.minus(realized),
    };
    let pnl = value.minus(base);
    (pnl, if num::positive(base) {
        Some(pnl.over(base))
    } else {
        None
    })
}

/// Where taking nothing off a cost leaves it as it is, the two ways to count the cost agree
/// for a security that was never sold.
pub proof fn no_sales_modes_agree<N: Scalar>(cost: N, value: N)
    requires
        cost.difference(num::nil::<N>()) == cost,
    ensures
        gain_in_mode(CostMode::Buy, cost, value, num::nil::<N>()) == gain_in_mode(
            CostMode::Diluted,
            cost,
            value,
            num::nil::<N>(),
        ),
{
}

/// In either way to count the cost, the gain is also told as a part of the cost if and only
/// if the cost is above zero.
pub proof fn part_of_a_cost_above_zero<N: Scalar>(mode: CostMode, cost: N, value: N, realized: N)
    ensures
        gain_in_mode(mode, cost, value, realized).1 is Some <==> num::above_zero(
            mode_cost(mode, cost, realized),
        ),
{
}

/// Counted with the diluted cost, the gain is that of the shares that are held and what was
/// realized besides; where nothing was realized, the two ways to count the cost agree. This
/// is of decimals that are not out of range.
pub proof fn diluted_gain_adds_realized(cost: Fixed, value: Fixed, realized: Fixed)
    requires
        cost.defined,
        value.defined,
        realized.defined,
        mode_cost(CostMode::Diluted, cost, realized).defined,
        gain_in_mode(CostMode::Buy, cost, value, realized).0.defined,
    ensures
        gain_in_mode(CostMode::Diluted, cost, value, realized).0 == gain_in_mode(
            CostMode::Buy,
            cost,
            value,
            realized,
        ).0.sum(realized),
        realized == num::nil::<Fixed>() ==> gain_in_mode(CostMode::Diluted, cost, value, realized)
            == gain_in_mode(CostMode::Buy, cost, value, realized),
{
}

/// A value as a part of another; zero where the other is zero.
pub open spec fn part<N: Scalar>(a: N, b: N) -> N {
    if num::zeroed(b) {
        num::nil::<N>()
    } else {
        a.quotient(b)
    }
}

/// A value as a part of another; zero where the other is zero.
pub fn part_of<N: Scalar>(a: N, b: N) -> (r: N)
    ensures
        r == part(a, b),
{
    if num::is_zero(b) {
        num::zero::<N>()
    } else {
        a.over(b)
    }
}

/// What a sale gained, in per cent of what the shares had cost.
pub open spec fn sale_gain<N: Scalar>(price: N, avg_cost: N) -> N {
    if num::zeroed(avg_cost) {
        num::nil::<N>()
    } else {
        price.difference(avg_cost).quotient(avg_cost).product(N::whole(100))
    }
}

/// What a sale gained, in per cent of what the shares had cost; zero where they cost
/// nothing.
pub fn sale_pct<N: Scalar>(price: N, avg_cost: N) -> (r: N)
    ensures
        r == sale_gain(price, avg_cost),
{
    if num::is_zero(avg_cost) {
        num::zero::<N>()
    } else {
        price.minus(avg_cost).over(avg_cost).times(N::from_int(100))
    }
}

// ---------------------------------------------------------------------------
// Quotes for codes
// ---------------------------------------------------------------------------
/// A code and a market are asked for.
pub open spec fn is_asked(reqs: Seq<(Seq<char>, Market)>, code: Seq<char>) -> bool {
    exists|i: int| 0 <= i < reqs.len() && (#[trigger] reqs[i]).0 == code
}

/// The codes and markets that the first `n` inputs mean, each code once.
pub open spec fn requests(codes: Seq<Seq<char>>, n: int) -> Seq<(Seq<char>, Market)>
    decreases n,
{
    if n <= 0 {
        Seq::empty()
    } else {
        let before = requests(codes, n - 1);
        match models::normalized(codes[n - 1]) {
            Some((code, market)) => if is_asked(before, code) {
                before
            } else {
                before.push((code, market))
            },
            None => before,
        }
    }
}

/// Codes and markets, apart from the texts that hold the codes.
pub open spec fn pairs(v: Seq<(String, Market)>) -> Seq<(Seq<char>, Market)> {
    Seq::new(v.len(), |i: int| (v[i].0@, v[i].1))
}

/// The codes and markets to ask quotes for: what the inputs mean, each code once.
pub fn quote_requests(codes: &[String]) -> (r: Vec<(String, Market)>)
    ensures
        pairs(r@) == requests(text::texts(codes@), codes@.len() as int),
{
    let ghost cs = text::texts(codes@);
    let mut out: Vec<(String, Market)> = Vec::new();
    let mut i: usize = 0;
    assert(pairs(out@) =~= Seq::<(Seq<char>, Market)>::empty());
    while i < codes.len()
        invariant
            cs == text::texts(codes@),
            i <= codes@.len(),
            pairs(out@) == requests(cs, i as int),
        decreases codes@.len() - i,
    {
        match normalize_code(codes[i].as_str()) {
            Some((code, market)) => {
                let ghost so_far = pairs(out@);
                let mut known = false;
                let mut k: usize = 0;
                while k < out.len()
                    invariant
                        so_far == pairs(out@),
                        k <= out@.len(),
                        known == exists|j: int| 0 <= j < k && (#[trigger] so_far[j]).0 == code@,
                    decreases out@.len() - k,
                {
                    assert(so_far[k as int].0 == out@[k as int].0@);
                    if text::same(out[k].0.as_str(), code.as_str()) {
                        known = true;
                    }
                    k += 1;
                }
                if !known {
                    out.push((code, market));
                    assert(pairs(out@) =~= so_far.push((code@, market)));
                }
            },
            None => {},
        }
        i += 1;
    }
    out
}

/// The last of the quotes that is of a code.
pub open spec fn quote_of<N: Scalar>(quotes: Seq<QuoteView<N>>, code: Seq<char>) -> Option<
    QuoteView<N>,
>
    decreases quotes.len(),
{
    if quotes.len() == 0 {
        None
    } else if quotes.last().code == code {
        Some(quotes.last())
    } else {
        quote_of(quotes.drop_last(), code)
    }
}

/// The quote that an input means.
pub open spec fn quote_meant<N: Scalar>(quotes: Seq<QuoteView<N>>, input: Seq<char>) -> Option<
    QuoteView<N>,
> {
    match models::normalized(input) {
        Some((code, market)) => quote_of(quotes, code),
        None => None,
    }
}

/// A quote that may be missing, as its view.
pub open spec fn quote_option<N: Scalar>(q: Option<Quote<N>>) -> Option<QuoteView<N>> {
    match q {
        Some(q) => Some(q@),
        None => None,
    }
}

/// The quote that an input means, among those that were fetched. So an input that leaves
/// out the zeros before a code of Hong Kong finds its quote.
pub fn find_quote<N: Scalar>(quotes: &[Quote<N>], input: &str) -> (r: Option<Quote<N>>)
    ensures
        quote_option(r) == quote_meant(models::quote_views(quotes@), input@),
{
    let ghost qs = models::quote_views(quotes@);
    match normalize_code(input) {
        Some((code, _)) => {
            let mut k: usize = quotes.len();
            assert(qs.take(k as int) =~= qs);
            while k > 0
                invariant
                    qs == models::quote_views(quotes@),
                    k <= qs.len(),
                    models::normalized(input@) matches Some((c, m)) && c == code@,
                    quote_of(qs.take(k as int), code@) == quote_of(qs, code@),
                decreases k,
            {
                k -= 1;
                assert(qs.take(k + 1).drop_last() =~= qs.take(k as int));
                assert(qs.take(k + 1).last() == quotes@[k as int]@);
                if text::same(quotes[k].code.as_str(), code.as_str()) {
                    return Some(quotes[k].clone());
                }
            }
            None
        },
        None => None,
    }
}

// ---------------------------------------------------------------------------
// The dashboard
// ---------------------------------------------------------------------------
/// All positions of one code.
pub struct DashRow<N: Scalar> {
    pub code: String,
    pub qty: i128,
    pub cost: N,
    pub value: N,
    pub cur: N,
    pub change_pct: Option<N>,
    /// Today's gain; missing where no position has a price to count it from.
    pub today_pnl: Option<N>,
    /// What the positions in today's gain were worth at the prices it is counted from.
    pub today_basis_value: N,
    /// Some of the shares were bought today.
    pub new_lot: bool,
    pub realized: N,
}

/// A row with its texts as sequences of characters.
pub ghost struct DashRowView<N: Scalar> {
    pub code: Seq<char>,
    pub qty: int,
    pub cost: N,
    pub value: N,
    pub cur: N,
    pub change_pct: Option<N>,
    pub today_pnl: Option<N>,
    pub today_basis_value: N,
    pub new_lot: bool,
    pub realized: N,
}

impl<N: Scalar> View for DashRow<N> {
    type V = DashRowView<N>;

    open spec fn view(&self) -> DashRowView<N> {
        DashRowView {
            code: self.code@,
            qty: self.qty as int,
            cost: self.cost,
            value: self.value,
            cur: self.cur,
            change_pct: self.change_pct,
            today_pnl: self.today_pnl,
            today_basis_value: self.today_basis_value,
            new_lot: self.new_lot,
            realized: self.realized,
        }
    }
}

/// Several rows.
pub open spec fn row_views<N: Scalar>(v: Seq<DashRow<N>>) -> Seq<DashRowView<N>> {
    Seq::new(v.len(), |i: int| v[i]@)
}

/// What a dashboard is made of besides the positions.
pub ghost struct Scene<N: Scalar> {
    pub quotes: Seq<QuoteView<N>>,
    pub realized: Map<Seq<char>, N>,
    pub today: Seq<char>,
}

/// The price of a position: that of its quote, or else what it was bought for.
pub open spec fn price_now<N: Scalar>(p: PositionView<N>, s: Scene<N>) -> N {
    match quote_meant(s.quotes, p.code) {
        Some(q) => q.price,
        None => p.price,
    }
}

/// The position was bought today, or is said to be bought later.
pub open spec fn is_new<N: Scalar>(p: PositionView<N>, s: Scene<N>) -> bool {
    text::not_after(s.today, p.date)
}

/// The price that today's gain of a position is counted from.
pub open spec fn basis_now<N: Scalar>(p: PositionView<N>, s: Scene<N>) -> Option<N> {
    match quote_meant(s.quotes, p.code) {
        Some(q) => basis_of(is_new(p, s), p.price, q.prev_close),
        None => None,
    }
}

/// The row of a code before any of its positions has been added, made at the first.
pub open spec fn empty_row<N: Scalar>(p: PositionView<N>, s: Scene<N>) -> DashRowView<N> {
    DashRowView {
        code: p.code,
        qty: 0,
        cost: num::nil::<N>(),
        value: num::nil::<N>(),
        cur: price_now(p, s),
        change_pct: match quote_meant(s.quotes, p.code) {
            Some(q) => Some(q.change_pct),
            None => None,
        },
        today_pnl: None,
        today_basis_value: num::nil::<N>(),
        new_lot: false,
        realized: if s.realized.contains_key(p.code) {
            s.realized[p.code]
        } else {
            num::nil::<N>()
        },
    }
}

/// A row with one more position.
pub open spec fn with_position<N: Scalar>(
    r: DashRowView<N>,
    p: PositionView<N>,
    s: Scene<N>,
) -> DashRowView<N> {
    let cur = price_now(p, s);
    let qf = N::whole(p.quantity as int);
    let basis = basis_now(p, s);
    DashRowView {
        qty: r.qty + p.quantity,
        cost: r.cost.sum(p.price.product(qf)),
        value: r.value.sum(cur.product(qf)),
        new_lot: r.new_lot || is_new(p, s),
        today_pnl: match basis {
            Some(b) => Some(
                (match r.today_pnl {
                    Some(t) => t,
                    None => num::nil::<N>(),
                }).sum(cur.difference(b).product(qf)),
            ),
            None => r.today_pnl,
        },
        today_basis_value: match basis {
            Some(b) => r.today_basis_value.sum(b.product(qf)),
            None => r.today_basis_value,
        },
        ..r
    }
}

/// The row of a code when the first `n` positions have been added.
pub open spec fn row_of<N: Scalar>(
    ps: Seq<PositionView<N>>,
    s: Scene<N>,
    code: Seq<char>,
    n: int,
) -> Option<DashRowView<N>>
    decreases n,
{
    if n <= 0 {
        None
    } else {
        let before = row_of(ps, s, code, n - 1);
        if ps[n - 1].code != code {
            before
        } else {
            Some(
                with_position(
                    match before {
                        Some(r) => r,
                        None => empty_row(ps[n - 1], s),
                    },
                    ps[n - 1],
                    s,
                ),
            )
        }
    }
}

/// The codes of the first `n` positions, each once, in the order in which they first
/// occur.
pub open spec fn codes_of<N: Scalar>(ps: Seq<PositionView<N>>, n: int) -> Seq<Seq<char>>
    decreases n,
{
    if n <= 0 {
        Seq::empty()
    } else {
        let before = codes_of(ps, n - 1);
        if before.contains(ps[n - 1].code) {
            before
        } else {
            before.push(ps[n - 1].code)
        }
    }
}

/// Each code of the positions is listed once, and nothing else is.
pub proof fn codes_are_complete<N: Scalar>(ps: Seq<PositionView<N>>, n: int, code: Seq<char>)
    requires
        0 <= n <= ps.len(),
    ensures
        codes_of(ps, n).no_duplicates(),
        codes_of(ps, n).contains(code) <==> exists|i: int|
            0 <= i < n && (#[trigger] ps[i]).code == code,
        codes_of(ps, n).len() <= n,
    decreases n,
{
    if n > 0 {
        codes_are_complete(ps, n - 1, code);
        let before = codes_of(ps, n - 1);
        let now = codes_of(ps, n);
        if !before.contains(ps[n - 1].code) {
            assert forall|i: int, j: int|
                0 <= i < now.len() && 0 <= j < now.len() && i != j implies now[i] != now[j] by {
                if i < before.len() {
                    assert(before.contains(now[i]));
                }
                if j < before.len() {
                    assert(before.contains(now[j]));
                }
            }
            assert(now[before.len() as int] == ps[n - 1].code);
        }
        if now.contains(code) && !before.contains(code) {
            let k = choose|k: int| 0 <= k < now.len() && now[k] == code;
            assert(k < before.len() ==> before[k] == code);
            assert(ps[n - 1].code == code);
        }
        if before.contains(code) {
            let k = choose|k: int| 0 <= k < before.len() && before[k] == code;
            assert(now[k] == code);
        }
        if exists|i: int| 0 <= i < n && (#[trigger] ps[i]).code == code {
            let i = choose|i: int| 0 <= i < n && (#[trigger] ps[i]).code == code;
            if i < n - 1 {
                assert(before.contains(code));
            }
        }
    }
}

/// The rows of the dashboard.
pub open spec fn rows_of<N: Scalar>(
    ps: Seq<PositionView<N>>,
    s: Scene<N>,
    n: int,
) -> Seq<DashRowView<N>> {
    let codes = codes_of(ps, n);
    Seq::new(codes.len(), |i: int| row_of(ps, s, codes[i], n).unwrap())
}

/// The rows of the dashboard: the positions of each code taken together, in the order in
/// which the codes first occur. Today's gain is counted position by position, from the
/// price that fits the day on which each was bought.
pub fn dash_rows<N: Scalar>(
    positions: &[Position<N>],
    quotes: &[Quote<N>],
    realized: &Table<N>,
    today: &str,
) -> (r: Vec<DashRow<N>>)
    ensures
        row_views(r@) == rows_of(
            models::position_views(positions@),
            Scene { quotes: models::quote_views(quotes@), realized: realized@, today: today@ },
            positions@.len() as int,
        ),
{
    let ghost ps = models::position_views(positions@);
    let ghost s = Scene {
        quotes: models::quote_views(quotes@),
        realized: realized@,
        today: today@,
    };
    let n = positions.len();
    let mut rows: Vec<DashRow<N>> = Vec::new();
    let mut i: usize = 0;
    while i < n
        invariant
            ps == models::position_views(positions@),
            s == (Scene {
                quotes: models::quote_views(quotes@),
                realized: realized@,
                today: today@,
            }),
            n == positions@.len(),
            i <= n,
            rows@.len() == codes_of(ps, i as int).len(),
            forall|k: int|
                0 <= k < rows@.len() ==> (#[trigger] rows@[k])@.code == codes_of(ps, i as int)[k]
                    && row_of(ps, s, codes_of(ps, i as int)[k], i as int) == Some(rows@[k]@),
            forall|k: int|
                0 <= k < rows@.len() ==> -9_223_372_036_854_775_808 * i <= (
                #[trigger] rows@[k]).qty <= 9_223_372_036_854_775_808 * i,
        decreases n - i,
    {
        let p = &positions[i];
        assert(ps[i as int] == p@);
        let ghost before = codes_of(ps, i as int);
        let ghost next = codes_of(ps, i + 1);
        proof {
            codes_are_complete(ps, i as int, p.code@);
        }
        let quote = find_quote(quotes, p.code.as_str());
        let qf = N::from_int(p.quantity as i128);
        let cur = match &quote {
            Some(q) => q.price,
            None => p.price,
        };
        let new_lot = !text::precedes(p.date.as_str(), today);
        let basis = match &quote {
            Some(q) => today_basis(new_lot, p.price, q.prev_close),
            None => None,
        };
        let mut at: usize = 0;
        while at < rows.len() && !text::same(rows[at].code.as_str(), p.code.as_str())
            invariant
                at <= rows@.len(),
                forall|k: int| 0 <= k < at ==> (#[trigger] rows@[k])@.code != p.code@,
            decreases rows@.len() - at,
        {
            at += 1;
        }
        if at == rows.len() {
            proof {
                if before.contains(p.code@) {
                    let k = choose|k: int| 0 <= k < before.len() && before[k] == p.code@;
                    assert(rows@[k]@.code == before[k]);
                }
                no_row(ps, s, p.code@, i as int);
            }
            rows.push(
                DashRow {
                    code: p.code.clone(),
                    qty: 0,
                    cost: num::zero::<N>(),
                    value: num::zero::<N>(),
                    cur,
                    change_pct: match &quote {
                        Some(q) => Some(q.change_pct),
                        None => None,
                    },
                    today_pnl: None,
                    today_basis_value: num::zero::<N>(),
                    new_lot: false,
                    realized: match realized.get(p.code.as_str()) {
                        Some(v) => v,
                        None => num::zero::<N>(),
                    },
                },
            );
        } else {
            assert(before[at as int] == p.code@);
            assert(before.contains(p.code@));
        }
        let ghost rows0 = rows@;
        let row = &mut rows[at];
        row.qty = row.qty + p.quantity as i128;
        row.cost = row.cost.plus(p.price.times(qf));
        row.value = row.value.plus(cur.times(qf));
        row.new_lot = row.new_lot || new_lot;
        match basis {
            Some(b) => {
                let so_far = match row.today_pnl {
                    Some(t) => t,
                    None => num::zero::<N>(),
                };
                row.today_pnl = Some(so_far.plus(cur.minus(b).times(qf)));
                row.today_basis_value = row.today_basis_value.plus(b.times(qf));
            },
            None => {},
        }
        proof {
            assert(next.len() == rows@.len());
            assert forall|k: int| 0 <= k < rows@.len() implies (#[trigger] rows@[k])@.code
                == next[k] && row_of(ps, s, next[k], i + 1) == Some(rows@[k]@) by {
                if k != at {
                    assert(rows@[k] == rows0[k]);
                    assert(next[k] == before[k]);
                    if k < before.len() && at < before.len() {
                        assert(before[k] != before[at as int]);
                    }
                    assert(next[k] != p.code@);
                } else {
                    assert(rows@[k]@ == with_position(rows0[k]@, p@, s));
                }
            }
        }
        i += 1;
    }
    assert(row_views(rows@) =~= rows_of(ps, s, n as int));
    rows
}

proof fn no_row<N: Scalar>(ps: Seq<PositionView<N>>, s: Scene<N>, code: Seq<char>, n: int)
    requires
        0 <= n <= ps.len(),
        !codes_of(ps, n).contains(code),
    ensures
        row_of(ps, s, code, n) is None,
    decreases n,
{
    codes_are_complete(ps, n, code);
    if n > 0 {
        codes_are_complete(ps, n - 1, code);
        assert(ps[n - 1].code != code);
        no_row(ps, s, code, n - 1);
    }
}

/// The sums of the dashboard.
pub struct DashTotals<N: Scalar> {
    pub total_cost: N,
    pub total_value: N,
    pub today_pnl: N,
    /// What today's gain is compared with.
    pub prev_value: N,
    pub has_new_lot: bool,
    pub total_pnl: N,
    pub total_pct: N,
    pub today_pct: N,
    /// Some security has gains or losses from sales.
    pub any_realized: bool,
}

/// The sums over the first `n` rows: cost, value, today's gain and what it is compared
/// with.
pub open spec fn sums_of<N: Scalar>(rows: Seq<DashRowView<N>>, n: int) -> (N, N, N, N)
    decreases n,
{
    if n <= 0 {
        (num::nil::<N>(), num::nil::<N>(), num::nil::<N>(), num::nil::<N>())
    } else {
        let b = sums_of(rows, n - 1);
        let r = rows[n - 1];
        (
            b.0.sum(r.cost),
            b.1.sum(r.value),
            match r.today_pnl {
                Some(t) => b.2.sum(t),
                None => b.2,
            },
            match r.today_pnl {
                Some(t) => b.3.sum(r.today_basis_value),
                None => b.3,
            },
        )
    }
}

/// What the sums of a dashboard of some rows are.
pub open spec fn totalled<N: Scalar>(rs: Seq<DashRowView<N>>, r: DashTotals<N>) -> bool {
    let s = sums_of(rs, rs.len() as int);
    &&& (r.total_cost, r.total_value, r.today_pnl, r.prev_value) == s
    &&& r.total_pnl == s.1.difference(s.0)
    &&& r.total_pct == part(s.1.difference(s.0), s.0)
    &&& r.today_pct == part(s.2, s.3)
    &&& r.has_new_lot == exists|i: int| 0 <= i < rs.len() && (#[trigger] rs[i]).new_lot
    &&& r.any_realized == exists|i: int|
        0 <= i < rs.len() && !num::zeroed((#[trigger] rs[i]).realized)
}

/// The sums of the dashboard. They do not depend on how cost is counted.
pub fn dash_totals<N: Scalar>(rows: &[DashRow<N>]) -> (r: DashTotals<N>)
    ensures
        totalled(row_views(rows@), r),
{
    let ghost rs = row_views(rows@);
    let mut total_cost = num::zero::<N>();
    let mut total_value = num::zero::<N>();
    let mut today_pnl = num::zero::<N>();
    let mut prev_value = num::zero::<N>();
    let mut has_new_lot = false;
    let mut any_realized = false;
    let mut i: usize = 0;
    while i < rows.len()
        invariant
            rs == row_views(rows@),
            i <= rows@.len(),
            (total_cost, total_value, today_pnl, prev_value) == sums_of(rs, i as int),
            has_new_lot == exists|j: int| 0 <= j < i && (#[trigger] rs[j]).new_lot,
            any_realized == exists|j: int|
                0 <= j < i && !num::zeroed((#[trigger] rs[j]).realized),
        decreases rows@.len() - i,
    {
        let r = &rows[i];
        assert(rs[i as int] == r@);
        total_cost = total_cost.plus(r.cost);
        total_value = total_value.plus(r.value);
        if r.new_lot {
            has_new_lot = true;
        }
        if !num::is_zero(r.realized) {
            any_realized = true;
        }
        match r.today_pnl {
            Some(diff) => {
                today_pnl = today_pnl.plus(diff);
                prev_value = prev_value.plus(r.today_basis_value);
            },
            None => {},
        }
        i += 1;
    }
    let total_pnl = total_value.minus(total_cost);
    DashTotals {
        total_cost,
        total_value,
        today_pnl,
        prev_value,
        has_new_lot,
        total_pnl,
        total_pct: part_of(total_pnl, total_cost),
        today_pct: part_of(today_pnl, prev_value),
        any_realized,
    }
}

/// Whether the gains of sales get columns of their own: not where they are part of the
/// cost, nor where there are none.
pub fn shows_realized<N: Scalar>(mode: CostMode, totals: &DashTotals<N>) -> (r: bool)
    ensures
        r == (mode != CostMode::Diluted && totals.any_realized),
{
    match mode {
        CostMode::Diluted => false,
        CostMode::Buy => totals.any_realized,
    }
}

/// What is held is worth more than it cost, and what sales gained.
pub open spec fn gain_in_all<N: Scalar>(row: DashRowView<N>) -> N {
    row.value.difference(row.cost).sum(row.realized)
}

/// The gain of a security: what is held is worth more than it cost, and what sales gained.
pub fn whole_gain<N: Scalar>(row: &DashRow<N>) -> (r: N)
    ensures
        r == gain_in_all(row@),
{
    row.value.minus(row.cost).plus(row.realized)
}

/// The gains of cleared codes added up.
pub open spec fn closed_sum<N: Scalar>(v: Seq<store::ClosedView<N>>, n: int) -> N
    decreases n,
{
    if n <= 0 {
        num::nil::<N>()
    } else {
        closed_sum(v, n - 1).sum(v[n - 1].realized_pnl)
    }
}

/// The gains of cleared codes added up.
pub fn closed_total<N: Scalar>(closed: &[store::ClosedPosition<N>]) -> (r: N)
    ensures
        r == closed_sum(store::closed_views(closed@), closed@.len() as int),
{
    let ghost vs = store::closed_views(closed@);
    let mut sum = num::zero::<N>();
    let mut i: usize = 0;
    while i < closed.len()
        invariant
            vs == store::closed_views(closed@),
            i <= closed@.len(),
            sum == closed_sum(vs, i as int),
        decreases closed@.len() - i,
    {
        assert(vs[i as int] == closed@[i as int]@);
        sum = sum.plus(closed[i].realized_pnl);
        i += 1;
    }
    sum
}

/// A gain as a part of a cost above zero.
pub open spec fn part_of_cost<N: Scalar>(gain: N, cost: N) -> Option<N> {
    if num::above_zero(cost) {
        Some(gain.quotient(cost))
    } else {
        None
    }
}

/// The gain of a cleared code as a part of its cost, where the cost is above zero.
pub fn closed_part<N: Scalar>(c: &store::ClosedPosition<N>) -> (r: Option<N>)
    ensures
        r == part_of_cost(c.realized_pnl, c.cost),
{
    if num::positive(c.cost) {
        Some(c.realized_pnl.over(c.cost))
    } else {
        None
    }
}

/// The word for the direction of a trade.
pub fn action_label(action: &str) -> (r: String)
    ensures
        r@ == (if action@ == "buy"@ {
            "买入"@
        } else if action@ == "sell"@ {
            "卖出"@
        } else {
            action@
        }),
{
    if text::same(action, "buy") {
        "买入".to_owned()
    } else if text::same(action, "sell") {
        "卖出".to_owned()
    } else {
        action.to_owned()
    }
}

// ---------------------------------------------------------------------------
// The analysis of a holding
// ---------------------------------------------------------------------------
/// The codes to analyse: the one that is asked for, or all that are held.
pub fn stats_targets<N: Scalar>(code: Option<String>, all: bool, positions: &[Position<N>]) -> (r:
    Vec<String>)
    ensures
        text::texts(r@) == (match text::text_option(code) {
            Some(c) => if all {
                codes_of(models::position_views(positions@), positions@.len() as int)
            } else {
                seq![c]
            },
            None => codes_of(models::position_views(positions@), positions@.len() as int),
        }),
{
    match code {
        Some(c) => {
            if !all {
                let mut one: Vec<String> = Vec::new();
                let ghost cv = c@;
                one.push(c);
                assert(text::texts(one@) =~= seq![cv]);
                return one;
            }
        },
        None => {},
    }
    let ghost ps = models::position_views(positions@);
    let mut seen: Vec<String> = Vec::new();
    let mut i: usize = 0;
    assert(text::texts(seen@) =~= Seq::<Seq<char>>::empty());
    while i < positions.len()
        invariant
            ps == models::position_views(positions@),
            i <= positions@.len(),
            text::texts(seen@) == codes_of(ps, i as int),
        decreases positions@.len() - i,
    {
        assert(ps[i as int] == positions@[i as int]@);
        if !text::is_among(&seen, positions[i].code.as_str()) {
            let ghost before = seen@;
            seen.push(positions[i].code.clone());
            assert(text::texts(seen@) =~= text::texts(before).push(seen@.last()@));
        }
        i += 1;
    }
    seen
}

/// The positions of one code taken together.
pub struct Lots<N: Scalar> {
    pub qty: i64,
    pub cost: N,
    pub avg_cost: N,
    /// The day of the first purchase.
    pub buy_date: String,
}

/// How a code stands.
pub enum Standing<N: Scalar> {
    /// Shares are held.
    Held(Lots<N>),
    /// Nothing is held, but sales gained or lost something.
    Cleared,
    /// Nothing is held, and nothing was gained.
    Unknown,
}

/// What the first `n` positions of a code cost.
pub open spec fn lots_cost<N: Scalar>(ps: Seq<PositionView<N>>, code: Seq<char>, n: int) -> N
    decreases n,
{
    if n <= 0 {
        num::nil::<N>()
    } else if ps[n - 1].code == code {
        lots_cost(ps, code, n - 1).sum(
            ps[n - 1].price.product(N::whole(ps[n - 1].quantity as int)),
        )
    } else {
        lots_cost(ps, code, n - 1)
    }
}

/// The earliest date of the first `n` positions of a code.
pub open spec fn first_date<N: Scalar>(
    ps: Seq<PositionView<N>>,
    code: Seq<char>,
    n: int,
) -> Option<Seq<char>>
    decreases n,
{
    if n <= 0 {
        None
    } else {
        let before = first_date(ps, code, n - 1);
        if ps[n - 1].code != code {
            before
        } else {
            match before {
                Some(d) => if text::before(ps[n - 1].date, d) {
                    Some(ps[n - 1].date)
                } else {
                    Some(d)
                },
                None => Some(ps[n - 1].date),
            }
        }
    }
}

/// How a code stands among positions.
pub open spec fn stands<N: Scalar>(
    ps: Seq<PositionView<N>>,
    code: Seq<char>,
    realized: N,
    r: Standing<N>,
) -> bool {
    let n = ps.len() as int;
    let qty = store::held(ps, code);
    match r {
        Standing::Held(l) => {
            &&& qty != 0
            &&& l.qty == qty
            &&& l.cost == lots_cost(ps, code, n)
            &&& l.avg_cost == lots_cost(ps, code, n).quotient(N::whole(qty))
            &&& first_date(ps, code, n) == Some(l.buy_date@)
        },
        Standing::Cleared => qty == 0 && !num::zeroed(realized),
        Standing::Unknown => qty == 0 && num::zeroed(realized),
    }
}

/// How a code stands: whether shares are held, how many, what they cost and since when.
pub fn standing_of<N: Scalar>(code: &str, positions: &[Position<N>], realized: N) -> (r: Standing<
    N,
>)
    requires
        i64::MIN <= store::held(models::position_views(positions@), code@) <= i64::MAX,
    ensures
        stands(models::position_views(positions@), code@, realized, r),
{
    let ghost ps = models::position_views(positions@);
    let n = positions.len();
    let mut qty: i128 = 0;
    let mut cost = num::zero::<N>();
    let mut first: Option<String> = None;
    let mut i: usize = 0;
    while i < n
        invariant
            ps == models::position_views(positions@),
            n == positions@.len(),
            i <= n,
            qty == store::held_in(ps, code@, i as int),
            -9_223_372_036_854_775_808 * i <= qty <= 9_223_372_036_854_775_808 * i,
            cost == lots_cost(ps, code@, i as int),
            text::text_option(first) == first_date(ps, code@, i as int),
            first is None ==> qty == 0,
        decreases n - i,
    {
        let p = &positions[i];
        assert(ps[i as int] == p@);
        if text::same(p.code.as_str(), code) {
            qty = qty + p.quantity as i128;
            cost = cost.plus(p.price.times(N::from_int(p.quantity as i128)));
            let earlier = match &first {
                Some(d) => text::precedes(p.date.as_str(), d.as_str()),
                None => true,
            };
            if earlier {
                first = Some(p.date.clone());
            }
        }
        i += 1;
    }
    if qty == 0 {
        if num::is_zero(realized) {
            Standing::Unknown
        } else {
            Standing::Cleared
        }
    } else {
        match first {
            Some(buy_date) => Standing::Held(
                Lots {
                    qty: qty as i64,
                    cost,
                    avg_cost: cost.over(N::from_int(qty)),
                    buy_date,
                },
            ),
            None => Standing::Unknown,
        }
    }
}

/// A holding at its present price.
pub struct Present<N: Scalar> {
    pub cur: N,
    pub value: N,
    pub pnl: N,
    pub pct: N,
    /// The return of today: that of the quote, or else of the last bar.
    pub today: Option<N>,
    /// There are enough trading days for extremes, drawdown and curve.
    pub with_curve: bool,
}

/// A holding at the price of its quote, or else at the last close.
pub open spec fn present<N: Scalar>(s: PositionStats<N>, quote: Option<QuoteView<N>>) -> Present<N> {
    let value = match quote {
        Some(q) => q.price.product(N::whole(s.qty as int)),
        None => s.value,
    };
    let pnl = match quote {
        Some(q) => value.difference(s.cost),
        None => s.pnl,
    };
    Present {
        cur: match quote {
            Some(q) => q.price,
            None => s.last_close,
        },
        value,
        pnl,
        pct: part(pnl, s.cost),
        today: match quote {
            Some(q) => Some(q.change_pct),
            None => s.ret_day,
        },
        with_curve: s.trading_days >= 6,
    }
}

/// A holding at the price of its quote, or else at the last close.
pub fn present_of<N: Scalar>(s: &PositionStats<N>, quote: &Option<Quote<N>>) -> (r: Present<N>)
    ensures
        r == present(*s, quote_option(*quote)),
{
    let (cur, value, pnl, today) = match quote {
        Some(q) => {
            let v = q.price.times(N::from_int(s.qty as i128));
            (q.price, v, v.minus(s.cost), Some(q.change_pct))
        },
        None => (s.last_close, s.value, s.pnl, s.ret_day),
    };
    Present {
        cur,
        value,
        pnl,
        pct: part_of(pnl, s.cost),
        today,
        with_curve: s.trading_days >= MIN_DAYS_FOR_CURVE,
    }
}

/// Whether bars are so old that the reader is told: more than five days.
pub fn is_stale(days: Option<i64>) -> (r: bool)
    ensures
        r == (days matches Some(d) && d > 5),
{
    match days {
        Some(d) => d > 5,
        None => false,
    }
}

/// A holding beside an index.
pub struct Versus<N: Scalar> {
    pub index_return: N,
    pub excess: N,
    /// The holding did at least as well.
    pub ahead: bool,
}

/// What a holding is beside an index.
pub open spec fn beside_index<N: Scalar>(
    pnl_pct: N,
    first_close: N,
    last_close: N,
    r: Versus<N>,
) -> bool {
    &&& r.index_return == last_close.quotient(first_close).difference(num::unit::<N>())
    &&& r.excess == pnl_pct.difference(r.index_return)
    &&& r.ahead == num::not_below_zero(r.excess)
}

/// A holding beside an index: the return of the holding on its cost, that of the index from
/// close to close.
pub fn versus<N: Scalar>(pnl_pct: N, first_close: N, last_close: N) -> (r: Versus<N>)
    ensures
        beside_index(pnl_pct, first_close, last_close, r),
{
    let index_return = last_close.over(first_close).minus(num::one::<N>());
    let excess = pnl_pct.minus(index_return);
    Versus { index_return, excess, ahead: num::non_negative(excess) }
}

} // verus!
