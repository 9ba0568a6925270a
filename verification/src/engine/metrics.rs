//! What a back test yields: return, risk and the comparison with a benchmark.
use super::context;
use super::context::TradeRec;
use crate::fixed::{Fixed, SCALE};
use crate::num;
use crate::num::Scalar;
use vstd::prelude::*;

verus! {

/// A comparison with a benchmark. Beta and alpha are undefined where there are less than
/// three daily returns.
pub struct Benchmark<N: Scalar> {
    pub name: String,
    pub code: String,
    /// What holding the benchmark would have yielded.
    pub total_return: N,
    /// What the strategy yielded beyond that.
    pub excess: N,
    pub beta: N,
    /// The daily alpha times 252.
    pub alpha_annual: N,
}

/// The return from one value to another; zero where there was nothing to begin with.
pub open spec fn return_between<N: Scalar>(from: N, to: N) -> N {
    if num::zeroed(from) {
        num::nil::<N>()
    } else {
        to.quotient(from).difference(num::unit::<N>())
    }
}

/// The return of each day but the first.
pub open spec fn daily<N: Scalar>(equity: Seq<N>) -> Seq<N> {
    Seq::new(
        (if equity.len() == 0 {
            0
        } else {
            equity.len() - 1
        }) as nat,
        |i: int| return_between(equity[i], equity[i + 1]),
    )
}

/// The return over the whole curve.
pub open spec fn return_over<N: Scalar>(equity: Seq<N>) -> N {
    if equity.len() == 0 {
        num::nil::<N>()
    } else {
        return_between(equity[0], equity.last())
    }
}

/// The mean.
pub open spec fn mean<N: Scalar>(s: Seq<N>) -> N {
    num::total(s).quotient(N::whole(s.len() as int))
}

/// The products of the distances of two series from two values, added up.
pub open spec fn covariation<N: Scalar>(a: Seq<N>, ma: N, b: Seq<N>, mb: N, n: int) -> N
    decreases n,
{
    if n <= 0 {
        num::nil::<N>()
    } else {
        covariation(a, ma, b, mb, n - 1).sum(
            a[n - 1].difference(ma).product(b[n - 1].difference(mb)),
        )
    }
}

/// Beta and annual alpha of the daily returns of a strategy and of a benchmark.
pub open spec fn beta_alpha<N: Scalar>(rs: Seq<N>, rb: Seq<N>) -> (N, N) {
    let ms = mean(rs);
    let mb = mean(rb);
    let cov = covariation(rs, ms, rb, mb, rs.len() as int);
    let var = covariation(rb, mb, rb, mb, rb.len() as int);
    if rs.len() >= 3 && num::above_zero(var) {
        let beta = cov.quotient(var);
        (beta, ms.difference(beta.product(mb)).product(N::whole(252)))
    } else {
        (N::undefined(), N::undefined())
    }
}

fn first_to_last<N: Scalar>(from: N, to: N) -> (r: N)
    ensures
        r == return_between(from, to),
{
    if num::is_zero(from) {
        num::zero::<N>()
    } else {
        to.over(from).minus(num::one::<N>())
    }
}

/// The return of each of the first `n` days but the first of them.
fn daily_returns<N: Scalar>(equity: &[N], n: usize) -> (r: Vec<N>)
    requires
        n <= equity@.len(),
    ensures
        r@ == daily(equity@.take(n as int)),
{
    let mut out: Vec<N> = Vec::new();
    let mut i: usize = 1;
    let ghost s = equity@.take(n as int);
    while i < n
        invariant
            s == equity@.take(n as int),
            n <= equity@.len(),
            1 <= i,
            i <= n || (n == 0 && i == 1),
            n > 0 ==> out@ == daily(s).take(i - 1),
            n == 0 ==> out@.len() == 0,
        decreases n - i,
    {
        out.push(first_to_last(equity[i - 1], equity[i]));
        i += 1;
        assert(out@ =~= daily(s).take(i - 1));
    }
    assert(out@ =~= daily(s));
    out
}

fn ret_over<N: Scalar>(equity: &[N], n: usize) -> (r: N)
    requires
        n <= equity@.len(),
    ensures
        r == return_over(equity@.take(n as int)),
{
    if n == 0 {
        num::zero::<N>()
    } else {
        first_to_last(equity[0], equity[n - 1])
    }
}

fn co_vary<N: Scalar>(a: &Vec<N>, ma: N, b: &Vec<N>, mb: N) -> (r: N)
    requires
        a@.len() == b@.len(),
    ensures
        r == covariation(a@, ma, b@, mb, a@.len() as int),
{
    let mut acc = num::zero::<N>();
    let mut i: usize = 0;
    while i < a.len()
        invariant
            i <= a@.len(),
            a@.len() == b@.len(),
            acc == covariation(a@, ma, b@, mb, i as int),
        decreases a@.len() - i,
    {
        acc = acc.plus(a[i].minus(ma).times(b[i].minus(mb)));
        i += 1;
    }
    acc
}

/// The days that two equity curves both have.
pub open spec fn common_days<N: Scalar>(strat_equity: Seq<N>, bench_equity: Seq<N>) -> int {
    if strat_equity.len() <= bench_equity.len() {
        strat_equity.len() as int
    } else {
        bench_equity.len() as int
    }
}

/// What the comparison of two equity curves is, over the days that both have.
pub open spec fn compared<N: Scalar>(
    name: Seq<char>,
    code: Seq<char>,
    strat_equity: Seq<N>,
    bench_equity: Seq<N>,
    r: Benchmark<N>,
) -> bool {
    let n = common_days(strat_equity, bench_equity);
    let s = strat_equity.take(n);
    let b = bench_equity.take(n);
    &&& r.name@ == name
    &&& r.code@ == code
    &&& r.total_return == return_over(b)
    &&& r.excess == return_over(s).difference(return_over(b))
    &&& (r.beta, r.alpha_annual) == beta_alpha(daily(s), daily(b))
}

/// The comparison of two equity curves, day by day, over the days that both have. Both
/// should begin with the same capital.
pub fn compute_benchmark<N: Scalar>(
    name: String,
    code: String,
    strat_equity: &[N],
    bench_equity: &[N],
) -> (r: Benchmark<N>)
    ensures
        compared(name@, code@, strat_equity@, bench_equity@, r),
{
    let n = if strat_equity.len() <= bench_equity.len() {
        strat_equity.len()
    } else {
        bench_equity.len()
    };
    let strat_return = ret_over(strat_equity, n);
    let total_return = ret_over(bench_equity, n);
    let rs = daily_returns(strat_equity, n);
    let rb = daily_returns(bench_equity, n);
    let m = rs.len();
    let mut beta = N::nan();
    let mut alpha_annual = N::nan();
    if m >= 3 {
        let count = N::from_int(m as i128);
        let ms = num::add_up(rs.as_slice(), 0, m).over(count);
        let mb = num::add_up(rb.as_slice(), 0, m).over(count);
        assert(rs@.subrange(0, m as int) =~= rs@);
        assert(rb@.subrange(0, m as int) =~= rb@);
        let cov = co_vary(&rs, ms, &rb, mb);
        let var = co_vary(&rb, mb, &rb, mb);
        if num::positive(var) {
            beta = cov.over(var);
            alpha_annual = ms.minus(beta.times(mb)).times(N::from_int(252));
        }
    }
    Benchmark { name, code, total_return, excess: strat_return.minus(total_return), beta, alpha_annual }
}

/// The figures of a back test.
pub struct Metrics<N: Scalar> {
    pub initial: N,
    pub final_value: N,
    pub total_return: N,
    pub annual_return: N,
    pub max_drawdown: N,
    pub sharpe: N,
    pub win_rate: N,
    pub wins: usize,
    pub closed_trades: usize,
    pub total_trades: usize,
}

impl<N: Scalar> Clone for Metrics<N> {
    fn clone(&self) -> (r: Self)
        ensures
            r == *self,
    {
        *self
    }
}

impl<N: Scalar> Copy for Metrics<N> {

}

/// The highest value so far.
pub open spec fn peak<N: Scalar>(s: Seq<N>) -> N
    decreases s.len(),
{
    if s.len() == 0 {
        N::bottom()
    } else {
        let p = peak(s.drop_last());
        if p.below(s.last()) {
            s.last()
        } else {
            p
        }
    }
}

/// The deepest fall from a peak, as a part of the peak: zero or below.
pub open spec fn drawdown<N: Scalar>(s: Seq<N>) -> N
    decreases s.len(),
{
    if s.len() == 0 {
        num::nil::<N>()
    } else {
        let p = peak(s);
        let worst = drawdown(s.drop_last());
        let fall = s.last().difference(p).quotient(p);
        if num::above_zero(p) && fall.below(worst) {
            fall
        } else {
            worst
        }
    }
}

/// The deepest fall from a peak.
pub fn max_fall<N: Scalar>(s: &[N]) -> (r: N)
    ensures
        r == drawdown(s@),
{
    let mut top = N::lowest();
    let mut worst = num::zero::<N>();
    let mut i: usize = 0;
    assert(s@.take(0) =~= Seq::<N>::empty());
    while i < s.len()
        invariant
            i <= s@.len(),
            top == peak(s@.take(i as int)),
            worst == drawdown(s@.take(i as int)),
        decreases s@.len() - i,
    {
        assert(s@.take(i + 1).drop_last() =~= s@.take(i as int));
        let v = s[i];
        if top.less(v) {
            top = v;
        }
        if num::positive(top) {
            let fall = v.minus(top).over(top);
            if fall.less(worst) {
                worst = fall;
            }
        }
        i += 1;
    }
    assert(s@.take(s@.len() as int) =~= s@);
    worst
}

/// The returns of the days that begin with a value other than zero.
pub open spec fn returns_of<N: Scalar>(equity: Seq<N>) -> Seq<N>
    decreases equity.len(),
{
    if equity.len() < 2 {
        Seq::empty()
    } else {
        let before = returns_of(equity.drop_last());
        let w0 = equity[equity.len() - 2];
        if num::zeroed(w0) {
            before
        } else {
            before.push(equity.last().quotient(w0).difference(num::unit::<N>()))
        }
    }
}

/// The squares of the distances from a value.
pub open spec fn spread<N: Scalar>(s: Seq<N>, m: N) -> Seq<N> {
    Seq::new(s.len(), |i: int| num::squared(s[i].difference(m)))
}

/// The Sharpe ratio of returns over a riskless rate of zero, for a year of `bars_per_year`
/// returns.
pub open spec fn sharpe_of<N: Scalar>(rets: Seq<N>, bars_per_year: N) -> N {
    let m = mean(rets);
    let sd = mean(spread(rets, m)).root();
    if rets.len() > 1 && num::above_zero(sd) {
        m.quotient(sd).product(bars_per_year.root())
    } else {
        num::nil::<N>()
    }
}

/// How many of the trades closed a position.
pub open spec fn closed_count<N: Scalar>(trades: Seq<Option<N>>) -> nat
    decreases trades.len(),
{
    if trades.len() == 0 {
        0
    } else {
        closed_count(trades.drop_last()) + (if trades.last() is Some {
            1nat
        } else {
            0nat
        })
    }
}

/// How many of the trades closed a position with a gain.
pub open spec fn win_count<N: Scalar>(trades: Seq<Option<N>>) -> nat
    decreases trades.len(),
{
    if trades.len() == 0 {
        0
    } else {
        win_count(trades.drop_last()) + (match trades.last() {
            Some(p) => if num::above_zero(p) {
                1nat
            } else {
                0nat
            },
            None => 0nat,
        })
    }
}

/// The yearly return: the total return spread evenly over the years that the bars cover.
pub open spec fn annual<N: Scalar>(initial: N, final_value: N, bars: nat, bars_per_year: N) -> N {
    let years = N::whole(
        if bars == 0 {
            1
        } else {
            bars as int
        },
    ).quotient(bars_per_year);
    if num::above_zero(years) && num::above_zero(final_value) && num::above_zero(initial) {
        final_value.quotient(initial).power(num::unit::<N>().quotient(years)).difference(
            num::unit::<N>(),
        )
    } else {
        return_between(initial, final_value)
    }
}

/// The part of the closed trades that gained; zero where there is none.
pub open spec fn win_part<N: Scalar>(wins: nat, closed: nat) -> N {
    if closed > 0 {
        N::whole(wins as int).quotient(N::whole(closed as int))
    } else {
        num::nil::<N>()
    }
}

/// The figures of an equity curve and of the gains of trades.
pub open spec fn metrics_of<N: Scalar>(
    initial: N,
    equity: Seq<N>,
    gains: Seq<Option<N>>,
    bars_per_year: N,
    m: Metrics<N>,
) -> bool {
    let last = if equity.len() == 0 {
        initial
    } else {
        equity.last()
    };
    &&& m.initial == initial
    &&& m.final_value == last
    &&& m.total_return == return_between(initial, last)
    &&& m.annual_return == annual(initial, last, equity.len(), bars_per_year)
    &&& m.max_drawdown == drawdown(equity)
    &&& m.sharpe == sharpe_of(returns_of(equity), bars_per_year)
    &&& m.wins == win_count(gains)
    &&& m.closed_trades == closed_count(gains)
    &&& m.win_rate == win_part::<N>(win_count(gains), closed_count(gains))
    &&& m.total_trades == gains.len()
}

/// The returns of the days that begin with a value other than zero.
fn list_returns<N: Scalar>(equity: &[N]) -> (r: Vec<N>)
    ensures
        r@ == returns_of(equity@),
{
    let mut out: Vec<N> = Vec::new();
    let n = equity.len();
    let mut i: usize = 0;
    while i < n
        invariant
            n == equity@.len(),
            i <= n,
            out@ == returns_of(equity@.take(i as int)),
        decreases n - i,
    {
        assert(equity@.take(i + 1).drop_last() =~= equity@.take(i as int));
        if i > 0 {
            let w0 = equity[i - 1];
            assert(equity@.take(i + 1)[i - 1] == w0);
            if !num::is_zero(w0) {
                out.push(equity[i].over(w0).minus(num::one::<N>()));
            }
        }
        i += 1;
    }
    assert(equity@.take(n as int) =~= equity@);
    out
}

fn sharpe_ratio<N: Scalar>(rets: &Vec<N>, bars_per_year: N) -> (r: N)
    ensures
        r == sharpe_of(rets@, bars_per_year),
{
    let n = rets.len();
    if n <= 1 {
        return num::zero::<N>();
    }
    let count = N::from_int(n as i128);
    let m = num::add_up(rets.as_slice(), 0, n).over(count);
    assert(rets@.subrange(0, n as int) =~= rets@);
    let mut squares: Vec<N> = Vec::new();
    let mut i: usize = 0;
    while i < n
        invariant
            n == rets@.len(),
            i <= n,
            squares@ == spread(rets@, m).take(i as int),
        decreases n - i,
    {
        let x = rets[i].minus(m);
        squares.push(x.times(x));
        i += 1;
        assert(squares@ =~= spread(rets@, m).take(i as int));
    }
    assert(squares@ =~= spread(rets@, m));
    let sd = num::add_up(squares.as_slice(), 0, n).over(count).sqrt();
    assert(squares@.subrange(0, n as int) =~= squares@);
    if num::positive(sd) {
        m.over(sd).times(bars_per_year.sqrt())
    } else {
        num::zero::<N>()
    }
}

/// The figures of a back test that began with `initial` and had the equity of `equity` at
/// each bar.
pub fn compute<N: Scalar>(
    initial: N,
    equity: &[N],
    trades: &[TradeRec<N>],
    bars_per_year: N,
) -> (r: Metrics<N>)
    ensures
        metrics_of(initial, equity@, context::gains(trades@), bars_per_year, r),
{
    let n = equity.len();
    let final_value = if n == 0 {
        initial
    } else {
        equity[n - 1]
    };
    let total_return = first_to_last(initial, final_value);
    let days: usize = if n == 0 {
        1
    } else {
        n
    };
    let years = N::from_int(days as i128).over(bars_per_year);
    let annual_return = if num::positive(years) && num::positive(final_value) && num::positive(
        initial,
    ) {
        final_value.over(initial).powf(num::one::<N>().over(years)).minus(num::one::<N>())
    } else {
        total_return
    };
    let max_drawdown = max_fall(equity);
    let rets = list_returns(equity);
    let sharpe = sharpe_ratio(&rets, bars_per_year);
    let ghost gs = context::gains(trades@);
    let mut wins: usize = 0;
    let mut closed_trades: usize = 0;
    let mut i: usize = 0;
    assert(gs.take(0) =~= Seq::<Option<N>>::empty());
    while i < trades.len()
        invariant
            gs == context::gains(trades@),
            i <= trades@.len(),
            wins <= i,
            closed_trades <= i,
            wins == win_count(gs.take(i as int)),
            closed_trades == closed_count(gs.take(i as int)),
        decreases trades@.len() - i,
    {
        assert(gs.take(i + 1).drop_last() =~= gs.take(i as int));
        match trades[i].pnl_pct {
            Some(p) => {
                closed_trades += 1;
                if num::positive(p) {
                    wins += 1;
                }
            },
            None => {},
        }
        i += 1;
    }
    assert(gs.take(gs.len() as int) =~= gs);
    let win_rate = if closed_trades > 0 {
        N::from_int(wins as i128).over(N::from_int(closed_trades as i128))
    } else {
        num::zero::<N>()
    };
    Metrics {
        initial,
        final_value,
        total_return,
        annual_return,
        max_drawdown,
        sharpe,
        win_rate,
        wins,
        closed_trades,
        total_trades: trades.len(),
    }
}

// ---------------------------------------------------------------------------
// Laws
// ---------------------------------------------------------------------------
/// No more trades are won than are closed, and no more are closed than there are.
pub proof fn wins_are_closed_trades<N: Scalar>(gains: Seq<Option<N>>)
    ensures
        win_count(gains) <= closed_count(gains) <= gains.len(),
    decreases gains.len(),
{
    if gains.len() > 0 {
        wins_are_closed_trades(gains.drop_last());
    }
}

/// The change from one value to another, as a part of the first.
pub open spec fn change_from<N: Scalar>(from: N, to: N) -> N {
    to.difference(from).quotient(from)
}

/// A curve of decimals that are above zero.
pub open spec fn all_above_zero(s: Seq<Fixed>) -> bool {
    forall|i: int| 0 <= i < s.len() ==> (#[trigger] s[i]).defined && s[i].units > 0
}

/// The curve never falls.
pub open spec fn never_falls(s: Seq<Fixed>) -> bool {
    forall|i: int, j: int|
        0 <= i <= j < s.len() ==> !(#[trigger] s[j]).below(#[trigger] s[i])
}

proof fn peak_is_highest(s: Seq<Fixed>)
    requires
        s.len() > 0,
        all_above_zero(s),
    ensures
        exists|k: int| 0 <= k < s.len() && peak(s) == #[trigger] s[k],
        forall|k: int| 0 <= k < s.len() ==> (#[trigger] s[k]).units <= peak(s).units,
    decreases s.len(),
{
    let t = s.drop_last();
    assert(s.last() == s[s.len() - 1]);
    if t.len() > 0 {
        assert(all_above_zero(t)) by {
            assert forall|i: int| 0 <= i < t.len() implies (#[trigger] t[i]).defined && t[i].units
                > 0 by {
                assert(t[i] == s[i]);
            }
        }
        peak_is_highest(t);
        let k = choose|k: int| 0 <= k < t.len() && peak(t) == #[trigger] t[k];
        assert(s[k] == t[k]);
        assert forall|k: int| 0 <= k < s.len() implies (#[trigger] s[k]).units <= peak(s).units by {
            if k < t.len() {
                assert(s[k] == t[k]);
            }
        }
        if peak(s) == s.last() {
            assert(peak(s) == s[s.len() - 1]);
        }
    } else {
        assert(t =~= Seq::<Fixed>::empty());
        assert(peak(t) == Fixed::bottom());
        assert(peak(t).below(s.last()));
        assert(peak(s) == s[0]);
    }
}

/// A fall from a higher value is the deeper one.
proof fn deeper_from_above(low: Fixed, high: Fixed, to: Fixed)
    requires
        low.defined,
        high.defined,
        to.defined,
        0 < low.units <= high.units,
        0 < to.units <= high.units,
    ensures
        change_from(high, to).defined,
        -1_000_000 <= change_from(high, to).units <= 0,
        !change_from(low, to).below(change_from(high, to)),
        change_from(high, to).units == 0 <==> to.units == high.units,
{
    let e = low.units as int;
    let p = high.units as int;
    let v = to.units as int;
    let s = SCALE as int;
    let y = (v - p) * s;
    let q = y / p;
    assert(v - p == to.difference(high).units);
    assert(-s * p <= y <= 0) by (nonlinear_arith)
        requires
            0 < v <= p,
            y == (v - p) * s,
            s == 1_000_000,
    ;
    assert(q * p <= y < q * p + p) by (nonlinear_arith)
        requires
            q == y / p,
            p > 0,
    ;
    assert(-s <= q <= 0) by (nonlinear_arith)
        requires
            -s * p <= y <= 0,
            q * p <= y < q * p + p,
            p > 0,
    ;
    if v < p {
        assert(y < 0);
        assert(q < 0) by (nonlinear_arith)
            requires
                q * p <= y,
                y < 0,
                p > 0,
        ;
    } else {
        assert(y == 0);
    }
    let x = (v - e) * s;
    assert(x * p >= y * e) by (nonlinear_arith)
        requires
            x == (v - e) * s,
            y == (v - p) * s,
            0 < e <= p,
            0 < v,
            s == 1_000_000,
    ;
    assert(q <= x / e) by (nonlinear_arith)
        requires
            q * p <= y,
            x * p >= y * e,
            e > 0,
            p > 0,
    ;
}

/// The drawdown is the deepest change from a value of the curve to a later one, as a part of
/// the first, and one of the changes is as deep; it is zero if and only if the curve never
/// falls. This is of curves of decimals above zero.
pub proof fn drawdown_is_the_deepest_fall(s: Seq<Fixed>)
    requires
        all_above_zero(s),
    ensures
        drawdown(s).defined,
        -1_000_000 <= drawdown(s).units <= 0,
        forall|i: int, j: int|
            0 <= i <= j < s.len() ==> !change_from(#[trigger] s[i], #[trigger] s[j]).below(
                drawdown(s),
            ),
        s.len() > 0 ==> exists|i: int, j: int|
            0 <= i <= j < s.len() && change_from(#[trigger] s[i], #[trigger] s[j]) == drawdown(s),
        drawdown(s) == num::nil::<Fixed>() <==> never_falls(s),
    decreases s.len(),
{
    if s.len() > 0 {
        let t = s.drop_last();
        let v = s.last();
        let p = peak(s);
        let n = s.len() - 1;
        assert(v == s[n]);
        assert(all_above_zero(t)) by {
            assert forall|i: int| 0 <= i < t.len() implies (#[trigger] t[i]).defined && t[i].units
                > 0 by {
                assert(t[i] == s[i]);
            }
        }
        drawdown_is_the_deepest_fall(t);
        peak_is_highest(s);
        let k = choose|k: int| 0 <= k < s.len() && p == #[trigger] s[k];
        let worst = drawdown(t);
        let fall = change_from(p, v);
        deeper_from_above(p, p, v);
        assert(drawdown(s) == (if fall.below(worst) {
            fall
        } else {
            worst
        }));
        assert forall|i: int, j: int| 0 <= i <= j < s.len() implies !change_from(
            #[trigger] s[i],
            #[trigger] s[j],
        ).below(drawdown(s)) by {
            if j < n {
                assert(s[i] == t[i] && s[j] == t[j]);
            } else {
                deeper_from_above(s[i], p, v);
            }
        }
        if fall.below(worst) {
            assert(change_from(s[k], s[n]) == drawdown(s));
            assert(s[n].below(s[k]));
            assert(!never_falls(s));
        } else {
            if t.len() > 0 {
                let (i, j) = choose|i: int, j: int|
                    0 <= i <= j < t.len() && change_from(#[trigger] t[i], #[trigger] t[j]) == worst;
                assert(change_from(s[i], s[j]) == drawdown(s));
            } else {
                deeper_from_above(v, v, v);
                assert(change_from(s[0], s[0]) == drawdown(s));
            }
            if worst.units < 0 {
                let (i, j) = choose|i: int, j: int|
                    0 <= i <= j < t.len() && (#[trigger] t[j]).below(#[trigger] t[i]);
                assert(s[j].below(s[i]));
            } else {
                assert forall|i: int, j: int| 0 <= i <= j < s.len() implies !(
                #[trigger] s[j]).below(#[trigger] s[i]) by {
                    if j < n {
                        assert(s[i] == t[i] && s[j] == t[j]);
                    } else {
                        assert(v.units == p.units);
                    }
                }
            }
        }
    }
}

} // verus!
