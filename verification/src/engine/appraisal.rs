//! What the figures of a back test say of its equity curve.
//!
//! The laws here are of decimals. They are stated over whole units, where each sum and each
//! comparison is exact, and say what rounding leaves open.
use super::metrics;
use super::metrics::{Benchmark, Metrics};
use crate::fixed;
use crate::fixed::{is_ratio_of, is_root, of_units, raised, units_in_all, Fixed, SCALE};
use crate::num;
use crate::num::Scalar;
use vstd::prelude::*;

verus! {

// ---------------------------------------------------------------------------
// Returns
// ---------------------------------------------------------------------------
/// A return is the change as a part of what there was before, rounded down to the unit; it
/// is zero where there was nothing.
pub proof fn return_is_the_relative_change(from: Fixed, to: Fixed)
    requires
        metrics::return_between(from, to).defined,
        from.defined,
        to.defined,
    ensures
        ({
            let r = metrics::return_between(from, to).units as int;
            &&& from.units == 0 ==> r == 0
            &&& 0 < from.units ==> is_ratio_of(r, (to.units - from.units) * SCALE, from.units as int)
            &&& from.units < 0 ==> is_ratio_of(
                r,
                (from.units - to.units) * SCALE,
                -from.units as int,
            )
        }),
{
    let s = SCALE as int;
    let f = from.units as int;
    let t = to.units as int;
    let q = metrics::return_between(from, to).units + s;
    if 0 < f {
        fixed::floored(t * s, f);
        assert(q == t * s / f);
        assert((q - s) * f == q * f - s * f) by (nonlinear_arith);
        assert((t - f) * s == t * s - s * f) by (nonlinear_arith);
    } else if f < 0 {
        fixed::floored((-t) * s, -f);
        assert(q == (-t) * s / (-f));
        assert((q - s) * (-f) == q * (-f) + s * f) by (nonlinear_arith);
        assert((f - t) * s == (-t) * s + s * f) by (nonlinear_arith);
    }
}

/// There is a return for each day but the first, from the day before to it.
pub proof fn each_day_has_its_return(equity: Seq<Fixed>, i: int)
    requires
        0 <= i < equity.len() - 1,
        equity[i].defined,
        equity[i + 1].defined,
        0 < equity[i].units,
        metrics::daily(equity)[i].defined,
    ensures
        metrics::daily(equity).len() == equity.len() - 1,
        is_ratio_of(
            metrics::daily(equity)[i].units as int,
            (equity[i + 1].units - equity[i].units) * SCALE,
            equity[i].units as int,
        ),
{
    return_is_the_relative_change(equity[i], equity[i + 1]);
}

/// Where no day begins with nothing, each day but the first counts with its return.
pub proof fn returns_are_daily(equity: Seq<Fixed>)
    requires
        metrics::all_above_zero(equity),
    ensures
        metrics::returns_of(equity) == metrics::daily(equity),
    decreases equity.len(),
{
    if equity.len() >= 2 {
        let t = equity.drop_last();
        assert forall|i: int| 0 <= i < t.len() implies (#[trigger] t[i]).defined && t[i].units
            > 0 by {
            assert(t[i] == equity[i]);
        }
        returns_are_daily(t);
        let w = equity[equity.len() - 2];
        assert(w.defined && w.units > 0);
        assert(metrics::returns_of(equity) =~= metrics::daily(equity));
    } else {
        assert(metrics::returns_of(equity) =~= metrics::daily(equity));
    }
}

/// The mean of decimals, taken as often as there are of them, falls short of their sum by
/// less than a unit for each.
pub proof fn mean_is_the_sum_shared(s: Seq<Fixed>)
    requires
        0 < s.len(),
        metrics::mean(s).defined,
    ensures
        num::total(s).defined,
        is_ratio_of(metrics::mean(s).units as int, units_in_all(s), s.len() as int),
{
    fixed::total_is_exact(s);
    fixed::share_is_ratio(num::total(s), s.len() as int);
}

// ---------------------------------------------------------------------------
// The yearly return
// ---------------------------------------------------------------------------
/// The yearly return compounds to the whole one: one and the yearly return, raised to the
/// number of years, is not above what the capital has been multiplied by, and with one unit
/// more it would be.
pub proof fn yearly_return_compounds(
    initial: Fixed,
    final_value: Fixed,
    years: nat,
    bars_per_year: nat,
    growth: int,
)
    requires
        initial.defined,
        final_value.defined,
        0 < initial.units,
        0 < final_value.units,
        0 < years < 1000,
        0 < bars_per_year,
        years * bars_per_year * SCALE <= i64::MAX,
        is_ratio_of(growth, final_value.units * SCALE, initial.units as int),
        0 < growth <= i64::MAX,
    ensures
        ({
            let r = metrics::annual(
                initial,
                final_value,
                years * bars_per_year,
                Fixed::whole(bars_per_year as int),
            );
            &&& r.defined
            &&& -SCALE <= r.units
            &&& raised(SCALE + r.units, years) <= growth < raised(SCALE + r.units + 1, years)
        }),
{
    let s = SCALE as int;
    let k = years as int;
    let m = bars_per_year as int;
    let bars = years * bars_per_year;
    assert(0 < bars && m <= bars) by (nonlinear_arith)
        requires
            bars == k * m,
            0 < k,
            0 < m,
    ;
    let y = Fixed::whole(bars as int).quotient(Fixed::whole(m));
    fixed::share_is_ratio(Fixed::whole(bars as int), m);
    assert((k * s) * m == bars * s) by (nonlinear_arith)
        requires
            bars == k * m,
    ;
    fixed::one_ratio(y.units as int, k * s, bars * s, m);
    let x = final_value.quotient(initial);
    fixed::floored(final_value.units * s, initial.units as int);
    fixed::one_ratio(
        growth,
        final_value.units * s / (initial.units as int),
        final_value.units * s,
        initial.units as int,
    );
    assert(x == of_units(growth));
    let e = s / k;
    fixed::floored(s, k);
    assert(e * (k * s) <= s * s < e * (k * s) + k * s) by (nonlinear_arith)
        requires
            e * k <= s < e * k + k,
            s == 1_000_000,
    ;
    fixed::floored(s * s, k * s);
    fixed::one_ratio(s * s / (k * s), e, s * s, k * s);
    assert(num::unit::<Fixed>().quotient(y) == of_units(e));
    assert(k <= e) by (nonlinear_arith)
        requires
            s < e * k + k,
            0 < k < 1000,
            s == 1_000_000,
    ;
    fixed::floored(s, e);
    assert(k * e == e * k) by (nonlinear_arith);
    fixed::one_ratio(s / e, k, s, e);
    reveal_with_fuel(raised, 2);
    assert(s * growth / s == growth);
    if k == 1 {
        assert(e == s);
        assert(s * (growth + 1) / s == growth + 1);
        assert(e % s == 0);
        assert(x.power(of_units(e)) == of_units(growth));
    } else {
        assert(e < s) by (nonlinear_arith)
            requires
                e * k <= s,
                2 <= k,
                0 < e,
        ;
        assert(e % s == e);
        fixed::root_exists(growth, years);
        assert(x.power(of_units(e)) == of_units(fixed::degree_root(growth, years)));
    }
}

/// Where the capital or what it has become is not above zero, the yearly return is the whole
/// one.
pub proof fn yearly_return_of_a_loss(
    initial: Fixed,
    final_value: Fixed,
    bars: nat,
    bars_per_year: Fixed,
)
    requires
        initial.defined,
        final_value.defined,
        0 < initial.units,
        final_value.units <= 0,
        metrics::annual(initial, final_value, bars, bars_per_year).defined,
    ensures
        is_ratio_of(
            metrics::annual(initial, final_value, bars, bars_per_year).units as int,
            (final_value.units - initial.units) * SCALE,
            initial.units as int,
        ),
{
    return_is_the_relative_change(initial, final_value);
}

// ---------------------------------------------------------------------------
// The comparison with a benchmark
// ---------------------------------------------------------------------------
/// The products of the distances of two series from two values, in square units, added up.
pub open spec fn moments(a: Seq<Fixed>, ma: int, b: Seq<Fixed>, mb: int, n: int) -> int
    decreases n,
{
    if n <= 0 {
        0
    } else {
        moments(a, ma, b, mb, n - 1) + (a[n - 1].units - ma) * (b[n - 1].units - mb)
    }
}

/// The products of distances, each rounded down, add up to no more than they do unrounded,
/// and fall short by less than a unit for each.
pub proof fn covariation_is_rounded_down(a: Seq<Fixed>, ma: Fixed, b: Seq<Fixed>, mb: Fixed, n: int)
    requires
        0 <= n,
        metrics::covariation(a, ma, b, mb, n).defined,
    ensures
        ({
            let c = metrics::covariation(a, ma, b, mb, n).units as int;
            let x = moments(a, ma.units as int, b, mb.units as int, n);
            c * SCALE <= x <= c * SCALE + n * SCALE
        }),
    decreases n,
{
    if n > 0 {
        covariation_is_rounded_down(a, ma, b, mb, n - 1);
        fixed::product_is_part(a[n - 1].difference(ma), b[n - 1].difference(mb));
    }
}

/// The mean return of a strategy is its daily alpha and beta times the mean return of the
/// benchmark; the yearly alpha is 252 times the daily one. Beta times the squared distances
/// of the benchmark's returns from their mean, added up, is what the products with those of
/// the strategy add up to. Rounding leaves less than the units named here. The means are
/// given, rounded down; there is but one such mean.
pub proof fn alpha_and_beta_explain_the_mean(rs: Seq<Fixed>, rb: Seq<Fixed>, ms: int, mb: int)
    requires
        rs.len() == rb.len(),
        metrics::beta_alpha(rs, rb).1.defined,
        is_ratio_of(ms, units_in_all(rs), rs.len() as int),
        is_ratio_of(mb, units_in_all(rb), rb.len() as int),
    ensures
        ({
            let n = rs.len() as int;
            let beta = metrics::beta_alpha(rs, rb).0.units as int;
            let alpha = metrics::beta_alpha(rs, rb).1.units as int;
            let x = moments(rs, ms, rb, mb, n);
            let y = moments(rb, mb, rb, mb, n);
            &&& 3 <= n
            &&& metrics::beta_alpha(rs, rb).0.defined
            &&& SCALE * (252 * ms - alpha) <= 252 * (beta * mb) < SCALE * (252 * ms - alpha) + 252
                * SCALE
            &&& 0 <= beta ==> beta * (y - n * SCALE) <= x * SCALE < (beta + 1) * y + n * SCALE
                * SCALE
            &&& beta < 0 ==> beta * y <= x * SCALE < (beta + 1) * (y - n * SCALE) + n * SCALE * SCALE
        }),
{
    let n = rs.len() as int;
    let s = SCALE as int;
    let fms = metrics::mean(rs);
    let fmb = metrics::mean(rb);
    let fcov = metrics::covariation(rs, fms, rb, fmb, n);
    let fvar = metrics::covariation(rb, fmb, rb, fmb, n);
    let (fbeta, falpha) = metrics::beta_alpha(rs, rb);
    assert(rs.len() >= 3 && num::above_zero(fvar));
    let part = fbeta.product(fmb);
    let rest = fms.difference(part);
    fixed::product_is_part(rest, Fixed::whole(252));
    assert(Fixed::whole(252).defined);
    fixed::multiple_is_exact(252, rest);
    fixed::product_is_part(fbeta, fmb);
    mean_is_the_sum_shared(rs);
    mean_is_the_sum_shared(rb);
    fixed::one_ratio(ms, fms.units as int, units_in_all(rs), n);
    fixed::one_ratio(mb, fmb.units as int, units_in_all(rb), n);
    let beta = fbeta.units as int;
    let alpha = falpha.units as int;
    assert(alpha == 252 * (ms - part.units));
    fixed::quotient_is_ratio(fcov, fvar);
    covariation_is_rounded_down(rs, fms, rb, fmb, n);
    covariation_is_rounded_down(rb, fmb, rb, fmb, n);
    let c = fcov.units as int;
    let v = fvar.units as int;
    let x = moments(rs, ms, rb, mb, n);
    let y = moments(rb, mb, rb, mb, n);
    if 0 <= beta {
        assert(beta * (y - n * s) <= x * s) by (nonlinear_arith)
            requires
                0 <= beta,
                y <= v * s + n * s,
                beta * v <= c * s,
                c * s <= x,
                s == 1_000_000,
        {
            assert(beta * (y - n * s) <= beta * (v * s));
            assert(beta * (v * s) == (beta * v) * s);
        }
        assert(x * s < (beta + 1) * y + n * s * s) by (nonlinear_arith)
            requires
                0 <= beta,
                v * s <= y,
                c * s < beta * v + v,
                x <= c * s + n * s,
                s == 1_000_000,
        {
            assert((beta + 1) * (v * s) <= (beta + 1) * y);
            assert((beta + 1) * (v * s) == (beta * v + v) * s);
        }
    } else {
        assert(beta * y <= x * s) by (nonlinear_arith)
            requires
                beta < 0,
                v * s <= y,
                beta * v <= c * s,
                c * s <= x,
                s == 1_000_000,
        {
            assert(beta * y <= beta * (v * s));
            assert(beta * (v * s) == (beta * v) * s);
        }
        assert(x * s < (beta + 1) * (y - n * s) + n * s * s) by (nonlinear_arith)
            requires
                beta < 0,
                y <= v * s + n * s,
                c * s < beta * v + v,
                x <= c * s + n * s,
                s == 1_000_000,
        {
            assert((beta + 1) * (v * s) <= (beta + 1) * (y - n * s));
            assert((beta + 1) * (v * s) == (beta * v + v) * s);
        }
    }
}

/// A series with the same amount added to each number.
pub open spec fn shifted(s: Seq<Fixed>, c: int) -> Seq<Fixed> {
    Seq::new(s.len(), |i: int| of_units(s[i].units + c))
}

proof fn shifted_sum(s: Seq<Fixed>, c: int)
    requires
        forall|i: int| 0 <= i < s.len() ==> (#[trigger] shifted(s, c)[i]).defined,
    ensures
        units_in_all(shifted(s, c)) == units_in_all(s) + s.len() * c,
    decreases s.len(),
{
    if s.len() > 0 {
        let t = s.drop_last();
        assert(shifted(s, c).drop_last() =~= shifted(t, c));
        assert forall|i: int| 0 <= i < t.len() implies (#[trigger] shifted(t, c)[i]).defined by {
            assert(shifted(t, c)[i] == shifted(s, c)[i]);
        }
        shifted_sum(t, c);
        assert(shifted(s, c)[s.len() - 1].defined);
        let k = s.len() as int;
        assert(k * c == (k - 1) * c + c) by (nonlinear_arith);
    }
}

proof fn shifted_mean(s: Seq<Fixed>, c: int)
    requires
        0 < s.len(),
        metrics::mean(s).defined,
        metrics::mean(shifted(s, c)).defined,
    ensures
        metrics::mean(shifted(s, c)).units == metrics::mean(s).units + c,
        forall|i: int| 0 <= i < s.len() ==> (#[trigger] s[i]).defined,
        forall|i: int| 0 <= i < s.len() ==> (#[trigger] shifted(s, c)[i]).defined,
{
    let t = shifted(s, c);
    let n = s.len() as int;
    mean_is_the_sum_shared(s);
    mean_is_the_sum_shared(t);
    fixed::total_is_exact(s);
    fixed::total_is_exact(t);
    shifted_sum(s, c);
    let m = metrics::mean(s).units as int;
    assert((m + c) * n == m * n + n * c) by (nonlinear_arith);
    fixed::one_ratio(metrics::mean(t).units as int, m + c, units_in_all(t), n);
}

proof fn shifted_covariation(
    a: Seq<Fixed>,
    c: int,
    ma: Fixed,
    mc: Fixed,
    b: Seq<Fixed>,
    mb: Fixed,
    n: int,
)
    requires
        0 <= n <= a.len(),
        ma.defined,
        mc.defined,
        mc.units == ma.units + c,
        forall|i: int| 0 <= i < a.len() ==> (#[trigger] a[i]).defined,
        forall|i: int| 0 <= i < a.len() ==> (#[trigger] shifted(a, c)[i]).defined,
    ensures
        metrics::covariation(shifted(a, c), mc, b, mb, n) == metrics::covariation(a, ma, b, mb, n),
    decreases n,
{
    if n > 0 {
        shifted_covariation(a, c, ma, mc, b, mb, n - 1);
        assert(a[n - 1].defined);
        assert(shifted(a, c)[n - 1].defined);
        assert(shifted(a, c)[n - 1].difference(mc) == a[n - 1].difference(ma));
    }
}

/// A strategy that earns the same amount more on each day has the same beta, and an alpha
/// that is 252 times that amount higher.
pub proof fn steady_gain_is_alpha(rs: Seq<Fixed>, rb: Seq<Fixed>, c: int)
    requires
        rs.len() == rb.len(),
        metrics::beta_alpha(rs, rb).1.defined,
        metrics::mean(shifted(rs, c)).defined,
        metrics::beta_alpha(shifted(rs, c), rb).1.defined,
    ensures
        metrics::beta_alpha(shifted(rs, c), rb).0 == metrics::beta_alpha(rs, rb).0,
        metrics::beta_alpha(shifted(rs, c), rb).1.units == metrics::beta_alpha(rs, rb).1.units
            + 252 * c,
{
    let n = rs.len() as int;
    let ms = metrics::mean(rs);
    let mb = metrics::mean(rb);
    let mc = metrics::mean(shifted(rs, c));
    shifted_mean(rs, c);
    shifted_covariation(rs, c, ms, mc, rb, mb, n);
    let beta = metrics::beta_alpha(rs, rb).0;
    let part = beta.product(mb);
    assert(Fixed::whole(252).defined);
    fixed::multiple_is_exact(252, ms.difference(part));
    fixed::multiple_is_exact(252, mc.difference(part));
}

/// A strategy that does what the benchmark does has a beta of one and no alpha.
pub proof fn benchmark_explains_itself(r: Seq<Fixed>)
    requires
        metrics::beta_alpha(r, r).1.defined,
    ensures
        metrics::beta_alpha(r, r) == (of_units(SCALE as int), of_units(0)),
{
    let n = r.len() as int;
    let s = SCALE as int;
    let m = metrics::mean(r);
    let v = metrics::covariation(r, m, r, m, n).units as int;
    vstd::arithmetic::div_mod::lemma_div_multiples_vanish(s, v);
    let (beta, alpha) = metrics::beta_alpha(r, r);
    assert(v * s / v == s);
    assert(beta == of_units(s));
    assert(Fixed::whole(1) == of_units(s));
    fixed::multiple_is_exact(1, m);
    fixed::multiple_is_exact(252, of_units(0));
}

/// With less than three daily returns there is neither beta nor alpha.
pub proof fn short_series_have_no_beta(rs: Seq<Fixed>, rb: Seq<Fixed>)
    requires
        rs.len() < 3,
    ensures
        !metrics::beta_alpha(rs, rb).0.defined,
        !metrics::beta_alpha(rs, rb).1.defined,
{
}

/// The comparison is over the days that both curves have. Its return is that of the
/// benchmark, and with what the strategy yielded beyond it, it is the return of the strategy.
pub proof fn excess_is_what_is_beyond(
    name: Seq<char>,
    code: Seq<char>,
    strat: Seq<Fixed>,
    bench: Seq<Fixed>,
    r: Benchmark<Fixed>,
    n: int,
)
    requires
        metrics::compared(name, code, strat, bench, r),
        r.excess.defined,
        0 < n <= strat.len(),
        n <= bench.len(),
        n == strat.len() || n == bench.len(),
        metrics::all_above_zero(strat.take(n)),
        metrics::all_above_zero(bench.take(n)),
    ensures
        r.name@ == name,
        r.code@ == code,
        is_ratio_of(
            r.total_return.units as int,
            (bench[n - 1].units - bench[0].units) * SCALE,
            bench[0].units as int,
        ),
        is_ratio_of(
            r.total_return.units + r.excess.units,
            (strat[n - 1].units - strat[0].units) * SCALE,
            strat[0].units as int,
        ),
        (r.beta, r.alpha_annual) == metrics::beta_alpha(
            metrics::daily(strat.take(n)),
            metrics::daily(bench.take(n)),
        ),
{
    let s = strat.take(n);
    let b = bench.take(n);
    assert(s[0].defined && s[n - 1].defined);
    assert(b[0].defined && b[n - 1].defined);
    return_is_the_relative_change(s[0], s[n - 1]);
    return_is_the_relative_change(b[0], b[n - 1]);
}

// ---------------------------------------------------------------------------
// The Sharpe ratio
// ---------------------------------------------------------------------------
/// The squares of distances, rounded down, add up to no more than they do unrounded, and
/// fall short by less than a unit for each.
proof fn spread_is_rounded_down(s: Seq<Fixed>, m: Fixed)
    requires
        num::total(metrics::spread(s, m)).defined,
    ensures
        ({
            let t = units_in_all(metrics::spread(s, m));
            let x = moments(s, m.units as int, s, m.units as int, s.len() as int);
            0 <= t && t * SCALE <= x <= t * SCALE + s.len() * SCALE
        }),
    decreases s.len(),
{
    if s.len() > 0 {
        let t = s.drop_last();
        let n = s.len() as int;
        let d = s[n - 1].units - m.units;
        assert(0 <= d * d) by (nonlinear_arith);
        assert(metrics::spread(s, m).drop_last() =~= metrics::spread(t, m));
        spread_is_rounded_down(t, m);
        moments_of_prefix(s, m.units as int, n - 1);
        fixed::product_is_part(s[n - 1].difference(m), s[n - 1].difference(m));
    }
}

proof fn moments_of_prefix(s: Seq<Fixed>, m: int, n: int)
    requires
        0 <= n <= s.len() - 1,
    ensures
        moments(s.drop_last(), m, s.drop_last(), m, n) == moments(s, m, s, m, n),
    decreases n,
{
    if n > 0 {
        moments_of_prefix(s, m, n - 1);
    }
}

/// Whether a number of units is the deviation of returns from a mean: its square, as often
/// as there are returns, is what the squared distances add up to, but for rounding.
pub open spec fn is_deviation(rets: Seq<Fixed>, m: int, sd: int) -> bool {
    let n = rets.len() as int;
    let x = moments(rets, m, rets, m, n);
    0 <= sd && n * (sd * sd) <= x < n * ((sd + 1) * (sd + 1)) + 2 * n * SCALE
}

/// The root of the mean of the squared distances from a value is the deviation from it.
pub proof fn root_mean_square_deviates(a: Seq<Fixed>, m: Fixed)
    requires
        0 < a.len(),
        Fixed::whole(a.len() as int).defined,
        num::total(metrics::spread(a, m)).defined,
    ensures
        ({
            let sd = num::total(metrics::spread(a, m)).quotient(
                Fixed::whole(a.len() as int),
            ).root();
            sd.defined && is_deviation(a, m.units as int, sd.units as int)
        }),
{
    let s = SCALE as int;
    let n = a.len() as int;
    let sp = metrics::spread(a, m);
    let var = num::total(sp).quotient(Fixed::whole(n));
    fixed::total_is_exact(sp);
    fixed::share_is_ratio(num::total(sp), n);
    spread_is_rounded_down(a, m);
    let t = units_in_all(sp);
    let v = var.units as int;
    let x = moments(a, m.units as int, a, m.units as int, n);
    assert(0 <= v) by (nonlinear_arith)
        requires
            0 <= t < v * n + n,
            0 < n,
    ;
    fixed::root_is_closest(var);
    let sd = var.root().units as int;
    assert(n * (sd * sd) <= x) by (nonlinear_arith)
        requires
            sd * sd <= v * s,
            v * n <= t,
            t * s <= x,
            0 < n,
            s == 1_000_000,
    {
        assert(n * (sd * sd) <= n * (v * s));
        assert(n * (v * s) == (v * n) * s);
    }
    let next = (sd + 1) * (sd + 1);
    assert(x < n * next + 2 * n * s) by (nonlinear_arith)
        requires
            v * s < next,
            t < v * n + n,
            x <= t * s + n * s,
            0 < n,
            s == 1_000_000,
    {
        assert(n * (v * s) <= n * next);
        assert(n * (v * s) == (v * n) * s);
    }
}

/// The Sharpe ratio times the deviation of the returns is their mean times the root of the
/// returns in a year, but for rounding; it is zero where the returns do not deviate. The
/// mean is given, rounded down.
pub proof fn sharpe_is_mean_over_deviation(rets: Seq<Fixed>, bars_per_year: Fixed, m: int)
    requires
        1 < rets.len(),
        bars_per_year.defined,
        0 <= bars_per_year.units,
        metrics::sharpe_of(rets, bars_per_year).defined,
        num::total(metrics::spread(rets, metrics::mean(rets))).defined,
        Fixed::whole(rets.len() as int).defined,
        is_ratio_of(m, units_in_all(rets), rets.len() as int),
    ensures
        exists|sd: int, year: int|
            {
                let sharpe = metrics::sharpe_of(rets, bars_per_year).units as int;
                &&& #[trigger] is_deviation(rets, m, sd)
                &&& #[trigger] is_root(bars_per_year.units * SCALE, year)
                &&& sd == 0 ==> sharpe == 0
                &&& 0 < sd ==> sharpe * sd <= m * year && (m * year) * SCALE <= (sharpe * sd + sd)
                    * SCALE + sd * year
            },
{
    let s = SCALE as int;
    let n = rets.len() as int;
    let fm = metrics::mean(rets);
    let sp = metrics::spread(rets, fm);
    let var = metrics::mean(sp);
    assert(sp[0].defined) by {
        fixed::total_is_exact(sp);
    }
    assert(fm.defined);
    mean_is_the_sum_shared(rets);
    fixed::one_ratio(m, fm.units as int, units_in_all(rets), n);
    root_mean_square_deviates(rets, fm);
    fixed::root_is_closest(bars_per_year);
    let sd = var.root().units as int;
    let year = bars_per_year.root().units as int;
    assert(is_deviation(rets, m, sd));
    assert(is_root(bars_per_year.units * SCALE, year));
    let sharpe = metrics::sharpe_of(rets, bars_per_year).units as int;
    if 0 < sd {
        let ratio = fm.quotient(var.root());
        fixed::product_is_part(ratio, bars_per_year.root());
        fixed::quotient_is_ratio(fm, var.root());
        let q = ratio.units as int;
        assert(sharpe * sd <= m * year) by (nonlinear_arith)
            requires
                sharpe * s <= q * year,
                q * sd <= m * s,
                0 < sd,
                0 <= year,
                s == 1_000_000,
        {
            assert((sharpe * s) * sd <= (q * year) * sd);
            assert((q * year) * sd == (q * sd) * year);
            assert((q * sd) * year <= (m * s) * year);
            assert((sharpe * s) * sd == (sharpe * sd) * s);
            assert((m * s) * year == (m * year) * s);
        }
        assert((m * year) * s <= (sharpe * sd + sd) * s + sd * year) by (nonlinear_arith)
            requires
                q * year < sharpe * s + s,
                m * s < q * sd + sd,
                0 < sd,
                0 <= year,
                s == 1_000_000,
        {
            assert((m * s) * year <= (q * sd + sd) * year);
            assert((q * sd + sd) * year == (q * year) * sd + sd * year);
            assert((q * year) * sd <= (sharpe * s + s) * sd);
            assert((sharpe * s + s) * sd == (sharpe * sd + sd) * s);
            assert((m * s) * year == (m * year) * s);
        }
    }
}

// ---------------------------------------------------------------------------
// Won trades
// ---------------------------------------------------------------------------
/// The closed trades are those that have a gain or a loss, the won ones are those whose
/// gain is above zero.
pub proof fn trades_are_counted(gains: Seq<Option<Fixed>>)
    ensures
        metrics::closed_count(gains) == gains.filter(|g: Option<Fixed>| g is Some).len(),
        metrics::win_count(gains) == gains.filter(
            |g: Option<Fixed>| g is Some && g.unwrap().defined && 0 < g.unwrap().units,
        ).len(),
    decreases gains.len(),
{
    reveal(Seq::filter);
    if gains.len() > 0 {
        trades_are_counted(gains.drop_last());
    }
}

/// The figures of a back test: what it began and ended with, the change as a part of the
/// capital, and the part of the closed trades that were won, which is neither below zero nor
/// above one.
pub proof fn figures_of_a_back_test(
    initial: Fixed,
    equity: Seq<Fixed>,
    gains: Seq<Option<Fixed>>,
    bars_per_year: Fixed,
    m: Metrics<Fixed>,
)
    requires
        metrics::metrics_of(initial, equity, gains, bars_per_year, m),
        0 < equity.len(),
        initial.defined,
        0 < initial.units,
        equity.last().defined,
        m.total_return.defined,
        Fixed::whole(gains.len() as int).defined,
    ensures
        m.initial == initial,
        m.final_value == equity.last(),
        is_ratio_of(
            m.total_return.units as int,
            (equity.last().units - initial.units) * SCALE,
            initial.units as int,
        ),
        m.max_drawdown == metrics::drawdown(equity),
        m.total_trades == gains.len(),
        m.closed_trades == gains.filter(|g: Option<Fixed>| g is Some).len(),
        m.wins == gains.filter(
            |g: Option<Fixed>| g is Some && g.unwrap().defined && 0 < g.unwrap().units,
        ).len(),
        m.win_rate.defined,
        m.closed_trades == 0 ==> m.win_rate.units == 0,
        0 < m.closed_trades ==> is_ratio_of(
            m.win_rate.units as int,
            m.wins * SCALE,
            m.closed_trades as int,
        ),
        0 <= m.win_rate.units <= SCALE,
{
    return_is_the_relative_change(initial, equity.last());
    trades_are_counted(gains);
    metrics::wins_are_closed_trades(gains);
    let w = m.wins as int;
    let c = m.closed_trades as int;
    if 0 < c {
        fixed::share_is_ratio(Fixed::whole(w), c);
        let q = m.win_rate.units as int;
        assert(0 <= q <= SCALE) by (nonlinear_arith)
            requires
                q * c <= w * SCALE < q * c + c,
                0 <= w <= c,
                0 < c,
        ;
    }
}

// ---------------------------------------------------------------------------
// Short curves
// ---------------------------------------------------------------------------
/// A curve without days, or with one, has neither returns nor a Sharpe ratio, and one that
/// stays where it is returns nothing.
pub proof fn short_curves_yield_nothing(v: Fixed, bars_per_year: Fixed)
    requires
        v.defined,
        0 < v.units,
    ensures
        metrics::return_over(Seq::<Fixed>::empty()) == of_units(0),
        metrics::daily(Seq::<Fixed>::empty()).len() == 0,
        metrics::daily(seq![v]).len() == 0,
        metrics::returns_of(seq![v]).len() == 0,
        metrics::sharpe_of(Seq::<Fixed>::empty(), bars_per_year) == of_units(0),
        metrics::sharpe_of(seq![v], bars_per_year) == of_units(0),
        metrics::drawdown(Seq::<Fixed>::empty()) == of_units(0),
        metrics::return_between(v, v) == of_units(0),
{
    let s = SCALE as int;
    let u = v.units as int;
    assert(u * s / u == s) by (nonlinear_arith)
        requires
            0 < u,
    ;
}

/// Where the benchmark's returns do not deviate from their mean, there is neither beta nor
/// alpha.
pub proof fn flat_benchmarks_have_no_beta(rs: Seq<Fixed>, rb: Seq<Fixed>)
    requires
        metrics::covariation(
            rb,
            metrics::mean(rb),
            rb,
            metrics::mean(rb),
            rb.len() as int,
        ).units <= 0,
    ensures
        !metrics::beta_alpha(rs, rb).0.defined,
        !metrics::beta_alpha(rs, rb).1.defined,
{
}

} // verus!
