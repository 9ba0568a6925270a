//! What the lines say of the prices that they are drawn from.
//!
//! The laws here are of decimals. They are stated over whole units, where each sum and each
//! comparison is exact, and say what rounding leaves open.
use super::boll;
use super::kdj;
use super::ma;
use super::macd;
use super::rsi;
use crate::engine::appraisal;
use crate::engine::appraisal::is_deviation;
use crate::engine::metrics;
use crate::fixed;
use crate::fixed::{is_part_of, is_ratio_of, of_units, units_in_all, Fixed, SCALE};
use crate::num;
use crate::num::Scalar;
use vstd::prelude::*;

verus! {

// ---------------------------------------------------------------------------
// Moving averages
// ---------------------------------------------------------------------------
proof fn window_is_a_difference(data: Seq<Fixed>, a: int, b: int)
    requires
        0 <= a <= b <= data.len(),
    ensures
        units_in_all(data.subrange(a, b)) == units_in_all(data.take(b)) - units_in_all(
            data.take(a),
        ),
    decreases b - a,
{
    if a < b {
        window_is_a_difference(data, a, b - 1);
        assert(data.subrange(a, b).drop_last() =~= data.subrange(a, b - 1));
        assert(data.take(b).drop_last() =~= data.take(b - 1));
    } else {
        assert(data.subrange(a, b) =~= Seq::<Fixed>::empty());
    }
}

proof fn running_is_exact(data: Seq<Fixed>, period: int, i: int)
    requires
        0 < period,
        -1 <= i < data.len(),
        ma::running(data, period, i).defined,
    ensures
        ma::running(data, period, i).units == units_in_all(data.take(i + 1)) - units_in_all(
            data.take(
                if period <= i + 1 {
                    i + 1 - period
                } else {
                    0
                },
            ),
        ),
    decreases i + 1,
{
    assert(data.take(0) =~= Seq::<Fixed>::empty());
    if 0 <= i {
        running_is_exact(data, period, i - 1);
        assert(data.take(i + 1).drop_last() =~= data.take(i));
        if period <= i {
            assert(data.take(i + 1 - period).drop_last() =~= data.take(i - period));
        }
    }
}

/// The simple moving average is the mean of the last `period` prices, rounded down to the
/// unit: taken `period` times it falls short of their sum by less than a unit for each.
/// There is one from bar `period` - 1 on.
pub proof fn simple_average_is_the_mean(data: Seq<Fixed>, period: int, i: int)
    requires
        0 < period,
        0 <= i < data.len(),
    ensures
        ma::sma_of(data, period).len() == data.len(),
        ma::sma_of(data, period)[i] is Some <==> period <= i + 1,
        ma::sma_of(data, period)[i] matches Some(m) ==> m.defined ==> is_ratio_of(
            m.units as int,
            units_in_all(data.subrange(i + 1 - period, i + 1)),
            period,
        ),
{
    if period <= i + 1 && ma::sma_of(data, period)[i].unwrap().defined {
        let sum = ma::running(data, period, i);
        running_is_exact(data, period, i);
        window_is_a_difference(data, i + 1 - period, i + 1);
        fixed::share_is_ratio(sum, period);
    }
}

/// The exponential moving average begins with the mean of the first `period` prices. Then
/// each is made of the newest price, with a weight of two over `period` and one, and of the
/// average before it with what is left of one. The weight is given, rounded down; each of
/// the two parts is rounded down to the unit.
pub proof fn exponential_average_mixes(data: Seq<Fixed>, period: int, i: int, weight: int)
    requires
        0 < period,
        0 <= i < data.len(),
        is_ratio_of(weight, 2 * SCALE, period + 1),
    ensures
        ma::ema_of(data, period).len() == data.len(),
        ma::ema_of(data, period)[i] is Some <==> period <= i + 1,
        ma::ema_of(data, period)[i] matches Some(e) ==> e.defined ==> {
            &&& i + 1 == period ==> is_ratio_of(
                e.units as int,
                units_in_all(data.take(period)),
                period,
            )
            &&& period <= i ==> {
                let old = ma::ema_of(data, period)[i - 1].unwrap();
                let mix = data[i].units * weight + old.units * (SCALE - weight);
                &&& old.defined
                &&& e.units * SCALE <= mix < e.units * SCALE + 2 * SCALE
            }
        },
{
    if period <= i + 1 && ma::ema_of(data, period)[i].unwrap().defined {
        if i + 1 == period {
            let sum = num::total(data.take(period));
            fixed::total_is_exact(data.take(period));
            fixed::share_is_ratio(sum, period);
        } else {
            let k = ma::ema_weight::<Fixed>(period);
            let old = ma::ema_value(data, period, i - 1);
            fixed::product_is_part(data[i], k);
            fixed::product_is_part(old, num::unit::<Fixed>().difference(k));
            let whole = Fixed::whole(period).sum(num::unit::<Fixed>());
            assert(whole == Fixed::whole(period + 1));
            fixed::share_is_ratio(Fixed::whole(2), period + 1);
            fixed::one_ratio(weight, k.units as int, 2 * SCALE, period + 1);
        }
    }
}

// ---------------------------------------------------------------------------
// Convergence and divergence
// ---------------------------------------------------------------------------
/// The difference and the slow average make the fast one; it is above zero exactly where
/// the fast average is above the slow one. There is one where both averages are there.
pub proof fn difference_leads_from_slow_to_fast(
    data: Seq<Fixed>,
    fast: int,
    slow: int,
    signal: int,
    i: int,
)
    requires
        0 <= i < data.len(),
    ensures
        macd::macd_lines(data, fast, slow, signal).0.len() == data.len(),
        match (
            macd::macd_lines(data, fast, slow, signal).0[i],
            ma::ema_of(data, fast)[i],
            ma::ema_of(data, slow)[i],
        ) {
            (Some(d), Some(f), Some(s)) => {
                &&& f.defined && s.defined && i64::MIN <= f.units - s.units <= i64::MAX
                    <==> d.defined
                &&& d.defined ==> {
                    &&& d.units + s.units == f.units
                    &&& num::above_zero(d) <==> s.below(f)
                    &&& d.below(num::nil::<Fixed>()) <==> f.below(s)
                }
            },
            (Some(d), _, _) => false,
            (None, f, s) => f is None || s is None,
        },
{
}

/// The bar is twice what the difference is above its average; there is one where there is an
/// average of the differences.
pub proof fn bar_is_twice_the_distance(
    data: Seq<Fixed>,
    fast: int,
    slow: int,
    signal: int,
    i: int,
)
    requires
        0 <= i < data.len(),
    ensures
        ({
            let (dif, dea, bar) = macd::macd_lines(data, fast, slow, signal);
            &&& dea.len() == data.len()
            &&& bar.len() == data.len()
            &&& bar[i] is Some <==> dea[i] is Some
            &&& dea[i] is Some ==> dif[i] is Some
            &&& bar[i] matches Some(b) ==> b.defined ==> b.units == 2 * (dif[i].unwrap().units
                - dea[i].unwrap().units)
        }),
{
    let (dif, dea, bar) = macd::macd_lines(data, fast, slow, signal);
    match bar[i] {
        Some(b) => {
            if b.defined {
                let d = dif[i].unwrap().difference(dea[i].unwrap());
                fixed::product_is_part(Fixed::whole(2), d);
                fixed::multiple_is_exact(2, d);
            }
        },
        None => {},
    }
}

proof fn known_of_a_tail(s: Seq<Option<Fixed>>, first: int, i: int)
    requires
        0 <= first,
        0 <= i <= s.len(),
        forall|j: int| 0 <= j < s.len() ==> ((#[trigger] s[j]) is Some <==> first <= j),
    ensures
        macd::known(s.take(i)).len() == (if first <= i {
            i - first
        } else {
            0
        }),
        forall|j: int|
            0 <= j < macd::known(s.take(i)).len() ==> #[trigger] macd::known(s.take(i))[j]
                == s[first + j].unwrap(),
    decreases i,
{
    if 0 < i {
        known_of_a_tail(s, first, i - 1);
        assert(s.take(i).drop_last() =~= s.take(i - 1));
        assert(s.take(i).last() == s[i - 1]);
    } else {
        assert(s.take(0) =~= Seq::<Option<Fixed>>::empty());
    }
}

/// The average of the differences is their exponential moving average, counted from the
/// first difference: it begins with the mean of the first `signal` differences, and then
/// mixes the newest one in with a weight of two over `signal` and one.
#[verifier::spinoff_prover]
#[verifier::rlimit(80)]
pub proof fn signal_averages_the_differences(
    data: Seq<Fixed>,
    fast: int,
    slow: int,
    signal: int,
    i: int,
    weight: int,
)
    requires
        0 < fast,
        0 < slow,
        0 < signal,
        0 <= i < data.len(),
        is_ratio_of(weight, 2 * SCALE, signal + 1),
    ensures
        ({
            let (dif, dea, bar) = macd::macd_lines(data, fast, slow, signal);
            let first = if fast <= slow {
                slow - 1
            } else {
                fast - 1
            };
            let seen = Seq::new((i + 1 - first) as nat, |j: int| dif[first + j].unwrap());
            &&& dea[i] is Some <==> first + signal <= i + 1
            &&& dea[i] matches Some(e) ==> e.defined ==> {
                &&& i + 1 == first + signal ==> is_ratio_of(
                    e.units as int,
                    units_in_all(seen),
                    signal,
                )
                &&& first + signal <= i ==> {
                    let old = dea[i - 1].unwrap();
                    let mix = dif[i].unwrap().units * weight + old.units * (SCALE - weight);
                    &&& old.defined
                    &&& e.units * SCALE <= mix < e.units * SCALE + 2 * SCALE
                }
            }
        }),
{
    let (dif, dea, bar) = macd::macd_lines(data, fast, slow, signal);
    let first = if fast <= slow {
        slow - 1
    } else {
        fast - 1
    };
    let n = data.len() as int;
    assert forall|j: int| 0 <= j < dif.len() implies ((#[trigger] dif[j]) is Some <==> first
        <= j) by {}
    known_of_a_tail(dif, first, n);
    known_of_a_tail(dif, first, i);
    assert(dif.take(n) =~= dif);
    let all = macd::known(dif);
    if first <= i {
        let at = i - first;
        assert(dea[i] == ma::ema_at(all, signal, at));
        exponential_average_mixes(all, signal, at, weight);
        let seen = Seq::new((i + 1 - first) as nat, |j: int| dif[first + j].unwrap());
        if at + 1 == signal {
            assert(all.take(signal) =~= seen);
        }
        if signal <= at {
            known_of_a_tail(dif, first, i - 1);
            assert(dea[i - 1] == ma::ema_at(all, signal, at - 1));
            assert(all[at] == dif[i].unwrap());
        }
    }
}

// ---------------------------------------------------------------------------
// Bands
// ---------------------------------------------------------------------------
/// The bands lie at the same distance above and below the simple moving average, `mult`
/// deviations of the last `period` prices from it.
pub proof fn bands_are_deviations_away(data: Seq<Fixed>, period: int, mult: Fixed, i: int)
    requires
        0 < period,
        0 <= i < data.len(),
    ensures
        ({
            let (upper, mid, lower) = boll::boll_lines(data, period, mult);
            &&& upper.len() == data.len()
            &&& mid == ma::sma_of(data, period)
            &&& lower.len() == data.len()
            &&& upper[i] is Some <==> period <= i + 1
            &&& lower[i] is Some <==> period <= i + 1
            &&& period <= i + 1 && upper[i].unwrap().defined && lower[i].unwrap().defined ==> {
                let m = mid[i].unwrap().units;
                let away = upper[i].unwrap().units - m;
                &&& m - lower[i].unwrap().units == away
                &&& exists|sd: int|
                    #[trigger] is_deviation(
                        data.subrange(i + 1 - period, i + 1),
                        m as int,
                        sd,
                    ) && is_part_of(away, mult.units as int, sd)
                &&& 0 <= mult.units ==> 0 <= away
            }
        }),
{
    let (upper, mid, lower) = boll::boll_lines(data, period, mult);
    if period <= i + 1 && upper[i].unwrap().defined && lower[i].unwrap().defined {
        let m = mid[i].unwrap();
        let w = data.subrange(i + 1 - period, i + 1);
        let sp = metrics::spread(w, m);
        assert(sp =~= boll::deviations(w, m));
        let root = num::total(sp).quotient(Fixed::whole(period)).root();
        fixed::product_is_part(mult, root);
        appraisal::root_mean_square_deviates(w, m);
        let sd = root.units as int;
        let away = upper[i].unwrap().units - m.units;
        assert(is_deviation(w, m.units as int, sd));
        if 0 <= mult.units {
            assert(0 <= away) by (nonlinear_arith)
                requires
                    mult.units * sd < away * SCALE + SCALE,
                    0 <= mult.units,
                    0 <= sd,
            ;
        }
    }
}

// ---------------------------------------------------------------------------
// The stochastic oscillator
// ---------------------------------------------------------------------------
/// Whether a number is the largest of decimals.
pub open spec fn is_highest(s: Seq<Fixed>, top: int) -> bool {
    &&& forall|j: int| 0 <= j < s.len() ==> (#[trigger] s[j]).units <= top
    &&& exists|j: int| 0 <= j < s.len() && (#[trigger] s[j]).units == top
}

/// Whether a number is the smallest of decimals.
pub open spec fn is_lowest(s: Seq<Fixed>, bottom: int) -> bool {
    &&& forall|j: int| 0 <= j < s.len() ==> bottom <= (#[trigger] s[j]).units
    &&& exists|j: int| 0 <= j < s.len() && (#[trigger] s[j]).units == bottom
}

/// The largest of decimals is one of them, and none is larger.
pub proof fn largest_is_highest(s: Seq<Fixed>)
    requires
        0 < s.len(),
        forall|j: int| 0 <= j < s.len() ==> (#[trigger] s[j]).defined,
    ensures
        num::largest(s).defined,
        is_highest(s, num::largest(s).units as int),
    decreases s.len(),
{
    let t = s.drop_last();
    let n = s.len() - 1;
    assert(s[n].defined);
    assert(forall|j: int| 0 <= j < n ==> #[trigger] t[j] == s[j]);
    let top = num::largest(s).units as int;
    if 0 < n {
        largest_is_highest(t);
        let k = choose|k: int|
            0 <= k < t.len() && (#[trigger] t[k]).units == num::largest(t).units as int;
        assert(s[k].units == num::largest(t).units);
        assert(s[k].units == top || s[n].units == top);
        assert forall|j: int| 0 <= j < s.len() implies (#[trigger] s[j]).units <= top by {
            if j < n {
                assert(t[j].units <= num::largest(t).units);
            }
        }
    } else {
        assert(num::largest(t) == Fixed::bottom());
        assert(s[0].units == top);
    }
}

/// The smallest of decimals is one of them, and none is smaller.
pub proof fn smallest_is_lowest(s: Seq<Fixed>)
    requires
        0 < s.len(),
        forall|j: int| 0 <= j < s.len() ==> (#[trigger] s[j]).defined,
    ensures
        num::smallest(s).defined,
        is_lowest(s, num::smallest(s).units as int),
    decreases s.len(),
{
    let t = s.drop_last();
    let n = s.len() - 1;
    assert(s[n].defined);
    assert(forall|j: int| 0 <= j < n ==> #[trigger] t[j] == s[j]);
    let bottom = num::smallest(s).units as int;
    if 0 < n {
        smallest_is_lowest(t);
        let k = choose|k: int|
            0 <= k < t.len() && (#[trigger] t[k]).units == num::smallest(t).units as int;
        assert(s[k].units == num::smallest(t).units);
        assert(s[k].units == bottom || s[n].units == bottom);
        assert forall|j: int| 0 <= j < s.len() implies bottom <= (#[trigger] s[j]).units by {
            if j < n {
                assert(num::smallest(t).units <= t[j].units);
            }
        }
    } else {
        assert(num::smallest(t) == Fixed::top());
        assert(s[0].units == bottom);
    }
}

/// Where the closing price stands between the lowest and the highest price of the last
/// `period` bars, in per cent: none of the way at the lowest, all of it at the highest, and
/// in between as far as it has come. A span of nothing counts as none of the way.
pub proof fn standing_is_a_percentage(
    high: Seq<Fixed>,
    low: Seq<Fixed>,
    close: Seq<Fixed>,
    period: int,
    i: int,
    top: int,
    bottom: int,
)
    requires
        0 < period <= i + 1,
        i < close.len(),
        i < high.len(),
        i < low.len(),
        forall|j: int| 0 <= j < high.len() ==> (#[trigger] high[j]).defined,
        forall|j: int| 0 <= j < low.len() ==> (#[trigger] low[j]).defined,
        is_highest(high.subrange(i + 1 - period, i + 1), top),
        is_lowest(low.subrange(i + 1 - period, i + 1), bottom),
        bottom <= close[i].units <= top,
        kdj::rsv(high, low, close, period, i).defined,
    ensures
        ({
            let r = kdj::rsv(high, low, close, period, i).units as int;
            let c = close[i].units;
            &&& 0 <= r <= 100 * SCALE
            &&& top == bottom ==> r == 0
            &&& bottom < top ==> {
                &&& r * (top - bottom) <= 100 * ((c - bottom) * SCALE) < r * (top - bottom) + 100
                    * (top - bottom)
                &&& c == bottom ==> r == 0
                &&& c == top ==> r == 100 * SCALE
            }
        }),
{
    let hs = high.subrange(i + 1 - period, i + 1);
    let ls = low.subrange(i + 1 - period, i + 1);
    largest_is_highest(hs);
    smallest_is_lowest(ls);
    let hh = num::largest(hs);
    let ll = num::smallest(ls);
    let a = choose|j: int| 0 <= j < hs.len() && (#[trigger] hs[j]).units == top;
    let b = choose|j: int| 0 <= j < hs.len() && (#[trigger] hs[j]).units == hh.units as int;
    assert(hh.units == top);
    let d = choose|j: int| 0 <= j < ls.len() && (#[trigger] ls[j]).units == bottom;
    let e = choose|j: int| 0 <= j < ls.len() && (#[trigger] ls[j]).units == ll.units as int;
    assert(ll.units == bottom);
    let span = hh.difference(ll);
    if bottom < top {
        let s = SCALE as int;
        let part = close[i].difference(ll).quotient(span);
        fixed::product_is_part(part, Fixed::whole(100));
        fixed::multiple_is_exact(100, part);
        fixed::quotient_is_ratio(close[i].difference(ll), span);
        let x = part.units as int;
        let w = top - bottom;
        let up = close[i].units - bottom;
        assert((100 * x) * w == 100 * (x * w)) by (nonlinear_arith);
        assert(0 <= x <= s) by (nonlinear_arith)
            requires
                x * w <= up * s < x * w + w,
                0 <= up <= w,
                0 < w,
                s == 1_000_000,
        ;
        if up == 0 {
            assert(x == 0) by (nonlinear_arith)
                requires
                    x * w <= 0,
                    0 < w,
                    0 <= x,
            ;
        }
        if up == w {
            assert(x == s) by (nonlinear_arith)
                requires
                    w * s < x * w + w,
                    x <= s,
                    0 < w,
            ;
        }
    }
}

/// Smoothing takes two thirds of the old value and one third of the new one, no more than
/// that and less by little more than rounding: three times the result falls short of twice
/// the old value and the new one by at most one part in a million of them and six units.
pub proof fn smoothing_is_by_thirds(old_value: Fixed, new_value: Fixed)
    requires
        0 <= old_value.units,
        0 <= new_value.units,
        kdj::smoothed(old_value, new_value).defined,
    ensures
        ({
            let r = kdj::smoothed(old_value, new_value).units as int;
            let both = 2 * old_value.units + new_value.units;
            &&& 0 <= r
            &&& 3 * r <= both
            &&& (both - 3 * r) * SCALE <= both + 6 * SCALE
        }),
{
    let two = num::fraction::<Fixed>(2, 3);
    let one = num::fraction::<Fixed>(1, 3);
    fixed::share_is_ratio(Fixed::whole(2), 3);
    fixed::share_is_ratio(Fixed::whole(1), 3);
    assert(two.units == 666_666);
    assert(one.units == 333_333);
    fixed::product_is_part(two, old_value);
    fixed::product_is_part(one, new_value);
    thirds_add_up(
        two.product(old_value).units as int,
        one.product(new_value).units as int,
        old_value.units as int,
        new_value.units as int,
    );
}

proof fn thirds_add_up(x: int, y: int, o: int, n: int)
    requires
        0 <= o,
        0 <= n,
        x * 1_000_000 <= 666_666 * o < x * 1_000_000 + 1_000_000,
        y * 1_000_000 <= 333_333 * n < y * 1_000_000 + 1_000_000,
    ensures
        0 <= x,
        0 <= y,
        3 * (x + y) <= 2 * o + n,
        (2 * o + n - 3 * (x + y)) * 1_000_000 <= 2 * o + n + 6_000_000,
{
}

/// The lines begin at 50. At each bar from `period` - 1 on K is smoothed by thirds with the
/// standing of the closing price, and D with K; J is three times K less twice D.
pub proof fn oscillator_smooths_the_standing(
    high: Seq<Fixed>,
    low: Seq<Fixed>,
    close: Seq<Fixed>,
    period: int,
    i: int,
)
    requires
        0 < period,
        0 <= i < close.len(),
    ensures
        ({
            let (k, d, j) = kdj::kdj_lines(high, low, close, period);
            let before_k = if i + 1 == period {
                of_units(50 * SCALE)
            } else {
                k[i - 1].unwrap()
            };
            let before_d = if i + 1 == period {
                of_units(50 * SCALE)
            } else {
                d[i - 1].unwrap()
            };
            &&& k.len() == close.len()
            &&& d.len() == close.len()
            &&& j.len() == close.len()
            &&& k[i] is Some <==> period <= i + 1
            &&& d[i] is Some <==> period <= i + 1
            &&& j[i] is Some <==> period <= i + 1
            &&& period <= i + 1 ==> {
                &&& k[i].unwrap() == kdj::smoothed(
                    before_k,
                    kdj::rsv(high, low, close, period, i),
                )
                &&& d[i].unwrap() == kdj::smoothed(before_d, k[i].unwrap())
                &&& j[i].unwrap().defined ==> j[i].unwrap().units == 3 * k[i].unwrap().units - 2
                    * d[i].unwrap().units
            }
        }),
{
    if period <= i + 1 {
        let k = kdj::k_value(high, low, close, period, i);
        let d = kdj::d_value(high, low, close, period, i);
        if i + 1 == period {
            assert(kdj::k_value(high, low, close, period, i - 1) == Fixed::whole(50));
            assert(kdj::d_value(high, low, close, period, i - 1) == Fixed::whole(50));
        }
        if kdj::j_value(high, low, close, period, i).defined {
            fixed::product_is_part(Fixed::whole(3), k);
            fixed::product_is_part(Fixed::whole(2), d);
            fixed::multiple_is_exact(3, k);
            fixed::multiple_is_exact(2, d);
        }
    }
}

// ---------------------------------------------------------------------------
// Relative strength
// ---------------------------------------------------------------------------
/// By how much prices have risen over the bars from 1 to `i`, falls left aside.
pub open spec fn risen(data: Seq<Fixed>, i: int) -> int
    decreases i,
{
    if i <= 0 {
        0
    } else {
        risen(data, i - 1) + (if data[i - 1].units < data[i].units {
            data[i].units - data[i - 1].units
        } else {
            0
        })
    }
}

/// By how much prices have fallen over the bars from 1 to `i`, rises left aside.
pub open spec fn fallen(data: Seq<Fixed>, i: int) -> int
    decreases i,
{
    if i <= 0 {
        0
    } else {
        fallen(data, i - 1) + (if data[i].units < data[i - 1].units {
            data[i - 1].units - data[i].units
        } else {
            0
        })
    }
}

/// Gains are what prices have risen by and losses what they have fallen by; gains less
/// losses lead from the first price to the last.
pub proof fn gains_and_losses_are_moves(data: Seq<Fixed>, i: int)
    requires
        0 <= i < data.len(),
        forall|j: int| 0 <= j < data.len() ==> (#[trigger] data[j]).defined,
        forall|j: int| 0 < j <= i ==> (#[trigger] rsi::change(data, j)).defined,
        rsi::gains(data, i).defined,
        rsi::losses(data, i).defined,
    ensures
        rsi::gains(data, i).units == risen(data, i),
        rsi::losses(data, i).units == fallen(data, i),
        data[0].units + risen(data, i) - fallen(data, i) == data[i].units,
        0 <= risen(data, i),
        0 <= fallen(data, i),
    decreases i,
{
    if 0 < i {
        assert(data[i].defined && data[i - 1].defined);
        assert(rsi::change(data, i).defined);
        gains_and_losses_are_moves(data, i - 1);
    }
}

/// The smoothed gain and loss begin with the mean over the first `period` changes; then at
/// each bar one part in `period` of the average gives way to the newest gain or loss.
pub proof fn averages_give_way(data: Seq<Fixed>, period: int, i: int)
    requires
        0 < period <= i,
        i < data.len(),
        forall|j: int| 0 <= j < data.len() ==> (#[trigger] data[j]).defined,
        forall|j: int| 0 < j <= i ==> (#[trigger] rsi::change(data, j)).defined,
        rsi::average_gain(data, period, i).defined,
        rsi::average_loss(data, period, i).defined,
        i == period ==> rsi::gains(data, i).defined && rsi::losses(data, i).defined,
        Fixed::whole(period).defined,
    ensures
        ({
            let gain = rsi::average_gain(data, period, i).units as int;
            let loss = rsi::average_loss(data, period, i).units as int;
            &&& i == period ==> is_ratio_of(gain, risen(data, period), period) && is_ratio_of(
                loss,
                fallen(data, period),
                period,
            )
            &&& period < i ==> {
                let old_gain = rsi::average_gain(data, period, i - 1).units;
                let old_loss = rsi::average_loss(data, period, i - 1).units;
                let up = risen(data, i) - risen(data, i - 1);
                let down = fallen(data, i) - fallen(data, i - 1);
                &&& is_ratio_of(gain, (period - 1) * old_gain + up, period)
                &&& is_ratio_of(loss, (period - 1) * old_loss + down, period)
            }
        }),
{
    assert(data[i].defined && data[i - 1].defined);
    assert(rsi::change(data, i).defined);
    if i == period {
        gains_and_losses_are_moves(data, i);
        fixed::share_is_ratio(rsi::gains(data, period), period);
        fixed::share_is_ratio(rsi::losses(data, period), period);
    } else {
        let g = rsi::average_gain(data, period, i - 1);
        let l = rsi::average_loss(data, period, i - 1);
        let rest = Fixed::whole(period).difference(num::unit::<Fixed>());
        assert(rest == Fixed::whole(period - 1));
        let c = rsi::change(data, i);
        let up = if num::not_below_zero(c) {
            c
        } else {
            num::nil::<Fixed>()
        };
        let down = if num::not_below_zero(c) {
            num::nil::<Fixed>()
        } else {
            num::nil::<Fixed>().difference(c)
        };
        assert(g.product(rest).sum(up).defined);
        assert(l.product(rest).sum(down).defined);
        fixed::multiple_is_exact(period - 1, g);
        fixed::multiple_is_exact(period - 1, l);
        fixed::share_is_ratio(g.product(rest).sum(up), period);
        fixed::share_is_ratio(l.product(rest).sum(down), period);
    }
}

/// The index is the gain as a percentage of gain and loss together: 100 where there is no
/// loss, 0 where there is no gain, and in between so that the index times both is 100 times
/// the gain, but for the rounding named here.
pub proof fn strength_is_the_share_of_gains(gain: Fixed, loss: Fixed)
    requires
        gain.defined,
        loss.defined,
        0 <= gain.units,
        0 <= loss.units,
        rsi::strength(gain, loss).defined,
    ensures
        ({
            let r = rsi::strength(gain, loss).units as int;
            let g = gain.units as int;
            let l = loss.units as int;
            &&& 0 <= r <= 100 * SCALE
            &&& l == 0 ==> r == 100 * SCALE
            &&& g == 0 && 0 < l ==> r == 0
            &&& 0 < l ==> 100 * (SCALE * g) - 100 * l <= r * (g + l) <= 100 * (SCALE * g) + g + l
        }),
{
    let s = SCALE as int;
    let g = gain.units as int;
    let l = loss.units as int;
    if 0 < l {
        let ratio = gain.quotient(loss);
        let z = num::unit::<Fixed>().sum(ratio);
        let part = Fixed::whole(100).quotient(z);
        assert(part.defined);
        assert(z.defined);
        assert(ratio.defined);
        fixed::quotient_is_ratio(gain, loss);
        let rs = ratio.units as int;
        assert(0 <= rs) by (nonlinear_arith)
            requires
                0 <= g,
                g * s < rs * l + l,
                0 < l,
                s == 1_000_000,
        ;
        let zu = s + rs;
        assert(z.units == zu);
        fixed::quotient_is_ratio(Fixed::whole(100), z);
        let x = part.units as int;
        let full = 100 * s;
        assert(x * zu <= full * s < x * zu + zu);
        assert(0 <= x <= full) by (nonlinear_arith)
            requires
                x * zu <= full * s < x * zu + zu,
                0 < s <= zu,
                0 < full,
        ;
        let r = rsi::strength(gain, loss).units as int;
        assert(r == full - x);
        let both = g + l;
        assert(s * both - l <= zu * l <= s * both) by (nonlinear_arith)
            requires
                zu == s + rs,
                both == g + l,
                rs * l <= g * s < rs * l + l,
        ;
        let zl = zu * l;
        assert(full * s * l <= (x + 1) * zl) by (nonlinear_arith)
            requires
                full * s < x * zu + zu,
                0 < l,
                zl == zu * l,
        {
            assert((full * s) * l <= (x * zu + zu) * l);
            assert((x * zu + zu) * l == (x + 1) * zl);
        }
        assert((x + 1) * zl <= (x + 1) * (s * both)) by (nonlinear_arith)
            requires
                zl <= s * both,
                0 <= x,
        ;
        assert(full * l <= (x + 1) * both) by (nonlinear_arith)
            requires
                full * s * l <= (x + 1) * (s * both),
                s == 1_000_000,
        {
            assert((x + 1) * (s * both) == ((x + 1) * both) * s);
            assert(full * s * l == (full * l) * s);
        }
        assert(x * zl <= full * s * l) by (nonlinear_arith)
            requires
                x * zu <= full * s,
                0 < l,
                zl == zu * l,
        {
            assert((x * zu) * l <= (full * s) * l);
            assert((x * zu) * l == x * zl);
        }
        assert(x * (s * both - l) <= x * zl) by (nonlinear_arith)
            requires
                s * both - l <= zl,
                0 <= x,
        ;
        assert(x * l <= full * l) by (nonlinear_arith)
            requires
                x <= full,
                0 < l,
        ;
        assert((x * both) * s <= (full * l) * s + full * l) by (nonlinear_arith)
            requires
                x * (s * both - l) <= full * s * l,
                x * l <= full * l,
        {
            assert(x * (s * both - l) == (x * both) * s - x * l);
            assert(full * s * l == (full * l) * s);
        }
        assert(full * l == s * (100 * l)) by (nonlinear_arith)
            requires
                full == 100 * s,
        ;
        assert(x * both <= full * l + 100 * l) by (nonlinear_arith)
            requires
                (x * both) * s <= (full * l) * s + full * l,
                full * l == s * (100 * l),
                s == 1_000_000,
        ;
        assert(r * both == full * g + full * l - x * both) by (nonlinear_arith)
            requires
                r == full - x,
                both == g + l,
        ;
        assert(full * g == 100 * (s * g)) by (nonlinear_arith)
            requires
                full == 100 * s,
        ;
        assert((x + 1) * both == x * both + both) by (nonlinear_arith);
        if g == 0 {
            assert(rs == 0) by (nonlinear_arith)
                requires
                    rs * l <= 0,
                    0 <= rs,
                    0 < l,
            ;
            assert(x == full) by (nonlinear_arith)
                requires
                    full * s < x * s + s,
                    x <= full,
                    s == 1_000_000,
            ;
        }
    }
}

/// There is an index from bar `period` on, made of the smoothed gain and loss at the bar.
pub proof fn index_is_of_the_averages(data: Seq<Fixed>, period: int, i: int)
    requires
        0 < period,
        0 <= i < data.len(),
    ensures
        rsi::rsi_of(data, period).len() == data.len(),
        rsi::rsi_of(data, period)[i] is Some <==> period <= i,
        period <= i ==> rsi::rsi_of(data, period)[i].unwrap() == rsi::strength(
            rsi::average_gain(data, period, i),
            rsi::average_loss(data, period, i),
        ),
{
}

} // verus!
