//! The indicators of one series of prices, computed once and kept.
use crate::indicator;
use crate::indicator::{boll, ema, kdj, macd, rsi, sma};
use crate::num;
use crate::num::Scalar;
use vstd::prelude::*;

verus! {

/// A line over a chart.
pub enum Line<N: Scalar> {
    Sma(i64),
    Ema(i64),
    Rsi(i64),
    MacdDif(i64, i64, i64),
    MacdDea(i64, i64, i64),
    MacdBar(i64, i64, i64),
    KdjK(i64),
    KdjD(i64),
    KdjJ(i64),
    BollUpper(i64, N),
    BollMid(i64, N),
    BollLower(i64, N),
}

impl<N: Scalar> Clone for Line<N> {
    fn clone(&self) -> (r: Self)
        ensures
            r == *self,
    {
        *self
    }
}

impl<N: Scalar> Copy for Line<N> {

}

/// The values of a line, one for each bar, where they exist.
pub open spec fn line_of<N: Scalar>(
    line: Line<N>,
    highs: Seq<N>,
    lows: Seq<N>,
    closes: Seq<N>,
) -> Seq<Option<N>> {
    match line {
        Line::Sma(p) => indicator::ma::sma_of(closes, p as int),
        Line::Ema(p) => indicator::ma::ema_of(closes, p as int),
        Line::Rsi(p) => indicator::rsi::rsi_of(closes, p as int),
        Line::MacdDif(f, s, g) => indicator::macd::dif_of(closes, f as int, s as int),
        Line::MacdDea(f, s, g) => indicator::macd::dea_of(
            indicator::macd::dif_of(closes, f as int, s as int),
            g as int,
        ),
        Line::MacdBar(f, s, g) => indicator::macd::bar_of(
            indicator::macd::dif_of(closes, f as int, s as int),
            g as int,
        ),
        Line::KdjK(p) => indicator::kdj::kdj_lines(highs, lows, closes, p as int).0,
        Line::KdjD(p) => indicator::kdj::kdj_lines(highs, lows, closes, p as int).1,
        Line::KdjJ(p) => indicator::kdj::kdj_lines(highs, lows, closes, p as int).2,
        Line::BollUpper(p, m) => Seq::new(
            closes.len(),
            |i: int| indicator::boll::upper_at(closes, p as int, m, i),
        ),
        Line::BollMid(p, m) => indicator::ma::sma_of(closes, p as int),
        Line::BollLower(p, m) => Seq::new(
            closes.len(),
            |i: int| indicator::boll::lower_at(closes, p as int, m, i),
        ),
    }
}

/// The numbers of a line, undefined where there is no value.
pub open spec fn settled<N: Scalar>(s: Seq<Option<N>>) -> Seq<N> {
    Seq::new(s.len(), |i: int| num::or_undefined(s[i]))
}

/// The number of a line at a bar; undefined before the first bar and after the last.
pub open spec fn value_at<N: Scalar>(
    line: Line<N>,
    highs: Seq<N>,
    lows: Seq<N>,
    closes: Seq<N>,
    i: int,
) -> N {
    if 0 <= i < closes.len() {
        num::or_undefined(line_of(line, highs, lows, closes)[i])
    } else {
        N::undefined()
    }
}

fn settle<N: Scalar>(v: Vec<Option<N>>) -> (r: Vec<N>)
    ensures
        r@ == settled(v@),
{
    let mut out: Vec<N> = Vec::new();
    let mut i: usize = 0;
    while i < v.len()
        invariant
            i <= v@.len(),
            out@ == settled(v@).take(i as int),
        decreases v@.len() - i,
    {
        out.push(num::or_nan(v[i]));
        i += 1;
        assert(out@ =~= settled(v@).take(i as int));
    }
    assert(out@ =~= settled(v@));
    out
}

/// A period as a count of bars. One that no bar of a series reaches is as good as none.
fn count_of(p: i64, n: usize) -> (r: usize)
    ensures
        r == (if 0 < p <= n {
            p as int
        } else {
            0
        }),
{
    if p <= 0 || p as u128 > n as u128 {
        0
    } else {
        p as usize
    }
}

/// Whether two lines are the same.
fn same_line<N: Scalar>(a: &Line<N>, b: &Line<N>) -> (r: bool)
    ensures
        r == (*a == *b),
{
    match (*a, *b) {
        (Line::Sma(p), Line::Sma(q)) => p == q,
        (Line::Ema(p), Line::Ema(q)) => p == q,
        (Line::Rsi(p), Line::Rsi(q)) => p == q,
        (Line::MacdDif(f, s, g), Line::MacdDif(x, y, z)) => f == x && s == y && g == z,
        (Line::MacdDea(f, s, g), Line::MacdDea(x, y, z)) => f == x && s == y && g == z,
        (Line::MacdBar(f, s, g), Line::MacdBar(x, y, z)) => f == x && s == y && g == z,
        (Line::KdjK(p), Line::KdjK(q)) => p == q,
        (Line::KdjD(p), Line::KdjD(q)) => p == q,
        (Line::KdjJ(p), Line::KdjJ(q)) => p == q,
        (Line::BollUpper(p, m), Line::BollUpper(q, k)) => p == q && m.identical(k),
        (Line::BollMid(p, m), Line::BollMid(q, k)) => p == q && m.identical(k),
        (Line::BollLower(p, m), Line::BollLower(q, k)) => p == q && m.identical(k),
        _ => false,
    }
}

/// The prices of a security, with the lines that have been asked for.
pub struct Chart<N: Scalar> {
    pub highs: Vec<N>,
    pub lows: Vec<N>,
    pub closes: Vec<N>,
    pub cache: Vec<(Line<N>, Vec<N>)>,
}

impl<N: Scalar> Chart<N> {
    /// The three series are of one length, and each line that is kept is that of the
    /// prices.
    pub open spec fn wf(&self) -> bool {
        &&& self.highs@.len() == self.closes@.len()
        &&& self.lows@.len() == self.closes@.len()
        &&& forall|c: int|
            0 <= c < self.cache@.len() ==> (#[trigger] self.cache@[c]).1@ == settled(
                line_of(self.cache@[c].0, self.highs@, self.lows@, self.closes@),
            )
    }

    /// The two charts show the same prices.
    pub open spec fn same_prices(&self, other: &Self) -> bool {
        &&& self.highs@ == other.highs@
        &&& self.lows@ == other.lows@
        &&& self.closes@ == other.closes@
    }

    pub fn new(highs: Vec<N>, lows: Vec<N>, closes: Vec<N>) -> (r: Self)
        requires
            highs@.len() == closes@.len(),
            lows@.len() == closes@.len(),
        ensures
            r.wf(),
            r.highs@ == highs@,
            r.lows@ == lows@,
            r.closes@ == closes@,
    {
        Chart { highs, lows, closes, cache: Vec::new() }
    }

    /// The numbers of a line.
    fn compute(&self, line: Line<N>) -> (r: Vec<N>)
        requires
            self.wf(),
        ensures
            r@ == settled(line_of(line, self.highs@, self.lows@, self.closes@)),
    {
        let n = self.closes.len();
        let c = self.closes.as_slice();
        let h = self.highs.as_slice();
        let l = self.lows.as_slice();
        let ghost goal = line_of(line, self.highs@, self.lows@, self.closes@);
        let values: Vec<Option<N>> = match line {
            Line::Sma(p) => sma(c, count_of(p, n)),
            Line::Ema(p) => ema(c, count_of(p, n)),
            Line::Rsi(p) => rsi(c, count_of(p, n)),
            Line::MacdDif(f, s, g) => macd(c, count_of(f, n), count_of(s, n), count_of(g, n)).dif,
            Line::MacdDea(f, s, g) => {
                proof {
                    same_macd(c@, f as int, s as int, g as int);
                }
                macd(c, count_of(f, n), count_of(s, n), count_of(g, n)).dea
            },
            Line::MacdBar(f, s, g) => {
                proof {
                    same_macd(c@, f as int, s as int, g as int);
                }
                macd(c, count_of(f, n), count_of(s, n), count_of(g, n)).macd
            },
            Line::KdjK(p) => kdj(h, l, c, count_of(p, n)).k,
            Line::KdjD(p) => kdj(h, l, c, count_of(p, n)).d,
            Line::KdjJ(p) => kdj(h, l, c, count_of(p, n)).j,
            Line::BollUpper(p, m) => boll(c, count_of(p, n), m).upper,
            Line::BollMid(p, m) => boll(c, count_of(p, n), m).mid,
            Line::BollLower(p, m) => boll(c, count_of(p, n), m).lower,
        };
        assert(values@ =~= goal);
        settle(values)
    }

    /// The number of a line at a bar, `back` bars before bar `i`; undefined where the
    /// chart has no such bar. A line is computed when it is first asked for.
    pub fn value(&mut self, line: Line<N>, i: usize, back: i64) -> (r: N)
        requires
            old(self).wf(),
        ensures
            final(self).wf(),
            final(self).same_prices(&*old(self)),
            r == value_at(line, old(self).highs@, old(self).lows@, old(self).closes@, i - back),
    {
        let idx: i128 = i as i128 - back as i128;
        if idx < 0 || idx >= self.closes.len() as i128 {
            return N::nan();
        }
        let idx: usize = idx as usize;
        let mut k: usize = 0;
        while k < self.cache.len()
            invariant
                self.wf(),
                idx < self.closes@.len(),
                idx == i - back,
                *self == *old(self),
                k <= self.cache@.len(),
            decreases self.cache@.len() - k,
        {
            if same_line(&self.cache[k].0, &line) {
                return self.cache[k].1[idx];
            }
            k += 1;
        }
        let values = self.compute(line);
        let r = values[idx];
        self.cache.push((line, values));
        r
    }
}

proof fn same_macd<N: Scalar>(data: Seq<N>, f: int, s: int, g: int)
    ensures
        ({
            let n = data.len() as int;
            let f1 = if 0 < f <= n {
                f
            } else {
                0
            };
            let s1 = if 0 < s <= n {
                s
            } else {
                0
            };
            let g1 = if 0 < g <= n {
                g
            } else {
                0
            };
            let d = indicator::macd::dif_of(data, f, s);
            let d1 = indicator::macd::dif_of(data, f1, s1);
            &&& d == d1
            &&& indicator::macd::dea_of(d, g) == indicator::macd::dea_of(d1, g1)
            &&& indicator::macd::bar_of(d, g) == indicator::macd::bar_of(d1, g1)
        }),
{
    let n = data.len() as int;
    let f1 = if 0 < f <= n {
        f
    } else {
        0
    };
    let s1 = if 0 < s <= n {
        s
    } else {
        0
    };
    let g1 = if 0 < g <= n {
        g
    } else {
        0
    };
    let d = indicator::macd::dif_of(data, f, s);
    let d1 = indicator::macd::dif_of(data, f1, s1);
    assert(d =~= d1);
    assert forall|i: int| 0 <= i < n implies #[trigger] indicator::macd::dea_at(d, g, i)
        == indicator::macd::dea_at(d, g1, i) by {
        indicator::macd::known_count(d, i);
    }
    assert(indicator::macd::dea_of(d, g) =~= indicator::macd::dea_of(d1, g1));
    assert(indicator::macd::bar_of(d, g) =~= indicator::macd::bar_of(d1, g1));
}

/// The number of a line at a bar depends on no later price.
pub proof fn lines_look_back_only<N: Scalar>(
    line: Line<N>,
    highs: Seq<N>,
    lows: Seq<N>,
    closes: Seq<N>,
    i: int,
)
    requires
        highs.len() == closes.len(),
        lows.len() == closes.len(),
        0 <= i < closes.len(),
    ensures
        value_at(line, highs, lows, closes, i) == value_at(
            line,
            highs.take(i + 1),
            lows.take(i + 1),
            closes.take(i + 1),
            i,
        ),
{
    match line {
        Line::Sma(p) => {
            if p > 0 {
                indicator::ma::sma_looks_back_only(closes, p as int, i);
            }
        },
        Line::Ema(p) => {
            indicator::ma::ema_looks_back_only(closes, p as int, i);
        },
        Line::Rsi(p) => {
            indicator::rsi::rsi_looks_back_only(closes, p as int, i);
        },
        Line::MacdDif(f, s, g) => {
            indicator::macd::macd_looks_back_only(closes, f as int, s as int, g as int, i);
        },
        Line::MacdDea(f, s, g) => {
            indicator::macd::macd_looks_back_only(closes, f as int, s as int, g as int, i);
        },
        Line::MacdBar(f, s, g) => {
            indicator::macd::macd_looks_back_only(closes, f as int, s as int, g as int, i);
        },
        Line::KdjK(p) => {
            if p > 0 {
                indicator::kdj::kdj_looks_back_only(highs, lows, closes, p as int, i);
            }
        },
        Line::KdjD(p) => {
            if p > 0 {
                indicator::kdj::kdj_looks_back_only(highs, lows, closes, p as int, i);
            }
        },
        Line::KdjJ(p) => {
            if p > 0 {
                indicator::kdj::kdj_looks_back_only(highs, lows, closes, p as int, i);
            }
        },
        Line::BollUpper(p, m) => {
            if p > 0 {
                indicator::boll::boll_looks_back_only(closes, p as int, m, i);
            }
        },
        Line::BollMid(p, m) => {
            if p > 0 {
                indicator::ma::sma_looks_back_only(closes, p as int, i);
            }
        },
        Line::BollLower(p, m) => {
            if p > 0 {
                indicator::boll::boll_looks_back_only(closes, p as int, m, i);
            }
        },
    }
}

/// Charts that agree up to a bar have the same lines there.
pub proof fn same_past_same_lines<N: Scalar>(
    line: Line<N>,
    highs: Seq<N>,
    lows: Seq<N>,
    closes: Seq<N>,
    other_highs: Seq<N>,
    other_lows: Seq<N>,
    other_closes: Seq<N>,
    i: int,
)
    requires
        highs.len() == closes.len(),
        lows.len() == closes.len(),
        other_highs.len() == other_closes.len(),
        other_lows.len() == other_closes.len(),
        i < closes.len(),
        i < other_closes.len(),
        forall|k: int| 0 <= k <= i ==> highs[k] == other_highs[k],
        forall|k: int| 0 <= k <= i ==> lows[k] == other_lows[k],
        forall|k: int| 0 <= k <= i ==> closes[k] == other_closes[k],
    ensures
        value_at(line, highs, lows, closes, i) == value_at(
            line,
            other_highs,
            other_lows,
            other_closes,
            i,
        ),
{
    if i >= 0 {
        lines_look_back_only(line, highs, lows, closes, i);
        lines_look_back_only(line, other_highs, other_lows, other_closes, i);
        assert(highs.take(i + 1) =~= other_highs.take(i + 1));
        assert(lows.take(i + 1) =~= other_lows.take(i + 1));
        assert(closes.take(i + 1) =~= other_closes.take(i + 1));
    }
}

/// The lines of a chart are those that the indicators draw from its prices.
pub proof fn lines_are_drawn_by_the_indicators<N: Scalar>(
    highs: Seq<N>,
    lows: Seq<N>,
    closes: Seq<N>,
    p: i64,
    f: i64,
    s: i64,
    g: i64,
    m: N,
)
    ensures
        line_of(Line::Sma(p), highs, lows, closes) == indicator::ma::sma_of(closes, p as int),
        line_of(Line::Ema(p), highs, lows, closes) == indicator::ma::ema_of(closes, p as int),
        line_of(Line::Rsi(p), highs, lows, closes) == indicator::rsi::rsi_of(closes, p as int),
        (
            line_of(Line::MacdDif(f, s, g), highs, lows, closes),
            line_of(Line::MacdDea(f, s, g), highs, lows, closes),
            line_of(Line::MacdBar(f, s, g), highs, lows, closes),
        ) == indicator::macd::macd_lines(closes, f as int, s as int, g as int),
        (
            line_of(Line::KdjK(p), highs, lows, closes),
            line_of(Line::KdjD(p), highs, lows, closes),
            line_of(Line::KdjJ(p), highs, lows, closes),
        ) == indicator::kdj::kdj_lines(highs, lows, closes, p as int),
        (
            line_of(Line::BollUpper(p, m), highs, lows, closes),
            line_of(Line::BollMid(p, m), highs, lows, closes),
            line_of(Line::BollLower(p, m), highs, lows, closes),
        ) == indicator::boll::boll_lines(closes, p as int, m),
{
}

} // verus!
