//! The stochastic oscillator with its J line.
use crate::num;
use crate::num::Scalar;
use vstd::prelude::*;

verus! {

pub struct Kdj<N: Scalar> {
    pub k: Vec<Option<N>>,
    pub d: Vec<Option<N>>,
    pub j: Vec<Option<N>>,
}

/// Where the closing price of bar `i` stands, in per cent, between the lowest and the
/// highest price of `period` bars.
pub open spec fn rsv<N: Scalar>(
    high: Seq<N>,
    low: Seq<N>,
    close: Seq<N>,
    period: int,
    i: int,
) -> N {
    let hh = num::largest(high.subrange(i + 1 - period, i + 1));
    let ll = num::smallest(low.subrange(i + 1 - period, i + 1));
    if num::zeroed(hh.difference(ll)) {
        num::nil::<N>()
    } else {
        close[i].difference(ll).quotient(hh.difference(ll)).product(N::whole(100))
    }
}

/// Two thirds of the old value and one third of the new one.
pub open spec fn smoothed<N: Scalar>(old_value: N, new_value: N) -> N {
    num::fraction::<N>(2, 3).product(old_value).sum(num::fraction::<N>(1, 3).product(new_value))
}

/// The K line at bar `i`; 50 before bar `period` - 1.
pub open spec fn k_value<N: Scalar>(
    high: Seq<N>,
    low: Seq<N>,
    close: Seq<N>,
    period: int,
    i: int,
) -> N
    decreases i + 1,
{
    if i < 0 || i + 1 < period {
        N::whole(50)
    } else {
        smoothed(k_value(high, low, close, period, i - 1), rsv(high, low, close, period, i))
    }
}

/// The D line at bar `i`; 50 before bar `period` - 1.
pub open spec fn d_value<N: Scalar>(
    high: Seq<N>,
    low: Seq<N>,
    close: Seq<N>,
    period: int,
    i: int,
) -> N
    decreases i + 1,
{
    if i < 0 || i + 1 < period {
        N::whole(50)
    } else {
        smoothed(d_value(high, low, close, period, i - 1), k_value(high, low, close, period, i))
    }
}

/// The J line at bar `i`.
pub open spec fn j_value<N: Scalar>(
    high: Seq<N>,
    low: Seq<N>,
    close: Seq<N>,
    period: int,
    i: int,
) -> N {
    N::whole(3).product(k_value(high, low, close, period, i)).difference(
        N::whole(2).product(d_value(high, low, close, period, i)),
    )
}

/// The lines have values from bar `period` - 1 on.
pub open spec fn kdj_known(period: int, i: int) -> bool {
    period > 0 && i + 1 >= period
}

/// The lines K, D and J of a series of bars.
pub open spec fn kdj_lines<N: Scalar>(
    high: Seq<N>,
    low: Seq<N>,
    close: Seq<N>,
    period: int,
) -> (Seq<Option<N>>, Seq<Option<N>>, Seq<Option<N>>) {
    (
        Seq::new(
            close.len(),
            |i: int|
                if kdj_known(period, i) {
                    Some(k_value(high, low, close, period, i))
                } else {
                    None
                },
        ),
        Seq::new(
            close.len(),
            |i: int|
                if kdj_known(period, i) {
                    Some(d_value(high, low, close, period, i))
                } else {
                    None
                },
        ),
        Seq::new(
            close.len(),
            |i: int|
                if kdj_known(period, i) {
                    Some(j_value(high, low, close, period, i))
                } else {
                    None
                },
        ),
    )
}

/// The lines K, D and J over `period` bars, smoothed by thirds from 50 on.
pub fn kdj<N: Scalar>(high: &[N], low: &[N], close: &[N], period: usize) -> (r: Kdj<N>)
    requires
        0 < period <= close@.len() ==> high@.len() >= close@.len() && low@.len() >= close@.len(),
    ensures
        (r.k@, r.d@, r.j@) == kdj_lines(high@, low@, close@, period as int),
{
    let n = close.len();
    let ghost lines = kdj_lines(high@, low@, close@, period as int);
    if period == 0 || n < period {
        let k: Vec<Option<N>> = num::filled(None, n);
        let d: Vec<Option<N>> = num::filled(None, n);
        let j: Vec<Option<N>> = num::filled(None, n);
        assert(k@ =~= lines.0);
        assert(d@ =~= lines.1);
        assert(j@ =~= lines.2);
        return Kdj { k, d, j };
    }
    let mut k: Vec<Option<N>> = num::filled(None, period - 1);
    let mut d: Vec<Option<N>> = num::filled(None, period - 1);
    let mut j: Vec<Option<N>> = num::filled(None, period - 1);
    let old_part = num::ratio::<N>(2, 3);
    let new_part = num::ratio::<N>(1, 3);
    let mut prev_k = N::from_int(50);
    let mut prev_d = N::from_int(50);
    let mut i: usize = period - 1;
    while i < n
        invariant
            n == close@.len(),
            n <= high@.len(),
            n <= low@.len(),
            0 < period,
            period - 1 <= i <= n,
            lines == kdj_lines(high@, low@, close@, period as int),
            old_part == num::fraction::<N>(2, 3),
            new_part == num::fraction::<N>(1, 3),
            prev_k == k_value(high@, low@, close@, period as int, i - 1),
            prev_d == d_value(high@, low@, close@, period as int, i - 1),
            k@ == lines.0.take(i as int),
            d@ == lines.1.take(i as int),
            j@ == lines.2.take(i as int),
        decreases n - i,
    {
        let from: usize = i - (period - 1);
        let hh = num::max_of(high, from, i + 1);
        let ll = num::min_of(low, from, i + 1);
        let span = hh.minus(ll);
        let rsv = if num::is_zero(span) {
            num::zero::<N>()
        } else {
            close[i].minus(ll).over(span).times(N::from_int(100))
        };
        let cur_k = old_part.times(prev_k).plus(new_part.times(rsv));
        let cur_d = old_part.times(prev_d).plus(new_part.times(cur_k));
        k.push(Some(cur_k));
        d.push(Some(cur_d));
        j.push(Some(N::from_int(3).times(cur_k).minus(N::from_int(2).times(cur_d))));
        prev_k = cur_k;
        prev_d = cur_d;
        i += 1;
        assert(k@ =~= lines.0.take(i as int));
        assert(d@ =~= lines.1.take(i as int));
        assert(j@ =~= lines.2.take(i as int));
    }
    assert(k@ =~= lines.0);
    assert(d@ =~= lines.1);
    assert(j@ =~= lines.2);
    Kdj { k, d, j }
}

/// The lines at a bar depend on no later price.
pub proof fn kdj_looks_back_only<N: Scalar>(
    high: Seq<N>,
    low: Seq<N>,
    close: Seq<N>,
    period: int,
    i: int,
)
    requires
        0 <= i < close.len(),
        high.len() >= close.len(),
        low.len() >= close.len(),
        period > 0,
    ensures
        ({
            let n = i + 1;
            let all = kdj_lines(high, low, close, period);
            let past = kdj_lines(high.take(n), low.take(n), close.take(n), period);
            &&& all.0[i] == past.0[i]
            &&& all.1[i] == past.1[i]
            &&& all.2[i] == past.2[i]
        }),
{
    kdj_prefix(high, low, close, period, i, i + 1);
}

proof fn kdj_prefix<N: Scalar>(
    high: Seq<N>,
    low: Seq<N>,
    close: Seq<N>,
    period: int,
    i: int,
    n: int,
)
    requires
        i < n <= close.len(),
        high.len() >= close.len(),
        low.len() >= close.len(),
        period > 0,
    ensures
        k_value(high, low, close, period, i) == k_value(
            high.take(n),
            low.take(n),
            close.take(n),
            period,
            i,
        ),
        d_value(high, low, close, period, i) == d_value(
            high.take(n),
            low.take(n),
            close.take(n),
            period,
            i,
        ),
    decreases i + 1,
{
    if i >= 0 && i + 1 >= period {
        kdj_prefix(high, low, close, period, i - 1, n);
        assert(high.take(n).subrange(i + 1 - period, i + 1) =~= high.subrange(
            i + 1 - period,
            i + 1,
        ));
        assert(low.take(n).subrange(i + 1 - period, i + 1) =~= low.subrange(
            i + 1 - period,
            i + 1,
        ));
    }
}

} // verus!
