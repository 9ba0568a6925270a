//! The relative strength index.
use crate::num;
use crate::num::Scalar;
use vstd::prelude::*;

verus! {

/// The change of the price at bar `i`.
pub open spec fn change<N: Scalar>(data: Seq<N>, i: int) -> N {
    data[i].difference(data[i - 1])
}

/// The gains of the bars from 1 to `i`, added up.
pub open spec fn gains<N: Scalar>(data: Seq<N>, i: int) -> N
    decreases i,
{
    if i <= 0 {
        num::nil::<N>()
    } else if num::not_below_zero(change(data, i)) {
        gains(data, i - 1).sum(change(data, i))
    } else {
        gains(data, i - 1)
    }
}

/// The losses of the bars from 1 to `i`, added up.
pub open spec fn losses<N: Scalar>(data: Seq<N>, i: int) -> N
    decreases i,
{
    if i <= 0 {
        num::nil::<N>()
    } else if num::not_below_zero(change(data, i)) {
        losses(data, i - 1)
    } else {
        losses(data, i - 1).difference(change(data, i))
    }
}

/// An average with one value taken out and another put in.
pub open spec fn wilder<N: Scalar>(average: N, period: int, value: N) -> N {
    average.product(N::whole(period).difference(num::unit::<N>())).sum(value).quotient(
        N::whole(period),
    )
}

/// The smoothed gain at bar `i`, from bar `period` on.
pub open spec fn average_gain<N: Scalar>(data: Seq<N>, period: int, i: int) -> N
    decreases i,
{
    if i <= period || i <= 0 {
        gains(data, period).quotient(N::whole(period))
    } else {
        wilder(
            average_gain(data, period, i - 1),
            period,
            if num::not_below_zero(change(data, i)) {
                change(data, i)
            } else {
                num::nil::<N>()
            },
        )
    }
}

/// The smoothed loss at bar `i`, from bar `period` on.
pub open spec fn average_loss<N: Scalar>(data: Seq<N>, period: int, i: int) -> N
    decreases i,
{
    if i <= period || i <= 0 {
        losses(data, period).quotient(N::whole(period))
    } else {
        wilder(
            average_loss(data, period, i - 1),
            period,
            if num::not_below_zero(change(data, i)) {
                num::nil::<N>()
            } else {
                num::nil::<N>().difference(change(data, i))
            },
        )
    }
}

/// The index that belongs to a gain and a loss: 100 where there is no loss.
pub open spec fn strength<N: Scalar>(gain: N, loss: N) -> N {
    if num::zeroed(loss) {
        N::whole(100)
    } else {
        N::whole(100).difference(
            N::whole(100).quotient(num::unit::<N>().sum(gain.quotient(loss))),
        )
    }
}

/// The relative strength index at bar `i`.
pub open spec fn rsi_at<N: Scalar>(data: Seq<N>, period: int, i: int) -> Option<N> {
    if period > 0 && i >= period {
        Some(strength(average_gain(data, period, i), average_loss(data, period, i)))
    } else {
        None
    }
}

/// The relative strength index of a series.
pub open spec fn rsi_of<N: Scalar>(data: Seq<N>, period: int) -> Seq<Option<N>> {
    Seq::new(data.len(), |i: int| rsi_at(data, period, i))
}

fn rsi_from<N: Scalar>(gain: N, loss: N) -> (r: N)
    ensures
        r == strength(gain, loss),
{
    if num::is_zero(loss) {
        return N::from_int(100);
    }
    let rs = gain.over(loss);
    N::from_int(100).minus(N::from_int(100).over(num::one::<N>().plus(rs)))
}

/// The relative strength index over `period` changes of the price, smoothed after Wilder.
/// There is none before bar `period`.
pub fn rsi<N: Scalar>(data: &[N], period: usize) -> (r: Vec<Option<N>>)
    ensures
        r@ == rsi_of(data@, period as int),
{
    let n = data.len();
    if period == 0 || n <= period {
        let out: Vec<Option<N>> = num::filled(None, n);
        assert(out@ =~= rsi_of(data@, period as int));
        return out;
    }
    let p = N::from_int(period as i128);
    let mut gain = num::zero::<N>();
    let mut loss = num::zero::<N>();
    let mut i: usize = 1;
    while i <= period
        invariant
            n == data@.len(),
            1 <= i <= period + 1,
            period < n,
            gain == gains(data@, i - 1),
            loss == losses(data@, i - 1),
        decreases period + 1 - i,
    {
        let ch = data[i].minus(data[i - 1]);
        if num::non_negative(ch) {
            gain = gain.plus(ch);
        } else {
            loss = loss.minus(ch);
        }
        i += 1;
    }
    let mut avg_gain = gain.over(p);
    let mut avg_loss = loss.over(p);
    let less_one = p.minus(num::one::<N>());
    let mut out: Vec<Option<N>> = num::filled(None, period);
    out.push(Some(rsi_from(avg_gain, avg_loss)));
    let mut i: usize = period + 1;
    while i < n
        invariant
            n == data@.len(),
            0 < period < i <= n,
            p == N::whole(period as int),
            less_one == p.difference(num::unit::<N>()),
            avg_gain == average_gain(data@, period as int, i - 1),
            avg_loss == average_loss(data@, period as int, i - 1),
            out@.len() == i,
            forall|j: int| 0 <= j < i ==> out@[j] == rsi_at(data@, period as int, j),
        decreases n - i,
    {
        let ch = data[i].minus(data[i - 1]);
        let (g, l) = if num::non_negative(ch) {
            (ch, num::zero::<N>())
        } else {
            (num::zero::<N>(), num::zero::<N>().minus(ch))
        };
        avg_gain = avg_gain.times(less_one).plus(g).over(p);
        avg_loss = avg_loss.times(less_one).plus(l).over(p);
        out.push(Some(rsi_from(avg_gain, avg_loss)));
        i += 1;
    }
    assert(out@ =~= rsi_of(data@, period as int));
    out
}

/// The index at a bar depends on no later price.
pub proof fn rsi_looks_back_only<N: Scalar>(data: Seq<N>, period: int, i: int)
    requires
        0 <= i < data.len(),
    ensures
        rsi_at(data, period, i) == rsi_at(data.take(i + 1), period, i),
{
    if period > 0 && i >= period {
        average_prefix(data, period, i, i + 1);
    }
}

proof fn sums_prefix<N: Scalar>(data: Seq<N>, i: int, n: int)
    requires
        i < n <= data.len(),
    ensures
        gains(data, i) == gains(data.take(n), i),
        losses(data, i) == losses(data.take(n), i),
    decreases i,
{
    if i > 0 {
        sums_prefix(data, i - 1, n);
    }
}

proof fn average_prefix<N: Scalar>(data: Seq<N>, period: int, i: int, n: int)
    requires
        0 < period <= i < n <= data.len(),
    ensures
        average_gain(data, period, i) == average_gain(data.take(n), period, i),
        average_loss(data, period, i) == average_loss(data.take(n), period, i),
    decreases i,
{
    if i == period {
        sums_prefix(data, period, n);
    } else {
        average_prefix(data, period, i - 1, n);
    }
}

} // verus!
