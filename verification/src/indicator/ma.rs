//! Moving averages.
use crate::num;
use crate::num::Scalar;
use vstd::prelude::*;

verus! {

/// The running sum at bar `i`: each price is added when it comes and taken off again
/// `period` bars later.
pub open spec fn running<N: Scalar>(data: Seq<N>, period: int, i: int) -> N
    decreases i + 1,
{
    if i < 0 {
        num::nil::<N>()
    } else {
        let s = running(data, period, i - 1).sum(data[i]);
        if i >= period {
            s.difference(data[i - period])
        } else {
            s
        }
    }
}

/// The simple moving average at bar `i`.
pub open spec fn sma_at<N: Scalar>(data: Seq<N>, period: int, i: int) -> Option<N> {
    if period > 0 && i + 1 >= period {
        Some(running(data, period, i).quotient(N::whole(period)))
    } else {
        None
    }
}

/// The simple moving average of a series.
pub open spec fn sma_of<N: Scalar>(data: Seq<N>, period: int) -> Seq<Option<N>> {
    Seq::new(data.len(), |i: int| sma_at(data, period, i))
}

/// The simple moving average over `period` prices. There is none before bar `period` - 1,
/// nor where `period` is 0.
pub fn sma<N: Scalar>(data: &[N], period: usize) -> (r: Vec<Option<N>>)
    ensures
        r@ == sma_of(data@, period as int),
{
    let mut out: Vec<Option<N>> = Vec::new();
    let mut sum = num::zero::<N>();
    let mut i: usize = 0;
    while i < data.len()
        invariant
            i <= data@.len(),
            sum == running(data@, period as int, i - 1),
            out@.len() == i,
            forall|j: int| 0 <= j < i ==> out@[j] == sma_at(data@, period as int, j),
        decreases data@.len() - i,
    {
        sum = sum.plus(data[i]);
        if i >= period {
            sum = sum.minus(data[i - period]);
        }
        if period > 0 && i >= period - 1 {
            out.push(Some(sum.over(N::from_int(period as i128))));
        } else {
            out.push(None);
        }
        i += 1;
    }
    assert(out@ =~= sma_of(data@, period as int));
    out
}

/// The weight of the newest price in an exponential moving average.
pub open spec fn ema_weight<N: Scalar>(period: int) -> N {
    N::whole(2).quotient(N::whole(period).sum(num::unit::<N>()))
}

/// The exponential moving average at bar `i`, from bar `period` - 1 on.
pub open spec fn ema_value<N: Scalar>(data: Seq<N>, period: int, i: int) -> N
    decreases i,
{
    if i < period || i <= 0 {
        num::total(data.take(period)).quotient(N::whole(period))
    } else {
        let k = ema_weight::<N>(period);
        data[i].product(k).sum(
            ema_value(data, period, i - 1).product(num::unit::<N>().difference(k)),
        )
    }
}

/// The exponential moving average at bar `i`.
pub open spec fn ema_at<N: Scalar>(data: Seq<N>, period: int, i: int) -> Option<N> {
    if period > 0 && i + 1 >= period {
        Some(ema_value(data, period, i))
    } else {
        None
    }
}

/// The exponential moving average of a series.
pub open spec fn ema_of<N: Scalar>(data: Seq<N>, period: int) -> Seq<Option<N>> {
    Seq::new(data.len(), |i: int| ema_at(data, period, i))
}

/// The exponential moving average over `period` prices. Its first value, at bar
/// `period` - 1, is the mean of the prices up to there.
pub fn ema<N: Scalar>(data: &[N], period: usize) -> (r: Vec<Option<N>>)
    ensures
        r@ == ema_of(data@, period as int),
{
    let n = data.len();
    if period == 0 || n < period {
        let out: Vec<Option<N>> = num::filled(None, n);
        assert(out@ =~= ema_of(data@, period as int));
        return out;
    }
    let p = N::from_int(period as i128);
    let k = N::from_int(2).over(p.plus(num::one::<N>()));
    let rest = num::one::<N>().minus(k);
    let seed = num::add_up(data, 0, period).over(p);
    assert(data@.subrange(0, period as int) =~= data@.take(period as int));
    let mut out: Vec<Option<N>> = num::filled(None, period - 1);
    let mut prev = seed;
    out.push(Some(seed));
    let mut i: usize = period;
    while i < n
        invariant
            n == data@.len(),
            0 < period <= i <= n,
            k == ema_weight::<N>(period as int),
            rest == num::unit::<N>().difference(k),
            prev == ema_value(data@, period as int, i - 1),
            out@.len() == i,
            forall|j: int| 0 <= j < i ==> out@[j] == ema_at(data@, period as int, j),
        decreases n - i,
    {
        prev = data[i].times(k).plus(prev.times(rest));
        out.push(Some(prev));
        i += 1;
    }
    assert(out@ =~= ema_of(data@, period as int));
    out
}

/// The simple moving average at a bar depends on no later price.
pub proof fn sma_looks_back_only<N: Scalar>(data: Seq<N>, period: int, i: int)
    requires
        0 <= i < data.len(),
        period > 0,
    ensures
        sma_at(data, period, i) == sma_at(data.take(i + 1), period, i),
{
    running_prefix(data, period, i, i + 1);
}

proof fn running_prefix<N: Scalar>(data: Seq<N>, period: int, i: int, n: int)
    requires
        i < n <= data.len(),
        period > 0,
    ensures
        running(data, period, i) == running(data.take(n), period, i),
    decreases i + 1,
{
    if i >= 0 {
        running_prefix(data, period, i - 1, n);
    }
}

/// The exponential moving average at a bar depends on no later price.
pub proof fn ema_looks_back_only<N: Scalar>(data: Seq<N>, period: int, i: int)
    requires
        0 <= i < data.len(),
    ensures
        ema_at(data, period, i) == ema_at(data.take(i + 1), period, i),
{
    if period > 0 && i + 1 >= period {
        ema_prefix(data, period, i, i + 1);
    }
}

pub(crate) proof fn ema_prefix<N: Scalar>(data: Seq<N>, period: int, i: int, n: int)
    requires
        0 < period <= i + 1 <= n <= data.len(),
    ensures
        ema_value(data, period, i) == ema_value(data.take(n), period, i),
    decreases i,
{
    assert(data.take(n).take(period) =~= data.take(period));
    if i >= period {
        ema_prefix(data, period, i - 1, n);
    }
}

} // verus!
