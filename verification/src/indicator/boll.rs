//! Bollinger bands.
use super::ma;
use super::ma::sma;
use crate::num;
use crate::num::Scalar;
use vstd::prelude::*;

verus! {

pub struct Boll<N: Scalar> {
    pub upper: Vec<Option<N>>,
    pub mid: Vec<Option<N>>,
    pub lower: Vec<Option<N>>,
}

/// The squares of the distances from `m`.
pub open spec fn deviations<N: Scalar>(s: Seq<N>, m: N) -> Seq<N> {
    Seq::new(s.len(), |j: int| num::squared(s[j].difference(m)))
}

/// The distance of the bands from the middle at bar `i`.
pub open spec fn band<N: Scalar>(data: Seq<N>, period: int, mult: N, i: int, m: N) -> N {
    mult.product(
        num::total(deviations(data.subrange(i + 1 - period, i + 1), m)).quotient(
            N::whole(period),
        ).root(),
    )
}

/// The upper band at bar `i`.
pub open spec fn upper_at<N: Scalar>(data: Seq<N>, period: int, mult: N, i: int) -> Option<N> {
    match ma::sma_at(data, period, i) {
        Some(m) => Some(m.sum(band(data, period, mult, i, m))),
        None => None,
    }
}

/// The lower band at bar `i`.
pub open spec fn lower_at<N: Scalar>(data: Seq<N>, period: int, mult: N, i: int) -> Option<N> {
    match ma::sma_at(data, period, i) {
        Some(m) => Some(m.difference(band(data, period, mult, i, m))),
        None => None,
    }
}

/// The upper band, the middle and the lower band of a series of prices.
pub open spec fn boll_lines<N: Scalar>(data: Seq<N>, period: int, mult: N) -> (
    Seq<Option<N>>,
    Seq<Option<N>>,
    Seq<Option<N>>,
) {
    (
        Seq::new(data.len(), |i: int| upper_at(data, period, mult, i)),
        ma::sma_of(data, period),
        Seq::new(data.len(), |i: int| lower_at(data, period, mult, i)),
    )
}

/// The bands around the simple moving average over `period` prices, `mult` standard
/// deviations of these prices away from it.
pub fn boll<N: Scalar>(data: &[N], period: usize, mult: N) -> (r: Boll<N>)
    ensures
        r.mid@ == ma::sma_of(data@, period as int),
        r.upper@ == Seq::new(data@.len(), |i: int| upper_at(data@, period as int, mult, i)),
        r.lower@ == Seq::new(data@.len(), |i: int| lower_at(data@, period as int, mult, i)),
        (r.upper@, r.mid@, r.lower@) == boll_lines(data@, period as int, mult),
{
    let mid = sma(data, period);
    let n = data.len();
    let mut upper: Vec<Option<N>> = Vec::new();
    let mut lower: Vec<Option<N>> = Vec::new();
    let mut i: usize = 0;
    while i < n
        invariant
            n == data@.len(),
            i <= n,
            mid@ == ma::sma_of(data@, period as int),
            upper@.len() == i,
            lower@.len() == i,
            forall|j: int| 0 <= j < i ==> upper@[j] == upper_at(data@, period as int, mult, j),
            forall|j: int| 0 <= j < i ==> lower@[j] == lower_at(data@, period as int, mult, j),
        decreases n - i,
    {
        match mid[i] {
            Some(m) => {
                let from: usize = i - (period - 1);
                let ghost window = data@.subrange(from as int, i + 1);
                let mut acc = num::zero::<N>();
                let mut k: usize = from;
                assert(deviations(window, m).take(0) =~= Seq::<N>::empty());
                while k <= i
                    invariant
                        from <= k <= i + 1,
                        i < n == data@.len(),
                        window == data@.subrange(from as int, i + 1),
                        acc == num::total(deviations(window, m).take(k - from)),
                    decreases i + 1 - k,
                {
                    let ghost next = deviations(window, m).take(k - from + 1);
                    assert(next.drop_last() =~= deviations(window, m).take(k - from));
                    assert(next.last() == num::squared(data@[k as int].difference(m)));
                    let x = data[k].minus(m);
                    acc = acc.plus(x.times(x));
                    k += 1;
                }
                assert(deviations(window, m).take(i + 1 - from) =~= deviations(window, m));
                let sd = acc.over(N::from_int(period as i128)).sqrt();
                upper.push(Some(m.plus(mult.times(sd))));
                lower.push(Some(m.minus(mult.times(sd))));
            },
            None => {
                upper.push(None);
                lower.push(None);
            },
        }
        i += 1;
    }
    assert(upper@ =~= Seq::new(data@.len(), |i: int| upper_at(data@, period as int, mult, i)));
    assert(lower@ =~= Seq::new(data@.len(), |i: int| lower_at(data@, period as int, mult, i)));
    Boll { upper, mid, lower }
}

/// The bands at a bar depend on no later price.
pub proof fn boll_looks_back_only<N: Scalar>(data: Seq<N>, period: int, mult: N, i: int)
    requires
        0 <= i < data.len(),
        period > 0,
    ensures
        upper_at(data, period, mult, i) == upper_at(data.take(i + 1), period, mult, i),
        lower_at(data, period, mult, i) == lower_at(data.take(i + 1), period, mult, i),
{
    ma::sma_looks_back_only(data, period, i);
    if i + 1 >= period {
        assert(data.take(i + 1).subrange(i + 1 - period, i + 1) =~= data.subrange(
            i + 1 - period,
            i + 1,
        ));
    }
}

} // verus!
