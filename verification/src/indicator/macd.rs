//! Moving average convergence and divergence.
use super::ma;
use super::ma::ema;
use crate::num::Scalar;
use vstd::prelude::*;

verus! {

pub struct Macd<N: Scalar> {
    pub dif: Vec<Option<N>>,
    pub dea: Vec<Option<N>>,
    pub macd: Vec<Option<N>>,
}

/// The fast average less the slow one at bar `i`.
pub open spec fn dif_at<N: Scalar>(data: Seq<N>, fast: int, slow: int, i: int) -> Option<N> {
    match (ma::ema_at(data, fast, i), ma::ema_at(data, slow, i)) {
        (Some(f), Some(s)) => Some(f.difference(s)),
        _ => None,
    }
}

/// The fast average less the slow one.
pub open spec fn dif_of<N: Scalar>(data: Seq<N>, fast: int, slow: int) -> Seq<Option<N>> {
    Seq::new(data.len(), |i: int| dif_at(data, fast, slow, i))
}

/// The values that are there, in order.
pub open spec fn known<N: Scalar>(s: Seq<Option<N>>) -> Seq<N>
    decreases s.len(),
{
    if s.len() == 0 {
        Seq::empty()
    } else {
        match s.last() {
            Some(x) => known(s.drop_last()).push(x),
            None => known(s.drop_last()),
        }
    }
}

/// The average of the differences at bar `i`: taken over those bars alone that have one.
pub open spec fn dea_at<N: Scalar>(dif: Seq<Option<N>>, signal: int, i: int) -> Option<N> {
    match dif[i] {
        Some(x) => ma::ema_at(known(dif), signal, known(dif.take(i)).len() as int),
        None => None,
    }
}

/// The average of the differences.
pub open spec fn dea_of<N: Scalar>(dif: Seq<Option<N>>, signal: int) -> Seq<Option<N>> {
    Seq::new(dif.len(), |i: int| dea_at(dif, signal, i))
}

/// Twice what the difference is above its average at bar `i`.
pub open spec fn bar_at<N: Scalar>(dif: Seq<Option<N>>, signal: int, i: int) -> Option<N> {
    match (dif[i], dea_at(dif, signal, i)) {
        (Some(d), Some(e)) => Some(N::whole(2).product(d.difference(e))),
        _ => None,
    }
}

/// Twice what the differences are above their average.
pub open spec fn bar_of<N: Scalar>(dif: Seq<Option<N>>, signal: int) -> Seq<Option<N>> {
    Seq::new(dif.len(), |i: int| bar_at(dif, signal, i))
}

/// The difference, its average and the bar of a series of prices.
pub open spec fn macd_lines<N: Scalar>(data: Seq<N>, fast: int, slow: int, signal: int) -> (
    Seq<Option<N>>,
    Seq<Option<N>>,
    Seq<Option<N>>,
) {
    let dif = dif_of(data, fast, slow);
    (dif, dea_of(dif, signal), bar_of(dif, signal))
}

/// There are no more known values among the first ones than among all.
proof fn known_prefix<N: Scalar>(s: Seq<Option<N>>, i: int)
    requires
        0 <= i <= s.len(),
    ensures
        known(s.take(i)).len() <= known(s).len(),
        known(s).take(known(s.take(i)).len() as int) == known(s.take(i)),
        i < s.len() && s[i] is Some ==> known(s.take(i)).len() < known(s).len(),
    decreases s.len(),
{
    if i == s.len() {
        assert(s.take(i) =~= s);
        assert(known(s).take(known(s).len() as int) =~= known(s));
    } else {
        let t = s.drop_last();
        known_prefix(t, i);
        assert(t.take(i) =~= s.take(i));
        assert(known(s).take(known(t).len() as int) =~= known(t));
        assert(known(s).take(known(s.take(i)).len() as int) =~= known(t).take(
            known(s.take(i)).len() as int,
        ));
        if i < t.len() {
            assert(t[i] == s[i]);
        }
    }
}

/// There are no more known values before a bar than bars.
pub(crate) proof fn known_count<N: Scalar>(s: Seq<Option<N>>, i: int)
    requires
        0 <= i <= s.len(),
    ensures
        known(s.take(i)).len() <= i,
    decreases i,
{
    if i > 0 {
        known_count(s, i - 1);
        assert(s.take(i).drop_last() =~= s.take(i - 1));
    }
}

/// The difference of two exponential moving averages, its own average over `signal` bars,
/// and twice the distance between the two.
pub fn macd<N: Scalar>(data: &[N], fast: usize, slow: usize, signal: usize) -> (r: Macd<N>)
    ensures
        r.dif@ == dif_of(data@, fast as int, slow as int),
        r.dea@ == dea_of(dif_of(data@, fast as int, slow as int), signal as int),
        r.macd@ == bar_of(dif_of(data@, fast as int, slow as int), signal as int),
        (r.dif@, r.dea@, r.macd@) == macd_lines(data@, fast as int, slow as int, signal as int),
{
    let n = data.len();
    let ghost difs = dif_of(data@, fast as int, slow as int);
    let ema_fast = ema(data, fast);
    let ema_slow = ema(data, slow);
    let mut dif: Vec<Option<N>> = Vec::new();
    let mut vals: Vec<N> = Vec::new();
    let mut i: usize = 0;
    assert(difs.take(0) =~= Seq::<Option<N>>::empty());
    while i < n
        invariant
            n == data@.len(),
            i <= n,
            difs == dif_of(data@, fast as int, slow as int),
            ema_fast@ == ma::ema_of(data@, fast as int),
            ema_slow@ == ma::ema_of(data@, slow as int),
            dif@ == difs.take(i as int),
            vals@ == known(difs.take(i as int)),
        decreases n - i,
    {
        assert(difs.take(i + 1).drop_last() =~= difs.take(i as int));
        match (ema_fast[i], ema_slow[i]) {
            (Some(f), Some(s)) => {
                let d = f.minus(s);
                dif.push(Some(d));
                vals.push(d);
            },
            _ => {
                dif.push(None);
            },
        }
        i += 1;
        assert(dif@ =~= difs.take(i as int));
    }
    assert(difs.take(n as int) =~= difs);
    let dea_partial = ema(vals.as_slice(), signal);
    let mut dea: Vec<Option<N>> = Vec::new();
    let mut line: Vec<Option<N>> = Vec::new();
    let mut i: usize = 0;
    let mut j: usize = 0;
    while i < n
        invariant
            n == difs.len(),
            i <= n,
            dif@ == difs,
            vals@ == known(difs),
            dea_partial@ == ma::ema_of(known(difs), signal as int),
            j == known(difs.take(i as int)).len(),
            j <= i,
            dea@.len() == i,
            line@.len() == i,
            forall|k: int| 0 <= k < i ==> dea@[k] == dea_at(difs, signal as int, k),
            forall|k: int| 0 <= k < i ==> line@[k] == bar_at(difs, signal as int, k),
        decreases n - i,
    {
        assert(difs.take(i + 1).drop_last() =~= difs.take(i as int));
        proof {
            known_prefix(difs, i as int);
        }
        match dif[i] {
            Some(d) => {
                let e = dea_partial[j];
                dea.push(e);
                match e {
                    Some(e) => {
                        line.push(Some(N::from_int(2).times(d.minus(e))));
                    },
                    None => {
                        line.push(None);
                    },
                }
                j += 1;
            },
            None => {
                dea.push(None);
                line.push(None);
            },
        }
        i += 1;
    }
    assert(dea@ =~= dea_of(difs, signal as int));
    assert(line@ =~= bar_of(difs, signal as int));
    Macd { dif, dea, macd: line }
}

/// The three lines at a bar depend on no later price.
pub proof fn macd_looks_back_only<N: Scalar>(
    data: Seq<N>,
    fast: int,
    slow: int,
    signal: int,
    i: int,
)
    requires
        0 <= i < data.len(),
    ensures
        ({
            let all = dif_of(data, fast, slow);
            let past = dif_of(data.take(i + 1), fast, slow);
            &&& all[i] == past[i]
            &&& dea_of(all, signal)[i] == dea_of(past, signal)[i]
            &&& bar_of(all, signal)[i] == bar_of(past, signal)[i]
        }),
{
    let all = dif_of(data, fast, slow);
    let past = dif_of(data.take(i + 1), fast, slow);
    assert forall|k: int| 0 <= k <= i implies all[k] == past[k] by {
        ma::ema_looks_back_only(data, fast, k);
        ma::ema_looks_back_only(data, slow, k);
        ma::ema_looks_back_only(data.take(i + 1), fast, k);
        ma::ema_looks_back_only(data.take(i + 1), slow, k);
        assert(data.take(i + 1).take(k + 1) =~= data.take(k + 1));
    }
    assert(past =~= all.take(i + 1));
    assert(past.take(i) =~= all.take(i));
    known_prefix(all, i);
    known_prefix(all, i + 1);
    known_prefix(past, i);
    let j = known(all.take(i)).len() as int;
    if all[i] is Some {
        ma::ema_looks_back_only(known(all), signal, j);
        ma::ema_looks_back_only(known(past), signal, j);
        assert(past.drop_last() =~= all.take(i));
        assert(known(past).len() == j + 1);
        assert(known(all).take(j + 1) =~= known(past));
        assert(known(past).take(j + 1) =~= known(past));
    }
}

} // verus!
