//! One source of prices after the other: where one fails, the next is asked.
use super::models;
use super::models::{KLine, Market, Quote, QuoteView};
use super::wire;
use crate::num::Scalar;
use crate::text;
use crate::utils::date;
use std::time::SystemTime;
use vstd::prelude::*;

verus! {

/// A source of prices.
#[derive(Debug, Clone, Copy, PartialEq, Eq, Structural)]
pub enum Source {
    Eastmoney,
    Tencent,
    Sina,
    Xueqiu,
}

/// The name of a source.
pub open spec fn source_name(s: Source) -> Seq<char> {
    match s {
        Source::Eastmoney => "eastmoney"@,
        Source::Tencent => "tencent"@,
        Source::Sina => "sina"@,
        Source::Xueqiu => "xueqiu"@,
    }
}

impl Source {
    pub fn name(&self) -> (r: &'static str)
        ensures
            r@ == source_name(*self),
    {
        match self {
            Source::Eastmoney => "eastmoney",
            Source::Tencent => "tencent",
            Source::Sina => "sina",
            Source::Xueqiu => "xueqiu",
        }
    }
}

/// The sources in the order in which they are asked, for quotes and for bars: Eastmoney,
/// which gives the most, Tencent, which adjusts for dividends, and Sina.
pub open spec fn chain() -> Seq<Source> {
    seq![Source::Eastmoney, Source::Tencent, Source::Sina]
}

/// The source that comes after so many others.
pub fn source_at(asked: usize) -> (r: Option<Source>)
    ensures
        r == (if asked < chain().len() {
            Some(chain()[asked as int])
        } else {
            None
        }),
{
    if asked == 0 {
        Some(Source::Eastmoney)
    } else if asked == 1 {
        Some(Source::Tencent)
    } else if asked == 2 {
        Some(Source::Sina)
    } else {
        None
    }
}

// ---------------------------------------------------------------------------
// Bars
// ---------------------------------------------------------------------------
/// What is said of a source that gave no bars.
pub open spec fn empty_line(s: Source) -> Seq<char> {
    "  ["@ + source_name(s) + "] 返回空数据"@
}

/// What is said of a source that failed.
pub open spec fn error_line(s: Source, e: Seq<char>) -> Seq<char> {
    "  ["@ + source_name(s) + "] "@ + e
}

/// A search for bars, source by source.
pub struct KlineHunt {
    /// How many sources have been asked.
    pub asked: usize,
    /// What is said of each of them.
    pub errs: Vec<String>,
}

impl KlineHunt {
    pub fn new() -> (r: Self)
        ensures
            r.asked == 0,
            r.errs@.len() == 0,
    {
        KlineHunt { asked: 0, errs: Vec::new() }
    }

    /// The source to ask, if one is left.
    pub fn next(&self) -> (r: Option<Source>)
        ensures
            r == (if self.asked < chain().len() {
                Some(chain()[self.asked as int])
            } else {
                None
            }),
    {
        source_at(self.asked)
    }

    /// Takes the answer of the source that was asked. The search is over where the answer
    /// holds bars, and goes on otherwise.
    pub fn take<N: Scalar>(&mut self, answer: Result<(String, Vec<KLine<N>>), String>) -> (r:
        Option<(String, Vec<KLine<N>>)>)
        requires
            old(self).asked < chain().len(),
        ensures
            final(self).asked == old(self).asked + 1,
            match answer {
                Ok((name, bars)) => if bars@.len() > 0 {
                    r == Some((name, bars)) && final(self).errs@ == old(self).errs@
                } else {
                    r is None && text::texts(final(self).errs@) == text::texts(
                        old(self).errs@,
                    ).push(empty_line(chain()[old(self).asked as int]))
                },
                Err(e) => r is None && text::texts(final(self).errs@) == text::texts(
                    old(self).errs@,
                ).push(error_line(chain()[old(self).asked as int], e@)),
            },
    {
        let ghost had = self.errs@;
        let name = match source_at(self.asked) {
            Some(s) => s.name(),
            None => "",
        };
        self.asked = self.asked + 1;
        match answer {
            Ok((title, bars)) => {
                if bars.len() > 0 {
                    Some((title, bars))
                } else {
                    self.errs.push(wire::message("  [", name, "] 返回空数据"));
                    assert(text::texts(self.errs@) =~= text::texts(had).push(
                        self.errs@.last()@,
                    ));
                    None
                }
            },
            Err(e) => {
                let mut line = wire::message("  [", name, "] ");
                line.append(e.as_str());
                self.errs.push(line);
                assert(text::texts(self.errs@) =~= text::texts(had).push(self.errs@.last()@));
                None
            },
        }
    }

    /// What is said where every source failed.
    pub fn failure(&self) -> (r: String)
        ensures
            r@ == "所有日K源均失败：\n"@ + text::joined(text::texts(self.errs@), "\n"@),
    {
        wire::both("所有日K源均失败：\n", text::join(&self.errs, "\n").as_str())
    }
}

// ---------------------------------------------------------------------------
// Quotes
// ---------------------------------------------------------------------------
/// Requests, apart from the texts that hold the codes.
pub open spec fn requests(v: Seq<(String, Market)>) -> Seq<(Seq<char>, Market)> {
    Seq::new(v.len(), |i: int| (v[i].0@, v[i].1))
}

/// Quotes by code, each with its source, after the first `n` quotes of a source have come
/// in. A quote that is there stays.
pub open spec fn absorbed<N: Scalar>(
    m: Map<Seq<char>, (QuoteView<N>, Source)>,
    quotes: Seq<QuoteView<N>>,
    source: Source,
    n: int,
) -> Map<Seq<char>, (QuoteView<N>, Source)>
    decreases n,
{
    if n <= 0 {
        m
    } else {
        let a = absorbed(m, quotes, source, n - 1);
        if a.contains_key(quotes[n - 1].code) {
            a
        } else {
            a.insert(quotes[n - 1].code, (quotes[n - 1], source))
        }
    }
}

/// The requests among the first `n` whose codes no quote has come for.
pub open spec fn missing<N: Scalar>(
    reqs: Seq<(Seq<char>, Market)>,
    m: Map<Seq<char>, (QuoteView<N>, Source)>,
    n: int,
) -> Seq<(Seq<char>, Market)>
    decreases n,
{
    if n <= 0 {
        Seq::empty()
    } else if m.contains_key(reqs[n - 1].0) {
        missing(reqs, m, n - 1)
    } else {
        missing(reqs, m, n - 1).push(reqs[n - 1])
    }
}

/// A code is asked for before place `n`.
pub open spec fn asked_before(reqs: Seq<(Seq<char>, Market)>, n: int, code: Seq<char>) -> bool {
    exists|k: int| 0 <= k < n && (#[trigger] reqs[k]).0 == code
}

/// The quotes of the first `n` requests in their order, each once.
pub open spec fn picked<N: Scalar>(
    reqs: Seq<(Seq<char>, Market)>,
    m: Map<Seq<char>, (QuoteView<N>, Source)>,
    n: int,
) -> Seq<(QuoteView<N>, Source)>
    decreases n,
{
    if n <= 0 {
        Seq::empty()
    } else {
        let code = reqs[n - 1].0;
        if m.contains_key(code) && !asked_before(reqs, n - 1, code) {
            picked(reqs, m, n - 1).push(m[code])
        } else {
            picked(reqs, m, n - 1)
        }
    }
}

/// Quotes with their sources, apart from their containers.
pub open spec fn sourced<N: Scalar>(v: Seq<(Quote<N>, Source)>) -> Seq<(QuoteView<N>, Source)> {
    Seq::new(v.len(), |i: int| (v[i].0@, v[i].1))
}

/// Quotes with their sources by code, the first of a code before the others.
pub open spec fn by_code<N: Scalar>(v: Seq<(QuoteView<N>, Source)>) -> Map<
    Seq<char>,
    (QuoteView<N>, Source),
>
    decreases v.len(),
{
    if v.len() == 0 {
        Map::empty()
    } else {
        let m = by_code(v.drop_last());
        if m.contains_key(v.last().0.code) {
            m
        } else {
            m.insert(v.last().0.code, v.last())
        }
    }
}

/// The codes of requests.
pub open spec fn codes(reqs: Seq<(Seq<char>, Market)>) -> Seq<Seq<char>> {
    Seq::new(reqs.len(), |i: int| reqs[i].0)
}

/// A search for quotes, source by source. What one source does not give, the next is asked
/// for.
pub struct QuoteHunt<N: Scalar> {
    /// What is asked for.
    pub reqs: Vec<(String, Market)>,
    /// What has come.
    pub found: Vec<(Quote<N>, Source)>,
    /// What has not come.
    pub remaining: Vec<(String, Market)>,
    /// How many sources have been asked.
    pub asked: usize,
}

impl<N: Scalar> QuoteHunt<N> {
    /// What has come, by code.
    pub open spec fn map(&self) -> Map<Seq<char>, (QuoteView<N>, Source)> {
        by_code(sourced(self.found@))
    }

    /// What has not come is what is asked for without what has come.
    pub open spec fn wf(&self) -> bool {
        requests(self.remaining@) == missing(
            requests(self.reqs@),
            self.map(),
            self.reqs@.len() as int,
        )
    }

    pub fn new(reqs: &[(String, Market)]) -> (r: Self)
        ensures
            r.wf(),
            requests(r.reqs@) == requests(reqs@),
            r.map() == Map::<Seq<char>, (QuoteView<N>, Source)>::empty(),
            r.asked == 0,
    {
        let all = copied(reqs);
        let left = copied(reqs);
        let found: Vec<(Quote<N>, Source)> = Vec::new();
        proof {
            let m = Map::<Seq<char>, (QuoteView<N>, Source)>::empty();
            assert(sourced(found@) =~= Seq::empty());
            all_missing::<N>(requests(reqs@), m, reqs@.len() as int);
            assert(requests(reqs@).take(reqs@.len() as int) =~= requests(reqs@));
        }
        QuoteHunt { reqs: all, found, remaining: left, asked: 0 }
    }

    /// The source to ask for what has not come; none where nothing is left to ask for or no
    /// source is left.
    pub fn next(&self) -> (r: Option<Source>)
        ensures
            r == (if self.remaining@.len() > 0 && self.asked < chain().len() {
                Some(chain()[self.asked as int])
            } else {
                None
            }),
    {
        if self.remaining.len() == 0 {
            None
        } else {
            source_at(self.asked)
        }
    }

    fn place_of(&self, code: &str) -> (r: Option<usize>)
        ensures
            match r {
                Some(i) => i < self.found@.len() && self.map().contains_key(code@)
                    && self.map()[code@] == sourced(self.found@)[i as int],
                None => !self.map().contains_key(code@),
            },
    {
        let ghost s = sourced(self.found@);
        let mut i: usize = 0;
        assert(s.take(0) =~= Seq::empty());
        while i < self.found.len()
            invariant
                s == sourced(self.found@),
                i <= self.found@.len(),
                !by_code(s.take(i as int)).contains_key(code@),
            decreases self.found@.len() - i,
        {
            assert(s.take(i + 1).drop_last() =~= s.take(i as int));
            assert(s.take(i + 1).last() == s[i as int]);
            if text::same(self.found[i].0.code.as_str(), code) {
                proof {
                    by_code_keeps(s, i + 1, s.len() as int, code@);
                    assert(s.take(s.len() as int) =~= s);
                }
                return Some(i);
            }
            i += 1;
        }
        assert(s.take(s.len() as int) =~= s);
        None
    }

    /// Takes the answer of the source that was asked: its quotes, or none where it failed.
    pub fn take(&mut self, answer: Option<Vec<Quote<N>>>)
        requires
            old(self).wf(),
            old(self).asked < chain().len(),
        ensures
            final(self).wf(),
            final(self).reqs@ == old(self).reqs@,
            final(self).asked == old(self).asked + 1,
            final(self).map() == (match answer {
                Some(quotes) => absorbed(
                    old(self).map(),
                    models::quote_views(quotes@),
                    chain()[old(self).asked as int],
                    quotes@.len() as int,
                ),
                None => old(self).map(),
            }),
    {
        let source = match source_at(self.asked) {
            Some(s) => s,
            None => Source::Sina,
        };
        self.asked = self.asked + 1;
        match answer {
            Some(quotes) => {
                self.absorb(&quotes, source);
                self.shrink();
            },
            None => {},
        }
    }

    fn absorb(&mut self, quotes: &Vec<Quote<N>>, source: Source)
        ensures
            final(self).reqs@ == old(self).reqs@,
            final(self).remaining@ == old(self).remaining@,
            final(self).asked == old(self).asked,
            final(self).map() == absorbed(
                old(self).map(),
                models::quote_views(quotes@),
                source,
                quotes@.len() as int,
            ),
    {
        let ghost was = self.map();
        let ghost qs = models::quote_views(quotes@);
        let ghost reqs = self.reqs@;
        let ghost remaining = self.remaining@;
        let ghost asked = self.asked;
        let mut i: usize = 0;
        while i < quotes.len()
            invariant
                qs == models::quote_views(quotes@),
                i <= quotes@.len(),
                self.reqs@ == reqs,
                self.remaining@ == remaining,
                self.asked == asked,
                self.map() == absorbed(was, qs, source, i as int),
            decreases quotes@.len() - i,
        {
            let q = &quotes[i];
            assert(qs[i as int] == q@);
            if self.place_of(q.code.as_str()).is_none() {
                let ghost before = sourced(self.found@);
                self.found.push((q.clone(), source));
                assert(sourced(self.found@) =~= before.push((q@, source)));
                assert(sourced(self.found@).drop_last() =~= before);
            }
            i += 1;
        }
    }

    fn shrink(&mut self)
        ensures
            final(self).wf(),
            final(self).reqs@ == old(self).reqs@,
            final(self).found@ == old(self).found@,
            final(self).asked == old(self).asked,
    {
        let ghost rs = requests(self.reqs@);
        let ghost m = self.map();
        let mut left: Vec<(String, Market)> = Vec::new();
        let mut i: usize = 0;
        assert(requests(left@) =~= Seq::empty());
        while i < self.reqs.len()
            invariant
                rs == requests(self.reqs@),
                m == self.map(),
                i <= self.reqs@.len(),
                requests(left@) == missing(rs, m, i as int),
            decreases self.reqs@.len() - i,
        {
            if self.place_of(self.reqs[i].0.as_str()).is_none() {
                let ghost before = left@;
                left.push((self.reqs[i].0.clone(), self.reqs[i].1));
                assert(requests(left@) =~= requests(before).push(rs[i as int]));
            }
            i += 1;
        }
        self.remaining = left;
    }

    /// The quotes that have come, in the order of the requests, and the codes that nothing
    /// has come for.
    pub fn finish(&self) -> (r: (Vec<(Quote<N>, Source)>, Vec<String>))
        requires
            self.wf(),
        ensures
            sourced(r.0@) == picked(requests(self.reqs@), self.map(), self.reqs@.len() as int),
            text::texts(r.1@) == codes(
                missing(requests(self.reqs@), self.map(), self.reqs@.len() as int),
            ),
    {
        let ghost rs = requests(self.reqs@);
        let ghost m = self.map();
        let mut out: Vec<(Quote<N>, Source)> = Vec::new();
        let mut i: usize = 0;
        assert(sourced(out@) =~= Seq::empty());
        while i < self.reqs.len()
            invariant
                rs == requests(self.reqs@),
                m == self.map(),
                i <= self.reqs@.len(),
                sourced(out@) == picked(rs, m, i as int),
            decreases self.reqs@.len() - i,
        {
            let code = self.reqs[i].0.as_str();
            assert(rs[i as int].0 == code@);
            match self.place_of(code) {
                Some(k) => {
                    if !self.is_asked_before(i) {
                        let ghost before = out@;
                        out.push((self.found[k].0.clone(), self.found[k].1));
                        assert(sourced(out@) =~= sourced(before).push(m[code@]));
                    }
                },
                None => {},
            }
            i += 1;
        }
        let mut failed: Vec<String> = Vec::new();
        let ghost left = requests(self.remaining@);
        let mut j: usize = 0;
        assert(text::texts(failed@) =~= codes(left).take(0));
        while j < self.remaining.len()
            invariant
                left == requests(self.remaining@),
                j <= self.remaining@.len(),
                text::texts(failed@) == codes(left).take(j as int),
            decreases self.remaining@.len() - j,
        {
            let ghost before = failed@;
            failed.push(self.remaining[j].0.clone());
            j += 1;
            assert(text::texts(failed@) =~= text::texts(before).push(failed@.last()@));
            assert(text::texts(failed@) =~= codes(left).take(j as int));
        }
        assert(codes(left).take(left.len() as int) =~= codes(left));
        (out, failed)
    }

    fn is_asked_before(&self, i: usize) -> (r: bool)
        requires
            i < self.reqs@.len(),
        ensures
            r == asked_before(requests(self.reqs@), i as int, self.reqs@[i as int].0@),
    {
        let ghost rs = requests(self.reqs@);
        let mut k: usize = 0;
        while k < i
            invariant
                rs == requests(self.reqs@),
                k <= i < self.reqs@.len(),
                forall|h: int| 0 <= h < k ==> (#[trigger] rs[h]).0 != self.reqs@[i as int].0@,
            decreases i - k,
        {
            assert(rs[k as int].0 == self.reqs@[k as int].0@);
            if text::same(self.reqs[k].0.as_str(), self.reqs[i].0.as_str()) {
                return true;
            }
            k += 1;
        }
        false
    }
}

fn copied(reqs: &[(String, Market)]) -> (r: Vec<(String, Market)>)
    ensures
        requests(r@) == requests(reqs@),
{
    let mut out: Vec<(String, Market)> = Vec::new();
    let ghost rs = requests(reqs@);
    let mut i: usize = 0;
    assert(requests(out@) =~= rs.take(0));
    while i < reqs.len()
        invariant
            rs == requests(reqs@),
            i <= reqs@.len(),
            requests(out@) == rs.take(i as int),
        decreases reqs@.len() - i,
    {
        let ghost before = out@;
        out.push((reqs[i].0.clone(), reqs[i].1));
        assert(requests(out@) =~= requests(before).push(rs[i as int]));
        i += 1;
        assert(requests(out@) =~= rs.take(i as int));
    }
    assert(rs.take(rs.len() as int) =~= rs);
    out
}

proof fn all_missing<N: Scalar>(
    reqs: Seq<(Seq<char>, Market)>,
    m: Map<Seq<char>, (QuoteView<N>, Source)>,
    n: int,
)
    requires
        m == Map::<Seq<char>, (QuoteView<N>, Source)>::empty(),
        0 <= n <= reqs.len(),
    ensures
        missing(reqs, m, n) == reqs.take(n),
    decreases n,
{
    if n > 0 {
        all_missing(reqs, m, n - 1);
        assert(reqs.take(n) =~= reqs.take(n - 1).push(reqs[n - 1]));
    } else {
        assert(reqs.take(0) =~= Seq::empty());
    }
}

proof fn by_code_keeps<N: Scalar>(v: Seq<(QuoteView<N>, Source)>, i: int, j: int, code: Seq<char>)
    requires
        0 <= i <= j <= v.len(),
        by_code(v.take(i)).contains_key(code),
    ensures
        by_code(v.take(j)).contains_key(code),
        by_code(v.take(j))[code] == by_code(v.take(i))[code],
    decreases j - i,
{
    if i < j {
        by_code_keeps(v, i, j - 1, code);
        assert(v.take(j).drop_last() =~= v.take(j - 1));
    }
}

// ---------------------------------------------------------------------------
// What holds of a search for quotes
// ---------------------------------------------------------------------------
/// What has come from a source stays: no source that is asked later replaces a quote.
pub proof fn first_source_wins<N: Scalar>(
    m: Map<Seq<char>, (QuoteView<N>, Source)>,
    quotes: Seq<QuoteView<N>>,
    source: Source,
    n: int,
    code: Seq<char>,
)
    requires
        m.contains_key(code),
        n <= quotes.len(),
    ensures
        absorbed(m, quotes, source, n).contains_key(code),
        absorbed(m, quotes, source, n)[code] == m[code],
    decreases n,
{
    if n > 0 {
        first_source_wins(m, quotes, source, n - 1, code);
    }
}

/// The quotes are noted under their own codes.
pub open spec fn own_codes<N: Scalar>(m: Map<Seq<char>, (QuoteView<N>, Source)>) -> bool {
    forall|code: Seq<char>| #[trigger] m.contains_key(code) ==> m[code].0.code == code
}

/// What a source gives is noted under its own codes, too.
pub proof fn codes_stay_own<N: Scalar>(
    m: Map<Seq<char>, (QuoteView<N>, Source)>,
    quotes: Seq<QuoteView<N>>,
    source: Source,
    n: int,
)
    requires
        own_codes(m),
        n <= quotes.len(),
    ensures
        own_codes(absorbed(m, quotes, source, n)),
    decreases n,
{
    if n > 0 {
        codes_stay_own(m, quotes, source, n - 1);
    }
}

proof fn picked_codes<N: Scalar>(
    reqs: Seq<(Seq<char>, Market)>,
    m: Map<Seq<char>, (QuoteView<N>, Source)>,
    n: int,
)
    requires
        own_codes(m),
        0 <= n <= reqs.len(),
    ensures
        forall|j: int|
            0 <= j < picked(reqs, m, n).len() ==> m.contains_key(
                (#[trigger] picked(reqs, m, n)[j]).0.code,
            ) && asked_before(reqs, n, picked(reqs, m, n)[j].0.code),
        forall|j: int, k: int|
            0 <= j < k < picked(reqs, m, n).len() ==> (#[trigger] picked(reqs, m, n)[j]).0.code != (
            #[trigger] picked(reqs, m, n)[k]).0.code,
        forall|i: int|
            0 <= i < n && m.contains_key((#[trigger] reqs[i]).0) ==> picked(reqs, m, n).contains(
                m[reqs[i].0],
            ),
    decreases n,
{
    if n > 0 {
        picked_codes(reqs, m, n - 1);
        let code = reqs[n - 1].0;
        let p = picked(reqs, m, n - 1);
        let q = picked(reqs, m, n);
        assert forall|j: int| 0 <= j < q.len() implies m.contains_key((#[trigger] q[j]).0.code)
            && asked_before(reqs, n, q[j].0.code) by {
            if j < p.len() {
                assert(q[j] == p[j]);
                let k = choose|k: int| 0 <= k < n - 1 && (#[trigger] reqs[k]).0 == p[j].0.code;
                assert(reqs[k].0 == q[j].0.code);
            } else {
                assert(reqs[n - 1].0 == q[j].0.code);
            }
        }
        assert forall|j: int, k: int| 0 <= j < k < q.len() implies (#[trigger] q[j]).0.code != (
        #[trigger] q[k]).0.code by {
            assert(q[j] == p[j]);
            if k < p.len() {
                assert(q[k] == p[k]);
            }
        }
        assert forall|i: int| 0 <= i < n && m.contains_key((#[trigger] reqs[i]).0) implies q.contains(
            m[reqs[i].0],
        ) by {
            if i < n - 1 {
                let j = choose|j: int| 0 <= j < p.len() && p[j] == m[reqs[i].0];
                assert(q[j] == m[reqs[i].0]);
            } else if asked_before(reqs, n - 1, code) {
                let k = choose|k: int| 0 <= k < n - 1 && (#[trigger] reqs[k]).0 == code;
                assert(p.contains(m[reqs[k].0]));
                let j = choose|j: int| 0 <= j < p.len() && p[j] == m[code];
                assert(q[j] == m[code]);
            } else {
                assert(q[p.len() as int] == m[code]);
            }
        }
    }
}

proof fn missing_codes<N: Scalar>(
    reqs: Seq<(Seq<char>, Market)>,
    m: Map<Seq<char>, (QuoteView<N>, Source)>,
    n: int,
)
    requires
        0 <= n <= reqs.len(),
    ensures
        forall|j: int|
            0 <= j < missing(reqs, m, n).len() ==> !m.contains_key(
                (#[trigger] missing(reqs, m, n)[j]).0,
            ),
        forall|i: int|
            0 <= i < n && !m.contains_key((#[trigger] reqs[i]).0) ==> missing(reqs, m, n).contains(
                reqs[i],
            ),
    decreases n,
{
    if n > 0 {
        missing_codes(reqs, m, n - 1);
        let p = missing(reqs, m, n - 1);
        let q = missing(reqs, m, n);
        assert forall|i: int| 0 <= i < n && !m.contains_key((#[trigger] reqs[i]).0) implies q.contains(
            reqs[i],
        ) by {
            if i < n - 1 {
                let j = choose|j: int| 0 <= j < p.len() && p[j] == reqs[i];
                assert(q[j] == reqs[i]);
            } else {
                assert(q[p.len() as int] == reqs[i]);
            }
        }
    }
}

/// Every code that is asked for is answered in one way: with a quote, once, or as one that
/// nothing has come for; and no quote is handed out that was not asked for.
pub proof fn requests_are_answered<N: Scalar>(
    reqs: Seq<(Seq<char>, Market)>,
    m: Map<Seq<char>, (QuoteView<N>, Source)>,
)
    requires
        own_codes(m),
    ensures
        ({
            let n = reqs.len() as int;
            let given = picked(reqs, m, n);
            let failed = codes(missing(reqs, m, n));
            &&& forall|i: int|
                0 <= i < n ==> ((exists|j: int|
                    0 <= j < given.len() && (#[trigger] given[j]).0.code == reqs[i].0)
                    <==> !failed.contains((#[trigger] reqs[i]).0))
            &&& forall|j: int, k: int|
                0 <= j < k < given.len() ==> (#[trigger] given[j]).0.code != (
                #[trigger] given[k]).0.code
            &&& forall|j: int|
                0 <= j < given.len() ==> asked_before(reqs, n, (#[trigger] given[j]).0.code)
        }),
{
    let n = reqs.len() as int;
    let given = picked(reqs, m, n);
    let left = missing(reqs, m, n);
    let failed = codes(left);
    picked_codes(reqs, m, n);
    missing_codes(reqs, m, n);
    assert forall|i: int| 0 <= i < n implies ((exists|j: int|
        0 <= j < given.len() && (#[trigger] given[j]).0.code == reqs[i].0) <==> !failed.contains(
        (#[trigger] reqs[i]).0,
    )) by {
        let code = reqs[i].0;
        if m.contains_key(code) {
            let j = choose|j: int| 0 <= j < given.len() && given[j] == m[code];
            assert(given[j].0.code == code);
            if failed.contains(code) {
                let k = choose|k: int| 0 <= k < failed.len() && failed[k] == code;
                assert(left[k].0 == code);
            }
        } else {
            let k = choose|k: int| 0 <= k < left.len() && left[k] == reqs[i];
            assert(failed[k] == code);
            if exists|j: int| 0 <= j < given.len() && (#[trigger] given[j]).0.code == code {
                let j = choose|j: int| 0 <= j < given.len() && (#[trigger] given[j]).0.code == code;
                assert(m.contains_key(given[j].0.code));
            }
        }
    }
}

// ---------------------------------------------------------------------------
// Trying again
// ---------------------------------------------------------------------------
/// How long to wait after so many failures, in milliseconds: 300, doubled with each failure
/// after the first, and the jitter.
pub open spec fn backoff(failures: int, jitter: int) -> int {
    300 * vstd::arithmetic::power2::pow2((failures - 1) as nat) + jitter
}

/// How long to wait before trying again; none where it has been tried often enough.
pub open spec fn waited(failures: u32, tries: u32, jitter: u64) -> Option<int> {
    if failures >= tries {
        None
    } else {
        Some(backoff(failures as int, jitter as int))
    }
}

/// How long to wait before trying again; none where it has been tried often enough.
pub fn wait_after(failures: u32, tries: u32, jitter: u64) -> (r: Option<u64>)
    requires
        1 <= failures,
        failures < tries ==> backoff(failures as int, jitter as int) <= u64::MAX,
    ensures
        match r {
            Some(ms) => waited(failures, tries, jitter) == Some(ms as int),
            None => waited(failures, tries, jitter) is None,
        },
{
    if failures >= tries {
        return None;
    }
    let mut ms: u64 = 300;
    let mut i: u32 = 1;
    proof {
        vstd::arithmetic::power2::lemma2_to64();
    }
    while i < failures
        invariant
            1 <= i <= failures,
            ms == 300 * vstd::arithmetic::power2::pow2((i - 1) as nat),
            backoff(failures as int, jitter as int) <= u64::MAX,
        decreases failures - i,
    {
        proof {
            vstd::arithmetic::power2::lemma_pow2_unfold(i as nat);
            if i < failures - 1 {
                vstd::arithmetic::power2::lemma_pow2_strictly_increases(
                    i as nat,
                    (failures - 1) as nat,
                );
            }
        }
        ms = ms * 2;
        i += 1;
    }
    Some(ms + jitter)
}

/// A number of milliseconds below a bound, by the nanoseconds on the clock.
pub open spec fn jitter(nanos: u32, span: u64) -> int {
    nanos as int % (if span == 0 {
        1int
    } else {
        span as int
    })
}

/// A number of milliseconds below a bound, by the nanoseconds on the clock.
pub fn jitter_of(nanos: u32, span: u64) -> (r: u64)
    ensures
        r == jitter(nanos, span),
        r < span || r == 0,
{
    nanos as u64 % (if span == 0 {
        1
    } else {
        span
    })
}

/// A number of milliseconds below a bound that differs from call to call, so that requests
/// do not go out at one moment.
pub fn jitter_ms(span: u64) -> (r: u64)
    ensures
        r < span || r == 0,
        exists|t: SystemTime| r == jitter((#[trigger] date::reading(t)).1, span),
{
    jitter_of(date::clock().1, span)
}

/// After the first failure the wait is three tenths of a second, and each further failure
/// doubles it; what keeps requests apart comes on top. Nobody waits after the last try.
pub proof fn waits_double(failures: u32, tries: u32, jitter: u64)
    requires
        1 <= failures < u32::MAX,
    ensures
        backoff(1, 0) == 300,
        backoff(failures + 1, 0) == 2 * backoff(failures as int, 0),
        waited(failures, tries, jitter) is None <==> tries <= failures,
        waited(failures, tries, jitter) matches Some(w) ==> w == backoff(failures as int, 0)
            + jitter,
{
    vstd::arithmetic::power2::lemma2_to64();
    vstd::arithmetic::power2::lemma_pow2_unfold(failures as nat);
}

} // verus!
