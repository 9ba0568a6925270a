//! The watch list, the bars, the valuations and the notes of a store.
use super::models;
use super::models::{
    Fundamental, FundamentalView, KLine, KLineView, Period, Stock, StockView,
};
use super::store;
use super::store::Store;
use crate::fixed;
use crate::fixed::Fixed;
use crate::num::Scalar;
use crate::shelf;
use crate::shelf::{Key, Row};
use crate::text;
use vstd::prelude::*;

verus! {

// ---------------------------------------------------------------------------
// Rows
// ---------------------------------------------------------------------------
/// A bar and the time that it covers.
#[derive(Debug)]
pub struct Bar<N: Scalar> {
    pub period: Period,
    pub line: KLine<N>,
}

/// A bar and its period with its texts as sequences of characters.
pub ghost struct BarView<N: Scalar> {
    pub period: Period,
    pub line: KLineView<N>,
}

/// A text under a name.
#[derive(Debug)]
pub struct Note {
    pub key: String,
    pub value: String,
}

/// A note with its texts as sequences of characters.
pub ghost struct NoteView {
    pub key: Seq<char>,
    pub value: Seq<char>,
}

impl<N: Scalar> View for Bar<N> {
    type V = BarView<N>;

    open spec fn view(&self) -> BarView<N> {
        BarView { period: self.period, line: self.line@ }
    }
}

impl View for Note {
    type V = NoteView;

    open spec fn view(&self) -> NoteView {
        NoteView { key: self.key@, value: self.value@ }
    }
}

impl<N: Scalar> Clone for Bar<N> {
    fn clone(&self) -> (r: Self)
        ensures
            r@ == self@,
    {
        Bar { period: self.period, line: self.line.clone() }
    }
}

impl Clone for Note {
    fn clone(&self) -> (r: Self)
        ensures
            r@ == self@,
    {
        Note { key: self.key.clone(), value: self.value.clone() }
    }
}

/// The key of a security on the watch list: its code.
pub open spec fn stock_key(code: Seq<char>) -> Key {
    Key { first: code, second: Seq::empty(), third: Seq::empty() }
}

/// The key of a bar: the code, the mark of the period and the date.
pub open spec fn bar_key(code: Seq<char>, period: Period, date: Seq<char>) -> Key {
    Key { first: code, second: models::period_tag(period), third: date }
}

/// The key of a valuation: the code and the date.
pub open spec fn valuation_key(code: Seq<char>, date: Seq<char>) -> Key {
    Key { first: code, second: date, third: Seq::empty() }
}

/// The key of a note: its name.
pub open spec fn note_key(name: Seq<char>) -> Key {
    Key { first: name, second: Seq::empty(), third: Seq::empty() }
}

fn nothing() -> (r: &'static str)
    ensures
        r@ == Seq::<char>::empty(),
{
    proof {
        reveal_strlit("");
    }
    assert(""@ =~= Seq::<char>::empty());
    ""
}

impl Row for Stock {
    type Said = StockView;

    open spec fn said(&self) -> StockView {
        self@
    }

    open spec fn key(s: StockView) -> Key {
        stock_key(s.code)
    }

    fn key_texts(&self) -> (r: (&str, &str, &str)) {
        (self.code.as_str(), nothing(), nothing())
    }
}

impl<N: Scalar> Row for Bar<N> {
    type Said = BarView<N>;

    open spec fn said(&self) -> BarView<N> {
        self@
    }

    open spec fn key(s: BarView<N>) -> Key {
        bar_key(s.line.code, s.period, s.line.date)
    }

    fn key_texts(&self) -> (r: (&str, &str, &str)) {
        (self.line.code.as_str(), self.period.tag(), self.line.date.as_str())
    }
}

impl<N: Scalar> Row for Fundamental<N> {
    type Said = FundamentalView<N>;

    open spec fn said(&self) -> FundamentalView<N> {
        self@
    }

    open spec fn key(s: FundamentalView<N>) -> Key {
        valuation_key(s.code, s.date)
    }

    fn key_texts(&self) -> (r: (&str, &str, &str)) {
        (self.code.as_str(), self.date.as_str(), nothing())
    }
}

impl Row for Note {
    type Said = NoteView;

    open spec fn said(&self) -> NoteView {
        self@
    }

    open spec fn key(s: NoteView) -> Key {
        note_key(s.key)
    }

    fn key_texts(&self) -> (r: (&str, &str, &str)) {
        (self.key.as_str(), nothing(), nothing())
    }
}

// ---------------------------------------------------------------------------
// The watch list
// ---------------------------------------------------------------------------
/// The securities but the one of a code.
pub open spec fn other_stock(code: Seq<char>) -> spec_fn(StockView) -> bool {
    |s: StockView| s.code != code
}

/// The bars of other securities than the one of a code.
pub open spec fn other_bar<N: Scalar>(code: Seq<char>) -> spec_fn(BarView<N>) -> bool {
    |b: BarView<N>| b.line.code != code
}

/// The valuations of other securities than the one of a code.
pub open spec fn other_valuation<N: Scalar>(code: Seq<char>) -> spec_fn(
    FundamentalView<N>,
) -> bool {
    |f: FundamentalView<N>| f.code != code
}

/// The security of a code on the watch list.
pub open spec fn watched(s: Seq<StockView>, code: Seq<char>) -> Option<StockView> {
    let m = shelf::by_key::<Stock>(s);
    if m.contains_key(stock_key(code)) {
        Some(m[stock_key(code)])
    } else {
        None
    }
}

/// A security that may be missing, as what it says.
pub open spec fn stock_option(s: Option<Stock>) -> Option<StockView> {
    match s {
        Some(x) => Some(x@),
        None => None,
    }
}

impl<N: Scalar> Store<N> {
    /// Puts a security on the watch list, in place of what was there under its code.
    pub fn add_stock(&mut self, stock: &Stock)
        requires
            old(self).wf(),
        ensures
            final(self).wf(),
            final(self).same_book(*old(self)),
            final(self).bars == old(self).bars,
            final(self).valuations == old(self).valuations,
            final(self).notes == old(self).notes,
            shelf::by_key::<Stock>(final(self).stocks.list()) == shelf::by_key::<Stock>(
                old(self).stocks.list(),
            ).insert(stock_key(stock@.code), stock@),
    {
        self.stocks.put(stock.clone());
    }

    /// Takes a security off the watch list, with its bars and its valuations. Returns
    /// whether it was there.
    pub fn remove_stock(&mut self, code: &str) -> (r: bool)
        requires
            old(self).wf(),
        ensures
            final(self).wf(),
            final(self).same_book(*old(self)),
            final(self).notes == old(self).notes,
            final(self).stocks.list() == old(self).stocks.list().filter(other_stock(code@)),
            final(self).bars.list() == old(self).bars.list().filter(other_bar(code@)),
            final(self).valuations.list() == old(self).valuations.list().filter(
                other_valuation(code@),
            ),
            r == (watched(old(self).stocks.list(), code@) is Some),
    {
        let found = self.get_stock(code).is_some();
        let ghost ss = self.stocks.list();
        let ghost bs = self.bars.list();
        let ghost vs = self.valuations.list();
        let mut stocks: Vec<Stock> = Vec::new();
        let mut i: usize = 0;
        assert(ss.take(0).filter(other_stock(code@)) =~= shelf::said(stocks@)) by {
            reveal(Seq::filter);
        }
        while i < self.stocks.rows.len()
            invariant
                *self == *old(self),
                ss == self.stocks.list(),
                i <= ss.len(),
                shelf::said(stocks@) == ss.take(i as int).filter(other_stock(code@)),
            decreases ss.len() - i,
        {
            let row = &self.stocks.rows[i];
            let ghost before = stocks@;
            proof {
                reveal(Seq::filter);
                assert(ss.take(i + 1).drop_last() =~= ss.take(i as int));
                assert(ss.take(i + 1).last() == row@);
            }
            if !text::same(row.code.as_str(), code) {
                stocks.push(row.clone());
                assert(shelf::said(stocks@) =~= shelf::said(before).push(row@));
            }
            i += 1;
        }
        assert(ss.take(i as int) =~= ss);
        let mut bars: Vec<Bar<N>> = Vec::new();
        let mut i: usize = 0;
        assert(bs.take(0).filter(other_bar::<N>(code@)) =~= shelf::said(bars@)) by {
            reveal(Seq::filter);
        }
        while i < self.bars.rows.len()
            invariant
                *self == *old(self),
                bs == self.bars.list(),
                i <= bs.len(),
                shelf::said(bars@) == bs.take(i as int).filter(other_bar::<N>(code@)),
            decreases bs.len() - i,
        {
            let row = &self.bars.rows[i];
            let ghost before = bars@;
            proof {
                reveal(Seq::filter);
                assert(bs.take(i + 1).drop_last() =~= bs.take(i as int));
                assert(bs.take(i + 1).last() == row@);
            }
            if !text::same(row.line.code.as_str(), code) {
                bars.push(row.clone());
                assert(shelf::said(bars@) =~= shelf::said(before).push(row@));
            }
            i += 1;
        }
        assert(bs.take(i as int) =~= bs);
        let mut valuations: Vec<Fundamental<N>> = Vec::new();
        let mut i: usize = 0;
        assert(vs.take(0).filter(other_valuation::<N>(code@)) =~= shelf::said(valuations@)) by {
            reveal(Seq::filter);
        }
        while i < self.valuations.rows.len()
            invariant
                *self == *old(self),
                vs == self.valuations.list(),
                i <= vs.len(),
                shelf::said(valuations@) == vs.take(i as int).filter(other_valuation::<N>(code@)),
            decreases vs.len() - i,
        {
            let row = &self.valuations.rows[i];
            let ghost before = valuations@;
            proof {
                reveal(Seq::filter);
                assert(vs.take(i + 1).drop_last() =~= vs.take(i as int));
                assert(vs.take(i + 1).last() == row@);
            }
            if !text::same(row.code.as_str(), code) {
                valuations.push(row.clone());
                assert(shelf::said(valuations@) =~= shelf::said(before).push(row@));
            }
            i += 1;
        }
        assert(vs.take(i as int) =~= vs);
        proof {
            shelf::selection_keeps_order::<Stock>(ss, other_stock(code@));
            shelf::selection_keeps_order::<Bar<N>>(bs, other_bar::<N>(code@));
            shelf::selection_keeps_order::<Fundamental<N>>(vs, other_valuation::<N>(code@));
        }
        self.stocks.rows = stocks;
        self.bars.rows = bars;
        self.valuations.rows = valuations;
        found
    }

    /// The security of a code.
    pub fn get_stock(&self, code: &str) -> (r: Option<Stock>)
        requires
            self.wf(),
        ensures
            stock_option(r) == watched(self.stocks.list(), code@),
    {
        let ghost ss = self.stocks.list();
        let mut i: usize = 0;
        while i < self.stocks.rows.len()
            invariant
                self.wf(),
                ss == self.stocks.list(),
                i <= ss.len(),
                forall|j: int| 0 <= j < i ==> (#[trigger] ss[j]).code != code@,
            decreases ss.len() - i,
        {
            let row = &self.stocks.rows[i];
            assert(ss[i as int] == row@);
            if text::same(row.code.as_str(), code) {
                proof {
                    shelf::one_row_for_a_key::<Stock>(ss, i as int);
                }
                return Some(row.clone());
            }
            i += 1;
        }
        None
    }

    /// The watch list, in the order of the codes.
    pub fn list_stocks(&self) -> (r: Vec<Stock>)
        ensures
            models::stock_views(r@) == self.stocks.list(),
    {
        let ghost ss = self.stocks.list();
        let mut out: Vec<Stock> = Vec::new();
        let mut i: usize = 0;
        while i < self.stocks.rows.len()
            invariant
                ss == self.stocks.list(),
                i <= ss.len(),
                models::stock_views(out@) == ss.take(i as int),
            decreases ss.len() - i,
        {
            let ghost before = out@;
            out.push(self.stocks.rows[i].clone());
            i += 1;
            assert(models::stock_views(out@) =~= models::stock_views(before).push(out@.last()@));
            assert(models::stock_views(out@) =~= ss.take(i as int));
        }
        assert(models::stock_views(out@) =~= ss);
        out
    }
}

// ---------------------------------------------------------------------------
// Bars
// ---------------------------------------------------------------------------
/// A date lies between two days, both included; a day that is missing sets no limit.
pub open spec fn within(date: Seq<char>, start: Option<Seq<char>>, end: Option<Seq<char>>) -> bool {
    &&& start matches Some(a) ==> !text::before(date, a)
    &&& end matches Some(b) ==> !text::before(b, date)
}

fn is_within(date: &str, start: Option<&str>, end: Option<&str>) -> (r: bool)
    ensures
        r == within(date@, store::asked(start), store::asked(end)),
{
    let late_enough = match start {
        Some(a) => !text::precedes(date, a),
        None => true,
    };
    let early_enough = match end {
        Some(b) => !text::precedes(b, date),
        None => true,
    };
    late_enough && early_enough
}

/// The bars of a security and a period between two days.
pub open spec fn wanted_bar<N: Scalar>(
    code: Seq<char>,
    period: Period,
    start: Option<Seq<char>>,
    end: Option<Seq<char>>,
) -> spec_fn(BarView<N>) -> bool {
    |b: BarView<N>| b.line.code == code && b.period == period && within(b.line.date, start, end)
}

/// A bar without its period.
pub open spec fn line_of<N: Scalar>() -> spec_fn(BarView<N>) -> KLineView<N> {
    |b: BarView<N>| b.line
}

/// The bars of a security and a period between two days, in the order in which they stand.
pub open spec fn chosen_bars<N: Scalar>(
    s: Seq<BarView<N>>,
    code: Seq<char>,
    period: Period,
    start: Option<Seq<char>>,
    end: Option<Seq<char>>,
) -> Seq<KLineView<N>> {
    s.filter(wanted_bar(code, period, start, end)).map_values(line_of())
}

/// What is kept once the first `n` bars of a period have been written.
pub open spec fn bars_written<N: Scalar>(
    m: Map<Key, BarView<N>>,
    ks: Seq<KLineView<N>>,
    period: Period,
    n: int,
) -> Map<Key, BarView<N>>
    decreases n,
{
    if n <= 0 {
        m
    } else {
        bars_written(m, ks, period, n - 1).insert(
            bar_key(ks[n - 1].code, period, ks[n - 1].date),
            BarView { period, line: ks[n - 1] },
        )
    }
}

/// The dates ascend, and none occurs twice.
pub open spec fn by_date<N: Scalar>(ks: Seq<KLineView<N>>) -> bool {
    forall|i: int, j: int|
        0 <= i < j < ks.len() ==> text::before(
            (#[trigger] ks[i]).date,
            (#[trigger] ks[j]).date,
        )
}

proof fn chosen_by_date<N: Scalar>(
    s: Seq<BarView<N>>,
    code: Seq<char>,
    period: Period,
    start: Option<Seq<char>>,
    end: Option<Seq<char>>,
)
    requires
        shelf::ascending::<Bar<N>>(s),
    ensures
        by_date(chosen_bars(s, code, period, start, end)),
{
    let p = wanted_bar::<N>(code, period, start, end);
    let f = s.filter(p);
    shelf::selection_keeps_order::<Bar<N>>(s, p);
    let ks = chosen_bars(s, code, period, start, end);
    assert forall|i: int, j: int| 0 <= i < j < ks.len() implies text::before(
        (#[trigger] ks[i]).date,
        (#[trigger] ks[j]).date,
    ) by {
        s.lemma_filter_pred(p, i);
        s.lemma_filter_pred(p, j);
        assert(shelf::key_before(<Bar<N> as Row>::key(f[i]), <Bar<N> as Row>::key(f[j])));
        text::before_irreflexive(code);
        text::before_irreflexive(models::period_tag(period));
    }
}

impl<N: Scalar> Store<N> {
    /// Keeps the bars of a period, each in place of what was there under its code and its
    /// date. Returns how many were written.
    pub fn upsert_klines(&mut self, klines: &[KLine<N>], period: Period) -> (r: usize)
        requires
            old(self).wf(),
        ensures
            final(self).wf(),
            final(self).same_book(*old(self)),
            final(self).stocks == old(self).stocks,
            final(self).valuations == old(self).valuations,
            final(self).notes == old(self).notes,
            shelf::by_key::<Bar<N>>(final(self).bars.list()) == bars_written(
                shelf::by_key::<Bar<N>>(old(self).bars.list()),
                models::bars(klines@),
                period,
                klines@.len() as int,
            ),
            r == klines@.len(),
    {
        let ghost m = shelf::by_key::<Bar<N>>(self.bars.list());
        let ghost ks = models::bars(klines@);
        let mut i: usize = 0;
        while i < klines.len()
            invariant
                self.wf(),
                self.same_book(*old(self)),
                self.stocks == old(self).stocks,
                self.valuations == old(self).valuations,
                self.notes == old(self).notes,
                ks == models::bars(klines@),
                i <= klines@.len(),
                shelf::by_key::<Bar<N>>(self.bars.list()) == bars_written(
                    m,
                    ks,
                    period,
                    i as int,
                ),
            decreases klines@.len() - i,
        {
            assert(ks[i as int] == klines@[i as int]@);
            self.bars.put(Bar { period, line: klines[i].clone() });
            i += 1;
        }
        klines.len()
    }

    /// The bars of a security and a period, the oldest first, from a day on and up to a day
    /// where these are given.
    pub fn get_klines(
        &self,
        code: &str,
        period: Period,
        start: Option<&str>,
        end: Option<&str>,
    ) -> (r: Vec<KLine<N>>)
        requires
            self.wf(),
        ensures
            models::bars(r@) == chosen_bars(
                self.bars.list(),
                code@,
                period,
                store::asked(start),
                store::asked(end),
            ),
            by_date(models::bars(r@)),
    {
        let ghost bs = self.bars.list();
        let ghost p = wanted_bar::<N>(code@, period, store::asked(start), store::asked(end));
        let mut out: Vec<KLine<N>> = Vec::new();
        let mut i: usize = 0;
        assert(models::bars(out@) =~= bs.take(0).filter(p).map_values(line_of())) by {
            reveal(Seq::filter);
        }
        while i < self.bars.rows.len()
            invariant
                bs == self.bars.list(),
                p == wanted_bar::<N>(code@, period, store::asked(start), store::asked(end)),
                i <= bs.len(),
                models::bars(out@) == bs.take(i as int).filter(p).map_values(line_of()),
            decreases bs.len() - i,
        {
            let row = &self.bars.rows[i];
            let ghost before = out@;
            proof {
                reveal(Seq::filter);
                assert(bs.take(i + 1).drop_last() =~= bs.take(i as int));
                assert(bs.take(i + 1).last() == row@);
            }
            if row.period == period && text::same(row.line.code.as_str(), code) && is_within(
                row.line.date.as_str(),
                start,
                end,
            ) {
                out.push(row.line.clone());
                assert(models::bars(out@) =~= models::bars(before).push(row.line@));
                assert(bs.take(i + 1).filter(p) == bs.take(i as int).filter(p).push(row@));
                assert(bs.take(i + 1).filter(p).map_values(line_of()) =~= bs.take(
                    i as int,
                ).filter(p).map_values(line_of()).push(row.line@));
            }
            i += 1;
        }
        assert(bs.take(i as int) =~= bs);
        proof {
            chosen_by_date(bs, code@, period, store::asked(start), store::asked(end));
        }
        out
    }

    /// The date of the latest bar of a security and a period.
    pub fn latest_kline_date(&self, code: &str, period: Period) -> (r: Option<String>)
        requires
            self.wf(),
        ensures
            ({
                let ks = chosen_bars(self.bars.list(), code@, period, None, None);
                match r {
                    Some(d) => (exists|i: int| 0 <= i < ks.len() && (#[trigger] ks[i]).date == d@)
                        && forall|i: int|
                        0 <= i < ks.len() ==> !text::before(d@, (#[trigger] ks[i]).date),
                    None => ks.len() == 0,
                }
            }),
    {
        match self.kline_date_range(code, period) {
            Some((_, last)) => Some(last),
            None => None,
        }
    }

    /// How many bars of a security and a period are kept.
    pub fn kline_count(&self, code: &str, period: Period) -> (r: usize)
        requires
            self.wf(),
        ensures
            r == chosen_bars(self.bars.list(), code@, period, None, None).len(),
    {
        let ks = self.get_klines(code, period, None, None);
        assert(models::bars(ks@).len() == ks@.len());
        ks.len()
    }

    /// The dates of the first and of the last bar of a security and a period.
    pub fn kline_date_range(&self, code: &str, period: Period) -> (r: Option<(String, String)>)
        requires
            self.wf(),
        ensures
            ({
                let ks = chosen_bars(self.bars.list(), code@, period, None, None);
                match r {
                    Some((a, b)) => {
                        &&& exists|i: int| 0 <= i < ks.len() && (#[trigger] ks[i]).date == a@
                        &&& exists|i: int| 0 <= i < ks.len() && (#[trigger] ks[i]).date == b@
                        &&& forall|i: int|
                            0 <= i < ks.len() ==> !text::before((#[trigger] ks[i]).date, a@)
                        &&& forall|i: int|
                            0 <= i < ks.len() ==> !text::before(b@, (#[trigger] ks[i]).date)
                    },
                    None => ks.len() == 0,
                }
            }),
    {
        let list = self.get_klines(code, period, None, None);
        let ghost ks = models::bars(list@);
        if list.len() == 0 {
            return None;
        }
        let first = list[0].date.clone();
        let last = list[list.len() - 1].date.clone();
        proof {
            assert(ks[0].date == first@);
            assert(ks[ks.len() - 1].date == last@);
            assert forall|i: int| 0 <= i < ks.len() implies !text::before(
                (#[trigger] ks[i]).date,
                first@,
            ) by {
                text::before_irreflexive(first@);
                if i > 0 {
                    text::before_asymmetric(ks[0].date, ks[i].date);
                }
            }
            assert forall|i: int| 0 <= i < ks.len() implies !text::before(
                last@,
                (#[trigger] ks[i]).date,
            ) by {
                text::before_irreflexive(last@);
                if i < ks.len() - 1 {
                    text::before_asymmetric(ks[i].date, ks[ks.len() - 1].date);
                }
            }
        }
        Some((first, last))
    }
}

// ---------------------------------------------------------------------------
// Valuations
// ---------------------------------------------------------------------------
/// The valuations of a security between two days.
pub open spec fn wanted_valuation<N: Scalar>(
    code: Seq<char>,
    start: Option<Seq<char>>,
    end: Option<Seq<char>>,
) -> spec_fn(FundamentalView<N>) -> bool {
    |f: FundamentalView<N>| f.code == code && within(f.date, start, end)
}

/// What is kept once the first `n` valuations have been written.
pub open spec fn valuations_written<N: Scalar>(
    m: Map<Key, FundamentalView<N>>,
    fs: Seq<FundamentalView<N>>,
    n: int,
) -> Map<Key, FundamentalView<N>>
    decreases n,
{
    if n <= 0 {
        m
    } else {
        valuations_written(m, fs, n - 1).insert(
            valuation_key(fs[n - 1].code, fs[n - 1].date),
            fs[n - 1],
        )
    }
}

/// The dates ascend, and none occurs twice.
pub open spec fn valued_by_date<N: Scalar>(fs: Seq<FundamentalView<N>>) -> bool {
    forall|i: int, j: int|
        0 <= i < j < fs.len() ==> text::before(
            (#[trigger] fs[i]).date,
            (#[trigger] fs[j]).date,
        )
}

proof fn valuations_ascend<N: Scalar>(
    s: Seq<FundamentalView<N>>,
    code: Seq<char>,
    start: Option<Seq<char>>,
    end: Option<Seq<char>>,
)
    requires
        shelf::ascending::<Fundamental<N>>(s),
    ensures
        valued_by_date(s.filter(wanted_valuation(code, start, end))),
{
    let p = wanted_valuation::<N>(code, start, end);
    let f = s.filter(p);
    shelf::selection_keeps_order::<Fundamental<N>>(s, p);
    assert forall|i: int, j: int| 0 <= i < j < f.len() implies text::before(
        (#[trigger] f[i]).date,
        (#[trigger] f[j]).date,
    ) by {
        s.lemma_filter_pred(p, i);
        s.lemma_filter_pred(p, j);
        assert(shelf::key_before(
            <Fundamental<N> as Row>::key(f[i]),
            <Fundamental<N> as Row>::key(f[j]),
        ));
        text::before_irreflexive(code);
        text::before_irreflexive(Seq::empty());
    }
}

impl<N: Scalar> Store<N> {
    /// Keeps valuations, each in place of what was there under its code and its date.
    /// Returns how many were written.
    pub fn upsert_fundamentals(&mut self, rows: &[Fundamental<N>]) -> (r: usize)
        requires
            old(self).wf(),
        ensures
            final(self).wf(),
            final(self).same_book(*old(self)),
            final(self).stocks == old(self).stocks,
            final(self).bars == old(self).bars,
            final(self).notes == old(self).notes,
            shelf::by_key::<Fundamental<N>>(final(self).valuations.list()) == valuations_written(
                shelf::by_key::<Fundamental<N>>(old(self).valuations.list()),
                models::valuations(rows@),
                rows@.len() as int,
            ),
            r == rows@.len(),
    {
        let ghost m = shelf::by_key::<Fundamental<N>>(self.valuations.list());
        let ghost fs = models::valuations(rows@);
        let mut i: usize = 0;
        while i < rows.len()
            invariant
                self.wf(),
                self.same_book(*old(self)),
                self.stocks == old(self).stocks,
                self.bars == old(self).bars,
                self.notes == old(self).notes,
                fs == models::valuations(rows@),
                i <= rows@.len(),
                shelf::by_key::<Fundamental<N>>(self.valuations.list()) == valuations_written(
                    m,
                    fs,
                    i as int,
                ),
            decreases rows@.len() - i,
        {
            assert(fs[i as int] == rows@[i as int]@);
            self.valuations.put(rows[i].clone());
            i += 1;
        }
        rows.len()
    }

    /// The valuations of a security, the oldest first, from a day on and up to a day where
    /// these are given.
    pub fn get_fundamentals(&self, code: &str, start: Option<&str>, end: Option<&str>) -> (r: Vec<
        Fundamental<N>,
    >)
        requires
            self.wf(),
        ensures
            models::valuations(r@) == self.valuations.list().filter(
                wanted_valuation(code@, store::asked(start), store::asked(end)),
            ),
            valued_by_date(models::valuations(r@)),
    {
        let ghost vs = self.valuations.list();
        let ghost p = wanted_valuation::<N>(code@, store::asked(start), store::asked(end));
        let mut out: Vec<Fundamental<N>> = Vec::new();
        let mut i: usize = 0;
        assert(models::valuations(out@) =~= vs.take(0).filter(p)) by {
            reveal(Seq::filter);
        }
        while i < self.valuations.rows.len()
            invariant
                vs == self.valuations.list(),
                p == wanted_valuation::<N>(code@, store::asked(start), store::asked(end)),
                i <= vs.len(),
                models::valuations(out@) == vs.take(i as int).filter(p),
            decreases vs.len() - i,
        {
            let row = &self.valuations.rows[i];
            let ghost before = out@;
            proof {
                reveal(Seq::filter);
                assert(vs.take(i + 1).drop_last() =~= vs.take(i as int));
                assert(vs.take(i + 1).last() == row@);
            }
            if text::same(row.code.as_str(), code) && is_within(row.date.as_str(), start, end) {
                out.push(row.clone());
                assert(models::valuations(out@) =~= models::valuations(before).push(row@));
            }
            i += 1;
        }
        assert(vs.take(i as int) =~= vs);
        proof {
            valuations_ascend(vs, code@, store::asked(start), store::asked(end));
        }
        out
    }

    /// The latest valuation of a security.
    pub fn latest_fundamental(&self, code: &str) -> (r: Option<Fundamental<N>>)
        requires
            self.wf(),
        ensures
            ({
                let fs = self.valuations.list().filter(wanted_valuation(code@, None, None));
                match r {
                    Some(f) => fs.contains(f@) && forall|i: int|
                        0 <= i < fs.len() ==> !text::before(f@.date, (#[trigger] fs[i]).date),
                    None => fs.len() == 0,
                }
            }),
    {
        let list = self.get_fundamentals(code, None, None);
        let ghost fs = models::valuations(list@);
        if list.len() == 0 {
            return None;
        }
        let last = list[list.len() - 1].clone();
        proof {
            assert(fs[fs.len() - 1] == last@);
            assert forall|i: int| 0 <= i < fs.len() implies !text::before(
                last@.date,
                (#[trigger] fs[i]).date,
            ) by {
                text::before_irreflexive(last@.date);
                if i < fs.len() - 1 {
                    text::before_asymmetric(fs[i].date, fs[fs.len() - 1].date);
                }
            }
        }
        Some(last)
    }

    /// The date of the latest valuation of a security.
    pub fn latest_fundamental_date(&self, code: &str) -> (r: Option<String>)
        requires
            self.wf(),
        ensures
            ({
                let fs = self.valuations.list().filter(wanted_valuation::<N>(code@, None, None));
                match r {
                    Some(d) => (exists|i: int| 0 <= i < fs.len() && (#[trigger] fs[i]).date == d@)
                        && forall|i: int|
                        0 <= i < fs.len() ==> !text::before(d@, (#[trigger] fs[i]).date),
                    None => fs.len() == 0,
                }
            }),
    {
        match self.latest_fundamental(code) {
            Some(f) => Some(f.date),
            None => None,
        }
    }
}

// ---------------------------------------------------------------------------
// Notes
// ---------------------------------------------------------------------------
/// What is noted under a name.
pub open spec fn noted(s: Seq<NoteView>, name: Seq<char>) -> Option<Seq<char>> {
    let m = shelf::by_key::<Note>(s);
    if m.contains_key(note_key(name)) {
        Some(m[note_key(name)].value)
    } else {
        None
    }
}

/// The cash that a note holds: a finite number, or none.
pub open spec fn cash_noted<N: Scalar>(note: Option<Seq<char>>) -> Option<N> {
    match note {
        Some(s) => match N::denoted(s) {
            Some(v) => if v.bounded() {
                Some(v)
            } else {
                None
            },
            None => None,
        },
        None => None,
    }
}

impl<N: Scalar> Store<N> {
    /// Notes a text under a name, in place of what was noted there.
    pub fn set_meta(&mut self, key: &str, value: &str)
        requires
            old(self).wf(),
        ensures
            final(self).wf(),
            final(self).same_book(*old(self)),
            final(self).stocks == old(self).stocks,
            final(self).bars == old(self).bars,
            final(self).valuations == old(self).valuations,
            shelf::by_key::<Note>(final(self).notes.list()) == shelf::by_key::<Note>(
                old(self).notes.list(),
            ).insert(note_key(key@), NoteView { key: key@, value: value@ }),
    {
        self.notes.put(Note { key: key.to_owned(), value: value.to_owned() });
    }

    /// What is noted under a name.
    pub fn get_meta(&self, key: &str) -> (r: Option<String>)
        requires
            self.wf(),
        ensures
            text::text_option(r) == noted(self.notes.list(), key@),
    {
        let ghost ns = self.notes.list();
        let mut i: usize = 0;
        while i < self.notes.rows.len()
            invariant
                self.wf(),
                ns == self.notes.list(),
                i <= ns.len(),
                forall|j: int| 0 <= j < i ==> (#[trigger] ns[j]).key != key@,
            decreases ns.len() - i,
        {
            let row = &self.notes.rows[i];
            assert(ns[i as int] == row@);
            if text::same(row.key.as_str(), key) {
                proof {
                    shelf::one_row_for_a_key::<Note>(ns, i as int);
                }
                return Some(row.value.clone());
            }
            i += 1;
        }
        None
    }

    /// The cash balance that is noted. What is no number, or not finite, is none, lest it
    /// spoil the sums.
    pub fn get_cash(&self) -> (r: Option<N>)
        requires
            self.wf(),
        ensures
            r == cash_noted::<N>(noted(self.notes.list(), "cash"@)),
    {
        match self.get_meta("cash") {
            Some(s) => match N::parse(s.as_str()) {
                Some(v) => if v.is_finite() {
                    Some(v)
                } else {
                    None
                },
                None => None,
            },
            None => None,
        }
    }

    /// Notes a cash balance, in place of the one that was noted.
    pub fn set_cash(&mut self, amount: N)
        requires
            old(self).wf(),
        ensures
            final(self).wf(),
            final(self).same_book(*old(self)),
            final(self).stocks == old(self).stocks,
            final(self).bars == old(self).bars,
            final(self).valuations == old(self).valuations,
            shelf::by_key::<Note>(final(self).notes.list()) == shelf::by_key::<Note>(
                old(self).notes.list(),
            ).insert(note_key("cash"@), NoteView { key: "cash"@, value: amount.written() }),
    {
        let s = amount.show();
        self.set_meta("cash", s.as_str());
    }
}

// ---------------------------------------------------------------------------
// What is read back of what was written
// ---------------------------------------------------------------------------
/// Periods have marks of their own.
pub proof fn marks_tell_periods(p: Period, q: Period)
    ensures
        models::period_tag(p) == models::period_tag(q) ==> p == q,
{
    models::period_round_trip(p);
    models::period_round_trip(q);
}

proof fn written_bar<N: Scalar>(
    m: Map<Key, BarView<N>>,
    ks: Seq<KLineView<N>>,
    period: Period,
    n: int,
    k: Key,
)
    requires
        0 <= n <= ks.len(),
    ensures
        (forall|i: int|
            0 <= i < n ==> bar_key((#[trigger] ks[i]).code, period, ks[i].date) != k) ==> {
            &&& bars_written(m, ks, period, n).contains_key(k) == m.contains_key(k)
            &&& bars_written(m, ks, period, n)[k] == m[k]
        },
    decreases n,
{
    if n > 0 {
        written_bar(m, ks, period, n - 1, k);
    }
}

proof fn written_last<N: Scalar>(
    m: Map<Key, BarView<N>>,
    ks: Seq<KLineView<N>>,
    period: Period,
    n: int,
    i: int,
)
    requires
        0 <= i < n <= ks.len(),
        forall|j: int|
            i < j < n ==> ((#[trigger] ks[j]).code != ks[i].code || ks[j].date != ks[i].date),
    ensures
        ({
            let k = bar_key(ks[i].code, period, ks[i].date);
            &&& bars_written(m, ks, period, n).contains_key(k)
            &&& bars_written(m, ks, period, n)[k] == BarView { period, line: ks[i] }
        }),
    decreases n,
{
    if i < n - 1 {
        written_last(m, ks, period, n - 1, i);
        assert(ks[n - 1].code != ks[i].code || ks[n - 1].date != ks[i].date);
    }
}

/// A bar that was written is read back, unless a later one of the same code and date was
/// written with it.
pub proof fn bars_are_read_back<N: Scalar>(
    before: Seq<BarView<N>>,
    after: Seq<BarView<N>>,
    ks: Seq<KLineView<N>>,
    period: Period,
    i: int,
    start: Option<Seq<char>>,
    end: Option<Seq<char>>,
)
    requires
        shelf::ascending::<Bar<N>>(before),
        shelf::ascending::<Bar<N>>(after),
        shelf::by_key::<Bar<N>>(after) == bars_written(
            shelf::by_key::<Bar<N>>(before),
            ks,
            period,
            ks.len() as int,
        ),
        0 <= i < ks.len(),
        forall|j: int|
            i < j < ks.len() ==> ((#[trigger] ks[j]).code != ks[i].code || ks[j].date
                != ks[i].date),
        within(ks[i].date, start, end),
    ensures
        chosen_bars(after, ks[i].code, period, start, end).contains(ks[i]),
{
    written_last(shelf::by_key::<Bar<N>>(before), ks, period, ks.len() as int, i);
    let k = bar_key(ks[i].code, period, ks[i].date);
    let p = wanted_bar::<N>(ks[i].code, period, start, end);
    assert(shelf::holds::<Bar<N>>(after, k));
    let j = choose|j: int|
        0 <= j < after.len() && <Bar<N> as Row>::key(#[trigger] after[j]) == k;
    shelf::one_row_for_a_key::<Bar<N>>(after, j);
    after.lemma_filter_contains(p, j);
    let f = after.filter(p);
    let at = choose|at: int| 0 <= at < f.len() && f[at] == after[j];
    assert(chosen_bars(after, ks[i].code, period, start, end)[at] == ks[i]);
}

/// Writing bars of one period changes nothing that is read of another, nor of a security
/// that none of them belongs to.
pub proof fn other_bars_stay<N: Scalar>(
    before: Seq<BarView<N>>,
    after: Seq<BarView<N>>,
    ks: Seq<KLineView<N>>,
    period: Period,
    code: Seq<char>,
    other: Period,
    start: Option<Seq<char>>,
    end: Option<Seq<char>>,
)
    requires
        shelf::ascending::<Bar<N>>(before),
        shelf::ascending::<Bar<N>>(after),
        shelf::by_key::<Bar<N>>(after) == bars_written(
            shelf::by_key::<Bar<N>>(before),
            ks,
            period,
            ks.len() as int,
        ),
        other != period || forall|i: int| 0 <= i < ks.len() ==> (#[trigger] ks[i]).code != code,
    ensures
        chosen_bars(after, code, other, start, end) == chosen_bars(before, code, other, start, end),
{
    let p = wanted_bar::<N>(code, other, start, end);
    let a = shelf::by_key::<Bar<N>>(after);
    let b = shelf::by_key::<Bar<N>>(before);
    marks_tell_periods(other, period);
    assert forall|k: Key| k.first == code && k.second == models::period_tag(other) implies
        #[trigger] a.contains_key(k) == b.contains_key(k) && a[k] == b[k] by {
        written_bar(b, ks, period, ks.len() as int, k);
    }
    assert forall|k: Key| #[trigger] a.contains_key(k) && p(a[k]) implies b.contains_key(k) && b[k]
        == a[k] by {
        key_of_row::<Bar<N>>(after, k);
    }
    assert forall|k: Key| #[trigger] b.contains_key(k) && p(b[k]) implies a.contains_key(k) && a[k]
        == b[k] by {
        key_of_row::<Bar<N>>(before, k);
        assert(a.contains_key(k) == b.contains_key(k));
    }
    shelf::same_selection::<Bar<N>>(after, before, p);
}

proof fn key_of_row<R: Row>(s: Seq<R::Said>, k: Key)
    requires
        shelf::by_key::<R>(s).contains_key(k),
    ensures
        R::key(shelf::by_key::<R>(s)[k]) == k,
{
    assert(shelf::holds::<R>(s, k));
}

/// Writing the same bars once more changes nothing.
pub proof fn writing_twice_is_writing_once<N: Scalar>(
    first: Seq<BarView<N>>,
    second: Seq<BarView<N>>,
    ks: Seq<KLineView<N>>,
    period: Period,
)
    requires
        shelf::ascending::<Bar<N>>(first),
        shelf::ascending::<Bar<N>>(second),
        exists|before: Seq<BarView<N>>|
            shelf::by_key::<Bar<N>>(first) == bars_written(
                #[trigger] shelf::by_key::<Bar<N>>(before),
                ks,
                period,
                ks.len() as int,
            ),
        shelf::by_key::<Bar<N>>(second) == bars_written(
            shelf::by_key::<Bar<N>>(first),
            ks,
            period,
            ks.len() as int,
        ),
    ensures
        second == first,
{
    let before = choose|before: Seq<BarView<N>>|
        shelf::by_key::<Bar<N>>(first) == bars_written(
            #[trigger] shelf::by_key::<Bar<N>>(before),
            ks,
            period,
            ks.len() as int,
        );
    let m = shelf::by_key::<Bar<N>>(before);
    let n = ks.len() as int;
    let a = bars_written(m, ks, period, n);
    let b = bars_written(a, ks, period, n);
    assert forall|k: Key| #[trigger] a.contains_key(k) == b.contains_key(k) && a[k] == b[k] by {
        if forall|i: int| 0 <= i < n ==> bar_key((#[trigger] ks[i]).code, period, ks[i].date) != k {
            written_bar(a, ks, period, n, k);
        } else {
            let i = choose|i: int|
                0 <= i < n && bar_key((#[trigger] ks[i]).code, period, ks[i].date) == k;
            let l = last_of(ks, period, k, n, i);
            written_last(m, ks, period, n, l);
            written_last(a, ks, period, n, l);
        }
    }
    assert(a =~= b);
    shelf::order_of_keys_is_unique::<Bar<N>>(second, first);
}

proof fn last_of<N: Scalar>(
    ks: Seq<KLineView<N>>,
    period: Period,
    k: Key,
    n: int,
    i: int,
) -> (l: int)
    requires
        0 <= i < n <= ks.len(),
        bar_key(ks[i].code, period, ks[i].date) == k,
    ensures
        i <= l < n,
        bar_key(ks[l].code, period, ks[l].date) == k,
        forall|j: int|
            l < j < n ==> ((#[trigger] ks[j]).code != ks[l].code || ks[j].date != ks[l].date),
    decreases n,
{
    if bar_key(ks[n - 1].code, period, ks[n - 1].date) == k {
        n - 1
    } else {
        let l = last_of(ks, period, k, n - 1, i);
        assert(ks[n - 1].code != ks[l].code || ks[n - 1].date != ks[l].date);
        l
    }
}

/// A valuation that was written is read back, unless a later one of the same code and date
/// was written with it.
pub proof fn valuations_are_read_back<N: Scalar>(
    before: Seq<FundamentalView<N>>,
    after: Seq<FundamentalView<N>>,
    fs: Seq<FundamentalView<N>>,
    i: int,
    start: Option<Seq<char>>,
    end: Option<Seq<char>>,
)
    requires
        shelf::ascending::<Fundamental<N>>(before),
        shelf::ascending::<Fundamental<N>>(after),
        shelf::by_key::<Fundamental<N>>(after) == valuations_written(
            shelf::by_key::<Fundamental<N>>(before),
            fs,
            fs.len() as int,
        ),
        0 <= i < fs.len(),
        forall|j: int|
            i < j < fs.len() ==> ((#[trigger] fs[j]).code != fs[i].code || fs[j].date
                != fs[i].date),
        within(fs[i].date, start, end),
    ensures
        after.filter(wanted_valuation(fs[i].code, start, end)).contains(fs[i]),
{
    valuation_last(shelf::by_key::<Fundamental<N>>(before), fs, fs.len() as int, i);
    let k = valuation_key(fs[i].code, fs[i].date);
    let p = wanted_valuation::<N>(fs[i].code, start, end);
    assert(shelf::holds::<Fundamental<N>>(after, k));
    let j = choose|j: int|
        0 <= j < after.len() && <Fundamental<N> as Row>::key(#[trigger] after[j]) == k;
    shelf::one_row_for_a_key::<Fundamental<N>>(after, j);
    after.lemma_filter_contains(p, j);
}

proof fn valuation_last<N: Scalar>(
    m: Map<Key, FundamentalView<N>>,
    fs: Seq<FundamentalView<N>>,
    n: int,
    i: int,
)
    requires
        0 <= i < n <= fs.len(),
        forall|j: int|
            i < j < n ==> ((#[trigger] fs[j]).code != fs[i].code || fs[j].date != fs[i].date),
    ensures
        ({
            let k = valuation_key(fs[i].code, fs[i].date);
            &&& valuations_written(m, fs, n).contains_key(k)
            &&& valuations_written(m, fs, n)[k] == fs[i]
        }),
    decreases n,
{
    if i < n - 1 {
        valuation_last(m, fs, n - 1, i);
        assert(fs[n - 1].code != fs[i].code || fs[n - 1].date != fs[i].date);
    }
}

proof fn valuation_elsewhere<N: Scalar>(
    m: Map<Key, FundamentalView<N>>,
    fs: Seq<FundamentalView<N>>,
    n: int,
    k: Key,
)
    requires
        0 <= n <= fs.len(),
        forall|i: int| 0 <= i < fs.len() ==> (#[trigger] fs[i]).code != k.first,
    ensures
        valuations_written(m, fs, n).contains_key(k) == m.contains_key(k),
        m.contains_key(k) ==> valuations_written(m, fs, n)[k] == m[k],
    decreases n,
{
    if n > 0 {
        valuation_elsewhere(m, fs, n - 1, k);
        assert(fs[n - 1].code != k.first);
    }
}

/// Writing valuations changes nothing that is read of a security that none of them belongs
/// to.
pub proof fn other_valuations_stay<N: Scalar>(
    before: Seq<FundamentalView<N>>,
    after: Seq<FundamentalView<N>>,
    fs: Seq<FundamentalView<N>>,
    code: Seq<char>,
    start: Option<Seq<char>>,
    end: Option<Seq<char>>,
)
    requires
        shelf::ascending::<Fundamental<N>>(before),
        shelf::ascending::<Fundamental<N>>(after),
        shelf::by_key::<Fundamental<N>>(after) == valuations_written(
            shelf::by_key::<Fundamental<N>>(before),
            fs,
            fs.len() as int,
        ),
        forall|i: int| 0 <= i < fs.len() ==> (#[trigger] fs[i]).code != code,
    ensures
        after.filter(wanted_valuation(code, start, end)) == before.filter(
            wanted_valuation(code, start, end),
        ),
{
    let p = wanted_valuation::<N>(code, start, end);
    let a = shelf::by_key::<Fundamental<N>>(after);
    let b = shelf::by_key::<Fundamental<N>>(before);
    assert forall|k: Key| #[trigger] a.contains_key(k) && p(a[k]) implies b.contains_key(k) && b[k]
        == a[k] by {
        key_of_row::<Fundamental<N>>(after, k);
        valuation_elsewhere(b, fs, fs.len() as int, k);
    }
    assert forall|k: Key| #[trigger] b.contains_key(k) && p(b[k]) implies a.contains_key(k) && a[k]
        == b[k] by {
        key_of_row::<Fundamental<N>>(before, k);
        valuation_elsewhere(b, fs, fs.len() as int, k);
    }
    shelf::same_selection::<Fundamental<N>>(after, before, p);
}

/// A security that was put on the watch list is found there, and the others are as they
/// were.
pub proof fn watched_is_found(before: Seq<StockView>, after: Seq<StockView>, s: StockView, code: Seq<char>)
    requires
        shelf::by_key::<Stock>(after) == shelf::by_key::<Stock>(before).insert(
            stock_key(s.code),
            s,
        ),
    ensures
        watched(after, s.code) == Some(s),
        code != s.code ==> watched(after, code) == watched(before, code),
{
    if code != s.code {
        assert(stock_key(code).first != stock_key(s.code).first);
    }
}

/// Of a security that was taken off the watch list nothing is left; of every other one
/// everything is.
pub proof fn removed_leaves_nothing<N: Scalar>(
    stocks: Seq<StockView>,
    bars: Seq<BarView<N>>,
    valuations: Seq<FundamentalView<N>>,
    code: Seq<char>,
    other: Seq<char>,
    period: Period,
    start: Option<Seq<char>>,
    end: Option<Seq<char>>,
)
    requires
        shelf::ascending::<Stock>(stocks),
        shelf::ascending::<Bar<N>>(bars),
        shelf::ascending::<Fundamental<N>>(valuations),
    ensures
        watched(stocks.filter(other_stock(code)), code) is None,
        chosen_bars(bars.filter(other_bar(code)), code, period, start, end).len() == 0,
        valuations.filter(other_valuation(code)).filter(wanted_valuation(code, start, end)).len()
            == 0,
        other != code ==> {
            &&& watched(stocks.filter(other_stock(code)), other) == watched(stocks, other)
            &&& chosen_bars(bars.filter(other_bar(code)), other, period, start, end)
                == chosen_bars(bars, other, period, start, end)
            &&& valuations.filter(other_valuation(code)).filter(
                wanted_valuation(other, start, end),
            ) == valuations.filter(wanted_valuation(other, start, end))
        },
{
    let so = other_stock(code);
    let bo = other_bar::<N>(code);
    let vo = other_valuation::<N>(code);
    shelf::selection_keeps_order::<Stock>(stocks, so);
    shelf::selection_keeps_order::<Bar<N>>(bars, bo);
    shelf::selection_keeps_order::<Fundamental<N>>(valuations, vo);
    let ss = stocks.filter(so);
    let bs = bars.filter(bo);
    let vs = valuations.filter(vo);
    let sm = shelf::by_key::<Stock>(stocks);
    if shelf::by_key::<Stock>(ss).contains_key(stock_key(code)) {
        key_of_row::<Stock>(stocks, stock_key(code));
    }
    if sm.contains_key(stock_key(other)) {
        key_of_row::<Stock>(stocks, stock_key(other));
    }
    assert(shelf::by_key::<Stock>(ss).contains_key(stock_key(other)) == (sm.contains_key(
        stock_key(other),
    ) && other != code));
    let wb = wanted_bar::<N>(code, period, start, end);
    if bs.filter(wb).len() > 0 {
        bs.lemma_filter_pred(wb, 0);
        let x = bs.filter(wb)[0];
        from_filter(bs, wb, 0);
        let j = choose|j: int| 0 <= j < bs.len() && bs[j] == x;
        bars.lemma_filter_pred(bo, j);
    }
    let wv = wanted_valuation::<N>(code, start, end);
    if vs.filter(wv).len() > 0 {
        vs.lemma_filter_pred(wv, 0);
        from_filter(vs, wv, 0);
        let j = choose|j: int| 0 <= j < vs.len() && vs[j] == vs.filter(wv)[0];
        valuations.lemma_filter_pred(vo, j);
    }
    if other != code {
        let ob = wanted_bar::<N>(other, period, start, end);
        let a = shelf::by_key::<Bar<N>>(bs);
        let b = shelf::by_key::<Bar<N>>(bars);
        assert forall|k: Key| #[trigger] b.contains_key(k) && ob(b[k]) implies a.contains_key(k)
            && a[k] == b[k] by {}
        shelf::same_selection::<Bar<N>>(bs, bars, ob);
        let ov = wanted_valuation::<N>(other, start, end);
        let c = shelf::by_key::<Fundamental<N>>(vs);
        let d = shelf::by_key::<Fundamental<N>>(valuations);
        assert forall|k: Key| #[trigger] d.contains_key(k) && ov(d[k]) implies c.contains_key(k)
            && c[k] == d[k] by {}
        shelf::same_selection::<Fundamental<N>>(vs, valuations, ov);
    }
}

proof fn from_filter<A>(s: Seq<A>, p: spec_fn(A) -> bool, i: int)
    requires
        0 <= i < s.filter(p).len(),
    ensures
        s.contains(s.filter(p)[i]),
    decreases s.len(),
{
    reveal(Seq::filter);
    if s.len() > 0 {
        let t = s.drop_last();
        if i < t.filter(p).len() {
            from_filter(t, p, i);
            let j = choose|j: int| 0 <= j < t.len() && t[j] == t.filter(p)[i];
            assert(s[j] == s.filter(p)[i]);
        } else {
            assert(s[s.len() - 1] == s.filter(p)[i]);
        }
    }
}

/// What was noted under a name is read back, and the other notes are as they were.
pub proof fn notes_are_read_back(
    before: Seq<NoteView>,
    after: Seq<NoteView>,
    name: Seq<char>,
    value: Seq<char>,
    other: Seq<char>,
)
    requires
        shelf::by_key::<Note>(after) == shelf::by_key::<Note>(before).insert(
            note_key(name),
            NoteView { key: name, value },
        ),
    ensures
        noted(after, name) == Some(value),
        other != name ==> noted(after, other) == noted(before, other),
{
    if other != name {
        assert(note_key(other).first != note_key(name).first);
    }
}

/// A cash balance in decimals is read back as it was set; the undefined one is none.
pub proof fn cash_is_read_back(before: Seq<NoteView>, after: Seq<NoteView>, amount: Fixed)
    requires
        shelf::by_key::<Note>(after) == shelf::by_key::<Note>(before).insert(
            note_key("cash"@),
            NoteView { key: "cash"@, value: amount.written() },
        ),
    ensures
        cash_noted::<Fixed>(noted(after, "cash"@)) == (if amount.defined {
            Some(amount)
        } else {
            None
        }),
{
    notes_are_read_back(before, after, "cash"@, amount.written(), "cash"@);
    if amount.defined {
        fixed::notation_reads_back(amount);
    } else {
        let s = "NaN"@;
        reveal_strlit("NaN");
        assert(s[0] == 'N');
        text::first_index_bound(s, '.');
        let i = text::first_index(s, '.') as int;
        assert(i == s.len() || s[i] == '.');
        assert(s[1] == 'a' && s[2] == 'N');
        assert(s.take(3) =~= s);
        assert(!text::is_digit(s[0]));
        assert(fixed::notation_units(s) is None);
    }
}

} // verus!
