//! Valuations day by day.
use super::models;
use super::models::{Fundamental, FundamentalView, Market};
use super::wire;
use crate::json;
use crate::json::{Json, JsonView};
use crate::num;
use crate::num::Scalar;
use crate::text;
use vstd::prelude::*;

verus! {

// ---------------------------------------------------------------------------
// Asking for valuations
// ---------------------------------------------------------------------------
/// Where valuations are asked for.
pub const URL: &'static str = "https://datacenter-web.eastmoney.com/api/data/v1/get";

/// How many valuations a page of an answer holds at most.
pub const PAGE_SIZE: u64 = 5000;

/// Which valuations are asked for: those of a security, from a day on where one is given.
pub open spec fn filter_text(code: Seq<char>, market: Market, since: Option<Seq<char>>) -> Seq<
    char,
> {
    let all = "(SECUCODE=\""@ + models::secu_text(code, market) + "\")"@;
    match since {
        Some(day) => all + ("(TRADE_DATE>='"@ + day + "')"@),
        None => all,
    }
}

fn filter_of(code: &str, market: Market, since: Option<&str>) -> (r: String)
    ensures
        r@ == filter_text(
            code@,
            market,
            match since {
                Some(day) => Some(day@),
                None => None,
            },
        ),
{
    let mut out = wire::message("(SECUCODE=\"", models::secu_code(code, market).as_str(), "\")");
    match since {
        Some(day) => {
            out.append(wire::message("(TRADE_DATE>='", day, "')").as_str());
        },
        None => {},
    }
    out
}

/// The parameters of a request for a page of valuations, in the order of the days.
pub fn page_params(code: &str, market: Market, since: Option<&str>, page: u64) -> (r: Vec<
    (String, String),
>)
    ensures
        wire::params(r@) == seq![
            ("reportName"@, "RPT_VALUEANALYSIS_DET"@),
            ("columns"@, "SECUCODE,TRADE_DATE,PE_TTM,PB_MRQ,PS_TTM,TOTAL_MARKET_CAP"@),
            ("filter"@, filter_text(code@, market, (match since {
                Some(day) => Some(day@),
                None => None,
            }))),
            ("pageNumber"@, text::decimal(page as nat)),
            ("pageSize"@, text::decimal(PAGE_SIZE as nat)),
            ("sortColumns"@, "TRADE_DATE"@),
            ("sortTypes"@, "1"@),
            ("source"@, "WEB"@),
            ("client"@, "WEB"@),
        ],
{
    let mut out: Vec<(String, String)> = Vec::new();
    assert(wire::params(out@) =~= Seq::<(Seq<char>, Seq<char>)>::empty());
    wire::add_param(&mut out, "reportName", "RPT_VALUEANALYSIS_DET");
    wire::add_param(
        &mut out,
        "columns",
        "SECUCODE,TRADE_DATE,PE_TTM,PB_MRQ,PS_TTM,TOTAL_MARKET_CAP",
    );
    wire::add_param(&mut out, "filter", filter_of(code, market, since).as_str());
    wire::add_param(&mut out, "pageNumber", text::show(page).as_str());
    wire::add_param(&mut out, "pageSize", text::show(PAGE_SIZE).as_str());
    wire::add_param(&mut out, "sortColumns", "TRADE_DATE");
    wire::add_param(&mut out, "sortTypes", "1");
    wire::add_param(&mut out, "source", "WEB");
    wire::add_param(&mut out, "client", "WEB");
    out
}

/// The valuation that a record holds, where it has a date. What is missing in it stays
/// missing; a negative ratio of the price to the earnings means a loss.
pub open spec fn valuation_in<N: Scalar>(code: Seq<char>, d: JsonView) -> Option<
    FundamentalView<N>,
> {
    match wire::date_part(json::text_or_empty(d, "TRADE_DATE"@)) {
        Some(day) => Some(
            FundamentalView {
                code,
                date: day,
                pe_ttm: json::scalar_field(d, "PE_TTM"@),
                pb_mrq: json::scalar_field(d, "PB_MRQ"@),
                ps_ttm: json::scalar_field(d, "PS_TTM"@),
                total_mv: json::scalar_field(d, "TOTAL_MARKET_CAP"@),
            },
        ),
        None => None,
    }
}

/// The valuations that the first `n` records hold.
pub open spec fn valuations_in<N: Scalar>(code: Seq<char>, items: Seq<JsonView>, n: int) -> Seq<
    FundamentalView<N>,
>
    decreases n,
{
    if n <= 0 {
        Seq::empty()
    } else {
        match valuation_in::<N>(code, items[n - 1]) {
            Some(f) => valuations_in::<N>(code, items, n - 1).push(f),
            None => valuations_in::<N>(code, items, n - 1),
        }
    }
}

/// The valuations on a page; none where the page is empty.
pub open spec fn page_rows<N: Scalar>(code: Seq<char>, j: JsonView) -> Seq<FundamentalView<N>> {
    match json::present(json::field(j, "result"@)) {
        Some(r) => {
            let items = json::items_or_empty(Some(r), "data"@);
            valuations_in::<N>(code, items, items.len() as int)
        },
        None => Seq::empty(),
    }
}

/// How many pages there are, by one of them; none where the page is empty.
pub open spec fn page_count(j: JsonView) -> int {
    match json::present(json::field(j, "result"@)) {
        Some(r) => match json::field(r, "pages"@) {
            Some(p) => match json::as_natural(p) {
                Some(n) => n,
                None => 1,
            },
            None => 1,
        },
        None => 0,
    }
}

/// Valuations that come page by page.
pub struct Paging<N: Scalar> {
    /// The page to ask for, from 1 on.
    pub page: u64,
    /// Whether all pages have come.
    pub done: bool,
    /// The valuations that have come.
    pub rows: Vec<Fundamental<N>>,
}

impl<N: Scalar> Paging<N> {
    /// The beginning. The source has no valuations of Hong Kong, so nothing is asked for
    /// there.
    pub fn new(market: Market) -> (r: Self)
        ensures
            r.page == 1,
            r.done == (market == Market::HK),
            r.rows@.len() == 0,
    {
        Paging { page: 1, done: market == Market::HK, rows: Vec::new() }
    }

    /// Takes the page that was asked for.
    pub fn take_document(&mut self, code: &str, j: &Json)
        ensures
            models::valuations(final(self).rows@) == models::valuations(old(self).rows@)
                + page_rows::<N>(code@, j@),
            final(self).done == (old(self).page >= page_count(j@)),
            final(self).page == (if old(self).page >= page_count(j@) {
                old(self).page as int
            } else {
                old(self).page + 1
            }),
    {
        let ghost had = models::valuations(self.rows@);
        let result = match j.get_present("result") {
            Some(r) => r,
            None => {
                self.done = true;
                assert(models::valuations(self.rows@) =~= had + Seq::<FundamentalView<N>>::empty());
                return;
            },
        };
        self.take_rows(code, result);
        let pages: u64 = match result.get("pages") {
            Some(p) => match p.as_u64() {
                Some(n) => n,
                None => 1,
            },
            None => 1,
        };
        if self.page >= pages {
            self.done = true;
        } else {
            self.page = self.page + 1;
            self.done = false;
        }
    }

    fn take_rows(&mut self, code: &str, result: &Json)
        ensures
            models::valuations(final(self).rows@) == models::valuations(old(self).rows@)
                + valuations_in::<N>(
                code@,
                json::items_or_empty(Some(result@), "data"@),
                json::items_or_empty(Some(result@), "data"@).len() as int,
            ),
            final(self).page == old(self).page,
            final(self).done == old(self).done,
    {
        let ghost had = models::valuations(self.rows@);
        let items = match result.items_field("data") {
            Some(v) => v,
            None => {
                assert(models::valuations(self.rows@) =~= had + Seq::<FundamentalView<N>>::empty());
                return;
            },
        };
        let ghost vs = json::documents(items@);
        let ghost page = self.page;
        let ghost done = self.done;
        let mut i: usize = 0;
        assert(models::valuations(self.rows@) =~= had + Seq::<FundamentalView<N>>::empty());
        while i < items.len()
            invariant
                vs == json::documents(items@),
                i <= items@.len(),
                self.page == page,
                self.done == done,
                models::valuations(self.rows@) == had + valuations_in::<N>(code@, vs, i as int),
            decreases items@.len() - i,
        {
            let d = &items[i];
            assert(vs[i as int] == d@);
            match wire::first_ten(d.str_or_empty("TRADE_DATE").as_str()) {
                Some(day) => {
                    let ghost before = self.rows@;
                    self.rows.push(
                        Fundamental {
                            code: code.to_owned(),
                            date: day,
                            pe_ttm: d.num_field("PE_TTM"),
                            pb_mrq: d.num_field("PB_MRQ"),
                            ps_ttm: d.num_field("PS_TTM"),
                            total_mv: d.num_field("TOTAL_MARKET_CAP"),
                        },
                    );
                    assert(models::valuations(self.rows@) =~= models::valuations(before).push(
                        self.rows@.last()@,
                    ));
                    assert(models::valuations(self.rows@) =~= had + valuations_in::<N>(
                        code@,
                        vs,
                        i + 1,
                    ));
                },
                None => {},
            }
            i += 1;
        }
    }

    /// Takes the answer to a request for the page.
    pub fn take(&mut self, code: &str, body: &str) -> (r: Result<(), String>)
        ensures
            match json::json_of(body@) {
                Some(j) => {
                    &&& r is Ok
                    &&& models::valuations(final(self).rows@) == models::valuations(
                        old(self).rows@,
                    ) + page_rows::<N>(code@, j)
                    &&& final(self).done == (old(self).page >= page_count(j))
                    &&& final(self).page == (if old(self).page >= page_count(j) {
                        old(self).page as int
                    } else {
                        old(self).page + 1
                    })
                },
                None => r matches Err(e) && e@ == "解析东财基本面响应失败"@ && *final(self) == *old(
                    self,
                ),
            },
    {
        match json::parse(body) {
            Some(j) => {
                self.take_document(code, &j);
                Ok(())
            },
            None => Err("解析东财基本面响应失败".to_owned()),
        }
    }
}

// ---------------------------------------------------------------------------
// Alignment with trading days
// ---------------------------------------------------------------------------
/// Valuations laid out along a series of trading days.
pub struct Aligned<N: Scalar> {
    pub pe: Vec<N>,
    pub pb: Vec<N>,
    pub ps: Vec<N>,
    pub mv: Vec<N>,
}

/// The first valuation from `j` on that is dated after a day.
pub open spec fn advance<N: Scalar>(
    funda: Seq<FundamentalView<N>>,
    day: Seq<char>,
    j: int,
) -> int
    decreases funda.len() - j,
{
    if 0 <= j < funda.len() && text::not_after(funda[j].date, day) {
        advance(funda, day, j + 1)
    } else {
        j
    }
}

/// How many valuations have been passed at trading day `i`.
pub open spec fn passed<N: Scalar>(
    dates: Seq<Seq<char>>,
    funda: Seq<FundamentalView<N>>,
    i: int,
) -> int
    decreases i + 1,
{
    if i < 0 {
        0
    } else {
        advance(funda, dates[i], passed(dates, funda, i - 1))
    }
}

/// The valuation that holds on trading day `i`: the last that has been passed.
pub open spec fn current<N: Scalar>(
    dates: Seq<Seq<char>>,
    funda: Seq<FundamentalView<N>>,
    i: int,
) -> Option<FundamentalView<N>> {
    let j = passed(dates, funda, i);
    if j == 0 {
        None
    } else {
        Some(funda[j - 1])
    }
}

/// The ratios that hold on each trading day; undefined where none is known.
pub open spec fn ratios<N: Scalar>(
    dates: Seq<Seq<char>>,
    funda: Seq<FundamentalView<N>>,
    pick: spec_fn(FundamentalView<N>) -> Option<N>,
) -> Seq<N> {
    Seq::new(
        dates.len(),
        |i: int|
            match current(dates, funda, i) {
                Some(f) => num::or_undefined(pick(f)),
                None => N::undefined(),
            },
    )
}

proof fn advance_bound<N: Scalar>(funda: Seq<FundamentalView<N>>, day: Seq<char>, j: int)
    requires
        0 <= j <= funda.len(),
    ensures
        j <= advance(funda, day, j) <= funda.len(),
        forall|k: int| j <= k < advance(funda, day, j) ==> text::not_after(#[trigger] funda[k].date, day),
        advance(funda, day, j) < funda.len() ==> !text::not_after(
            funda[advance(funda, day, j)].date,
            day,
        ),
    decreases funda.len() - j,
{
    if j < funda.len() && text::not_after(funda[j].date, day) {
        advance_bound(funda, day, j + 1);
    }
}

/// Lays valuations out along trading days. Both should ascend by date. A day has the last
/// valuation dated on or before it; what that one does not know is undefined, though an
/// earlier one may know it.
pub fn align<N: Scalar>(dates: &[String], funda: &[Fundamental<N>]) -> (r: Aligned<N>)
    ensures
        r.pe@ == ratios(
            text::texts(dates@),
            models::valuations(funda@),
            |f: FundamentalView<N>| f.pe_ttm,
        ),
        r.pb@ == ratios(
            text::texts(dates@),
            models::valuations(funda@),
            |f: FundamentalView<N>| f.pb_mrq,
        ),
        r.ps@ == ratios(
            text::texts(dates@),
            models::valuations(funda@),
            |f: FundamentalView<N>| f.ps_ttm,
        ),
        r.mv@ == ratios(
            text::texts(dates@),
            models::valuations(funda@),
            |f: FundamentalView<N>| f.total_mv,
        ),
{
    let ghost ds = text::texts(dates@);
    let ghost fs = models::valuations(funda@);
    let ghost pick_pe = |f: FundamentalView<N>| f.pe_ttm;
    let ghost pick_pb = |f: FundamentalView<N>| f.pb_mrq;
    let ghost pick_ps = |f: FundamentalView<N>| f.ps_ttm;
    let ghost pick_mv = |f: FundamentalView<N>| f.total_mv;
    let mut pe: Vec<N> = Vec::new();
    let mut pb: Vec<N> = Vec::new();
    let mut ps: Vec<N> = Vec::new();
    let mut mv: Vec<N> = Vec::new();
    let mut i: usize = 0;
    let mut j: usize = 0;
    while i < dates.len()
        invariant
            ds == text::texts(dates@),
            fs == models::valuations(funda@),
            pick_pe == (|f: FundamentalView<N>| f.pe_ttm),
            pick_pb == (|f: FundamentalView<N>| f.pb_mrq),
            pick_ps == (|f: FundamentalView<N>| f.ps_ttm),
            pick_mv == (|f: FundamentalView<N>| f.total_mv),
            i <= dates@.len(),
            j <= funda@.len(),
            j == passed(ds, fs, i - 1),
            pe@ == ratios(ds, fs, pick_pe).take(i as int),
            pb@ == ratios(ds, fs, pick_pb).take(i as int),
            ps@ == ratios(ds, fs, pick_ps).take(i as int),
            mv@ == ratios(ds, fs, pick_mv).take(i as int),
        decreases dates@.len() - i,
    {
        let ghost j0 = j as int;
        while j < funda.len() && !text::precedes(dates[i].as_str(), funda[j].date.as_str())
            invariant
                ds == text::texts(dates@),
                fs == models::valuations(funda@),
                i < dates@.len(),
                j <= funda@.len(),
                advance(fs, ds[i as int], j as int) == advance(fs, ds[i as int], j0),
            decreases funda@.len() - j,
        {
            assert(fs[j as int].date == funda@[j as int].date@);
            j += 1;
        }
        assert(j < fs.len() ==> fs[j as int].date == funda@[j as int].date@);
        assert(j == passed(ds, fs, i as int));
        if j == 0 {
            pe.push(N::nan());
            pb.push(N::nan());
            ps.push(N::nan());
            mv.push(N::nan());
        } else {
            assert(fs[j - 1] == funda@[j - 1]@);
            let f = &funda[j - 1];
            pe.push(num::or_nan(f.pe_ttm));
            pb.push(num::or_nan(f.pb_mrq));
            ps.push(num::or_nan(f.ps_ttm));
            mv.push(num::or_nan(f.total_mv));
        }
        i += 1;
        assert(pe@ =~= ratios(ds, fs, pick_pe).take(i as int));
        assert(pb@ =~= ratios(ds, fs, pick_pb).take(i as int));
        assert(ps@ =~= ratios(ds, fs, pick_ps).take(i as int));
        assert(mv@ =~= ratios(ds, fs, pick_mv).take(i as int));
    }
    assert(pe@ =~= ratios(ds, fs, pick_pe));
    assert(pb@ =~= ratios(ds, fs, pick_pb));
    assert(ps@ =~= ratios(ds, fs, pick_ps));
    assert(mv@ =~= ratios(ds, fs, pick_mv));
    Aligned { pe, pb, ps, mv }
}

/// Days or valuations ascend by date.
pub open spec fn ascending(dates: Seq<Seq<char>>) -> bool {
    forall|i: int, j: int| 0 <= i < j < dates.len() ==> text::not_after(dates[i], dates[j])
}

/// The dates of valuations.
pub open spec fn valuation_dates<N: Scalar>(funda: Seq<FundamentalView<N>>) -> Seq<Seq<char>> {
    Seq::new(funda.len(), |i: int| funda[i].date)
}

/// No look-ahead: where days and valuations ascend, the valuations passed at a day are
/// those dated on or before it, and no other. So the one that holds is the last of them.
pub proof fn aligned_to_the_day<N: Scalar>(
    dates: Seq<Seq<char>>,
    funda: Seq<FundamentalView<N>>,
    i: int,
)
    requires
        0 <= i < dates.len(),
        ascending(dates),
        ascending(valuation_dates(funda)),
    ensures
        0 <= passed(dates, funda, i) <= funda.len(),
        forall|k: int|
            0 <= k < funda.len() ==> (k < passed(dates, funda, i) <==> text::not_after(
                #[trigger] funda[k].date,
                dates[i],
            )),
    decreases i,
{
    let vd = valuation_dates(funda);
    let j0 = passed(dates, funda, i - 1);
    if i > 0 {
        aligned_to_the_day(dates, funda, i - 1);
    }
    advance_bound(funda, dates[i], j0);
    let j = passed(dates, funda, i);
    assert forall|k: int| 0 <= k < funda.len() implies (k < j <==> text::not_after(
        #[trigger] funda[k].date,
        dates[i],
    )) by {
        if k < j0 {
            assert(text::not_after(dates[i - 1], dates[i]));
            text::not_after_transitive(funda[k].date, dates[i - 1], dates[i]);
        } else if k > j {
            assert(text::not_after(vd[j], vd[k]));
            if text::not_after(funda[k].date, dates[i]) {
                text::not_after_transitive(funda[j].date, funda[k].date, dates[i]);
            }
        }
    }
}

/// A ratio on a trading day is that of the last valuation that is dated not after the day,
/// and undefined where there is none.
pub proof fn ratio_is_of_the_last_valuation<N: Scalar>(
    dates: Seq<Seq<char>>,
    funda: Seq<FundamentalView<N>>,
    pick: spec_fn(FundamentalView<N>) -> Option<N>,
    i: int,
    k: int,
)
    requires
        0 <= i < dates.len(),
        ascending(dates),
        ascending(valuation_dates(funda)),
        -1 <= k < funda.len(),
        forall|j: int|
            0 <= j < funda.len() ==> (j <= k <==> text::not_after(
                #[trigger] funda[j].date,
                dates[i],
            )),
    ensures
        ratios(dates, funda, pick).len() == dates.len(),
        k < 0 ==> ratios(dates, funda, pick)[i] == N::undefined(),
        0 <= k ==> ratios(dates, funda, pick)[i] == (match pick(funda[k]) {
            Some(x) => x,
            None => N::undefined(),
        }),
{
    aligned_to_the_day(dates, funda, i);
    let j = passed(dates, funda, i);
    if j < k + 1 {
        assert(text::not_after(funda[j].date, dates[i]));
    }
    if k + 1 < j {
        assert(text::not_after(funda[k + 1].date, dates[i]));
    }
    assert(j == k + 1);
}

} // verus!
