//! Hong Kong: the number of shares in a lot, from Eastmoney, and valuations, from Baidu.
use super::models;
use super::models::{Fundamental, FundamentalView};
use super::wire;
use crate::json;
use crate::json::{Json, JsonView};
use crate::num::Scalar;
use crate::order;
use crate::text;
use vstd::prelude::*;

verus! {

/// Where the number of shares in a lot is asked for.
pub const F10_URL: &'static str = "https://datacenter.eastmoney.com/securities/api/data/v1/get";

/// Where valuations are asked for.
pub const BAIDU_URL: &'static str = "https://finance.baidu.com/opendata";

// ---------------------------------------------------------------------------
// Lots
// ---------------------------------------------------------------------------
/// The parameters of a request for the number of shares in a lot.
pub fn lot_params(code: &str) -> (r: Vec<(String, String)>)
    ensures
        wire::params(r@) == seq![
            ("reportName"@, "RPT_HKF10_INFO_SECURITYINFO"@),
            ("columns"@, "SECUCODE,TRADE_UNIT"@),
            ("filter"@, "(SECUCODE=\""@ + code@ + ".HK\")"@),
            ("client"@, "PC"@),
            ("source"@, "F10"@),
        ],
{
    let mut out: Vec<(String, String)> = Vec::new();
    assert(wire::params(out@) =~= Seq::<(Seq<char>, Seq<char>)>::empty());
    wire::add_param(&mut out, "reportName", "RPT_HKF10_INFO_SECURITYINFO");
    wire::add_param(&mut out, "columns", "SECUCODE,TRADE_UNIT");
    wire::add_param(
        &mut out,
        "filter",
        wire::message("(SECUCODE=\"", code, ".HK\")").as_str(),
    );
    wire::add_param(&mut out, "client", "PC");
    wire::add_param(&mut out, "source", "F10");
    out
}

/// The number of shares in a lot, in the first record of a document.
pub open spec fn lot_of(j: JsonView) -> Option<int> {
    let records = json::then_field(json::present(json::field(j, "result"@)), "data"@);
    match json::then_field(json::then_item(records, 0), "TRADE_UNIT"@) {
        Some(x) => json::as_integer(x),
        None => None,
    }
}

/// The number of shares in a lot, as a document gives it.
pub fn parse_lot_size(j: &Json) -> (r: Option<i64>)
    ensures
        match r {
            Some(n) => lot_of(j@) == Some(n as int),
            None => lot_of(j@) is None,
        },
{
    let records = match j.get_present("result") {
        Some(x) => x.get("data"),
        None => None,
    };
    let first = match records {
        Some(x) => x.at(0),
        None => None,
    };
    let size = match first {
        Some(x) => x.get("TRADE_UNIT"),
        None => None,
    };
    match size {
        Some(x) => x.as_i64(),
        None => None,
    }
}

/// The number of shares in a lot, as an answer gives it.
pub fn read_lot_size(body: &str) -> (r: Result<Option<i64>, String>)
    ensures
        match json::json_of(body@) {
            Some(j) => match r {
                Ok(Some(n)) => lot_of(j) == Some(n as int),
                Ok(None) => lot_of(j) is None,
                Err(_) => false,
            },
            None => r matches Err(e) && e@ == "解析港股 F10 响应失败"@,
        },
{
    match json::parse(body) {
        Some(j) => Ok(parse_lot_size(&j)),
        None => Err("解析港股 F10 响应失败".to_owned()),
    }
}

// ---------------------------------------------------------------------------
// Valuations
// ---------------------------------------------------------------------------
/// The parameters of a request for one figure of the last three years.
pub fn metric_params(code: &str, metric: &str) -> (r: Vec<(String, String)>)
    ensures
        wire::params(r@) == seq![
            ("openapi"@, "1"@),
            ("dspName"@, "iphone"@),
            ("tn"@, "tangram"@),
            ("client"@, "app"@),
            ("query"@, metric@),
            ("tag"@, metric@),
            ("code"@, code@),
            ("word"@, ""@),
            ("resource_id"@, "51171"@),
            ("market"@, "hk"@),
            ("chart_select"@, "近三年"@),
            ("skip_industry"@, "1"@),
            ("finClientType"@, "pc"@),
        ],
{
    let mut out: Vec<(String, String)> = Vec::new();
    assert(wire::params(out@) =~= Seq::<(Seq<char>, Seq<char>)>::empty());
    wire::add_param(&mut out, "openapi", "1");
    wire::add_param(&mut out, "dspName", "iphone");
    wire::add_param(&mut out, "tn", "tangram");
    wire::add_param(&mut out, "client", "app");
    wire::add_param(&mut out, "query", metric);
    wire::add_param(&mut out, "tag", metric);
    wire::add_param(&mut out, "code", code);
    wire::add_param(&mut out, "word", "");
    wire::add_param(&mut out, "resource_id", "51171");
    wire::add_param(&mut out, "market", "hk");
    wire::add_param(&mut out, "chart_select", "近三年");
    wire::add_param(&mut out, "skip_industry", "1");
    wire::add_param(&mut out, "finClientType", "pc");
    out
}

/// A figure day by day, apart from the texts that hold the days.
pub open spec fn points<N: Scalar>(v: Seq<(String, N)>) -> Seq<(Seq<char>, N)> {
    Seq::new(v.len(), |i: int| (v[i].0@, v[i].1))
}

/// Where a document holds a figure day by day.
pub open spec fn chart_of(j: JsonView) -> Option<JsonView> {
    let shown = json::then_field(
        json::then_item(json::field(j, "Result"@), 0),
        "DisplayData"@,
    );
    let result = json::then_field(
        json::then_field(json::then_field(shown, "resultData"@), "tplData"@),
        "result"@,
    );
    json::then_field(json::then_item(json::then_field(result, "chartInfo"@), 0), "body"@)
}

/// The day and the value that a row holds, where both are there.
pub open spec fn point_in<N: Scalar>(row: JsonView) -> Option<(Seq<char>, N)> {
    match json::as_items(row) {
        Some(c) => if c.len() < 2 {
            None
        } else {
            match (json::as_text(c[0]), json::as_text(c[1])) {
                (Some(day), Some(value)) => match (wire::date_part(day), N::denoted(value)) {
                    (Some(d), Some(v)) => Some((d, v)),
                    _ => None,
                },
                _ => None,
            }
        },
        None => None,
    }
}

/// The days and values that the first `n` rows hold.
pub open spec fn points_in<N: Scalar>(rows: Seq<JsonView>, n: int) -> Seq<(Seq<char>, N)>
    decreases n,
{
    if n <= 0 {
        Seq::empty()
    } else {
        match point_in::<N>(rows[n - 1]) {
            Some(p) => points_in::<N>(rows, n - 1).push(p),
            None => points_in::<N>(rows, n - 1),
        }
    }
}

/// A figure day by day, as a document gives it; nothing where it has another shape.
pub open spec fn metric_of<N: Scalar>(j: JsonView) -> Seq<(Seq<char>, N)> {
    match chart_of(j) {
        Some(x) => match json::as_items(x) {
            Some(rows) => points_in::<N>(rows, rows.len() as int),
            None => Seq::empty(),
        },
        None => Seq::empty(),
    }
}

fn get_in<'a>(j: Option<&'a Json>, key: &str) -> (r: Option<&'a Json>)
    ensures
        json::seen(r) == json::then_field(json::seen(j), key@),
{
    match j {
        Some(x) => x.get(key),
        None => None,
    }
}

fn first_in<'a>(j: Option<&'a Json>) -> (r: Option<&'a Json>)
    ensures
        json::seen(r) == json::then_item(json::seen(j), 0),
{
    match j {
        Some(x) => x.at(0),
        None => None,
    }
}

fn parse_point<N: Scalar>(row: &Json) -> (r: Option<(String, N)>)
    ensures
        (match r {
            Some(p) => Some((p.0@, p.1)),
            None => None,
        }) == point_in::<N>(row@),
{
    let c = match row.items() {
        Some(c) => c,
        None => {
            return None;
        },
    };
    if c.len() < 2 {
        return None;
    }
    let day = match c[0].as_str() {
        Some(s) => s,
        None => {
            return None;
        },
    };
    let value = match c[1].as_str() {
        Some(s) => s,
        None => {
            return None;
        },
    };
    match (wire::first_ten(day), N::parse(value)) {
        (Some(d), Some(v)) => Some((d, v)),
        _ => None,
    }
}

/// A figure day by day, as a document gives it. Rows without a day or without a number are
/// passed over.
pub fn parse_metric<N: Scalar>(j: &Json) -> (r: Vec<(String, N)>)
    ensures
        points(r@) == metric_of::<N>(j@),
{
    let mut out: Vec<(String, N)> = Vec::new();
    assert(points(out@) =~= Seq::<(Seq<char>, N)>::empty());
    let shown = get_in(first_in(j.get("Result")), "DisplayData");
    let result = get_in(get_in(get_in(shown, "resultData"), "tplData"), "result");
    let body = get_in(first_in(get_in(result, "chartInfo")), "body");
    let rows = match body {
        Some(x) => x.items(),
        None => None,
    };
    let rows = match rows {
        Some(v) => v,
        None => {
            return out;
        },
    };
    let ghost vs = json::documents(rows@);
    let mut i: usize = 0;
    while i < rows.len()
        invariant
            vs == json::documents(rows@),
            i <= rows@.len(),
            points(out@) == points_in::<N>(vs, i as int),
        decreases rows@.len() - i,
    {
        assert(vs[i as int] == rows@[i as int]@);
        match parse_point(&rows[i]) {
            Some(p) => {
                let ghost before = out@;
                out.push(p);
                assert(points(out@) =~= points(before).push((out@.last().0@, out@.last().1)));
            },
            None => {},
        }
        i += 1;
    }
    out
}

/// A figure day by day, as an answer gives it.
pub fn read_metric<N: Scalar>(body: &str) -> (r: Result<Vec<(String, N)>, String>)
    ensures
        match json::json_of(body@) {
            Some(j) => r matches Ok(v) && points(v@) == metric_of::<N>(j),
            None => r matches Err(e) && e@ == "解析百度估值响应失败"@,
        },
{
    match json::parse(body) {
        Some(j) => Ok(parse_metric(&j)),
        None => Err("解析百度估值响应失败".to_owned()),
    }
}

// ---------------------------------------------------------------------------
// Figures put together
// ---------------------------------------------------------------------------
/// The last value of a day.
pub open spec fn value_on<N: Scalar>(ps: Seq<(Seq<char>, N)>, day: Seq<char>) -> Option<N>
    decreases ps.len(),
{
    if ps.len() == 0 {
        None
    } else if ps.last().0 == day {
        Some(ps.last().1)
    } else {
        value_on(ps.drop_last(), day)
    }
}

/// The valuation of a day. Market values come in units of a hundred million.
pub open spec fn valuation_on<N: Scalar>(
    code: Seq<char>,
    pe: Seq<(Seq<char>, N)>,
    pb: Seq<(Seq<char>, N)>,
    mv: Seq<(Seq<char>, N)>,
    day: Seq<char>,
) -> FundamentalView<N> {
    FundamentalView {
        code,
        date: day,
        pe_ttm: value_on(pe, day),
        pb_mrq: value_on(pb, day),
        ps_ttm: None,
        total_mv: match value_on(mv, day) {
            Some(v) => Some(v.product(N::whole(100_000_000))),
            None => None,
        },
    }
}

/// The days of valuations.
pub open spec fn days_of<N: Scalar>(rows: Seq<FundamentalView<N>>) -> Seq<Seq<char>> {
    Seq::new(rows.len(), |i: int| rows[i].date)
}

fn find_value<N: Scalar>(ps: &Vec<(String, N)>, day: &str) -> (r: Option<N>)
    ensures
        r == value_on(points(ps@), day@),
{
    let ghost all = points(ps@);
    let mut i: usize = ps.len();
    assert(all.take(i as int) =~= all);
    while i > 0
        invariant
            all == points(ps@),
            i <= ps@.len(),
            value_on(all, day@) == value_on(all.take(i as int), day@),
        decreases i,
    {
        assert(all.take(i as int).drop_last() =~= all.take(i - 1));
        assert(all.take(i as int).last() == (ps@[i - 1].0@, ps@[i - 1].1));
        i -= 1;
        if text::same(ps[i].0.as_str(), day) {
            return Some(ps[i].1);
        }
    }
    None
}

proof fn value_where_noted<N: Scalar>(ps: Seq<(Seq<char>, N)>, day: Seq<char>)
    ensures
        value_on(ps, day) is Some <==> exists|i: int| 0 <= i < ps.len() && (#[trigger] ps[i]).0
            == day,
    decreases ps.len(),
{
    if ps.len() > 0 {
        value_where_noted(ps.drop_last(), day);
        if ps.last().0 != day {
            if exists|i: int| 0 <= i < ps.len() && (#[trigger] ps[i]).0 == day {
                let i = choose|i: int| 0 <= i < ps.len() && (#[trigger] ps[i]).0 == day;
                assert(ps.drop_last()[i].0 == day);
            }
            if value_on(ps.drop_last(), day) is Some {
                let i = choose|i: int|
                    0 <= i < ps.drop_last().len() && (#[trigger] ps.drop_last()[i]).0 == day;
                assert(ps[i].0 == day);
            }
        } else {
            assert(ps[ps.len() - 1].0 == day);
        }
    }
}

fn note_days<N: Scalar>(days: &mut Vec<String>, ps: &Vec<(String, N)>)
    requires
        order::strictly_ascending(text::texts(old(days)@)),
    ensures
        order::strictly_ascending(text::texts(final(days)@)),
        forall|t: Seq<char>| #[trigger]
            text::texts(final(days)@).contains(t) <==> (text::texts(old(days)@).contains(t)
                || value_on(points(ps@), t) is Some),
{
    let ghost had = text::texts(days@);
    let ghost all = points(ps@);
    let mut i: usize = 0;
    while i < ps.len()
        invariant
            all == points(ps@),
            i <= ps@.len(),
            order::strictly_ascending(text::texts(days@)),
            forall|t: Seq<char>| #[trigger]
                text::texts(days@).contains(t) <==> (had.contains(t) || exists|k: int|
                    0 <= k < i && (#[trigger] all[k]).0 == t),
        decreases ps@.len() - i,
    {
        let ghost before = text::texts(days@);
        order::insert_once(days, ps[i].0.as_str());
        assert(all[i as int].0 == ps@[i as int].0@);
        assert forall|t: Seq<char>| #[trigger] text::texts(days@).contains(t) <==> (had.contains(t)
            || exists|k: int| 0 <= k < i + 1 && (#[trigger] all[k]).0 == t) by {
            assert(text::texts(days@).contains(t) <==> (before.contains(t) || t
                == ps@[i as int].0@));
            if t == ps@[i as int].0@ {
                assert(all[i as int].0 == t);
            }
        }
        i += 1;
    }
    proof {
        assert forall|t: Seq<char>| #[trigger] text::texts(days@).contains(t) <==> (had.contains(t)
            || value_on(all, t) is Some) by {
            value_where_noted(all, t);
        }
    }
}

/// Three figures of a security put together by the day: one valuation for each day on which
/// one of them is noted, in the order of the days.
pub fn merge<N: Scalar>(
    code: &str,
    pe: &Vec<(String, N)>,
    pb: &Vec<(String, N)>,
    mv: &Vec<(String, N)>,
) -> (r: Vec<Fundamental<N>>)
    ensures
        order::strictly_ascending(days_of(models::valuations(r@))),
        forall|day: Seq<char>| #[trigger]
            days_of(models::valuations(r@)).contains(day) <==> (value_on(points(pe@), day) is Some
                || value_on(points(pb@), day) is Some || value_on(points(mv@), day) is Some),
        forall|i: int|
            0 <= i < r@.len() ==> (#[trigger] r@[i])@ == valuation_on(
                code@,
                points(pe@),
                points(pb@),
                points(mv@),
                r@[i].date@,
            ),
{
    let mut days: Vec<String> = Vec::new();
    note_days(&mut days, pe);
    let ghost d1 = text::texts(days@);
    note_days(&mut days, pb);
    let ghost d2 = text::texts(days@);
    note_days(&mut days, mv);
    let ghost ds = text::texts(days@);
    let mut out: Vec<Fundamental<N>> = Vec::new();
    let mut i: usize = 0;
    while i < days.len()
        invariant
            ds == text::texts(days@),
            i <= days@.len(),
            out@.len() == i,
            forall|k: int|
                0 <= k < i ==> (#[trigger] out@[k])@ == valuation_on(
                    code@,
                    points(pe@),
                    points(pb@),
                    points(mv@),
                    ds[k],
                ),
        decreases days@.len() - i,
    {
        let day = days[i].as_str();
        let total = match find_value(mv, day) {
            Some(v) => Some(v.times(N::from_int(100_000_000))),
            None => None,
        };
        out.push(
            Fundamental {
                code: code.to_owned(),
                date: day.to_owned(),
                pe_ttm: find_value(pe, day),
                pb_mrq: find_value(pb, day),
                ps_ttm: None,
                total_mv: total,
            },
        );
        assert(ds[i as int] == day@);
        i += 1;
    }
    proof {
        let rs = days_of(models::valuations(out@));
        assert(rs =~= ds) by {
            assert forall|k: int| 0 <= k < rs.len() implies rs[k] == ds[k] by {
                assert(out@[k]@.date == ds[k]);
            }
        }
        assert forall|k: int| 0 <= k < out@.len() implies (#[trigger] out@[k])@ == valuation_on(
            code@,
            points(pe@),
            points(pb@),
            points(mv@),
            out@[k].date@,
        ) by {
            assert(out@[k]@.date == ds[k]);
        }
        assert forall|day: Seq<char>| #[trigger] rs.contains(day) <==> (value_on(points(pe@), day)
            is Some || value_on(points(pb@), day) is Some || value_on(points(mv@), day) is Some) by {
            assert(ds.contains(day) <==> (d2.contains(day) || value_on(points(mv@), day) is Some));
            assert(d2.contains(day) <==> (d1.contains(day) || value_on(points(pb@), day) is Some));
            assert(!Seq::<Seq<char>>::empty().contains(day));
        }
    }
    out
}

} // verus!
