//! Eastmoney: bars and quotes as JSON.
use super::models;
use super::models::{KLine, KLineView, Market, Period, Quote, QuoteView};
use super::wire;
use crate::json;
use crate::json::{Json, JsonView};
use crate::num;
use crate::num::Scalar;
use crate::text;
use vstd::prelude::*;

verus! {

/// The source Eastmoney.
pub struct Eastmoney;

/// Where bars are asked for.
pub const KLINE_URL: &'static str = "https://push2his.eastmoney.com/api/qt/stock/kline/get";

/// Where the quote of one security is asked for.
pub const QUOTE_URL: &'static str = "https://push2.eastmoney.com/api/qt/stock/get";

/// Where the quotes of several securities are asked for.
pub const ULIST_URL: &'static str = "https://push2.eastmoney.com/api/qt/ulist.np/get";

// ---------------------------------------------------------------------------
// Bars
// ---------------------------------------------------------------------------
/// The parameters of a request for bars, adjusted for dividends, from one day to another.
pub fn klines_params(code: &str, market: Market, period: Period, beg: &str, end: &str) -> (r: Vec<
    (String, String),
>)
    ensures
        wire::params(r@) == seq![
            ("secid"@, models::secid_text(code@, market)),
            ("fields1"@, "f1,f2,f3,f4,f5,f6"@),
            ("fields2"@, "f51,f52,f53,f54,f55,f56,f57,f58,f59,f60,f61"@),
            ("klt"@, (match period {
                Period::Day => "101"@,
                Period::Min1 => "1"@,
                Period::Min5 => "5"@,
                Period::Min15 => "15"@,
                Period::Min30 => "30"@,
                Period::Min60 => "60"@,
            })),
            ("fqt"@, "1"@),
            ("beg"@, beg@),
            ("end"@, end@),
        ],
{
    let mut out: Vec<(String, String)> = Vec::new();
    assert(wire::params(out@) =~= Seq::<(Seq<char>, Seq<char>)>::empty());
    wire::add_param(&mut out, "secid", models::secid(code, market).as_str());
    wire::add_param(&mut out, "fields1", "f1,f2,f3,f4,f5,f6");
    wire::add_param(&mut out, "fields2", "f51,f52,f53,f54,f55,f56,f57,f58,f59,f60,f61");
    wire::add_param(&mut out, "klt", period.eastmoney_klt());
    wire::add_param(&mut out, "fqt", "1");
    wire::add_param(&mut out, "beg", beg);
    wire::add_param(&mut out, "end", end);
    out
}

/// The text that an item of a list is, or an empty one.
pub open spec fn row_text(j: JsonView) -> Seq<char> {
    match json::as_text(j) {
        Some(s) => s,
        None => Seq::empty(),
    }
}

/// The bar that a row holds: date, open, close, high, low, volume, amount, and behind three
/// fields that are not kept the turnover.
pub open spec fn bar_in<N: Scalar>(code: Seq<char>, row: Seq<char>) -> Option<KLineView<N>> {
    let f = text::pieces(row, ',');
    if f.len() < 11 {
        None
    } else {
        Some(
            KLineView {
                code,
                date: f[0],
                open: wire::number::<N>(f[1]),
                close: wire::number::<N>(f[2]),
                high: wire::number::<N>(f[3]),
                low: wire::number::<N>(f[4]),
                volume: wire::number::<N>(f[5]),
                amount: wire::number::<N>(f[6]),
                turnover: N::denoted(f[10]),
            },
        )
    }
}

/// The bars that the first `n` rows hold.
pub open spec fn bars_in<N: Scalar>(code: Seq<char>, rows: Seq<JsonView>, n: int) -> Seq<
    KLineView<N>,
>
    decreases n,
{
    if n <= 0 {
        Seq::empty()
    } else {
        match bar_in::<N>(code, row_text(rows[n - 1])) {
            Some(k) => bars_in::<N>(code, rows, n - 1).push(k),
            None => bars_in::<N>(code, rows, n - 1),
        }
    }
}

/// The name of a security and its bars, as a document gives them.
pub open spec fn klines_of<N: Scalar>(code: Seq<char>, j: JsonView) -> Option<
    (Seq<char>, Seq<KLineView<N>>),
> {
    match json::present(json::field(j, "data"@)) {
        Some(data) => {
            let rows = json::items_or_empty(Some(data), "klines"@);
            Some((json::text_or_empty(data, "name"@), bars_in::<N>(code, rows, rows.len() as int)))
        },
        None => None,
    }
}

fn parse_row<N: Scalar>(code: &str, row: &str) -> (r: Option<KLine<N>>)
    ensures
        (match r {
            Some(k) => Some(k@),
            None => None,
        }) == bar_in::<N>(code@, row@),
{
    let f = text::split(row, ',');
    assert(text::texts(f@).len() == f@.len());
    if f.len() < 11 {
        return None;
    }
    Some(
        KLine {
            code: code.to_owned(),
            date: f[0].clone(),
            open: wire::parse_number(f[1].as_str()),
            close: wire::parse_number(f[2].as_str()),
            high: wire::parse_number(f[3].as_str()),
            low: wire::parse_number(f[4].as_str()),
            volume: wire::parse_number(f[5].as_str()),
            amount: wire::parse_number(f[6].as_str()),
            turnover: N::parse(f[10].as_str()),
        },
    )
}

/// The name of a security and its bars, as a document gives them. Rows with too few fields
/// are passed over.
pub fn parse_klines<N: Scalar>(code: &str, j: &Json) -> (r: Result<(String, Vec<KLine<N>>), String>)
    ensures
        match r {
            Ok((name, v)) => klines_of::<N>(code@, j@) == Some((name@, models::bars(v@))),
            Err(e) => klines_of::<N>(code@, j@) is None && e@ == "东财返回空数据，代码 "@ + code@
                + " 可能不存在"@,
        },
{
    let data = match j.get_present("data") {
        Some(d) => d,
        None => {
            return Err(wire::message("东财返回空数据，代码 ", code, " 可能不存在"));
        },
    };
    let name = data.str_or_empty("name");
    let mut out: Vec<KLine<N>> = Vec::new();
    assert(models::bars(out@) =~= Seq::<KLineView<N>>::empty());
    let rows = match data.items_field("klines") {
        Some(v) => v,
        None => {
            return Ok((name, out));
        },
    };
    let ghost vs = json::documents(rows@);
    let mut i: usize = 0;
    while i < rows.len()
        invariant
            vs == json::documents(rows@),
            i <= rows@.len(),
            models::bars(out@) == bars_in::<N>(code@, vs, i as int),
        decreases rows@.len() - i,
    {
        assert(vs[i as int] == rows@[i as int]@);
        proof {
            reveal_strlit("");
            assert(""@ =~= Seq::<char>::empty());
        }
        let row = match rows[i].as_str() {
            Some(s) => s,
            None => "",
        };
        match parse_row(code, row) {
            Some(k) => {
                let ghost before = out@;
                out.push(k);
                assert(models::bars(out@) =~= models::bars(before).push(out@.last()@));
            },
            None => {},
        }
        i += 1;
    }
    Ok((name, out))
}

/// The name of a security and its bars, as an answer gives them.
pub fn read_klines<N: Scalar>(code: &str, body: &str) -> (r: Result<
    (String, Vec<KLine<N>>),
    String,
>)
    ensures
        match json::json_of(body@) {
            Some(j) => match r {
                Ok((name, v)) => klines_of::<N>(code@, j) == Some((name@, models::bars(v@))),
                Err(e) => klines_of::<N>(code@, j) is None && e@ == "东财返回空数据，代码 "@ + code@
                    + " 可能不存在"@,
            },
            None => r matches Err(e) && e@ == "解析东财K线响应失败"@,
        },
{
    match json::parse(body) {
        Some(j) => parse_klines(code, &j),
        None => Err("解析东财K线响应失败".to_owned()),
    }
}

// ---------------------------------------------------------------------------
// Quotes
// ---------------------------------------------------------------------------
/// An integer reduced to the range of `i32` by its lower 32 bits.
pub open spec fn low_bits(d: int) -> int {
    (d + 0x8000_0000) % 0x1_0000_0000 - 0x8000_0000
}

fn to_i32(d: i64) -> (r: i32)
    ensures
        r == low_bits(d as int),
{
    let m: i64 = d % 0x1_0000_0000;
    let u: i64 = if m < 0 {
        m + 0x1_0000_0000
    } else {
        m
    };
    if u >= 0x8000_0000 {
        (u - 0x1_0000_0000) as i32
    } else {
        u as i32
    }
}

/// Ten, multiplied by itself.
pub open spec fn tens<N: Scalar>(n: nat) -> N
    decreases n,
{
    if n == 0 {
        num::unit::<N>()
    } else {
        tens::<N>((n - 1) as nat).product(N::whole(10))
    }
}

/// How many factors of ten count: with 400 of them every number of double precision has
/// become infinite.
pub open spec fn counted(n: int) -> nat {
    if n > 400 {
        400
    } else {
        n as nat
    }
}

/// What a price with a number of decimal places is divided by.
pub open spec fn scale_of<N: Scalar>(places: int) -> N {
    if places >= 0 {
        tens::<N>(counted(places))
    } else {
        num::unit::<N>().quotient(tens::<N>(counted(-places)))
    }
}

fn ten_power<N: Scalar>(places: i32) -> (r: N)
    ensures
        r == scale_of::<N>(places as int),
{
    let n: i64 = if places >= 0 {
        places as i64
    } else {
        -(places as i64)
    };
    let m: i64 = if n > 400 {
        400
    } else {
        n
    };
    let mut t = num::one::<N>();
    let mut i: i64 = 0;
    while i < m
        invariant
            0 <= i <= m,
            t == tens::<N>(i as nat),
        decreases m - i,
    {
        t = t.times(N::from_int(10));
        i += 1;
    }
    if places >= 0 {
        t
    } else {
        num::one::<N>().over(t)
    }
}

/// The number of decimal places under a key, or two.
pub open spec fn places_in(j: JsonView, key: Seq<char>) -> int {
    match json::integer_field(j, key) {
        Some(d) => low_bits(d),
        None => 2,
    }
}

fn decimals<N: Scalar>(j: &Json, key: &str) -> (r: N)
    ensures
        r == scale_of::<N>(places_in(j@, key@)),
{
    match j.int_field(key) {
        Some(d) => ten_power(to_i32(d)),
        None => ten_power(2),
    }
}

/// The parameters of a request for one quote.
pub fn quote_params(code: &str, market: Market) -> (r: Vec<(String, String)>)
    ensures
        wire::params(r@) == seq![
            ("secid"@, models::secid_text(code@, market)),
            ("fields"@, "f43,f44,f45,f46,f47,f48,f57,f58,f59,f60,f168,f169,f170"@),
        ],
{
    let mut out: Vec<(String, String)> = Vec::new();
    assert(wire::params(out@) =~= Seq::<(Seq<char>, Seq<char>)>::empty());
    wire::add_param(&mut out, "secid", models::secid(code, market).as_str());
    wire::add_param(
        &mut out,
        "fields",
        "f43,f44,f45,f46,f47,f48,f57,f58,f59,f60,f168,f169,f170",
    );
    out
}

/// A number under a key, divided.
pub open spec fn divided<N: Scalar>(j: JsonView, key: Seq<char>, by: N) -> N {
    json::scalar_or_zero::<N>(j, key).quotient(by)
}

/// A hundredth of the number under a key, where there is one.
pub open spec fn hundredth<N: Scalar>(j: JsonView, key: Seq<char>) -> Option<N> {
    match json::scalar_field::<N>(j, key) {
        Some(v) => Some(v.quotient(N::whole(100))),
        None => None,
    }
}

fn hundredth_of<N: Scalar>(j: &Json, key: &str) -> (r: Option<N>)
    ensures
        r == hundredth::<N>(j@, key@),
{
    match j.num_field::<N>(key) {
        Some(v) => Some(v.over(N::from_int(100))),
        None => None,
    }
}

/// The quote of one security. Prices come as integers with the number of decimal places in
/// `f59`, parts in ten thousandths.
pub open spec fn quote_of<N: Scalar>(code: Seq<char>, j: JsonView) -> Option<QuoteView<N>> {
    match json::present(json::field(j, "data"@)) {
        Some(d) => {
            let scale = scale_of::<N>(places_in(d, "f59"@));
            Some(
                QuoteView {
                    code,
                    name: json::text_or_empty(d, "f58"@),
                    price: divided(d, "f43"@, scale),
                    change: divided(d, "f169"@, scale),
                    change_pct: divided(d, "f170"@, N::whole(10_000)),
                    open: divided(d, "f46"@, scale),
                    high: divided(d, "f44"@, scale),
                    low: divided(d, "f45"@, scale),
                    prev_close: divided(d, "f60"@, scale),
                    volume: json::scalar_or_zero::<N>(d, "f47"@),
                    amount: json::scalar_or_zero::<N>(d, "f48"@),
                    turnover: hundredth::<N>(d, "f168"@),
                    pe: None,
                    pb: None,
                },
            )
        },
        None => None,
    }
}

/// The quote of one security, as a document gives it.
pub fn parse_quote<N: Scalar>(code: &str, j: &Json) -> (r: Result<Quote<N>, String>)
    ensures
        match r {
            Ok(q) => quote_of::<N>(code@, j@) == Some(q@),
            Err(e) => quote_of::<N>(code@, j@) is None && e@ == "东财行情返回空，代码 "@ + code@
                + " 可能不存在"@,
        },
{
    let d = match j.get_present("data") {
        Some(d) => d,
        None => {
            return Err(wire::message("东财行情返回空，代码 ", code, " 可能不存在"));
        },
    };
    let scale = decimals::<N>(d, "f59");
    Ok(
        Quote {
            code: code.to_owned(),
            name: d.str_or_empty("f58"),
            price: d.num_or_zero::<N>("f43").over(scale),
            change: d.num_or_zero::<N>("f169").over(scale),
            change_pct: d.num_or_zero::<N>("f170").over(N::from_int(10_000)),
            open: d.num_or_zero::<N>("f46").over(scale),
            high: d.num_or_zero::<N>("f44").over(scale),
            low: d.num_or_zero::<N>("f45").over(scale),
            prev_close: d.num_or_zero::<N>("f60").over(scale),
            volume: d.num_or_zero::<N>("f47"),
            amount: d.num_or_zero::<N>("f48"),
            turnover: hundredth_of(d, "f168"),
            pe: None,
            pb: None,
        },
    )
}

/// The quote of one security, as an answer gives it.
pub fn read_quote<N: Scalar>(code: &str, body: &str) -> (r: Result<Quote<N>, String>)
    ensures
        match json::json_of(body@) {
            Some(j) => match r {
                Ok(q) => quote_of::<N>(code@, j) == Some(q@),
                Err(e) => quote_of::<N>(code@, j) is None && e@ == "东财行情返回空，代码 "@ + code@
                    + " 可能不存在"@,
            },
            None => r matches Err(e) && e@ == "解析东财行情响应失败"@,
        },
{
    match json::parse(body) {
        Some(j) => parse_quote(code, &j),
        None => Err("解析东财行情响应失败".to_owned()),
    }
}

/// The identifiers of several securities.
pub open spec fn secids_of(reqs: Seq<(String, Market)>) -> Seq<Seq<char>> {
    Seq::new(reqs.len(), |i: int| models::secid_text(reqs[i].0@, reqs[i].1))
}

/// The parameters of a request for several quotes.
pub fn quotes_params(reqs: &[(String, Market)]) -> (r: Vec<(String, String)>)
    ensures
        wire::params(r@) == seq![
            ("fields"@, "f1,f2,f3,f4,f5,f6,f8,f12,f14,f15,f16,f17,f18"@),
            ("secids"@, text::joined(secids_of(reqs@), ","@)),
        ],
{
    let mut ids: Vec<String> = Vec::new();
    let mut i: usize = 0;
    while i < reqs.len()
        invariant
            i <= reqs@.len(),
            text::texts(ids@) == secids_of(reqs@).take(i as int),
        decreases reqs@.len() - i,
    {
        let ghost before = ids@;
        ids.push(models::secid(reqs[i].0.as_str(), reqs[i].1));
        i += 1;
        assert(text::texts(ids@) =~= text::texts(before).push(ids@.last()@));
        assert(text::texts(ids@) =~= secids_of(reqs@).take(i as int));
    }
    assert(text::texts(ids@) =~= secids_of(reqs@));
    let mut out: Vec<(String, String)> = Vec::new();
    assert(wire::params(out@) =~= Seq::<(Seq<char>, Seq<char>)>::empty());
    wire::add_param(&mut out, "fields", "f1,f2,f3,f4,f5,f6,f8,f12,f14,f15,f16,f17,f18");
    wire::add_param(&mut out, "secids", text::join(&ids, ",").as_str());
    out
}

/// A quote of a list. Prices come as integers with the number of decimal places in `f1`,
/// which is two for shares and often three for funds.
pub open spec fn listed_quote<N: Scalar>(d: JsonView) -> QuoteView<N> {
    let scale = scale_of::<N>(places_in(d, "f1"@));
    QuoteView {
        code: json::text_or_empty(d, "f12"@),
        name: json::text_or_empty(d, "f14"@),
        price: divided(d, "f2"@, scale),
        change: divided(d, "f4"@, scale),
        change_pct: divided(d, "f3"@, N::whole(10_000)),
        open: divided(d, "f17"@, scale),
        high: divided(d, "f15"@, scale),
        low: divided(d, "f16"@, scale),
        prev_close: divided(d, "f18"@, scale),
        volume: json::scalar_or_zero::<N>(d, "f5"@),
        amount: json::scalar_or_zero::<N>(d, "f6"@),
        turnover: hundredth::<N>(d, "f8"@),
        pe: None,
        pb: None,
    }
}

/// The quotes that a document lists.
pub open spec fn listed_quotes<N: Scalar>(j: JsonView) -> Seq<QuoteView<N>> {
    let items = json::items_or_empty(json::field(j, "data"@), "diff"@);
    Seq::new(items.len(), |i: int| listed_quote::<N>(items[i]))
}

fn parse_listed<N: Scalar>(d: &Json) -> (r: Quote<N>)
    ensures
        r@ == listed_quote::<N>(d@),
{
    let scale = decimals::<N>(d, "f1");
    Quote {
        code: d.str_or_empty("f12"),
        name: d.str_or_empty("f14"),
        price: d.num_or_zero::<N>("f2").over(scale),
        change: d.num_or_zero::<N>("f4").over(scale),
        change_pct: d.num_or_zero::<N>("f3").over(N::from_int(10_000)),
        open: d.num_or_zero::<N>("f17").over(scale),
        high: d.num_or_zero::<N>("f15").over(scale),
        low: d.num_or_zero::<N>("f16").over(scale),
        prev_close: d.num_or_zero::<N>("f18").over(scale),
        volume: d.num_or_zero::<N>("f5"),
        amount: d.num_or_zero::<N>("f6"),
        turnover: hundredth_of(d, "f8"),
        pe: None,
        pb: None,
    }
}

/// The quotes that a document lists.
pub fn parse_quotes<N: Scalar>(j: &Json) -> (r: Vec<Quote<N>>)
    ensures
        models::quote_views(r@) == listed_quotes::<N>(j@),
{
    let mut out: Vec<Quote<N>> = Vec::new();
    assert(models::quote_views(out@) =~= Seq::<QuoteView<N>>::empty());
    let items = match j.get("data") {
        Some(d) => d.items_field("diff"),
        None => None,
    };
    let items = match items {
        Some(v) => v,
        None => {
            assert(models::quote_views(out@) =~= listed_quotes::<N>(j@));
            return out;
        },
    };
    let ghost vs = json::documents(items@);
    let mut i: usize = 0;
    while i < items.len()
        invariant
            vs == json::documents(items@),
            i <= items@.len(),
            models::quote_views(out@) == Seq::new(i as nat, |k: int| listed_quote::<N>(vs[k])),
        decreases items@.len() - i,
    {
        let ghost before = out@;
        out.push(parse_listed(&items[i]));
        assert(vs[i as int] == items@[i as int]@);
        i += 1;
        assert(models::quote_views(out@) =~= models::quote_views(before).push(out@.last()@));
        assert(models::quote_views(out@) =~= Seq::new(
            i as nat,
            |k: int| listed_quote::<N>(vs[k]),
        ));
    }
    assert(models::quote_views(out@) =~= listed_quotes::<N>(j@));
    out
}

/// The quotes that an answer lists.
pub fn read_quotes<N: Scalar>(body: &str) -> (r: Result<Vec<Quote<N>>, String>)
    ensures
        match json::json_of(body@) {
            Some(j) => r matches Ok(v) && models::quote_views(v@) == listed_quotes::<N>(j),
            None => r matches Err(e) && e@ == "解析东财批量行情失败"@,
        },
{
    match json::parse(body) {
        Some(j) => Ok(parse_quotes(&j)),
        None => Err("解析东财批量行情失败".to_owned()),
    }
}

} // verus!
