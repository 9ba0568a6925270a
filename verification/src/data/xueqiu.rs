//! Xueqiu: quotes and bars as JSON, which comes packed by gzip.
//!
//! Three things that its service asks for:
//!
//! 1. A request has to accept gzip. Without that the answer is empty.
//! 2. The agent of a request must not look like a command-line tool.
//! 3. Bars are given to those only who are logged in: a token goes along as a cookie. Quotes
//!    need none.
use super::models;
use super::models::{KLine, KLineView, Market, Period, Quote, QuoteView};
use super::wire;
use crate::json;
use crate::json::{Json, JsonView};
use crate::num;
use crate::num::Scalar;
use crate::text;
use crate::utils::date;
use vstd::prelude::*;

verus! {

/// The source Xueqiu.
pub struct Xueqiu;

/// Where quotes are asked for.
pub const QUOTEC_URL: &'static str = "https://stock.xueqiu.com/v5/stock/realtime/quotec.json";

/// Where bars are asked for.
pub const KLINE_URL: &'static str = "https://stock.xueqiu.com/v5/stock/chart/kline.json";

/// The variable of the environment that holds the token.
pub const TOKEN_ENV: &'static str = "XUEQIU_TOKEN";

// ---------------------------------------------------------------------------
// Symbols
// ---------------------------------------------------------------------------
/// The symbol of a security: the letters of its market before the code on the mainland, the
/// bare code in Hong Kong.
pub open spec fn symbol_text(code: Seq<char>, market: Market) -> Seq<char> {
    match market {
        Market::SH => "SH"@ + code,
        Market::SZ => "SZ"@ + code,
        Market::HK => code,
    }
}

pub fn symbol(code: &str, market: Market) -> (r: String)
    ensures
        r@ == symbol_text(code@, market),
{
    match market {
        Market::SH => wire::both("SH", code),
        Market::SZ => wire::both("SZ", code),
        Market::HK => code.to_owned(),
    }
}

/// The code of a security: its symbol without the letters of a mainland market.
pub open spec fn symbol_code(symbol: Seq<char>) -> Seq<char> {
    if text::starts(symbol, "SH"@) || text::starts(symbol, "SZ"@) {
        symbol.skip(2)
    } else {
        symbol
    }
}

pub fn code_from_symbol(symbol: &str) -> (r: String)
    ensures
        r@ == symbol_code(symbol@),
{
    if text::starts_with(symbol, "SH") || text::starts_with(symbol, "SZ") {
        proof {
            reveal_strlit("SH");
            reveal_strlit("SZ");
        }
        let v = text::chars_of(symbol);
        let r = text::text_between(&v, 2, v.len());
        assert(r@ =~= symbol@.skip(2));
        r
    } else {
        symbol.to_owned()
    }
}

/// The code of the symbol of a security is the code of the security, by which a quote is
/// found again. In Hong Kong this holds of codes that do not begin with the letters of a
/// mainland market.
pub proof fn symbol_round_trip(code: Seq<char>, market: Market)
    requires
        market == Market::HK ==> !text::starts(code, "SH"@) && !text::starts(code, "SZ"@),
    ensures
        symbol_code(symbol_text(code, market)) == code,
{
    reveal_strlit("SH");
    reveal_strlit("SZ");
    let s = symbol_text(code, market);
    if market == Market::SH {
        assert(s.subrange(0, 2) =~= "SH"@);
        assert(s.skip(2) =~= code);
    } else if market == Market::SZ {
        assert(s.subrange(0, 2) =~= "SZ"@);
        assert(s.skip(2) =~= code);
    }
}

// ---------------------------------------------------------------------------
// Requests
// ---------------------------------------------------------------------------
/// The token in a variable of the environment.
pub open spec fn token_in(value: Option<Seq<char>>) -> Option<Seq<char>> {
    match value {
        Some(s) => if text::trimmed(s).len() > 0 {
            Some(text::trimmed(s))
        } else {
            None
        },
        None => None,
    }
}

/// The token in a variable of the environment, without the white space around it; none
/// where nothing is left.
pub fn token(value: Option<String>) -> (r: Option<String>)
    ensures
        text::text_option(r) == token_in(text::text_option(value)),
{
    match value {
        Some(s) => {
            let t = text::trim(s.as_str());
            if text::chars_of(t.as_str()).len() > 0 {
                Some(t)
            } else {
                None
            }
        },
        None => None,
    }
}

/// What is said where bars are asked for without a token.
pub fn token_missing() -> (r: String)
    ensures
        r@ == "雪球K线需要登录 cookie:请将浏览器 cookie 中 xq_a_token 的值设入环境变量 "@ + TOKEN_ENV@,
{
    wire::both("雪球K线需要登录 cookie:请将浏览器 cookie 中 xq_a_token 的值设入环境变量 ", TOKEN_ENV)
}

/// The cookie that a token goes along as, under both of its names.
pub fn cookie(token: &str) -> (r: String)
    ensures
        r@ == "xq_a_token="@ + token@ + "; xqat="@ + token@,
{
    let mut out = wire::message("xq_a_token=", token, "; xqat=");
    out.append(token);
    out
}

/// The symbols of several securities.
pub open spec fn symbols_of(reqs: Seq<(String, Market)>) -> Seq<Seq<char>> {
    Seq::new(reqs.len(), |i: int| symbol_text(reqs[i].0@, reqs[i].1))
}

/// The parameters of a request for quotes.
pub fn quotes_params(reqs: &[(String, Market)]) -> (r: Vec<(String, String)>)
    ensures
        wire::params(r@) == seq![("symbol"@, text::joined(symbols_of(reqs@), ","@))],
{
    let mut ids: Vec<String> = Vec::new();
    let mut i: usize = 0;
    while i < reqs.len()
        invariant
            i <= reqs@.len(),
            text::texts(ids@) == symbols_of(reqs@).take(i as int),
        decreases reqs@.len() - i,
    {
        let ghost before = ids@;
        ids.push(symbol(reqs[i].0.as_str(), reqs[i].1));
        i += 1;
        assert(text::texts(ids@) =~= text::texts(before).push(ids@.last()@));
        assert(text::texts(ids@) =~= symbols_of(reqs@).take(i as int));
    }
    assert(text::texts(ids@) =~= symbols_of(reqs@));
    let mut out: Vec<(String, String)> = Vec::new();
    assert(wire::params(out@) =~= Seq::<(Seq<char>, Seq<char>)>::empty());
    wire::add_param(&mut out, "symbol", text::join(&ids, ",").as_str());
    out
}

/// Eight digits.
pub open spec fn compact(s: Seq<char>) -> bool {
    s.len() == 8 && text::all_digits(s)
}

/// The day of a date of eight digits.
pub open spec fn compact_day(s: Seq<char>) -> Option<int> {
    if compact(s) {
        date::day_denoted(
            s.subrange(0, 4) + seq!['-'] + s.subrange(4, 6) + seq!['-'] + s.subrange(6, 8),
        )
    } else {
        None
    }
}

proof fn compact_days_fit(s: Seq<char>)
    requires
        compact(s),
    ensures
        compact_day(s) matches Some(n) ==> -800_000 < n < 3_000_000,
{
    let a = s.subrange(0, 4);
    let b = s.subrange(4, 6);
    let c = s.subrange(6, 8);
    let t = a + seq!['-'] + b + seq!['-'] + c;
    assert(text::all_digits(a)) by {
        assert forall|i: int| 0 <= i < a.len() implies text::is_digit(a[i]) by {
            assert(text::is_digit(s[i]));
        }
    }
    assert(t =~= a + seq!['-'] + (b + seq!['-'] + c));
    assert forall|i: int| 0 <= i < a.len() implies a[i] != '-' by {
        assert(text::is_digit(a[i]));
    }
    text::first_index_of_joined(a, '-', b + seq!['-'] + c);
    assert(t.take(4) =~= a);
    text::digits_denote(a);
    text::digits_bound(a);
    if let Some((y, m, d)) = date::ymd_parts(t) {
        assert(0 <= y < 10_000);
        date::day_number_bounds(y, m, d);
    }
}

/// Midnight in Beijing at the beginning of a day given as `YYYYMMDD`, in milliseconds since
/// the beginning of 1970; none where the text is no date, as `0` is none.
pub fn compact_to_ms(s: &str) -> (r: Option<i64>)
    ensures
        match r {
            Some(ms) => compact_day(s@) matches Some(n) && ms == date::midnight_ms(n),
            None => compact_day(s@) is None,
        },
{
    let v = text::chars_of(s);
    assert(v@.skip(0) =~= v@);
    if v.len() != 8 || !text::is_numeric(&v, 0) {
        return None;
    }
    let mut t = text::text_between(&v, 0, 4);
    t.push('-');
    t.append(text::text_between(&v, 4, 6).as_str());
    t.push('-');
    t.append(text::text_between(&v, 6, 8).as_str());
    proof {
        assert(t@ =~= s@.subrange(0, 4) + seq!['-'] + s@.subrange(4, 6) + seq!['-'] + s@.subrange(
            6,
            8,
        ));
        compact_days_fit(s@);
    }
    date::to_epoch_ms(t.as_str())
}

/// The moment from which on bars are asked for: the beginning of a day, or of the year 1990.
pub open spec fn begin_of(beg: Seq<char>) -> int {
    match compact_day(beg) {
        Some(n) => date::midnight_ms(n),
        None => date::midnight_ms(date::day_number(1990, 1, 1)),
    }
}

/// The moment up to which bars are asked for: the beginning of a day, or now.
pub open spec fn end_of(end: Seq<char>, now: int) -> int {
    match compact_day(end) {
        Some(n) => date::midnight_ms(n),
        None => now,
    }
}

fn begin_ms(beg: &str) -> (r: i64)
    ensures
        r == begin_of(beg@),
{
    match compact_to_ms(beg) {
        Some(ms) => ms,
        None => {
            proof {
                date::day_number_bounds(1990, 1, 1);
            }
            date::days_from_civil(1990, 1, 1) * 86_400_000 - 28_800_000
        },
    }
}

fn end_ms(end: &str, now: i64) -> (r: i64)
    ensures
        r == end_of(end@, now as int),
{
    match compact_to_ms(end) {
        Some(ms) => ms,
        None => now,
    }
}

/// The parameters of a request for bars, adjusted for dividends. Where `end` is no date,
/// `now`, in milliseconds since the beginning of 1970, takes its place.
pub fn klines_params(
    code: &str,
    market: Market,
    period: Period,
    beg: &str,
    end: &str,
    now: i64,
) -> (r: Vec<(String, String)>)
    ensures
        wire::params(r@) == seq![
            ("symbol"@, symbol_text(code@, market)),
            ("begin"@, text::decimal_int(begin_of(beg@))),
            ("end"@, text::decimal_int(end_of(end@, now as int))),
            ("period"@, (match period {
                Period::Day => "day"@,
                Period::Min1 => "1m"@,
                Period::Min5 => "5m"@,
                Period::Min15 => "15m"@,
                Period::Min30 => "30m"@,
                Period::Min60 => "60m"@,
            })),
            ("type"@, "before"@),
            ("indicator"@, "kline"@),
        ],
{
    let begin = begin_ms(beg);
    let until = end_ms(end, now);
    let mut out: Vec<(String, String)> = Vec::new();
    assert(wire::params(out@) =~= Seq::<(Seq<char>, Seq<char>)>::empty());
    wire::add_param(&mut out, "symbol", symbol(code, market).as_str());
    wire::add_param(&mut out, "begin", text::show_int(begin).as_str());
    wire::add_param(&mut out, "end", text::show_int(until).as_str());
    wire::add_param(&mut out, "period", period.xueqiu_period());
    wire::add_param(&mut out, "type", "before");
    wire::add_param(&mut out, "indicator", "kline");
    out
}

// ---------------------------------------------------------------------------
// Answers
// ---------------------------------------------------------------------------
/// The text of an answer: what it unpacks to, or else its bytes as UTF-8.
pub open spec fn body_text(unpacked: Option<Seq<char>>, raw: Seq<u8>) -> Option<Seq<char>> {
    match unpacked {
        Some(s) => Some(s),
        None => if vstd::utf8::valid_utf8(raw) {
            Some(vstd::utf8::decode_utf8(raw))
        } else {
            None
        },
    }
}

/// The text of an answer, by what unpacking it gave.
pub fn body_or_plain(unpacked: Option<String>, raw: &[u8]) -> (r: Result<String, String>)
    ensures
        match r {
            Ok(s) => body_text(text::text_option(unpacked), raw@) == Some(s@),
            Err(e) => body_text(text::text_option(unpacked), raw@) is None && e@
                == "雪球响应既不是 gzip 也不是合法 UTF-8"@,
        },
{
    match unpacked {
        Some(s) => Ok(s),
        None => match wire::from_utf8(raw) {
            Some(s) => Ok(s),
            None => Err("雪球响应既不是 gzip 也不是合法 UTF-8".to_owned()),
        },
    }
}

/// The text of an answer, which is packed by gzip or plain.
pub fn decode_body(raw: &[u8]) -> (r: Result<String, String>)
    ensures
        match r {
            Ok(s) => body_text(wire::gunzipped(raw@), raw@) == Some(s@),
            Err(e) => body_text(wire::gunzipped(raw@), raw@) is None && e@
                == "雪球响应既不是 gzip 也不是合法 UTF-8"@,
        },
{
    body_or_plain(wire::gunzip(raw), raw)
}

/// A document reports an error: under `error_code` stands a number other than zero or a
/// text that is neither empty nor `0`.
pub open spec fn failed(j: JsonView) -> bool {
    match json::field(j, "error_code"@) {
        Some(JsonView::Number(n)) => match json::as_integer(JsonView::Number(n)) {
            Some(k) => k != 0,
            None => false,
        },
        Some(JsonView::Text(s)) => s.len() > 0 && s != "0"@,
        _ => false,
    }
}

/// The description of an error.
pub open spec fn description(j: JsonView) -> Seq<char> {
    if json::text_or_empty(j, "error_description"@).len() > 0 {
        json::text_or_empty(j, "error_description"@)
    } else {
        "未知错误"@
    }
}

/// The notation of the code of an error.
pub open spec fn error_code(j: JsonView) -> Seq<char> {
    match json::field(j, "error_code"@) {
        Some(c) => match json::notation(c) {
            Some(s) => s,
            None => Seq::empty(),
        },
        None => Seq::empty(),
    }
}

/// What is said of an error that a document reports. The code 400016 means that one has to
/// log in.
pub open spec fn complaint(j: JsonView) -> Seq<char> {
    if text::text_index(error_code(j), "400016"@) is Some {
        "雪球要求登录("@ + description(j)
            + "):请将浏览器 cookie 中 xq_a_token 的值设入环境变量 "@ + TOKEN_ENV@
    } else {
        "雪球接口报错 "@ + error_code(j) + ":"@ + description(j)
    }
}

/// The error that a document reports, if it reports one.
pub fn check_error(j: &Json) -> (r: Result<(), String>)
    ensures
        match r {
            Ok(()) => !failed(j@),
            Err(e) => failed(j@) && e@ == complaint(j@),
        },
{
    let at = match j.get("error_code") {
        Some(c) => c,
        None => {
            return Ok(());
        },
    };
    let bad = match at {
        Json::Number(_) => match at.as_i64() {
            Some(k) => k != 0,
            None => false,
        },
        Json::Text(s) => text::chars_of(s.as_str()).len() > 0 && !text::same(s.as_str(), "0"),
        _ => false,
    };
    if !bad {
        return Ok(());
    }
    let said = j.str_or_empty("error_description");
    let desc = if text::chars_of(said.as_str()).len() > 0 {
        said
    } else {
        "未知错误".to_owned()
    };
    let code = match at.show() {
        Some(s) => s,
        None => {
            let s = String::new();
            assert(s@ =~= Seq::<char>::empty());
            s
        },
    };
    if text::contains_text(code.as_str(), "400016") {
        let mut e = wire::message(
            "雪球要求登录(",
            desc.as_str(),
            "):请将浏览器 cookie 中 xq_a_token 的值设入环境变量 ",
        );
        e.append(TOKEN_ENV);
        Err(e)
    } else {
        let mut e = wire::message("雪球接口报错 ", code.as_str(), ":");
        e.append(desc.as_str());
        Err(e)
    }
}

/// The document that an answer holds, unless the document reports an error.
pub open spec fn answered(doc: Option<JsonView>) -> Result<JsonView, Seq<char>> {
    match doc {
        Some(j) => if failed(j) {
            Err(complaint(j))
        } else {
            Ok(j)
        },
        None => Err("解析雪球响应失败"@),
    }
}

/// What the bytes of an answer are read as.
pub open spec fn document_of(raw: Seq<u8>) -> Result<JsonView, Seq<char>> {
    if raw.len() == 0 {
        Err("雪球返回空响应(通常是未声明 gzip 或被限流)"@)
    } else {
        match body_text(wire::gunzipped(raw), raw) {
            Some(s) => answered(json::json_of(s)),
            None => Err("雪球响应既不是 gzip 也不是合法 UTF-8"@),
        }
    }
}

/// A result without the containers of its document and its message.
pub open spec fn result_view(r: Result<Json, String>) -> Result<JsonView, Seq<char>> {
    match r {
        Ok(j) => Ok(j@),
        Err(e) => Err(e@),
    }
}

/// The document that a parser gave, unless it reports an error.
pub fn accept(doc: Option<Json>) -> (r: Result<Json, String>)
    ensures
        result_view(r) == answered(
            match doc {
                Some(j) => Some(j@),
                None => None,
            },
        ),
{
    match doc {
        Some(j) => match check_error(&j) {
            Ok(()) => Ok(j),
            Err(e) => Err(e),
        },
        None => Err("解析雪球响应失败".to_owned()),
    }
}

/// The document that the bytes of an answer hold.
pub fn read_body(raw: &[u8]) -> (r: Result<Json, String>)
    ensures
        result_view(r) == document_of(raw@),
{
    if raw.len() == 0 {
        return Err("雪球返回空响应(通常是未声明 gzip 或被限流)".to_owned());
    }
    match decode_body(raw) {
        Ok(s) => accept(json::parse(s.as_str())),
        Err(e) => Err(e),
    }
}

// ---------------------------------------------------------------------------
// Quotes
// ---------------------------------------------------------------------------
/// The quote that a record holds; none where it names no security or gives no price, as
/// while trading is suspended.
pub open spec fn quote_of<N: Scalar>(d: JsonView) -> Option<QuoteView<N>> {
    match (json::text_field(d, "symbol"@), json::scalar_field::<N>(d, "current"@)) {
        (Some(symbol), Some(price)) => Some(
            QuoteView {
                code: symbol_code(symbol),
                name: Seq::empty(),
                price,
                change: json::scalar_or_zero::<N>(d, "chg"@),
                change_pct: json::scalar_or_zero::<N>(d, "percent"@).quotient(N::whole(100)),
                open: json::scalar_or_zero::<N>(d, "open"@),
                high: json::scalar_or_zero::<N>(d, "high"@),
                low: json::scalar_or_zero::<N>(d, "low"@),
                prev_close: json::scalar_or_zero::<N>(d, "last_close"@),
                volume: json::scalar_or_zero::<N>(d, "volume"@).quotient(N::whole(100)),
                amount: json::scalar_or_zero::<N>(d, "amount"@),
                turnover: json::scalar_field::<N>(d, "turnover_rate"@),
                pe: None,
                pb: None,
            },
        ),
        _ => None,
    }
}

/// The quote that a record holds. The change comes in percent, the volume in shares, of
/// which a hundred are a lot; neither the name nor ratios of the price come along.
pub fn parse_quote<N: Scalar>(d: &Json) -> (r: Option<Quote<N>>)
    ensures
        (match r {
            Some(q) => Some(q@),
            None => None,
        }) == quote_of::<N>(d@),
{
    let symbol = match d.str_field("symbol") {
        Some(s) => s,
        None => {
            return None;
        },
    };
    let price = match d.num_field::<N>("current") {
        Some(p) => p,
        None => {
            return None;
        },
    };
    let name = String::new();
    assert(name@ =~= Seq::<char>::empty());
    Some(
        Quote {
            code: code_from_symbol(symbol),
            name,
            price,
            change: d.num_or_zero("chg"),
            change_pct: d.num_or_zero::<N>("percent").over(N::from_int(100)),
            open: d.num_or_zero("open"),
            high: d.num_or_zero("high"),
            low: d.num_or_zero("low"),
            prev_close: d.num_or_zero("last_close"),
            volume: d.num_or_zero::<N>("volume").over(N::from_int(100)),
            amount: d.num_or_zero("amount"),
            turnover: d.num_field("turnover_rate"),
            pe: None,
            pb: None,
        },
    )
}

/// The quotes that the first `n` records hold.
pub open spec fn records_quotes<N: Scalar>(items: Seq<JsonView>, n: int) -> Seq<QuoteView<N>>
    decreases n,
{
    if n <= 0 {
        Seq::empty()
    } else {
        match quote_of::<N>(items[n - 1]) {
            Some(q) => records_quotes::<N>(items, n - 1).push(q),
            None => records_quotes::<N>(items, n - 1),
        }
    }
}

/// The quotes that a document holds.
pub open spec fn quotes_of<N: Scalar>(j: JsonView) -> Seq<QuoteView<N>> {
    let items = json::items_or_empty(Some(j), "data"@);
    records_quotes::<N>(items, items.len() as int)
}

/// The quotes that a document holds.
pub fn parse_quotes<N: Scalar>(j: &Json) -> (r: Vec<Quote<N>>)
    ensures
        models::quote_views(r@) == quotes_of::<N>(j@),
{
    let mut out: Vec<Quote<N>> = Vec::new();
    assert(models::quote_views(out@) =~= Seq::<QuoteView<N>>::empty());
    let items = match j.items_field("data") {
        Some(v) => v,
        None => {
            return out;
        },
    };
    let ghost vs = json::documents(items@);
    let mut i: usize = 0;
    while i < items.len()
        invariant
            vs == json::documents(items@),
            i <= items@.len(),
            models::quote_views(out@) == records_quotes::<N>(vs, i as int),
        decreases items@.len() - i,
    {
        assert(vs[i as int] == items@[i as int]@);
        match parse_quote(&items[i]) {
            Some(q) => {
                let ghost before = out@;
                out.push(q);
                assert(models::quote_views(out@) =~= models::quote_views(before).push(
                    out@.last()@,
                ));
            },
            None => {},
        }
        i += 1;
    }
    out
}

/// The quotes that the bytes of an answer hold.
pub fn read_quotes<N: Scalar>(raw: &[u8]) -> (r: Result<Vec<Quote<N>>, String>)
    ensures
        match document_of(raw@) {
            Ok(j) => r matches Ok(v) && models::quote_views(v@) == quotes_of::<N>(j),
            Err(e) => r matches Err(m) && m@ == e,
        },
{
    match read_body(raw) {
        Ok(j) => Ok(parse_quotes(&j)),
        Err(e) => Err(e),
    }
}

/// The first of the quotes that came for one security.
pub fn single_quote<N: Scalar>(code: &str, quotes: Vec<Quote<N>>) -> (r: Result<Quote<N>, String>)
    ensures
        match r {
            Ok(q) => quotes@.len() > 0 && q == quotes@[0],
            Err(e) => quotes@.len() == 0 && e@ == "雪球行情返回空,代码 "@ + code@ + " 可能不存在"@,
        },
{
    let mut v = quotes;
    if v.len() == 0 {
        Err(wire::message("雪球行情返回空,代码 ", code, " 可能不存在"))
    } else {
        Ok(v.swap_remove(0))
    }
}

// ---------------------------------------------------------------------------
// Bars
// ---------------------------------------------------------------------------
/// The texts among the first `n` items of a list.
pub open spec fn texts_among(items: Seq<JsonView>, n: int) -> Seq<Seq<char>>
    decreases n,
{
    if n <= 0 {
        Seq::empty()
    } else {
        match json::as_text(items[n - 1]) {
            Some(s) => texts_among(items, n - 1).push(s),
            None => texts_among(items, n - 1),
        }
    }
}

/// The index of the first column with a name.
pub open spec fn position(columns: Seq<Seq<char>>, name: Seq<char>) -> Option<int>
    decreases columns.len(),
{
    if columns.len() == 0 {
        None
    } else if columns[0] == name {
        Some(0)
    } else {
        match position(columns.drop_first(), name) {
            Some(i) => Some(i + 1),
            None => None,
        }
    }
}

/// The index of the first column with a name.
pub fn column_index(columns: &Vec<String>, name: &str) -> (r: Option<usize>)
    ensures
        match r {
            Some(i) => position(text::texts(columns@), name@) == Some(i as int),
            None => position(text::texts(columns@), name@) is None,
        },
{
    let ghost cs = text::texts(columns@);
    let mut i: usize = 0;
    assert(cs.skip(0) =~= cs);
    while i < columns.len()
        invariant
            cs == text::texts(columns@),
            i <= columns@.len(),
            position(cs, name@) == (match position(cs.skip(i as int), name@) {
                Some(k) => Some(k + i),
                None => None,
            }),
        decreases columns@.len() - i,
    {
        let ghost rest = cs.skip(i as int);
        assert(rest[0] == columns@[i as int]@);
        assert(rest.drop_first() =~= cs.skip(i + 1));
        if text::same(columns[i].as_str(), name) {
            return Some(i);
        }
        i += 1;
    }
    None
}

/// The names of the columns of a table.
pub open spec fn columns_of(data: JsonView) -> Seq<Seq<char>> {
    let items = json::items_or_empty(Some(data), "column"@);
    texts_among(items, items.len() as int)
}

fn columns_in(data: &Json) -> (r: Vec<String>)
    ensures
        text::texts(r@) == columns_of(data@),
{
    let mut out: Vec<String> = Vec::new();
    assert(text::texts(out@) =~= Seq::<Seq<char>>::empty());
    let items = match data.items_field("column") {
        Some(v) => v,
        None => {
            return out;
        },
    };
    let ghost vs = json::documents(items@);
    let mut i: usize = 0;
    while i < items.len()
        invariant
            vs == json::documents(items@),
            i <= items@.len(),
            text::texts(out@) == texts_among(vs, i as int),
        decreases items@.len() - i,
    {
        assert(vs[i as int] == items@[i as int]@);
        match items[i].as_str() {
            Some(s) => {
                let ghost before = out@;
                out.push(s.to_owned());
                assert(text::texts(out@) =~= text::texts(before).push(out@.last()@));
            },
            None => {},
        }
        i += 1;
    }
    out
}

/// The number in a column of a row, found by the name of the column.
pub open spec fn cell_of<N: Scalar>(
    columns: Seq<Seq<char>>,
    row: Seq<JsonView>,
    name: Seq<char>,
) -> Option<N> {
    match position(columns, name) {
        Some(i) => if i < row.len() {
            json::as_scalar::<N>(row[i])
        } else {
            None
        },
        None => None,
    }
}

/// A number, or another in its place.
pub open spec fn or_else<N: Scalar>(v: Option<N>, other: N) -> N {
    match v {
        Some(x) => x,
        None => other,
    }
}

fn cell<N: Scalar>(columns: &Vec<String>, row: &Vec<Json>, name: &str) -> (r: Option<N>)
    ensures
        r == cell_of::<N>(text::texts(columns@), json::documents(row@), name@),
{
    match column_index(columns, name) {
        Some(i) => if i < row.len() {
            row[i].as_num()
        } else {
            None
        },
        None => None,
    }
}

fn or<N: Scalar>(v: Option<N>, other: N) -> (r: N)
    ensures
        r == or_else(v, other),
{
    match v {
        Some(x) => x,
        None => other,
    }
}

/// The bar that a row holds; none where it is no row, or its time or its close is missing.
pub open spec fn bar_in<N: Scalar>(
    code: Seq<char>,
    period: Period,
    columns: Seq<Seq<char>>,
    row: JsonView,
) -> Option<KLineView<N>> {
    match json::as_items(row) {
        Some(r) => match (
            cell_of::<N>(columns, r, "timestamp"@),
            cell_of::<N>(columns, r, "close"@),
        ) {
            (Some(ts), Some(close)) => Some(
                KLineView {
                    code,
                    date: date::stamp(ts.integral() as int, period != Period::Day),
                    open: or_else(cell_of(columns, r, "open"@), close),
                    close,
                    high: or_else(cell_of(columns, r, "high"@), close),
                    low: or_else(cell_of(columns, r, "low"@), close),
                    volume: or_else(cell_of(columns, r, "volume"@), num::nil::<N>()).quotient(
                        N::whole(100),
                    ),
                    amount: or_else(cell_of(columns, r, "amount"@), num::nil::<N>()),
                    turnover: cell_of(columns, r, "turnoverrate"@),
                },
            ),
            _ => None,
        },
        None => None,
    }
}

/// The bars that the first `n` rows hold.
pub open spec fn bars_in<N: Scalar>(
    code: Seq<char>,
    period: Period,
    columns: Seq<Seq<char>>,
    rows: Seq<JsonView>,
    n: int,
) -> Seq<KLineView<N>>
    decreases n,
{
    if n <= 0 {
        Seq::empty()
    } else {
        match bar_in::<N>(code, period, columns, rows[n - 1]) {
            Some(k) => bars_in::<N>(code, period, columns, rows, n - 1).push(k),
            None => bars_in::<N>(code, period, columns, rows, n - 1),
        }
    }
}

/// The bars that a table holds.
pub open spec fn table_bars<N: Scalar>(code: Seq<char>, period: Period, data: JsonView) -> Seq<
    KLineView<N>,
> {
    let rows = json::items_or_empty(Some(data), "item"@);
    bars_in::<N>(code, period, columns_of(data), rows, rows.len() as int)
}

fn parse_row<N: Scalar>(code: &str, period: Period, columns: &Vec<String>, row: &Json) -> (r:
    Option<KLine<N>>)
    ensures
        (match r {
            Some(k) => Some(k@),
            None => None,
        }) == bar_in::<N>(code@, period, text::texts(columns@), row@),
{
    let row = match row.items() {
        Some(r) => r,
        None => {
            return None;
        },
    };
    let ts = match cell::<N>(columns, row, "timestamp") {
        Some(t) => t.trunc(),
        None => {
            return None;
        },
    };
    let close = match cell::<N>(columns, row, "close") {
        Some(c) => c,
        None => {
            return None;
        },
    };
    Some(
        KLine {
            code: code.to_owned(),
            date: date::from_epoch_ms(ts, period.is_intraday()),
            open: or(cell(columns, row, "open"), close),
            close,
            high: or(cell(columns, row, "high"), close),
            low: or(cell(columns, row, "low"), close),
            volume: or(cell(columns, row, "volume"), num::zero::<N>()).over(N::from_int(100)),
            amount: or(cell(columns, row, "amount"), num::zero::<N>()),
            turnover: cell(columns, row, "turnoverrate"),
        },
    )
}

/// The bars that a table holds. The columns are found by their names, in whatever order
/// they come.
pub fn parse_klines<N: Scalar>(code: &str, period: Period, data: &Json) -> (r: Vec<KLine<N>>)
    ensures
        models::bars(r@) == table_bars::<N>(code@, period, data@),
{
    let columns = columns_in(data);
    let mut out: Vec<KLine<N>> = Vec::new();
    assert(models::bars(out@) =~= Seq::<KLineView<N>>::empty());
    let rows = match data.items_field("item") {
        Some(v) => v,
        None => {
            return out;
        },
    };
    let ghost vs = json::documents(rows@);
    let mut i: usize = 0;
    while i < rows.len()
        invariant
            vs == json::documents(rows@),
            i <= rows@.len(),
            models::bars(out@) == bars_in::<N>(
                code@,
                period,
                text::texts(columns@),
                vs,
                i as int,
            ),
        decreases rows@.len() - i,
    {
        assert(vs[i as int] == rows@[i as int]@);
        match parse_row(code, period, &columns, &rows[i]) {
            Some(k) => {
                let ghost before = out@;
                out.push(k);
                assert(models::bars(out@) =~= models::bars(before).push(out@.last()@));
            },
            None => {},
        }
        i += 1;
    }
    out
}

/// The bars that the bytes of an answer hold.
pub fn read_klines<N: Scalar>(code: &str, period: Period, raw: &[u8]) -> (r: Result<
    Vec<KLine<N>>,
    String,
>)
    ensures
        match document_of(raw@) {
            Ok(j) => match json::present(json::field(j, "data"@)) {
                Some(data) => r matches Ok(v) && models::bars(v@) == table_bars::<N>(
                    code@,
                    period,
                    data,
                ),
                None => r matches Err(m) && m@ == "雪球K线返回空数据,代码 "@ + code@ + " 可能不存在"@,
            },
            Err(e) => r matches Err(m) && m@ == e,
        },
{
    match read_body(raw) {
        Ok(j) => match j.get_present("data") {
            Some(data) => Ok(parse_klines(code, period, data)),
            None => Err(wire::message("雪球K线返回空数据,代码 ", code, " 可能不存在")),
        },
        Err(e) => Err(e),
    }
}

/// A column is found by its name, the first where several have it, and not found only where
/// none has it.
pub proof fn column_is_found_by_name(columns: Seq<Seq<char>>, name: Seq<char>)
    ensures
        match position(columns, name) {
            Some(i) => 0 <= i < columns.len() && columns[i] == name && forall|j: int|
                0 <= j < i ==> #[trigger] columns[j] != name,
            None => forall|j: int| 0 <= j < columns.len() ==> #[trigger] columns[j] != name,
        },
    decreases columns.len(),
{
    if columns.len() > 0 && columns[0] != name {
        let r = columns.drop_first();
        column_is_found_by_name(r, name);
        assert(forall|j: int| 0 <= j < r.len() ==> #[trigger] r[j] == columns[j + 1]);
        match position(r, name) {
            Some(i) => {
                assert forall|j: int| 0 <= j < i + 1 implies #[trigger] columns[j] != name by {
                    if j > 0 {
                        assert(r[j - 1] == columns[j]);
                    }
                }
            },
            None => {
                assert forall|j: int| 0 <= j < columns.len() implies #[trigger] columns[j]
                    != name by {
                    if j > 0 {
                        assert(r[j - 1] == columns[j]);
                    }
                }
            },
        }
    }
}

/// Bars are asked for from midnight in Beijing of the day that is given, or of the first of
/// 1990, up to that of the day that is given, or now.
pub proof fn asked_from_midnight_on(beg: Seq<char>, end: Seq<char>, now: int)
    ensures
        compact_day(beg) matches Some(n) ==> date::day_of_ms(begin_of(beg)) == n
            && date::minute_of_day(begin_of(beg)) == 0,
        compact_day(beg) is None ==> date::day_of_ms(begin_of(beg)) == date::day_number(1990, 1, 1)
            && date::minute_of_day(begin_of(beg)) == 0,
        compact_day(end) matches Some(n) ==> date::day_of_ms(end_of(end, now)) == n
            && date::minute_of_day(end_of(end, now)) == 0,
        compact_day(end) is None ==> end_of(end, now) == now,
{
    let first = date::day_number(1990, 1, 1);
    date::moments_belong_to_their_day(first, date::midnight_ms(first));
    match compact_day(beg) {
        Some(n) => date::moments_belong_to_their_day(n, date::midnight_ms(n)),
        None => {},
    }
    match compact_day(end) {
        Some(n) => date::moments_belong_to_their_day(n, date::midnight_ms(n)),
        None => {},
    }
}

} // verus!
