//! Sina: quotes as lines of text in GBK, bars as JSON.
use super::models;
use super::models::{KLine, KLineView, Market, Period, Quote, QuoteView};
use super::wire;
use crate::json;
use crate::json::{Json, JsonView};
use crate::num;
use crate::num::Scalar;
use crate::text;
use vstd::prelude::*;

verus! {

/// The source Sina.
pub struct Sina;

/// Where bars are asked for.
pub const KLINE_URL: &'static str = "https://money.finance.sina.com.cn/quotes_service/api/json_v2.php/CN_MarketData.getKLineData";

/// The quote that the fields of a line hold: name, open, last close, price, high and low,
/// and the shares and the money traded, of which a hundred shares are a lot.
pub open spec fn quote_in<N: Scalar>(code: Seq<char>, content: Seq<char>) -> Option<QuoteView<N>> {
    let f = text::pieces(content, ',');
    if f.len() < 10 || f[3].len() == 0 {
        None
    } else {
        let price = wire::number_at::<N>(f, 3);
        let prev_close = wire::number_at::<N>(f, 2);
        let change = price.difference(prev_close);
        Some(
            QuoteView {
                code,
                name: f[0],
                price,
                prev_close,
                open: wire::number_at::<N>(f, 1),
                high: wire::number_at::<N>(f, 4),
                low: wire::number_at::<N>(f, 5),
                change,
                change_pct: wire::change_part(change, prev_close),
                volume: wire::number_at::<N>(f, 8).quotient(N::whole(100)),
                amount: wire::number_at::<N>(f, 9),
                turnover: None,
                pe: None,
                pb: None,
            },
        )
    }
}

/// The quote that a line holds.
pub open spec fn line_quote<N: Scalar>(line: Seq<char>) -> Option<QuoteView<N>> {
    match wire::line_symbol(line, "hq_str_"@) {
        Some(symbol) => match wire::line_content(line) {
            Some(content) => quote_in(wire::bare_code(symbol), content),
            None => None,
        },
        None => None,
    }
}

/// The quotes that the first `n` lines hold.
pub open spec fn lines_quotes<N: Scalar>(lines: Seq<Seq<char>>, n: int) -> Seq<QuoteView<N>>
    decreases n,
{
    if n <= 0 {
        Seq::empty()
    } else {
        match line_quote::<N>(lines[n - 1]) {
            Some(q) => lines_quotes::<N>(lines, n - 1).push(q),
            None => lines_quotes::<N>(lines, n - 1),
        }
    }
}

/// The quotes that a text holds, a line each.
pub open spec fn quotes_of<N: Scalar>(s: Seq<char>) -> Seq<QuoteView<N>> {
    let lines = text::pieces(s, '\n');
    lines_quotes::<N>(lines, lines.len() as int)
}

fn parse_line<N: Scalar>(code: String, content: &str) -> (r: Option<Quote<N>>)
    ensures
        (match r {
            Some(q) => Some(q@),
            None => None,
        }) == quote_in::<N>(code@, content@),
{
    let f = text::split(content, ',');
    assert(text::texts(f@).len() == f@.len());
    if f.len() < 10 || text::chars_of(f[3].as_str()).len() == 0 {
        return None;
    }
    let price = wire::number_in::<N>(&f, 3);
    let prev_close = wire::number_in::<N>(&f, 2);
    let change = price.minus(prev_close);
    Some(
        Quote {
            code,
            name: f[0].clone(),
            price,
            prev_close,
            open: wire::number_in::<N>(&f, 1),
            high: wire::number_in::<N>(&f, 4),
            low: wire::number_in::<N>(&f, 5),
            change,
            change_pct: wire::change_of(change, prev_close),
            volume: wire::number_in::<N>(&f, 8).over(N::from_int(100)),
            amount: wire::number_in::<N>(&f, 9),
            turnover: None,
            pe: None,
            pb: None,
        },
    )
}

/// The address of the quotes of several securities.
pub fn quotes_url(reqs: &[(String, Market)]) -> (r: String)
    ensures
        r@ == "https://hq.sinajs.cn/list="@ + text::joined(wire::prefixed_codes(reqs@), ","@),
{
    let mut out = "https://hq.sinajs.cn/list=".to_owned();
    out.append(wire::code_list(reqs).as_str());
    out
}

/// The quotes that a text holds. Lines that hold none, and securities without a price, are
/// passed over.
pub fn parse_quotes<N: Scalar>(s: &str) -> (r: Vec<Quote<N>>)
    ensures
        models::quote_views(r@) == quotes_of::<N>(s@),
{
    let lines = text::split(s, '\n');
    let ghost ls = text::texts(lines@);
    let mut out: Vec<Quote<N>> = Vec::new();
    let mut i: usize = 0;
    assert(models::quote_views(out@) =~= Seq::<QuoteView<N>>::empty());
    while i < lines.len()
        invariant
            ls == text::texts(lines@),
            i <= lines@.len(),
            models::quote_views(out@) == lines_quotes::<N>(ls, i as int),
        decreases lines@.len() - i,
    {
        let line = lines[i].as_str();
        assert(ls[i as int] == line@);
        match wire::symbol_of(line, "hq_str_") {
            Some(symbol) => match wire::content_of(line) {
                Some(content) => {
                    match parse_line(wire::code_in(symbol.as_str()), content.as_str()) {
                        Some(q) => {
                            let ghost before = out@;
                            out.push(q);
                            assert(models::quote_views(out@) =~= models::quote_views(before).push(
                                out@.last()@,
                            ));
                        },
                        None => {},
                    }
                },
                None => {},
            },
            None => {},
        }
        i += 1;
    }
    out
}

/// The quotes that an answer in GBK holds.
pub fn read_quotes<N: Scalar>(body: &[u8]) -> (r: Vec<Quote<N>>)
    ensures
        models::quote_views(r@) == quotes_of::<N>(wire::gbk_text(body@)),
{
    parse_quotes(wire::decode_gbk(body).as_str())
}

/// The last of the quotes that came for one security.
pub fn single_quote<N: Scalar>(code: &str, quotes: Vec<Quote<N>>) -> (r: Result<Quote<N>, String>)
    ensures
        match r {
            Ok(q) => quotes@.len() > 0 && q == quotes@.last(),
            Err(e) => quotes@.len() == 0 && e@ == "新浪行情无数据，代码 "@ + code@ + " 可能停牌或不存在"@,
        },
{
    let mut v = quotes;
    match v.pop() {
        Some(q) => Ok(q),
        None => Err(wire::message("新浪行情无数据，代码 ", code, " 可能停牌或不存在")),
    }
}

/// The parameters of a request for bars: at most 1023 of them, the latest.
pub fn klines_params(code: &str, market: Market, period: Period) -> (r: Vec<(String, String)>)
    ensures
        wire::params(r@) == seq![
            ("symbol"@, wire::prefix_of(market) + code@),
            ("scale"@, (match period {
                Period::Day => "240"@,
                Period::Min1 => "1"@,
                Period::Min5 => "5"@,
                Period::Min15 => "15"@,
                Period::Min30 => "30"@,
                Period::Min60 => "60"@,
            })),
            ("ma"@, "no"@),
            ("datalen"@, "1023"@),
        ],
{
    let mut out: Vec<(String, String)> = Vec::new();
    assert(wire::params(out@) =~= Seq::<(Seq<char>, Seq<char>)>::empty());
    wire::add_param(&mut out, "symbol", wire::prefixed_code(code, market).as_str());
    wire::add_param(&mut out, "scale", period.sina_scale());
    wire::add_param(&mut out, "ma", "no");
    wire::add_param(&mut out, "datalen", "1023");
    out
}

/// A number that is written as a text under a key, or zero.
pub open spec fn text_number<N: Scalar>(j: JsonView, key: Seq<char>) -> N {
    match json::text_field(j, key) {
        Some(s) => wire::number::<N>(s),
        None => num::nil::<N>(),
    }
}

fn num_of<N: Scalar>(j: &Json, key: &str) -> (r: N)
    ensures
        r == text_number::<N>(j@, key@),
{
    match j.str_field(key) {
        Some(s) => wire::parse_number(s),
        None => num::zero::<N>(),
    }
}

/// A day lies between two others, of which either may be open.
pub open spec fn in_range(day: Seq<char>, beg: Seq<char>, end: Seq<char>) -> bool {
    &&& beg.len() == 0 || !text::before(day, beg)
    &&& end.len() == 0 || !text::before(end, day)
}

/// The bar that an item holds, where it has a date in the range.
pub open spec fn bar_in<N: Scalar>(
    code: Seq<char>,
    j: JsonView,
    beg: Seq<char>,
    end: Seq<char>,
) -> Option<KLineView<N>> {
    let day = json::text_or_empty(j, "day"@);
    if day.len() == 0 || !in_range(day, beg, end) {
        None
    } else {
        Some(
            KLineView {
                code,
                date: day,
                open: text_number::<N>(j, "open"@),
                close: text_number::<N>(j, "close"@),
                high: text_number::<N>(j, "high"@),
                low: text_number::<N>(j, "low"@),
                volume: text_number::<N>(j, "volume"@).quotient(N::whole(100)),
                amount: num::nil::<N>(),
                turnover: None,
            },
        )
    }
}

/// The bars that the first `n` items hold.
pub open spec fn bars_in<N: Scalar>(
    code: Seq<char>,
    items: Seq<JsonView>,
    beg: Seq<char>,
    end: Seq<char>,
    n: int,
) -> Seq<KLineView<N>>
    decreases n,
{
    if n <= 0 {
        Seq::empty()
    } else {
        match bar_in::<N>(code, items[n - 1], beg, end) {
            Some(k) => bars_in::<N>(code, items, beg, end, n - 1).push(k),
            None => bars_in::<N>(code, items, beg, end, n - 1),
        }
    }
}

/// The bars that a document holds: none where it is no list.
pub open spec fn klines_of<N: Scalar>(
    code: Seq<char>,
    j: JsonView,
    beg: Seq<char>,
    end: Seq<char>,
) -> Option<Seq<KLineView<N>>> {
    match json::as_items(j) {
        Some(v) => Some(
            bars_in::<N>(code, v, wire::dashed(beg), wire::dashed(end), v.len() as int),
        ),
        None => None,
    }
}

/// The bars that a document holds, from one day to another, each of which may be left open
/// by `0`.
pub fn parse_klines<N: Scalar>(code: &str, j: &Json, beg: &str, end: &str) -> (r: Result<
    Vec<KLine<N>>,
    String,
>)
    ensures
        match r {
            Ok(v) => klines_of::<N>(code@, j@, beg@, end@) == Some(models::bars(v@)),
            Err(e) => klines_of::<N>(code@, j@, beg@, end@) is None && e@ == "新浪K线返回异常，代码 "@
                + code@ + " 可能不存在"@,
        },
{
    let items = match j.items() {
        Some(v) => v,
        None => {
            return Err(wire::message("新浪K线返回异常，代码 ", code, " 可能不存在"));
        },
    };
    let ghost vs = json::documents(items@);
    let beg_d = wire::dash_date(beg);
    let end_d = wire::dash_date(end);
    let open_beg = text::chars_of(beg_d.as_str()).len() == 0;
    let open_end = text::chars_of(end_d.as_str()).len() == 0;
    let mut out: Vec<KLine<N>> = Vec::new();
    let mut i: usize = 0;
    assert(models::bars(out@) =~= Seq::<KLineView<N>>::empty());
    while i < items.len()
        invariant
            vs == json::documents(items@),
            i <= items@.len(),
            open_beg == (beg_d@.len() == 0),
            open_end == (end_d@.len() == 0),
            models::bars(out@) == bars_in::<N>(code@, vs, beg_d@, end_d@, i as int),
        decreases items@.len() - i,
    {
        let item = &items[i];
        assert(vs[i as int] == item@);
        let day = item.str_or_empty("day");
        if text::chars_of(day.as_str()).len() > 0 && (open_beg || !text::precedes(
            day.as_str(),
            beg_d.as_str(),
        )) && (open_end || !text::precedes(end_d.as_str(), day.as_str())) {
            let ghost before = out@;
            out.push(
                KLine {
                    code: code.to_owned(),
                    date: day,
                    open: num_of(item, "open"),
                    close: num_of(item, "close"),
                    high: num_of(item, "high"),
                    low: num_of(item, "low"),
                    volume: num_of::<N>(item, "volume").over(N::from_int(100)),
                    amount: num::zero::<N>(),
                    turnover: None,
                },
            );
            assert(models::bars(out@) =~= models::bars(before).push(out@.last()@));
        }
        i += 1;
    }
    Ok(out)
}

/// The bars that an answer holds.
pub fn read_klines<N: Scalar>(code: &str, body: &str, beg: &str, end: &str) -> (r: Result<
    Vec<KLine<N>>,
    String,
>)
    ensures
        match json::json_of(body@) {
            Some(j) => match r {
                Ok(v) => klines_of::<N>(code@, j, beg@, end@) == Some(models::bars(v@)),
                Err(e) => klines_of::<N>(code@, j, beg@, end@) is None && e@
                    == "新浪K线返回异常，代码 "@ + code@ + " 可能不存在"@,
            },
            None => r matches Err(e) && e@ == "解析新浪K线响应失败"@,
        },
{
    match json::parse(body) {
        Some(j) => parse_klines(code, &j, beg, end),
        None => Err("解析新浪K线响应失败".to_owned()),
    }
}

} // verus!
