//! Tencent: quotes as lines of text in GBK, daily bars as JSON.
use super::models;
use super::models::{KLine, KLineView, Market, Quote, QuoteView};
use super::wire;
use crate::json;
use crate::json::{Json, JsonView};
use crate::num;
use crate::num::Scalar;
use crate::text;
use vstd::prelude::*;

verus! {

/// The source Tencent.
pub struct Tencent;

/// Where bars are asked for.
pub const KLINE_URL: &'static str = "https://web.ifzq.gtimg.cn/appstock/app/fqkline/get";

/// The quote that the fields of a line hold: name, price, last close, open and volume, and
/// where the line is long enough high, low, the money traded, which the mainland counts in
/// units of ten thousand, and the turnover.
pub open spec fn quote_in<N: Scalar>(code: Seq<char>, content: Seq<char>, is_hk: bool) -> Option<
    QuoteView<N>,
> {
    let f = text::pieces(content, '~');
    if f.len() < 6 || f[3].len() == 0 {
        None
    } else {
        let price = wire::number_at::<N>(f, 3);
        let prev_close = wire::number_at::<N>(f, 4);
        let change = price.difference(prev_close);
        Some(
            QuoteView {
                code,
                name: f[1],
                price,
                prev_close,
                open: wire::number_at::<N>(f, 5),
                high: if f.len() > 33 {
                    wire::number_at::<N>(f, 33)
                } else {
                    price
                },
                low: if f.len() > 34 {
                    wire::number_at::<N>(f, 34)
                } else {
                    price
                },
                change,
                change_pct: wire::change_part(change, prev_close),
                volume: wire::number_at::<N>(f, 6),
                amount: if f.len() > 37 {
                    if is_hk {
                        wire::number_at::<N>(f, 37)
                    } else {
                        wire::number_at::<N>(f, 37).product(N::whole(10_000))
                    }
                } else {
                    num::nil::<N>()
                },
                turnover: if f.len() > 38 {
                    N::denoted(f[38])
                } else {
                    None
                },
                pe: None,
                pb: None,
            },
        )
    }
}

/// The quote that a line holds.
pub open spec fn line_quote<N: Scalar>(line: Seq<char>) -> Option<QuoteView<N>> {
    match wire::line_symbol(line, "v_"@) {
        Some(symbol) => match wire::line_content(line) {
            Some(content) => quote_in(
                wire::bare_code(symbol),
                content,
                text::starts(symbol, "hk"@),
            ),
            None => None,
        },
        None => None,
    }
}

/// The quotes that the first `n` lines hold.
pub open spec fn lines_quotes<N: Scalar>(lines: Seq<Seq<char>>, n: int) -> Seq<QuoteView<N>>
    decreases n,
{
    if n <= 0 {
        Seq::empty()
    } else {
        match line_quote::<N>(lines[n - 1]) {
            Some(q) => lines_quotes::<N>(lines, n - 1).push(q),
            None => lines_quotes::<N>(lines, n - 1),
        }
    }
}

/// The quotes that a text holds, a line each.
pub open spec fn quotes_of<N: Scalar>(s: Seq<char>) -> Seq<QuoteView<N>> {
    let lines = text::pieces(s, '\n');
    lines_quotes::<N>(lines, lines.len() as int)
}

fn parse_line<N: Scalar>(code: String, content: &str, is_hk: bool) -> (r: Option<Quote<N>>)
    ensures
        (match r {
            Some(q) => Some(q@),
            None => None,
        }) == quote_in::<N>(code@, content@, is_hk),
{
    let f = text::split(content, '~');
    assert(text::texts(f@).len() == f@.len());
    if f.len() < 6 || text::chars_of(f[3].as_str()).len() == 0 {
        return None;
    }
    let price = wire::number_in::<N>(&f, 3);
    let prev_close = wire::number_in::<N>(&f, 4);
    let change = price.minus(prev_close);
    Some(
        Quote {
            code,
            name: f[1].clone(),
            price,
            prev_close,
            open: wire::number_in::<N>(&f, 5),
            high: if f.len() > 33 {
                wire::number_in::<N>(&f, 33)
            } else {
                price
            },
            low: if f.len() > 34 {
                wire::number_in::<N>(&f, 34)
            } else {
                price
            },
            change,
            change_pct: wire::change_of(change, prev_close),
            volume: wire::number_in::<N>(&f, 6),
            amount: if f.len() > 37 {
                if is_hk {
                    wire::number_in::<N>(&f, 37)
                } else {
                    wire::number_in::<N>(&f, 37).times(N::from_int(10_000))
                }
            } else {
                num::zero::<N>()
            },
            turnover: if f.len() > 38 {
                N::parse(f[38].as_str())
            } else {
                None
            },
            pe: None,
            pb: None,
        },
    )
}

/// The address of the quotes of several securities.
pub fn quotes_url(reqs: &[(String, Market)]) -> (r: String)
    ensures
        r@ == "https://qt.gtimg.cn/q="@ + text::joined(wire::prefixed_codes(reqs@), ","@),
{
    let mut out = "https://qt.gtimg.cn/q=".to_owned();
    out.append(wire::code_list(reqs).as_str());
    out
}

/// The quotes that a text holds. Lines that hold none, and securities without a price, are
/// passed over.
pub fn parse_quotes<N: Scalar>(s: &str) -> (r: Vec<Quote<N>>)
    ensures
        models::quote_views(r@) == quotes_of::<N>(s@),
{
    let lines = text::split(s, '\n');
    let ghost ls = text::texts(lines@);
    let mut out: Vec<Quote<N>> = Vec::new();
    let mut i: usize = 0;
    assert(models::quote_views(out@) =~= Seq::<QuoteView<N>>::empty());
    while i < lines.len()
        invariant
            ls == text::texts(lines@),
            i <= lines@.len(),
            models::quote_views(out@) == lines_quotes::<N>(ls, i as int),
        decreases lines@.len() - i,
    {
        let line = lines[i].as_str();
        assert(ls[i as int] == line@);
        match wire::symbol_of(line, "v_") {
            Some(symbol) => match wire::content_of(line) {
                Some(content) => {
                    let is_hk = text::starts_with(symbol.as_str(), "hk");
                    match parse_line(wire::code_in(symbol.as_str()), content.as_str(), is_hk) {
                        Some(q) => {
                            let ghost before = out@;
                            out.push(q);
                            assert(models::quote_views(out@) =~= models::quote_views(before).push(
                                out@.last()@,
                            ));
                        },
                        None => {},
                    }
                },
                None => {},
            },
            None => {},
        }
        i += 1;
    }
    out
}

/// The quotes that an answer in GBK holds.
pub fn read_quotes<N: Scalar>(body: &[u8]) -> (r: Vec<Quote<N>>)
    ensures
        models::quote_views(r@) == quotes_of::<N>(wire::gbk_text(body@)),
{
    parse_quotes(wire::decode_gbk(body).as_str())
}

/// The last of the quotes that came for one security.
pub fn single_quote<N: Scalar>(code: &str, quotes: Vec<Quote<N>>) -> (r: Result<Quote<N>, String>)
    ensures
        match r {
            Ok(q) => quotes@.len() > 0 && q == quotes@.last(),
            Err(e) => quotes@.len() == 0 && e@ == "腾讯行情无数据，代码 "@ + code@ + " 可能不存在"@,
        },
{
    let mut v = quotes;
    match v.pop() {
        Some(q) => Ok(q),
        None => Err(wire::message("腾讯行情无数据，代码 ", code, " 可能不存在")),
    }
}

/// The parameter of a request for daily bars: symbol, period, first and last day, and how
/// many bars at most, adjusted for dividends.
pub open spec fn klines_text(
    code: Seq<char>,
    market: Market,
    beg: Seq<char>,
    end: Seq<char>,
) -> Seq<char> {
    wire::prefix_of(market) + code + ",day,"@ + wire::dashed(beg) + ","@ + wire::dashed(end)
        + ",640,qfq"@
}

pub fn klines_param(code: &str, market: Market, beg: &str, end: &str) -> (r: String)
    ensures
        r@ == klines_text(code@, market, beg@, end@),
{
    let mut out = wire::prefixed_code(code, market);
    out.append(",day,");
    out.append(wire::dash_date(beg).as_str());
    out.append(",");
    out.append(wire::dash_date(end).as_str());
    out.append(",640,qfq");
    out
}

/// The text at a place of a row, or an empty one.
pub open spec fn cell_text(row: Seq<JsonView>, i: int) -> Seq<char> {
    match json::as_text(row[i]) {
        Some(s) => s,
        None => Seq::empty(),
    }
}

/// The bar that a row holds: date, open, close, high, low and volume, all as texts.
pub open spec fn bar_in<N: Scalar>(code: Seq<char>, j: JsonView) -> Option<KLineView<N>> {
    match json::as_items(j) {
        Some(c) => if c.len() < 6 {
            None
        } else {
            Some(
                KLineView {
                    code,
                    date: cell_text(c, 0),
                    open: wire::number::<N>(cell_text(c, 1)),
                    close: wire::number::<N>(cell_text(c, 2)),
                    high: wire::number::<N>(cell_text(c, 3)),
                    low: wire::number::<N>(cell_text(c, 4)),
                    volume: wire::number::<N>(cell_text(c, 5)),
                    amount: num::nil::<N>(),
                    turnover: None,
                },
            )
        },
        None => None,
    }
}

/// The bars that the first `n` rows hold.
pub open spec fn bars_in<N: Scalar>(code: Seq<char>, rows: Seq<JsonView>, n: int) -> Seq<
    KLineView<N>,
>
    decreases n,
{
    if n <= 0 {
        Seq::empty()
    } else {
        match bar_in::<N>(code, rows[n - 1]) {
            Some(k) => bars_in::<N>(code, rows, n - 1).push(k),
            None => bars_in::<N>(code, rows, n - 1),
        }
    }
}

/// What a document holds of a symbol.
pub open spec fn node_of(j: JsonView, code: Seq<char>, market: Market) -> Option<JsonView> {
    json::then_field(json::field(j, "data"@), wire::prefix_of(market) + code)
}

/// The rows of a symbol: those adjusted for dividends, or else those that are not.
pub open spec fn rows_of(node: JsonView) -> Option<Seq<JsonView>> {
    let day = match json::field(node, "qfqday"@) {
        Some(x) => Some(x),
        None => json::field(node, "day"@),
    };
    match day {
        Some(x) => json::as_items(x),
        None => None,
    }
}

fn cell(row: &Vec<Json>, i: usize) -> (r: String)
    requires
        i < row@.len(),
    ensures
        r@ == cell_text(json::documents(row@), i as int),
{
    match row[i].as_str() {
        Some(s) => s.to_owned(),
        None => {
            let r = String::new();
            assert(r@ =~= Seq::<char>::empty());
            r
        },
    }
}

/// The daily bars that a document holds of a security.
pub fn parse_klines<N: Scalar>(code: &str, market: Market, j: &Json) -> (r: Result<
    Vec<KLine<N>>,
    String,
>)
    ensures
        match node_of(j@, code@, market) {
            Some(node) => match rows_of(node) {
                Some(rows) => r matches Ok(v) && models::bars(v@) == bars_in::<N>(
                    code@,
                    rows,
                    rows.len() as int,
                ),
                None => r matches Err(e) && e@ == "腾讯K线缺少日K字段，代码 "@ + code@,
            },
            None => r matches Err(e) && e@ == "腾讯K线返回空，代码 "@ + code@ + " 可能不存在"@,
        },
{
    let symbol = wire::prefixed_code(code, market);
    let node = match j.get("data") {
        Some(d) => d.get(symbol.as_str()),
        None => None,
    };
    let node = match node {
        Some(n) => n,
        None => {
            return Err(wire::message("腾讯K线返回空，代码 ", code, " 可能不存在"));
        },
    };
    let day = match node.get("qfqday") {
        Some(x) => Some(x),
        None => node.get("day"),
    };
    let rows = match day {
        Some(x) => x.items(),
        None => None,
    };
    let rows = match rows {
        Some(v) => v,
        None => {
            return Err(wire::both("腾讯K线缺少日K字段，代码 ", code));
        },
    };
    let ghost vs = json::documents(rows@);
    let mut out: Vec<KLine<N>> = Vec::new();
    let mut i: usize = 0;
    assert(models::bars(out@) =~= Seq::<KLineView<N>>::empty());
    while i < rows.len()
        invariant
            vs == json::documents(rows@),
            i <= rows@.len(),
            models::bars(out@) == bars_in::<N>(code@, vs, i as int),
        decreases rows@.len() - i,
    {
        assert(vs[i as int] == rows@[i as int]@);
        match rows[i].items() {
            Some(c) => {
                if c.len() >= 6 {
                    let ghost before = out@;
                    out.push(
                        KLine {
                            code: code.to_owned(),
                            date: cell(c, 0),
                            open: wire::parse_number(cell(c, 1).as_str()),
                            close: wire::parse_number(cell(c, 2).as_str()),
                            high: wire::parse_number(cell(c, 3).as_str()),
                            low: wire::parse_number(cell(c, 4).as_str()),
                            volume: wire::parse_number(cell(c, 5).as_str()),
                            amount: num::zero::<N>(),
                            turnover: None,
                        },
                    );
                    assert(models::bars(out@) =~= models::bars(before).push(out@.last()@));
                }
            },
            None => {},
        }
        i += 1;
    }
    Ok(out)
}

/// The daily bars that an answer holds of a security.
pub fn read_klines<N: Scalar>(code: &str, market: Market, body: &str) -> (r: Result<
    Vec<KLine<N>>,
    String,
>)
    ensures
        match json::json_of(body@) {
            Some(j) => match node_of(j, code@, market) {
                Some(node) => match rows_of(node) {
                    Some(rows) => r matches Ok(v) && models::bars(v@) == bars_in::<N>(
                        code@,
                        rows,
                        rows.len() as int,
                    ),
                    None => r matches Err(e) && e@ == "腾讯K线缺少日K字段，代码 "@ + code@,
                },
                None => r matches Err(e) && e@ == "腾讯K线返回空，代码 "@ + code@ + " 可能不存在"@,
            },
            None => r matches Err(e) && e@ == "解析腾讯K线响应失败"@,
        },
{
    match json::parse(body) {
        Some(j) => parse_klines(code, market, &j),
        None => Err("解析腾讯K线响应失败".to_owned()),
    }
}

} // verus!
