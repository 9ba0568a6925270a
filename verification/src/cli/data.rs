//! The command that keeps the list of securities and their bars.
use super::sheet;
use super::sheet::{Sheet, SheetView};
use crate::data::models;
use crate::data::models::{normalize_code, Market, Quote, QuoteView, Stock, StockView};
use crate::data::source;
use crate::data::source::Source;
use crate::data::wire;
use crate::num::Scalar;
use crate::text;
use vstd::prelude::*;

verus! {

/// How many securities are updated at a time.
pub const UPDATE_CONCURRENCY: usize = 4;

/// How often bars are asked for before an update fails: once, and three times again.
pub const UPDATE_TRIES: u32 = 4;

/// The longest wait before a request of an update, in milliseconds.
pub const UPDATE_JITTER: u64 = 400;

/// What to do with the list.
#[derive(Debug)]
pub enum DataCmd {
    /// Put securities on the list.
    Add { codes: Vec<String> },
    /// Take a security off the list.
    Remove { code: String },
    /// Bring the bars up to date, of all securities where none is named.
    Update { codes: Vec<String> },
    /// Show the list.
    List,
    /// Show what is stored of a security.
    Info { code: String },
}

/// A request of an update that fails is made three times again, after about 300, 600 and
/// 1200 milliseconds; when it has failed for the fourth time, it is given up.
pub proof fn update_tries_three_times_again(jitter: u64)
    ensures
        source::waited(1, UPDATE_TRIES, jitter) == Some(300 + jitter),
        source::waited(2, UPDATE_TRIES, jitter) == Some(600 + jitter),
        source::waited(3, UPDATE_TRIES, jitter) == Some(1200 + jitter),
        source::waited(4, UPDATE_TRIES, jitter) is None,
{
    vstd::arithmetic::power2::lemma2_to64();
}

/// There has to be a code.
pub fn check_codes(codes: &[String]) -> (r: Result<(), String>)
    ensures
        match r {
            Ok(()) => codes@.len() > 0,
            Err(e) => codes@.len() == 0 && e@ == "请提供至少一个股票代码"@,
        },
{
    if codes.len() == 0 {
        Err("请提供至少一个股票代码".to_owned())
    } else {
        Ok(())
    }
}

/// The code and the market of a security that is put on the list.
pub fn security_to_add(input: &str) -> (r: Result<(String, Market), String>)
    ensures
        match r {
            Ok((code, m)) => models::normalized(input@) == Some((code@, m)),
            Err(e) => models::normalized(input@) is None && e@ == "无法识别的股票代码 "@ + input@,
        },
{
    match normalize_code(input) {
        Some((code, m)) => Ok((code, m)),
        None => Err(wire::both("无法识别的股票代码 ", input)),
    }
}

/// The code under which a security is stored. What means a security of Hong Kong is stored
/// under its code of five digits, any other input under the code as it is given.
pub open spec fn code_stored(input: Seq<char>) -> Seq<char> {
    match models::normalized(input) {
        Some((code, Market::HK)) => code,
        _ => input,
    }
}

/// The code under which a security is stored.
pub fn stored_code(input: &str) -> (r: String)
    ensures
        r@ == code_stored(input@),
{
    match normalize_code(input) {
        Some((code, Market::HK)) => code,
        _ => input.to_owned(),
    }
}

/// The shares in a lot of a security: a hundred, or in Hong Kong what was found out, where
/// it was.
pub fn lot_on(market: Market, found: Option<i64>) -> (r: i64)
    ensures
        r == (match (market, found) {
            (Market::HK, Some(n)) => n,
            _ => 100,
        }),
{
    match (market, found) {
        (Market::HK, Some(n)) => n,
        _ => 100,
    }
}

/// The name in the first of the quotes, where there is one, or the code.
pub open spec fn name_in<N: Scalar>(quotes: Seq<(QuoteView<N>, Source)>, code: Seq<char>) -> Seq<
    char,
> {
    if quotes.len() > 0 && quotes[0].0.name.len() > 0 {
        quotes[0].0.name
    } else {
        code
    }
}

/// The name of a security, by quotes of it: the code where they give none.
pub fn resolve_name<N: Scalar>(quotes: &Vec<(Quote<N>, Source)>, code: &str) -> (r: String)
    ensures
        r@ == name_in(source::sourced(quotes@), code@),
{
    if quotes.len() > 0 && text::chars_of(quotes[0].0.name.as_str()).len() > 0 {
        quotes[0].0.name.clone()
    } else {
        code.to_owned()
    }
}

/// The day from which on bars are missing: the last day that is stored, without dashes, or
/// the beginning.
pub fn update_start(latest: Option<&str>) -> (r: String)
    ensures
        r@ == (match latest {
            Some(d) => text::without(d@, '-'),
            None => "0"@,
        }),
{
    match latest {
        Some(d) => text::remove_char(d, '-'),
        None => "0".to_owned(),
    }
}

/// What is said when a security has been put on the list.
pub fn added_line(stock: &Stock, bars: usize, source: &str) -> (r: String)
    ensures
        r@ == "已添加 "@ + stock@.code + " "@ + stock@.name + "，写入 "@ + text::decimal(
            bars as nat,
        ) + " 条日K（来源 "@ + source@ + "）"@,
{
    let mut s = "已添加 ".to_owned();
    s.append(stock.code.as_str());
    s.append(" ");
    s.append(stock.name.as_str());
    s.append("，写入 ");
    sheet::put(&mut s, text::show(bars as u64), " 条日K（来源 ");
    s.append(source);
    s.append("）");
    s
}

/// What is said when a security has been taken off the list, or was not on it.
pub fn removed_line(code: &str, found: bool) -> (r: String)
    ensures
        r@ == (if found {
            "已移除 "@ + code@
        } else {
            code@ + " 不在跟踪列表中"@
        }),
{
    if found {
        wire::both("已移除 ", code)
    } else {
        wire::both(code, " 不在跟踪列表中")
    }
}

/// What is said when the bars of a security have been brought up to date.
pub fn updated_line(stock: &Stock, bars: usize, source: &str) -> (r: String)
    ensures
        r@ == stock@.code + " "@ + stock@.name + " 更新 "@ + text::decimal(bars as nat)
            + " 条（来源 "@ + source@ + "）"@,
{
    let mut s = stock.code.clone();
    s.append(" ");
    s.append(stock.name.as_str());
    s.append(" 更新 ");
    sheet::put(&mut s, text::show(bars as u64), " 条（来源 ");
    s.append(source);
    s.append("）");
    s
}

/// What is said when they could not be.
pub fn failed_line(stock: &Stock, cause: &str) -> (r: String)
    ensures
        r@ == stock@.code + " "@ + stock@.name + " 更新失败："@ + cause@,
{
    let mut s = stock.code.clone();
    s.append(" ");
    s.append(stock.name.as_str());
    s.append(" 更新失败：");
    s.append(cause);
    s
}

/// The cells of a security on the list.
pub open spec fn stock_cells(s: StockView, bars: nat) -> Seq<Seq<char>> {
    seq![s.code, s.name, models::market_text(s.market), text::decimal(bars), s.added_at]
}

/// The table of the list.
pub open spec fn list_table(stocks: Seq<StockView>, bars: Seq<usize>) -> SheetView {
    SheetView {
        header: seq!["代码"@, "名称"@, "市场"@, "K线数"@, "添加时间"@],
        rows: Seq::new(stocks.len(), |i: int| stock_cells(stocks[i], bars[i] as nat)),
    }
}

/// The table of the list, with the number of bars of each security; none where the list is
/// empty.
pub fn list_report(stocks: &[Stock], bars: &[usize]) -> (r: Option<Sheet>)
    requires
        bars@.len() == stocks@.len(),
    ensures
        match r {
            Some(s) => stocks@.len() > 0 && s@ == list_table(models::stock_views(stocks@), bars@),
            None => stocks@.len() == 0,
        },
{
    if stocks.len() == 0 {
        return None;
    }
    let ghost ss = models::stock_views(stocks@);
    let ghost goal = list_table(ss, bars@).rows;
    let mut rows = sheet::no_rows();
    let mut i: usize = 0;
    assert(goal.take(0) =~= Seq::<Seq<Seq<char>>>::empty());
    while i < stocks.len()
        invariant
            ss == models::stock_views(stocks@),
            goal == list_table(ss, bars@).rows,
            bars@.len() == stocks@.len(),
            i <= stocks@.len(),
            sheet::cells(rows@) == goal.take(i as int),
        decreases stocks@.len() - i,
    {
        let s = &stocks[i];
        assert(ss[i as int] == s@);
        let mut cells = sheet::no_lines();
        sheet::line(&mut cells, s.code.as_str());
        sheet::line(&mut cells, s.name.as_str());
        sheet::line(&mut cells, s.market.as_str());
        sheet::line(&mut cells, text::show(bars[i] as u64).as_str());
        sheet::line(&mut cells, s.added_at.as_str());
        assert(text::texts(cells@) =~= stock_cells(s@, bars@[i as int] as nat));
        sheet::row(&mut rows, cells);
        i += 1;
        assert(sheet::cells(rows@) =~= goal.take(i as int));
    }
    assert(goal.take(goal.len() as int) =~= goal);
    let mut header = sheet::no_lines();
    sheet::line(&mut header, "代码");
    sheet::line(&mut header, "名称");
    sheet::line(&mut header, "市场");
    sheet::line(&mut header, "K线数");
    sheet::line(&mut header, "添加时间");
    assert(text::texts(header@) =~= list_table(ss, bars@).header);
    Some(Sheet { header, rows })
}

/// What is stored of a security.
pub open spec fn stored_lines(
    s: StockView,
    bars: nat,
    range: Option<(Seq<char>, Seq<char>)>,
) -> Seq<Seq<char>> {
    seq![
        "代码："@ + s.code,
        "名称："@ + s.name,
        "市场："@ + models::market_text(s.market),
        "K线条数："@ + text::decimal(bars),
        match range {
            Some((a, b)) => "数据范围："@ + a + " ~ "@ + b,
            None => "数据范围：（无数据）"@,
        },
    ]
}

pub fn info_lines(stock: &Stock, bars: usize, range: &Option<(String, String)>) -> (r: Vec<String>)
    ensures
        text::texts(r@) == stored_lines(
            stock@,
            bars as nat,
            match *range {
                Some((a, b)) => Some((a@, b@)),
                None => None,
            },
        ),
{
    let mut out = sheet::no_lines();
    sheet::line(&mut out, wire::both("代码：", stock.code.as_str()).as_str());
    sheet::line(&mut out, wire::both("名称：", stock.name.as_str()).as_str());
    sheet::line(&mut out, wire::both("市场：", stock.market.as_str()).as_str());
    sheet::line(&mut out, wire::both("K线条数：", text::show(bars as u64).as_str()).as_str());
    match range {
        Some((a, b)) => {
            let mut s = wire::message("数据范围：", a.as_str(), " ~ ");
            s.append(b.as_str());
            sheet::line(&mut out, s.as_str());
        },
        None => {
            sheet::line(&mut out, "数据范围：（无数据）");
        },
    }
    assert(text::texts(out@) =~= stored_lines(
        stock@,
        bars as nat,
        match *range {
            Some((a, b)) => Some((a@, b@)),
            None => None,
        },
    ));
    out
}

} // verus!
