//! What is said of one holding: its gains, its extremes, and an index beside it.
use super::portfolio;
use super::portfolio::{is_stale, present_of, versus, Lots, Present};
use super::sheet;
use crate::data::benchmark;
use crate::data::benchmark::benchmark_for;
use crate::data::models;
use crate::data::models::{normalize_code, KLine, Quote, QuoteView};
use crate::data::store;
use crate::engine::position;
use crate::engine::position::PositionStats;
use crate::num;
use crate::num::Scalar;
use crate::text;
use vstd::prelude::*;

verus! {

// ---------------------------------------------------------------------------
// The gains
// ---------------------------------------------------------------------------
/// The line of the present price.
pub open spec fn price_line<N: Scalar>(
    p: Present<N>,
    quote: Option<QuoteView<N>>,
    last_date: Seq<char>,
) -> Seq<char> {
    match quote {
        Some(q) => "现价 ¥"@ + p.cur.rounded(3) + " ("@ + sheet::percent_text(q.change_pct)
            + " 今日)   市值 ¥"@ + sheet::amount_text(p.value),
        None => "现价 ¥"@ + p.cur.rounded(3) + "（本地日K "@ + last_date
            + " 收盘,无实时价）   市值 ¥"@ + sheet::amount_text(p.value),
    }
}

/// The lines of the gains of a holding.
pub open spec fn gain_lines<N: Scalar>(
    code: Seq<char>,
    name: Seq<char>,
    buy_date: Seq<char>,
    held_days: Option<i64>,
    s: PositionStats<N>,
    quote: Option<QuoteView<N>>,
    last_date: Seq<char>,
    bar_days: Option<i64>,
) -> Seq<Seq<char>> {
    let p = portfolio::present(s, quote);
    let days = match held_days {
        Some(d) => d as int,
        None => 0,
    };
    let stale = if bar_days matches Some(d) && d > 5 {
        seq![
            "⚠ 本地日K截至 "@ + last_date + ",可能滞后;最新收盘请 stockrs data update "@ + code,
        ]
    } else {
        Seq::empty()
    };
    let head = seq![
        code + " "@ + name + " 持仓分析"@,
        "建仓 "@ + buy_date + "（"@ + text::decimal_int(days) + " 自然日 / "@ + text::decimal(
            s.trading_days as nat,
        ) + " 交易日）"@,
        "成本 ¥"@ + s.avg_cost.rounded(3) + " × "@ + text::decimal_int(s.qty as int) + " = ¥"@
            + sheet::amount_text(s.cost),
        price_line(p, quote, last_date),
    ];
    let rest = seq![
        text::repeated('─', 46),
        "浮动盈亏：¥"@ + sheet::amount_text(p.pnl) + " ("@ + sheet::percent_text(p.pct)
            + ")   日均 ¥"@ + sheet::amount_text(s.avg_daily_pnl) + "/交易日"@,
        "收益率：  今日 "@ + sheet::percent_cell(p.today) + "   近一周 "@ + sheet::percent_cell(
            s.ret_week,
        ) + "   近一月 "@ + sheet::percent_cell(s.ret_month) + "   累计 "@ + sheet::percent_text(
            p.pct,
        ),
    ];
    head + stale + rest
}

/// The lines of the gains of a holding: at the price of its quote, or else at the last
/// close. Bars that are more than five days old are pointed out.
pub fn gains<N: Scalar>(
    code: &str,
    name: &str,
    buy_date: &str,
    held_days: Option<i64>,
    s: &PositionStats<N>,
    quote: &Option<Quote<N>>,
    last_date: &str,
    bar_days: Option<i64>,
) -> (r: Vec<String>)
    ensures
        text::texts(r@) == gain_lines(
            code@,
            name@,
            buy_date@,
            held_days,
            *s,
            portfolio::quote_option(*quote),
            last_date@,
            bar_days,
        ),
{
    let ghost q = portfolio::quote_option(*quote);
    let ghost goal = gain_lines(
        code@,
        name@,
        buy_date@,
        held_days,
        *s,
        q,
        last_date@,
        bar_days,
    );
    let p = present_of(s, quote);
    let mut out = sheet::no_lines();
    let mut l = code.to_owned();
    l.append(" ");
    l.append(name);
    l.append(" 持仓分析");
    sheet::line(&mut out, l.as_str());
    let mut l = "建仓 ".to_owned();
    l.append(buy_date);
    l.append("（");
    let days: i64 = match held_days {
        Some(d) => d,
        None => 0,
    };
    sheet::put(&mut l, text::show_int(days), " 自然日 / ");
    sheet::put(&mut l, text::show(s.trading_days as u64), " 交易日）");
    sheet::line(&mut out, l.as_str());
    let mut l = "成本 ¥".to_owned();
    sheet::put(&mut l, s.avg_cost.show_rounded(3), " × ");
    sheet::put(&mut l, text::show_int(s.qty), " = ¥");
    l.append(sheet::amount(s.cost).as_str());
    sheet::line(&mut out, l.as_str());
    let mut l = "现价 ¥".to_owned();
    match quote {
        Some(q) => {
            sheet::put(&mut l, p.cur.show_rounded(3), " (");
            sheet::put(&mut l, sheet::percent(q.change_pct), " 今日)   市值 ¥");
        },
        None => {
            sheet::put(&mut l, p.cur.show_rounded(3), "（本地日K ");
            l.append(last_date);
            l.append(" 收盘,无实时价）   市值 ¥");
        },
    }
    l.append(sheet::amount(p.value).as_str());
    assert(l@ =~= price_line(p, q, last_date@));
    sheet::line(&mut out, l.as_str());
    if is_stale(bar_days) {
        let mut l = "⚠ 本地日K截至 ".to_owned();
        l.append(last_date);
        l.append(",可能滞后;最新收盘请 stockrs data update ");
        l.append(code);
        sheet::line(&mut out, l.as_str());
    }
    sheet::line(&mut out, text::repeat('─', 46).as_str());
    let mut l = "浮动盈亏：¥".to_owned();
    sheet::put(&mut l, sheet::amount(p.pnl), " (");
    sheet::put(&mut l, sheet::percent(p.pct), ")   日均 ¥");
    sheet::put(&mut l, sheet::amount(s.avg_daily_pnl), "/交易日");
    sheet::line(&mut out, l.as_str());
    let mut l = "收益率：  今日 ".to_owned();
    sheet::put(&mut l, sheet::percent_or_dashes(p.today), "   近一周 ");
    sheet::put(&mut l, sheet::percent_or_dashes(s.ret_week), "   近一月 ");
    sheet::put(&mut l, sheet::percent_or_dashes(s.ret_month), "   累计 ");
    l.append(sheet::percent(p.pct).as_str());
    sheet::line(&mut out, l.as_str());
    assert(text::texts(out@) =~= goal);
    out
}

// ---------------------------------------------------------------------------
// An index beside it
// ---------------------------------------------------------------------------
/// The index that a holding is compared with: the one that is asked for, or else that of its
/// market.
pub open spec fn index_chosen(code: Seq<char>, given: Option<Seq<char>>) -> Option<Seq<char>> {
    match given {
        Some(g) => Some(g),
        None => match models::normalized(code) {
            Some((c, m)) => benchmark::index_for(code, m),
            None => None,
        },
    }
}

pub fn chosen_index(code: &str, given: Option<&str>) -> (r: Option<String>)
    ensures
        text::text_option(r) == index_chosen(code@, store::asked(given)),
{
    match given {
        Some(g) => Some(g.to_owned()),
        None => match normalize_code(code) {
            Some((_, m)) => match benchmark_for(code, m) {
                Some(s) => Some(s.to_owned()),
                None => None,
            },
            None => None,
        },
    }
}

/// The line of an index beside a holding.
pub open spec fn beside<N: Scalar>(name: Seq<char>, pnl_pct: N, first: N, last: N) -> Seq<char> {
    let index = last.quotient(first).difference(num::unit::<N>());
    let excess = pnl_pct.difference(index);
    "vs "@ + name + "(建仓至今)："@ + (if num::not_below_zero(excess) {
        "跑赢"@
    } else {
        "跑输"@
    }) + " "@ + sheet::percent_text(excess) + "（本股 "@ + sheet::percent_text(pnl_pct)
        + " 自成本 / 基准 "@ + sheet::percent_text(index) + " 同期收盘）"@
}

/// The line of an index beside a holding, from its first bar to its last. There have to be
/// two bars at least.
pub fn index_line<N: Scalar>(alias: &str, name: &str, bars: &[KLine<N>], pnl_pct: N) -> (r: String)
    ensures
        r@ == (if bars@.len() >= 2 {
            beside(name@, pnl_pct, bars@[0].close, bars@.last().close)
        } else {
            "（基准 "@ + alias@ + " 数据不可用,跳过对比）"@
        }),
{
    if bars.len() < 2 {
        let mut s = "（基准 ".to_owned();
        s.append(alias);
        s.append(" 数据不可用,跳过对比）");
        return s;
    }
    let v = versus(pnl_pct, bars[0].close, bars[bars.len() - 1].close);
    let mut s = "vs ".to_owned();
    s.append(name);
    s.append("(建仓至今)：");
    if v.ahead {
        s.append("跑赢");
    } else {
        s.append("跑输");
    }
    s.append(" ");
    sheet::put(&mut s, sheet::percent(v.excess), "（本股 ");
    sheet::put(&mut s, sheet::percent(pnl_pct), " 自成本 / 基准 ");
    sheet::put(&mut s, sheet::percent(v.index_return), " 同期收盘）");
    assert(s@ =~= beside(name@, pnl_pct, bars@[0].close, bars@.last().close));
    s
}

// ---------------------------------------------------------------------------
// The extremes
// ---------------------------------------------------------------------------
/// The line of an extreme.
pub open spec fn extreme_line<N: Scalar>(label: Seq<char>, e: (N, N, String)) -> Seq<char> {
    label + "：¥"@ + sheet::amount_text(e.0) + " ("@ + sheet::percent_text(e.1) + ") @ "@ + e.2@
}

fn extreme<N: Scalar>(label: &str, e: &(N, N, String)) -> (r: String)
    ensures
        r@ == extreme_line(label@, *e),
{
    let mut s = label.to_owned();
    s.append("：¥");
    sheet::put(&mut s, sheet::amount(e.0), " (");
    sheet::put(&mut s, sheet::percent(e.1), ") @ ");
    s.append(e.2.as_str());
    s
}

/// The lines of the extremes, the drawdown and the curve of a holding, where there are
/// enough trading days; and what sales of the security gained, where they gained anything.
pub open spec fn extreme_lines<N: Scalar>(s: PositionStats<N>, realized: N) -> Seq<Seq<char>> {
    let first = if s.trading_days >= 6 {
        seq![
            text::repeated('─', 46),
            extreme_line("最大浮盈"@, s.max_profit),
            extreme_line("最大浮亏"@, s.max_loss),
            "最大回撤："@ + s.max_drawdown.product(N::whole(100)).rounded(2)
                + "%（持仓期市值峰值→谷值）"@,
            "收益曲线(浮盈%)："@,
            crate::utils::format::chart(
                crate::utils::format::sampled(s.pnl_pct_series@, 46),
            ),
        ]
    } else {
        seq![
            "（持仓 "@ + text::decimal(s.trading_days as nat)
                + " 交易日,样本太短,略去极值/回撤/曲线）"@,
        ]
    };
    let last = if num::zeroed(realized) {
        Seq::empty()
    } else {
        seq!["本股已实现盈亏 ¥"@ + sheet::amount_text(realized)]
    };
    first + last
}

pub fn extremes<N: Scalar>(s: &PositionStats<N>, realized: N) -> (r: Vec<String>)
    ensures
        text::texts(r@) == extreme_lines(*s, realized),
{
    let mut out = sheet::no_lines();
    if s.trading_days >= portfolio::MIN_DAYS_FOR_CURVE {
        sheet::line(&mut out, text::repeat('─', 46).as_str());
        sheet::line(&mut out, extreme("最大浮盈", &s.max_profit).as_str());
        sheet::line(&mut out, extreme("最大浮亏", &s.max_loss).as_str());
        let mut l = "最大回撤：".to_owned();
        sheet::put(
            &mut l,
            s.max_drawdown.times(N::from_int(100)).show_rounded(2),
            "%（持仓期市值峰值→谷值）",
        );
        sheet::line(&mut out, l.as_str());
        sheet::line(&mut out, "收益曲线(浮盈%)：");
        sheet::line(
            &mut out,
            crate::utils::format::sparkline(s.pnl_pct_series.as_slice(), 46).as_str(),
        );
    } else {
        let mut l = "（持仓 ".to_owned();
        sheet::put(
            &mut l,
            text::show(s.trading_days as u64),
            " 交易日,样本太短,略去极值/回撤/曲线）",
        );
        sheet::line(&mut out, l.as_str());
    }
    if !num::is_zero(realized) {
        let mut l = "本股已实现盈亏 ¥".to_owned();
        l.append(sheet::amount(realized).as_str());
        sheet::line(&mut out, l.as_str());
    }
    assert(text::texts(out@) =~= extreme_lines(*s, realized));
    out
}

// ---------------------------------------------------------------------------
// What cannot be analysed
// ---------------------------------------------------------------------------
/// What is said of a code of which nothing is held any more.
pub fn cleared_line<N: Scalar>(code: &str, name: &str, realized: N) -> (r: String)
    ensures
        r@ == code@ + " "@ + name@ + " 已清仓  本股已实现盈亏 ¥"@ + sheet::amount_text(realized),
{
    let mut s = code.to_owned();
    s.append(" ");
    s.append(name);
    s.append(" 已清仓  本股已实现盈亏 ¥");
    s.append(sheet::amount(realized).as_str());
    s
}

/// The closing prices of bars.
pub open spec fn closes_of<N: Scalar>(klines: Seq<KLine<N>>) -> Seq<N> {
    Seq::new(klines.len(), |i: int| klines[i].close)
}

/// The days of bars.
pub open spec fn days_of<N: Scalar>(klines: Seq<KLine<N>>) -> Seq<Seq<char>> {
    Seq::new(klines.len(), |i: int| klines[i].date@)
}

/// The figures of what is held of a code, by its bars since it was bought, and the day of
/// the last bar. Refused if and only if there are no bars.
pub fn figures_since<N: Scalar>(code: &str, lots: &Lots<N>, klines: &[KLine<N>]) -> (r: Result<
    (PositionStats<N>, String),
    String,
>)
    ensures
        match r {
            Ok((s, last)) => {
                &&& klines@.len() > 0
                &&& position::figures(
                    lots.avg_cost,
                    lots.qty,
                    days_of(klines@),
                    closes_of(klines@),
                    s,
                )
                &&& last@ == klines@.last().date@
            },
            Err(e) => klines@.len() == 0 && e@ == "建仓日 "@ + lots.buy_date@
                + " 起无本地日K,请先 stockrs data update "@ + code@,
        },
{
    let n = klines.len();
    if n == 0 {
        return Err(no_bars(code, lots.buy_date.as_str()));
    }
    let mut dates: Vec<String> = Vec::new();
    let mut closes: Vec<N> = Vec::new();
    let mut i: usize = 0;
    while i < n
        invariant
            n == klines@.len(),
            i <= n,
            text::texts(dates@) == days_of(klines@).take(i as int),
            closes@ == closes_of(klines@).take(i as int),
        decreases n - i,
    {
        let ghost before = dates@;
        dates.push(klines[i].date.clone());
        closes.push(klines[i].close);
        i += 1;
        assert(text::texts(dates@) =~= text::texts(before).push(dates@.last()@));
        assert(text::texts(dates@) =~= days_of(klines@).take(i as int));
        assert(closes@ =~= closes_of(klines@).take(i as int));
    }
    assert(text::texts(dates@) =~= days_of(klines@));
    assert(closes@ =~= closes_of(klines@));
    let s = position::compute(lots.avg_cost, lots.qty, dates.as_slice(), closes.as_slice());
    Ok((s, klines[n - 1].date.clone()))
}

/// What is said of a code of which there are no bars since it was bought.
pub fn no_bars(code: &str, buy_date: &str) -> (r: String)
    ensures
        r@ == "建仓日 "@ + buy_date@ + " 起无本地日K,请先 stockrs data update "@ + code@,
{
    let mut s = "建仓日 ".to_owned();
    s.append(buy_date);
    s.append(" 起无本地日K,请先 stockrs data update ");
    s.append(code);
    s
}

} // verus!
