//! The command that runs back tests, one or many with different parameters.
use super::sheet;
use super::sheet::{Sheet, SheetView};
use crate::data::models;
use crate::data::models::{KLine, KLineView};
use crate::data::wire;
use crate::engine::backtest::BacktestResult;
use crate::engine::context;
use crate::engine::context::TradeRecView;
use crate::engine::metrics::{Benchmark, Metrics};
use crate::engine::portfolio;
use crate::engine::portfolio::{HoldingView, PfTradeView, PortfolioResult};
use crate::fixed::Fixed;
use crate::num;
use crate::num::Scalar;
use crate::order;
use crate::order::{Entry, EntryView};
use crate::table::Table;
use crate::text;
use vstd::prelude::*;

verus! {

// ---------------------------------------------------------------------------
// What is tested
// ---------------------------------------------------------------------------
/// What a back test is run on.
#[derive(Debug)]
pub enum Mode {
    /// One security.
    Single(String),
    /// Several securities.
    Several(Vec<String>),
    /// All securities on the list.
    Universe,
}

/// What a back test is run on: one security, or several or all of them, not both.
pub fn mode(stock: Option<String>, stocks: Vec<String>, universe: bool) -> (r: Result<Mode, String>)
    ensures
        match stock {
            Some(code) => if stocks@.len() > 0 || universe {
                r matches Err(e) && e@ == "--stock 不能与 --stocks / --universe 同时使用"@
            } else {
                r == Ok::<Mode, String>(Mode::Single(code))
            },
            None => if universe {
                r == Ok::<Mode, String>(Mode::Universe)
            } else if stocks@.len() > 0 {
                r == Ok::<Mode, String>(Mode::Several(stocks))
            } else {
                r matches Err(e) && e@ == "请用 --stock、--stocks 或 --universe 指定回测标的"@
            },
        },
{
    match stock {
        Some(code) => {
            if stocks.len() > 0 || universe {
                Err("--stock 不能与 --stocks / --universe 同时使用".to_owned())
            } else {
                Ok(Mode::Single(code))
            }
        },
        None => {
            if universe {
                Ok(Mode::Universe)
            } else if stocks.len() > 0 {
                Ok(Mode::Several(stocks))
            } else {
                Err("请用 --stock、--stocks 或 --universe 指定回测标的".to_owned())
            }
        },
    }
}

/// There have to be two bars at least.
pub fn check_bars(code: &str, count: usize) -> (r: Result<(), String>)
    ensures
        match r {
            Ok(()) => count >= 2,
            Err(e) => count < 2 && e@ == code@ + " 本地数据不足，请先 data add / update"@,
        },
{
    if count < 2 {
        Err(wire::both(code, " 本地数据不足，请先 data add / update"))
    } else {
        Ok(())
    }
}

// ---------------------------------------------------------------------------
// The report
// ---------------------------------------------------------------------------
/// How many columns the frame of a report has inside.
pub const INNER: usize = 48;

/// A line of a report, between the sides of its frame.
pub open spec fn frame_text(content: Seq<char>) -> Seq<char> {
    "│ "@ + (content + crate::utils::format::spaces(
        if crate::utils::format::columns(content) >= INNER - 1 {
            0
        } else {
            (INNER - 1 - crate::utils::format::columns(content)) as nat
        },
    )) + "│"@
}

/// A line of a report, between the sides of its frame.
pub fn framed(content: &str) -> (r: String)
    ensures
        r@ == frame_text(content@),
{
    wire::message("│ ", crate::utils::format::pad_end(content, INNER - 1).as_str(), "│")
}

/// A figure of a report, behind its name.
pub fn labelled(label: &str, value: &str) -> (r: String)
    ensures
        r@ == label@ + "："@ + value@,
{
    wire::message(label, "：", value)
}

/// A line of dashes as long as the frame is wide, between two corners.
pub open spec fn border_text(left: Seq<char>, right: Seq<char>) -> Seq<char> {
    left + text::repeated('─', INNER as nat) + right
}

/// A line of dashes as long as the frame is wide, between two corners.
pub fn border(left: &str, right: &str) -> (r: String)
    ensures
        r@ == border_text(left@, right@),
{
    wire::message(left, text::repeat('─', INNER).as_str(), right)
}

/// The lines of the figures of a back test.
pub open spec fn figure_lines<N: Scalar>(m: Metrics<N>) -> Seq<Seq<char>> {
    seq![
        frame_text("初始资金"@ + "："@ + ("¥"@ + sheet::amount_text(m.initial))),
        frame_text("期末资产"@ + "："@ + ("¥"@ + sheet::amount_text(m.final_value))),
        frame_text("总收益"@ + "："@ + sheet::percent_text(m.total_return)),
        frame_text("年化收益"@ + "："@ + sheet::percent_text(m.annual_return)),
        frame_text(
            "最大回撤"@ + "："@ + (m.max_drawdown.product(N::whole(100)).rounded(2) + "%"@),
        ),
        frame_text("夏普比率"@ + "："@ + m.sharpe.rounded(2)),
        frame_text(
            "胜率"@ + "："@ + (m.win_rate.product(N::whole(100)).rounded(1) + "% ("@
                + text::decimal(m.wins as nat) + "/"@ + text::decimal(m.closed_trades as nat)
                + ")"@),
        ),
        frame_text("成交笔数"@ + "："@ + text::decimal(m.total_trades as nat)),
    ]
}

fn entry(out: &mut Vec<String>, label: &str, value: &str)
    ensures
        text::texts(final(out)@) == text::texts(old(out)@).push(
            frame_text(label@ + "："@ + value@),
        ),
{
    sheet::line(out, framed(labelled(label, value).as_str()).as_str());
}

fn figures<N: Scalar>(out: &mut Vec<String>, m: &Metrics<N>)
    ensures
        text::texts(final(out)@) == text::texts(old(out)@) + figure_lines(*m),
{
    let ghost before = text::texts(out@);
    entry(out, "初始资金", wire::both("¥", sheet::amount(m.initial).as_str()).as_str());
    entry(out, "期末资产", wire::both("¥", sheet::amount(m.final_value).as_str()).as_str());
    entry(out, "总收益", sheet::percent(m.total_return).as_str());
    entry(out, "年化收益", sheet::percent(m.annual_return).as_str());
    let mut s = m.max_drawdown.times(N::from_int(100)).show_rounded(2);
    s.append("%");
    entry(out, "最大回撤", s.as_str());
    entry(out, "夏普比率", m.sharpe.show_rounded(2).as_str());
    let mut s = m.win_rate.times(N::from_int(100)).show_rounded(1);
    s.append("% (");
    sheet::put(&mut s, text::show(m.wins as u64), "/");
    sheet::put(&mut s, text::show(m.closed_trades as u64), ")");
    entry(out, "胜率", s.as_str());
    entry(out, "成交笔数", text::show(m.total_trades as u64).as_str());
    assert(text::texts(out@) =~= before + figure_lines(*m));
}

/// The gain of a trade in per cent; nothing where it has none.
pub open spec fn gain_cell<N: Scalar>(v: Option<N>) -> Seq<char> {
    match v {
        Some(p) => sheet::percent_text(p),
        None => Seq::empty(),
    }
}

fn gain_text<N: Scalar>(v: Option<N>) -> (r: String)
    ensures
        r@ == gain_cell(v),
{
    match v {
        Some(p) => sheet::percent(p),
        None => String::new(),
    }
}

/// The line of a trade.
pub open spec fn trade_line<N: Scalar>(t: TradeRecView<N>) -> Seq<char> {
    t.date + "  "@ + text::right_padded(t.action, 4) + " "@ + text::decimal_int(t.shares as int)
        + " @ ¥"@ + t.price.rounded(2) + "  "@ + gain_cell(t.pnl_pct)
}

/// The lines of trades, between the sides of the frame.
pub open spec fn trade_lines<N: Scalar>(ts: Seq<TradeRecView<N>>) -> Seq<Seq<char>> {
    Seq::new(ts.len(), |i: int| frame_text(trade_line(ts[i])))
}

/// The report of a back test of one security.
pub open spec fn report_lines<N: Scalar>(
    strategy: Seq<char>,
    code: Seq<char>,
    name: Seq<char>,
    start: Seq<char>,
    end: Seq<char>,
    m: Metrics<N>,
    trades: Seq<TradeRecView<N>>,
) -> Seq<Seq<char>> {
    seq![
        border_text("┌"@, "┐"@),
        frame_text("回测报告"@ + "："@ + strategy),
        border_text("├"@, "┤"@),
        frame_text("股票"@ + "："@ + (code + " "@ + name)),
        frame_text("区间"@ + "："@ + (start + " ~ "@ + end)),
    ] + figure_lines(m) + seq![border_text("├"@, "┤"@), frame_text("交易明细："@)] + trade_lines(
        trades,
    ) + seq![border_text("└"@, "┘"@)]
}

/// The report of a back test of one security.
pub fn report<N: Scalar>(
    strategy: &str,
    code: &str,
    name: &str,
    start: &str,
    end: &str,
    result: &BacktestResult<N>,
) -> (r: Vec<String>)
    ensures
        text::texts(r@) == report_lines(
            strategy@,
            code@,
            name@,
            start@,
            end@,
            result.metrics,
            context::records(result.trades@),
        ),
{
    let mut out = sheet::no_lines();
    sheet::line(&mut out, border("┌", "┐").as_str());
    entry(&mut out, "回测报告", strategy);
    sheet::line(&mut out, border("├", "┤").as_str());
    let mut s = wire::both(code, " ");
    s.append(name);
    entry(&mut out, "股票", s.as_str());
    entry(&mut out, "区间", wire::message(start, " ~ ", end).as_str());
    figures(&mut out, &result.metrics);
    sheet::line(&mut out, border("├", "┤").as_str());
    sheet::line(&mut out, framed("交易明细：").as_str());
    let ghost head = text::texts(out@);
    let ghost ts = context::records(result.trades@);
    let mut i: usize = 0;
    assert(head + trade_lines(ts).take(0) =~= head);
    while i < result.trades.len()
        invariant
            ts == context::records(result.trades@),
            i <= result.trades@.len(),
            text::texts(out@) == head + trade_lines(ts).take(i as int),
        decreases result.trades@.len() - i,
    {
        let t = &result.trades[i];
        assert(ts[i as int] == t@);
        let mut s = wire::both(t.date.as_str(), "  ");
        sheet::put(&mut s, text::pad_right(t.action.as_str(), 4), " ");
        sheet::put(&mut s, text::show_int(t.shares), " @ ¥");
        sheet::put(&mut s, t.price.show_rounded(2), "  ");
        s.append(gain_text(t.pnl_pct).as_str());
        assert(s@ =~= trade_line(t@));
        sheet::line(&mut out, framed(s.as_str()).as_str());
        i += 1;
        assert(text::texts(out@) =~= head + trade_lines(ts).take(i as int));
    }
    assert(trade_lines(ts).take(ts.len() as int) =~= trade_lines(ts));
    sheet::line(&mut out, border("└", "┘").as_str());
    assert(text::texts(out@) =~= report_lines(
        strategy@,
        code@,
        name@,
        start@,
        end@,
        result.metrics,
        ts,
    ));
    out
}

/// The line of what is held in the end.
pub open spec fn holding_line<N: Scalar>(h: HoldingView<N>) -> Seq<char> {
    h.code + " "@ + h.name + " "@ + text::decimal_int(h.shares as int) + "股 ¥"@
        + h.last_price.rounded(2) + " "@ + sheet::percent_text(h.pnl_pct)
}

/// The lines of what is held in the end.
pub open spec fn holding_lines<N: Scalar>(hs: Seq<HoldingView<N>>) -> Seq<Seq<char>> {
    Seq::new(hs.len(), |i: int| frame_text(holding_line(hs[i])))
}

/// The line of a trade of a portfolio.
pub open spec fn pf_trade_line<N: Scalar>(t: PfTradeView<N>) -> Seq<char> {
    t.date + " "@ + t.code + " "@ + text::right_padded(t.action, 4) + " "@ + text::decimal_int(
        t.shares as int,
    ) + " @ ¥"@ + t.price.rounded(2) + "  "@ + gain_cell(t.pnl_pct)
}

/// The lines of the trades of a portfolio.
pub open spec fn pf_trade_lines<N: Scalar>(ts: Seq<PfTradeView<N>>) -> Seq<Seq<char>> {
    Seq::new(ts.len(), |i: int| frame_text(pf_trade_line(ts[i])))
}

/// The report of a back test of several securities.
pub open spec fn pf_report_lines<N: Scalar>(strategy: Seq<char>, r: PortfolioResult<N>) -> Seq<
    Seq<char>,
> {
    let days = text::texts(r.dates@);
    let range = if days.len() > 0 {
        seq![frame_text("区间"@ + "："@ + (days[0] + " ~ "@ + days.last()))]
    } else {
        Seq::empty()
    };
    seq![
        border_text("┌"@, "┐"@),
        frame_text("组合回测报告"@ + "："@ + strategy),
        border_text("├"@, "┤"@),
        frame_text("股票数"@ + "："@ + text::decimal(r.stock_count as nat)),
    ] + range + figure_lines(r.metrics) + seq![
        border_text("├"@, "┤"@),
        frame_text("期末持仓："@),
    ] + holding_lines(portfolio::holding_views(r.holdings@)) + seq![
        border_text("├"@, "┤"@),
        frame_text("交易明细："@),
    ] + pf_trade_lines(portfolio::records(r.trades@)) + seq![border_text("└"@, "┘"@)]
}

/// The report of a back test of several securities.
pub fn pf_report<N: Scalar>(strategy: &str, result: &PortfolioResult<N>) -> (r: Vec<String>)
    ensures
        text::texts(r@) == pf_report_lines(strategy@, *result),
{
    let mut out = sheet::no_lines();
    sheet::line(&mut out, border("┌", "┐").as_str());
    entry(&mut out, "组合回测报告", strategy);
    sheet::line(&mut out, border("├", "┤").as_str());
    entry(&mut out, "股票数", text::show(result.stock_count as u64).as_str());
    let ghost days = text::texts(result.dates@);
    if result.dates.len() > 0 {
        let last = result.dates.len() - 1;
        assert(days[0] == result.dates@[0]@ && days.last() == result.dates@[last as int]@);
        entry(
            &mut out,
            "区间",
            wire::message(
                result.dates[0].as_str(),
                " ~ ",
                result.dates[last].as_str(),
            ).as_str(),
        );
    }
    figures(&mut out, &result.metrics);
    sheet::line(&mut out, border("├", "┤").as_str());
    sheet::line(&mut out, framed("期末持仓：").as_str());
    let ghost head = text::texts(out@);
    let ghost hs = portfolio::holding_views(result.holdings@);
    let mut i: usize = 0;
    assert(head + holding_lines(hs).take(0) =~= head);
    while i < result.holdings.len()
        invariant
            hs == portfolio::holding_views(result.holdings@),
            i <= result.holdings@.len(),
            text::texts(out@) == head + holding_lines(hs).take(i as int),
        decreases result.holdings@.len() - i,
    {
        let h = &result.holdings[i];
        assert(hs[i as int] == h@);
        let mut s = wire::message(h.code.as_str(), " ", h.name.as_str());
        s.append(" ");
        sheet::put(&mut s, text::show_int(h.shares), "股 ¥");
        sheet::put(&mut s, h.last_price.show_rounded(2), " ");
        s.append(sheet::percent(h.pnl_pct).as_str());
        assert(s@ =~= holding_line(h@));
        sheet::line(&mut out, framed(s.as_str()).as_str());
        i += 1;
        assert(text::texts(out@) =~= head + holding_lines(hs).take(i as int));
    }
    assert(holding_lines(hs).take(hs.len() as int) =~= holding_lines(hs));
    sheet::line(&mut out, border("├", "┤").as_str());
    sheet::line(&mut out, framed("交易明细：").as_str());
    let ghost middle = text::texts(out@);
    let ghost ts = portfolio::records(result.trades@);
    let mut i: usize = 0;
    assert(middle + pf_trade_lines(ts).take(0) =~= middle);
    while i < result.trades.len()
        invariant
            ts == portfolio::records(result.trades@),
            i <= result.trades@.len(),
            text::texts(out@) == middle + pf_trade_lines(ts).take(i as int),
        decreases result.trades@.len() - i,
    {
        let t = &result.trades[i];
        assert(ts[i as int] == t@);
        let mut s = wire::message(t.date.as_str(), " ", t.code.as_str());
        s.append(" ");
        sheet::put(&mut s, text::pad_right(t.action.as_str(), 4), " ");
        sheet::put(&mut s, text::show_int(t.shares), " @ ¥");
        sheet::put(&mut s, t.price.show_rounded(2), "  ");
        s.append(gain_text(t.pnl_pct).as_str());
        assert(s@ =~= pf_trade_line(t@));
        sheet::line(&mut out, framed(s.as_str()).as_str());
        i += 1;
        assert(text::texts(out@) =~= middle + pf_trade_lines(ts).take(i as int));
    }
    assert(pf_trade_lines(ts).take(ts.len() as int) =~= pf_trade_lines(ts));
    sheet::line(&mut out, border("└", "┘").as_str());
    assert(text::texts(out@) =~= pf_report_lines(strategy@, *result));
    out
}

/// The lines of an index beside a strategy.
pub open spec fn index_lines<N: Scalar>(b: Benchmark<N>) -> Seq<Seq<char>> {
    seq![
        "基准 "@ + b.code@ + " "@ + b.name@,
        "基准收益："@ + sheet::percent_text(b.total_return) + "   超额收益："@
            + sheet::percent_text(b.excess),
        "Beta："@ + b.beta.rounded(2) + "   年化 Alpha："@ + sheet::percent_text(b.alpha_annual),
    ]
}

pub fn index_report<N: Scalar>(b: &Benchmark<N>) -> (r: Vec<String>)
    ensures
        text::texts(r@) == index_lines(*b),
{
    let mut out = sheet::no_lines();
    let mut s = wire::message("基准 ", b.code.as_str(), " ");
    s.append(b.name.as_str());
    sheet::line(&mut out, s.as_str());
    let mut s = "基准收益：".to_owned();
    sheet::put(&mut s, sheet::percent(b.total_return), "   超额收益：");
    s.append(sheet::percent(b.excess).as_str());
    sheet::line(&mut out, s.as_str());
    let mut s = "Beta：".to_owned();
    sheet::put(&mut s, b.beta.show_rounded(2), "   年化 Alpha：");
    s.append(sheet::percent(b.alpha_annual).as_str());
    sheet::line(&mut out, s.as_str());
    assert(text::texts(out@) =~= index_lines(*b));
    out
}

// ---------------------------------------------------------------------------
// Beside an index
// ---------------------------------------------------------------------------
/// The close of the first bar of a day.
pub open spec fn close_on<N: Scalar>(bars: Seq<KLineView<N>>, day: Seq<char>) -> Option<N>
    decreases bars.len(),
{
    if bars.len() == 0 {
        None
    } else if bars[0].date == day {
        Some(bars[0].close)
    } else {
        close_on(bars.drop_first(), day)
    }
}

/// The equity and the close of an index on those of the first `n` days on which the index
/// has a bar.
pub open spec fn pairs<N: Scalar>(
    days: Seq<Seq<char>>,
    equity: Seq<N>,
    bars: Seq<KLineView<N>>,
    n: int,
) -> (Seq<N>, Seq<N>)
    decreases n,
{
    if n <= 0 {
        (Seq::empty(), Seq::empty())
    } else {
        let before = pairs(days, equity, bars, n - 1);
        match close_on(bars, days[n - 1]) {
            Some(c) => (before.0.push(equity[n - 1]), before.1.push(c)),
            None => before,
        }
    }
}

fn find_close<N: Scalar>(bars: &[KLine<N>], day: &str) -> (r: Option<N>)
    ensures
        r == close_on(models::bars(bars@), day@),
{
    let ghost all = models::bars(bars@);
    let mut i: usize = 0;
    assert(all.skip(0) =~= all);
    while i < bars.len()
        invariant
            all == models::bars(bars@),
            i <= bars@.len(),
            close_on(all, day@) == close_on(all.skip(i as int), day@),
        decreases bars@.len() - i,
    {
        let ghost rest = all.skip(i as int);
        assert(rest[0] == bars@[i as int]@);
        assert(rest.drop_first() =~= all.skip(i + 1));
        if text::same(bars[i].date.as_str(), day) {
            return Some(bars[i].close);
        }
        i += 1;
    }
    None
}

/// The equity and the close of an index on the days on which the index has a bar.
pub fn side_by_side<N: Scalar>(days: &[String], equity: &[N], bars: &[KLine<N>]) -> (r: (
    Vec<N>,
    Vec<N>,
))
    requires
        days@.len() == equity@.len(),
    ensures
        (r.0@, r.1@) == pairs(
            text::texts(days@),
            equity@,
            models::bars(bars@),
            days@.len() as int,
        ),
{
    let ghost ds = text::texts(days@);
    let mut mine: Vec<N> = Vec::new();
    let mut other: Vec<N> = Vec::new();
    let mut i: usize = 0;
    assert(mine@ =~= Seq::empty() && other@ =~= Seq::empty());
    while i < days.len()
        invariant
            ds == text::texts(days@),
            days@.len() == equity@.len(),
            i <= days@.len(),
            (mine@, other@) == pairs(ds, equity@, models::bars(bars@), i as int),
        decreases days@.len() - i,
    {
        assert(ds[i as int] == days@[i as int]@);
        match find_close(bars, days[i].as_str()) {
            Some(c) => {
                mine.push(equity[i]);
                other.push(c);
            },
            None => {},
        }
        i += 1;
    }
    (mine, other)
}

// ---------------------------------------------------------------------------
// Parameters
// ---------------------------------------------------------------------------
/// How many sets of parameters are tried at most.
pub const MAX_COMBOS: u64 = 200;

/// A parameter and the values that are tried.
#[derive(Debug)]
pub struct Axis<N: Scalar> {
    pub name: String,
    pub values: Vec<N>,
}

/// The numbers that texts denote, white space around them passed over; none where one of
/// the texts denotes no number.
pub open spec fn numbers<N: Scalar>(parts: Seq<Seq<char>>) -> Option<Seq<N>>
    decreases parts.len(),
{
    if parts.len() == 0 {
        Some(Seq::empty())
    } else {
        match (numbers::<N>(parts.drop_last()), N::denoted(text::trimmed(parts.last()))) {
            (Some(s), Some(v)) => Some(s.push(v)),
            _ => None,
        }
    }
}

/// The parameter and the values that a text of the form `key=v1,v2` names.
pub open spec fn axis_named<N: Scalar>(s: Seq<char>) -> Option<(Seq<char>, Seq<N>)> {
    match (text::up_to(s, '='), text::behind(s, '=')) {
        (Some(key), Some(rest)) => match numbers::<N>(text::pieces(rest, ',')) {
            Some(vs) => Some((text::trimmed(key), vs)),
            None => None,
        },
        _ => None,
    }
}

/// A parameter and its values, apart from their containers.
pub open spec fn axis_view<N: Scalar>(a: Axis<N>) -> (Seq<char>, Seq<N>) {
    (a.name@, a.values@)
}

fn parse_values<N: Scalar>(parts: &Vec<String>) -> (r: Option<Vec<N>>)
    ensures
        match r {
            Some(v) => numbers::<N>(text::texts(parts@)) == Some(v@),
            None => numbers::<N>(text::texts(parts@)) is None,
        },
{
    let ghost ps = text::texts(parts@);
    let mut out: Vec<N> = Vec::new();
    let mut i: usize = 0;
    assert(ps.take(0) =~= Seq::empty());
    assert(out@ =~= Seq::empty());
    while i < parts.len()
        invariant
            ps == text::texts(parts@),
            i <= parts@.len(),
            numbers::<N>(ps.take(i as int)) == Some(out@),
        decreases parts@.len() - i,
    {
        assert(ps.take(i + 1).drop_last() =~= ps.take(i as int));
        assert(ps.take(i + 1).last() == parts@[i as int]@);
        match N::parse(text::trim(parts[i].as_str()).as_str()) {
            Some(v) => out.push(v),
            None => {
                proof {
                    no_numbers::<N>(ps, i + 1, ps.len() as int);
                    assert(ps.take(ps.len() as int) =~= ps);
                }
                return None;
            },
        }
        i += 1;
    }
    assert(ps.take(ps.len() as int) =~= ps);
    Some(out)
}

proof fn no_numbers<N: Scalar>(ps: Seq<Seq<char>>, i: int, j: int)
    requires
        0 <= i <= j <= ps.len(),
        numbers::<N>(ps.take(i)) is None,
    ensures
        numbers::<N>(ps.take(j)) is None,
    decreases j - i,
{
    if i < j {
        no_numbers::<N>(ps, i, j - 1);
        assert(ps.take(j).drop_last() =~= ps.take(j - 1));
    }
}

/// The parameter and the values that a text of the form `key=v1,v2` names.
pub fn parse_axis<N: Scalar>(s: &str) -> (r: Option<Axis<N>>)
    ensures
        match r {
            Some(a) => axis_named::<N>(s@) == Some(axis_view(a)),
            None => axis_named::<N>(s@) is None,
        },
{
    let key = text::before_char(s, '=');
    let rest = text::after_char(s, '=');
    match (key, rest) {
        (Some(key), Some(rest)) => match parse_values(&text::split(rest.as_str(), ',')) {
            Some(values) => Some(Axis { name: text::trim(key.as_str()), values }),
            None => None,
        },
        _ => None,
    }
}

/// The parameters that texts name.
pub open spec fn axes_named<N: Scalar>(params: Seq<Seq<char>>) -> Seq<(Seq<char>, Seq<N>)> {
    Seq::new(params.len(), |i: int| axis_named::<N>(params[i]).unwrap())
}

/// Parameters and their values, apart from their containers.
pub open spec fn axis_views<N: Scalar>(axes: Seq<Axis<N>>) -> Seq<(Seq<char>, Seq<N>)> {
    Seq::new(axes.len(), |i: int| axis_view(axes[i]))
}

/// The first of the texts that names no parameter.
pub open spec fn first_malformed<N: Scalar>(params: Seq<Seq<char>>) -> Option<Seq<char>>
    decreases params.len(),
{
    if params.len() == 0 {
        None
    } else if axis_named::<N>(params[0]) is None {
        Some(params[0])
    } else {
        first_malformed::<N>(params.drop_first())
    }
}

/// The parameters that texts name; each of them has to name one.
pub fn parse_axes<N: Scalar>(params: &[String]) -> (r: Result<Vec<Axis<N>>, String>)
    ensures
        match r {
            Ok(v) => first_malformed::<N>(text::texts(params@)) is None && axis_views(v@)
                == axes_named::<N>(text::texts(params@)),
            Err(e) => first_malformed::<N>(text::texts(params@)) matches Some(p) && e@
                == "参数格式应为 key=v1,v2,...，实得 "@ + p,
        },
{
    let ghost ps = text::texts(params@);
    let mut out: Vec<Axis<N>> = Vec::new();
    let mut i: usize = 0;
    assert(ps.skip(0) =~= ps);
    assert(axis_views(out@) =~= axes_named::<N>(ps).take(0));
    while i < params.len()
        invariant
            ps == text::texts(params@),
            i <= params@.len(),
            first_malformed::<N>(ps) == first_malformed::<N>(ps.skip(i as int)),
            axis_views(out@) == axes_named::<N>(ps).take(i as int),
        decreases params@.len() - i,
    {
        let ghost rest = ps.skip(i as int);
        assert(rest[0] == params@[i as int]@);
        assert(rest.drop_first() =~= ps.skip(i + 1));
        match parse_axis(params[i].as_str()) {
            Some(a) => {
                let ghost before = out@;
                out.push(a);
                assert(axis_views(out@) =~= axis_views(before).push(axis_view(out@.last())));
                assert(axis_views(out@) =~= axes_named::<N>(ps).take(i + 1));
            },
            None => {
                return Err(
                    wire::both("参数格式应为 key=v1,v2,...，实得 ", params[i].as_str()),
                );
            },
        }
        i += 1;
    }
    assert(axes_named::<N>(ps).take(ps.len() as int) =~= axes_named::<N>(ps));
    Ok(out)
}

// ---------------------------------------------------------------------------
// The grid
// ---------------------------------------------------------------------------
/// A set of values with each of some values behind it.
pub open spec fn extended<N: Scalar>(c: Seq<N>, vs: Seq<N>) -> Seq<Seq<N>> {
    Seq::new(vs.len(), |j: int| c.push(vs[j]))
}

/// The first `m` sets of values, each with each of some values behind it.
pub open spec fn all_extended<N: Scalar>(cs: Seq<Seq<N>>, vs: Seq<N>, m: int) -> Seq<Seq<N>>
    decreases m,
{
    if m <= 0 {
        Seq::empty()
    } else {
        all_extended(cs, vs, m - 1) + extended(cs[m - 1], vs)
    }
}

/// All sets of values of the first `n` parameters, the last of them changing fastest.
pub open spec fn combos<N: Scalar>(axes: Seq<Seq<N>>, n: int) -> Seq<Seq<N>>
    decreases n,
{
    if n <= 0 {
        seq![Seq::empty()]
    } else {
        let cs = combos(axes, n - 1);
        all_extended(cs, axes[n - 1], cs.len() as int)
    }
}

/// The values of parameters.
pub open spec fn axis_values<N: Scalar>(axes: Seq<Axis<N>>) -> Seq<Seq<N>> {
    Seq::new(axes.len(), |i: int| axes[i].values@)
}

/// How many values the first `n` parameters have, multiplied.
pub open spec fn volume<N: Scalar>(axes: Seq<Seq<N>>, n: int) -> nat
    decreases n,
{
    if n <= 0 {
        1
    } else {
        volume(axes, n - 1) * axes[n - 1].len()
    }
}

/// Lists of values, apart from their containers.
pub open spec fn lists<N: Scalar>(v: Seq<Vec<N>>) -> Seq<Seq<N>> {
    Seq::new(v.len(), |i: int| v[i]@)
}

proof fn extended_count<N: Scalar>(cs: Seq<Seq<N>>, vs: Seq<N>, m: int)
    requires
        0 <= m,
    ensures
        all_extended(cs, vs, m).len() == m * vs.len(),
    decreases m,
{
    if m > 0 {
        extended_count(cs, vs, m - 1);
        assert(m * vs.len() == (m - 1) * vs.len() + vs.len()) by (nonlinear_arith);
    } else {
        assert(0 * vs.len() == 0) by (nonlinear_arith);
    }
}

/// There are as many sets of values as the product of the numbers of values says.
pub proof fn grid_has_every_size<N: Scalar>(axes: Seq<Seq<N>>, n: int)
    requires
        0 <= n <= axes.len(),
    ensures
        combos(axes, n).len() == volume(axes, n),
    decreases n,
{
    if n > 0 {
        grid_has_every_size(axes, n - 1);
        extended_count(combos(axes, n - 1), axes[n - 1], combos(axes, n - 1).len() as int);
    }
}

/// One value of each of the first `n` parameters.
pub open spec fn chosen<N: Scalar>(axes: Seq<Seq<N>>, n: int, c: Seq<N>) -> bool {
    c.len() == n && forall|i: int| 0 <= i < n ==> (#[trigger] axes[i]).contains(c[i])
}

proof fn extended_contains<N: Scalar>(cs: Seq<Seq<N>>, vs: Seq<N>, m: int, k: int, j: int)
    requires
        0 <= k < m <= cs.len(),
        0 <= j < vs.len(),
    ensures
        all_extended(cs, vs, m).contains(cs[k].push(vs[j])),
    decreases m,
{
    let x = cs[k].push(vs[j]);
    let a = all_extended(cs, vs, m - 1);
    let b = extended(cs[m - 1], vs);
    if k == m - 1 {
        assert(b[j] == x);
        assert((a + b)[a.len() + j] == x);
    } else {
        extended_contains(cs, vs, m - 1, k, j);
        let p = choose|p: int| 0 <= p < a.len() && a[p] == x;
        assert((a + b)[p] == x);
    }
}

/// Whatever value is chosen of each parameter, the choice is among the sets that are tried.
pub proof fn grid_is_complete<N: Scalar>(axes: Seq<Seq<N>>, n: int, c: Seq<N>)
    requires
        0 <= n <= axes.len(),
        chosen(axes, n, c),
    ensures
        combos(axes, n).contains(c),
    decreases n,
{
    if n == 0 {
        assert(c =~= Seq::empty());
        assert(combos(axes, 0)[0] == c);
    } else {
        let d = c.drop_last();
        assert forall|i: int| 0 <= i < n - 1 implies (#[trigger] axes[i]).contains(d[i]) by {
            assert(d[i] == c[i]);
        }
        grid_is_complete(axes, n - 1, d);
        let cs = combos(axes, n - 1);
        let k = choose|k: int| 0 <= k < cs.len() && cs[k] == d;
        assert(axes[n - 1].contains(c[n - 1]));
        let vs = axes[n - 1];
        let j = choose|j: int| 0 <= j < vs.len() && vs[j] == c[n - 1];
        extended_contains(cs, vs, cs.len() as int, k, j);
        assert(d.push(c[n - 1]) =~= c);
    }
}

/// How many sets of values there are, counted up to one more than are tried.
fn count_combos<N: Scalar>(axes: &Vec<Axis<N>>) -> (r: u64)
    ensures
        r == (if volume(axis_values(axes@), axes@.len() as int) > MAX_COMBOS {
            MAX_COMBOS + 1
        } else {
            volume(axis_values(axes@), axes@.len() as int) as int
        }),
{
    let ghost vs = axis_values(axes@);
    let mut count: u64 = 1;
    let mut i: usize = 0;
    while i < axes.len()
        invariant
            vs == axis_values(axes@),
            i <= axes@.len(),
            count == (if volume(vs, i as int) > MAX_COMBOS {
                MAX_COMBOS + 1
            } else {
                volume(vs, i as int) as int
            }),
        decreases axes@.len() - i,
    {
        let k = axes[i].values.len();
        let ghost v = volume(vs, i as int);
        assert(vs[i as int].len() == k);
        assert(count <= 201 ==> count * k <= 201 * k) by (nonlinear_arith);
        let product: u128 = count as u128 * k as u128;
        proof {
            assert(v > MAX_COMBOS && k >= 1 ==> v * k >= v) by (nonlinear_arith);
            assert(v > MAX_COMBOS && k >= 1 ==> 201 * k >= 201) by (nonlinear_arith);
            assert(k == 0 ==> v * k == 0 && count * k == 0) by (nonlinear_arith);
        }
        count = if product > MAX_COMBOS as u128 {
            MAX_COMBOS + 1
        } else {
            product as u64
        };
        i += 1;
    }
    count
}

fn copied<N: Scalar>(v: &Vec<N>) -> (r: Vec<N>)
    ensures
        r@ == v@,
{
    let mut out: Vec<N> = Vec::new();
    let mut i: usize = 0;
    while i < v.len()
        invariant
            i <= v@.len(),
            out@ == v@.take(i as int),
        decreases v@.len() - i,
    {
        out.push(v[i]);
        i += 1;
        assert(out@ =~= v@.take(i as int));
    }
    assert(v@.take(v@.len() as int) =~= v@);
    out
}

fn extend<N: Scalar>(cs: &Vec<Vec<N>>, vs: &Vec<N>) -> (r: Vec<Vec<N>>)
    ensures
        lists(r@) == all_extended(lists(cs@), vs@, cs@.len() as int),
{
    let ghost all = lists(cs@);
    let mut out: Vec<Vec<N>> = Vec::new();
    let mut k: usize = 0;
    assert(lists(out@) =~= Seq::empty());
    while k < cs.len()
        invariant
            all == lists(cs@),
            k <= cs@.len(),
            lists(out@) == all_extended(all, vs@, k as int),
        decreases cs@.len() - k,
    {
        let ghost had = lists(out@);
        let mut j: usize = 0;
        assert(lists(out@) =~= had + extended(all[k as int], vs@).take(0));
        while j < vs.len()
            invariant
                all == lists(cs@),
                k < cs@.len(),
                j <= vs@.len(),
                lists(out@) == had + extended(all[k as int], vs@).take(j as int),
            decreases vs@.len() - j,
        {
            let ghost before = lists(out@);
            let mut c = copied(&cs[k]);
            c.push(vs[j]);
            assert(c@ == extended(all[k as int], vs@)[j as int]);
            out.push(c);
            j += 1;
            assert(lists(out@) =~= before.push(out@.last()@));
            assert(lists(out@) =~= had + extended(all[k as int], vs@).take(j as int));
        }
        assert(extended(all[k as int], vs@).take(vs@.len() as int) =~= extended(
            all[k as int],
            vs@,
        ));
        k += 1;
    }
    out
}

/// All sets of values of some parameters; none where there are more than are tried.
pub fn grid<N: Scalar>(axes: &Vec<Axis<N>>) -> (r: Option<Vec<Vec<N>>>)
    ensures
        match r {
            Some(v) => combos(axis_values(axes@), axes@.len() as int).len() <= MAX_COMBOS && lists(
                v@,
            ) == combos(axis_values(axes@), axes@.len() as int),
            None => combos(axis_values(axes@), axes@.len() as int).len() > MAX_COMBOS,
        },
{
    let ghost vs = axis_values(axes@);
    proof {
        grid_has_every_size(vs, vs.len() as int);
    }
    if count_combos(axes) > MAX_COMBOS {
        return None;
    }
    let mut out: Vec<Vec<N>> = Vec::new();
    let none: Vec<N> = Vec::new();
    out.push(none);
    assert(none@ =~= Seq::empty());
    assert(lists(out@) =~= combos(vs, 0));
    let mut i: usize = 0;
    while i < axes.len()
        invariant
            vs == axis_values(axes@),
            i <= axes@.len(),
            lists(out@) == combos(vs, i as int),
        decreases axes@.len() - i,
    {
        assert(vs[i as int] == axes@[i as int].values@);
        out = extend(&out, &axes[i].values);
        i += 1;
    }
    Some(out)
}

/// The values of the first `n` parameters by name.
pub open spec fn assigned<N: Scalar>(
    axes: Seq<(Seq<char>, Seq<N>)>,
    c: Seq<N>,
    n: int,
) -> Map<Seq<char>, N>
    decreases n,
{
    if n <= 0 {
        Map::empty()
    } else {
        assigned(axes, c, n - 1).insert(axes[n - 1].0, c[n - 1])
    }
}

/// A set of values by the names of their parameters.
pub fn param_table<N: Scalar>(axes: &Vec<Axis<N>>, c: &Vec<N>) -> (r: Table<N>)
    requires
        c@.len() == axes@.len(),
    ensures
        r@ == assigned(axis_views(axes@), c@, axes@.len() as int),
{
    let ghost views = axis_views(axes@);
    let mut out: Table<N> = Table::new();
    let mut i: usize = 0;
    while i < axes.len()
        invariant
            views == axis_views(axes@),
            c@.len() == axes@.len(),
            i <= axes@.len(),
            out@ == assigned(views, c@, i as int),
        decreases axes@.len() - i,
    {
        out.set(axes[i].name.clone(), c[i]);
        i += 1;
    }
    out
}

// ---------------------------------------------------------------------------
// The best of many
// ---------------------------------------------------------------------------
/// By what the results of back tests are put in order.
#[derive(Debug, Clone, Copy, PartialEq, Eq, Structural)]
pub enum Objective {
    Return,
    Annual,
    Sharpe,
    Drawdown,
}

/// What an input means; the return where there is none.
pub open spec fn objective_named(s: Option<Seq<char>>) -> Option<Objective> {
    match s {
        Some(w) => if w == "return"@ {
            Some(Objective::Return)
        } else if w == "annual"@ {
            Some(Objective::Annual)
        } else if w == "sharpe"@ {
            Some(Objective::Sharpe)
        } else if w == "drawdown"@ {
            Some(Objective::Drawdown)
        } else {
            None
        },
        None => Some(Objective::Return),
    }
}

impl Objective {
    pub fn parse(s: Option<&str>) -> (r: Option<Objective>)
        ensures
            r == objective_named(
                match s {
                    Some(w) => Some(w@),
                    None => None,
                },
            ),
    {
        match s {
            Some(w) => {
                if text::same(w, "return") {
                    Some(Objective::Return)
                } else if text::same(w, "annual") {
                    Some(Objective::Annual)
                } else if text::same(w, "sharpe") {
                    Some(Objective::Sharpe)
                } else if text::same(w, "drawdown") {
                    Some(Objective::Drawdown)
                } else {
                    None
                }
            },
            None => Some(Objective::Return),
        }
    }
}

/// How good a result is. A drawdown is zero or below, so a deeper one is worse.
pub open spec fn score<N: Scalar>(m: Metrics<N>, by: Objective) -> N {
    match by {
        Objective::Return => m.total_return,
        Objective::Annual => m.annual_return,
        Objective::Sharpe => m.sharpe,
        Objective::Drawdown => m.max_drawdown,
    }
}

/// Results with their places, in their own order.
pub open spec fn scored<N: Scalar>(ms: Seq<Metrics<N>>, by: Objective) -> Seq<EntryView> {
    Seq::new(
        ms.len(),
        |i: int| EntryView { key: score(ms[i], by).rank(), name: Seq::empty(), tag: i as usize },
    )
}

/// The places of entries.
pub open spec fn places(s: Seq<EntryView>) -> Seq<usize> {
    Seq::new(s.len(), |i: int| s[i].tag)
}

/// No result is worse than one that comes after it.
pub open spec fn best_come_first<N: Scalar>(
    ms: Seq<Metrics<N>>,
    by: Objective,
    places: Seq<usize>,
) -> bool {
    forall|i: int, j: int|
        0 <= i < j < places.len() ==> !score(ms[(#[trigger] places[i]) as int], by).below(
            score(ms[(#[trigger] places[j]) as int], by),
        )
}

/// The places of results, the best first; of equal ones the earlier first.
pub fn best_first<N: Scalar>(ms: &Vec<Metrics<N>>, by: Objective) -> (r: Vec<usize>)
    ensures
        exists|list: Seq<EntryView>|
            order::ordered(scored(ms@, by), list) && r@ == #[trigger] places(list),
        best_come_first(ms@, by, r@),
{
    let mut entries: Vec<Entry> = Vec::new();
    let mut i: usize = 0;
    assert(order::entry_views(entries@) =~= scored(ms@, by).take(0));
    while i < ms.len()
        invariant
            i <= ms@.len(),
            order::entry_views(entries@) == scored(ms@, by).take(i as int),
            forall|k: int| 0 <= k < i ==> num::ranked(score(#[trigger] ms@[k], by)),
        decreases ms@.len() - i,
    {
        let ghost before = order::entry_views(entries@);
        let m = &ms[i];
        let value = match by {
            Objective::Return => m.total_return,
            Objective::Annual => m.annual_return,
            Objective::Sharpe => m.sharpe,
            Objective::Drawdown => m.max_drawdown,
        };
        let name = String::new();
        assert(name@ =~= Seq::<char>::empty());
        entries.push(Entry { key: value.order_key(), name, tag: i });
        i += 1;
        assert(order::entry_views(entries@) =~= before.push(entries@.last()@));
        assert(order::entry_views(entries@) =~= scored(ms@, by).take(i as int));
    }
    assert(scored(ms@, by).take(ms@.len() as int) =~= scored(ms@, by));
    let sorted = order::sort(entries);
    let ghost list = order::entry_views(sorted@);
    proof {
        let all = scored(ms@, by);
        let ps = places(list);
        assert forall|i: int, j: int| 0 <= i < j < ps.len() implies !score(
            ms@[(#[trigger] ps[i]) as int],
            by,
        ).below(score(ms@[(#[trigger] ps[j]) as int], by)) by {
            order::ordered_keeps(all, list, i);
            order::ordered_keeps(all, list, j);
            let x = choose|x: int| 0 <= x < all.len() && all[x] == list[i];
            let y = choose|y: int| 0 <= y < all.len() && all[y] == list[j];
            assert(num::ranked(score(ms@[x], by)));
            assert(!order::ahead(list[j], list[i]));
        }
    }
    let mut out: Vec<usize> = Vec::new();
    let mut k: usize = 0;
    while k < sorted.len()
        invariant
            list == order::entry_views(sorted@),
            k <= sorted@.len(),
            out@ == places(list).take(k as int),
        decreases sorted@.len() - k,
    {
        out.push(sorted[k].tag);
        k += 1;
        assert(out@ =~= places(list).take(k as int));
    }
    assert(out@ =~= places(list));
    out
}

/// The cells of one set of parameters: a star where it is the best, the parameters and the
/// figures.
pub open spec fn sweep_cells<N: Scalar>(best: bool, values: Seq<N>, m: Metrics<N>) -> Seq<
    Seq<char>,
> {
    seq![
        if best {
            "★"@
        } else {
            Seq::empty()
        },
    ] + Seq::new(values.len(), |i: int| values[i].written()) + seq![
        sheet::percent_text(m.total_return),
        sheet::percent_text(m.annual_return),
        m.max_drawdown.product(N::whole(100)).rounded(2) + "%"@,
        m.sharpe.rounded(2),
        m.win_rate.product(N::whole(100)).rounded(1) + "%"@,
    ]
}

/// The table of sets of parameters, in a given order. The first is the best.
pub open spec fn sweep_table<N: Scalar>(
    names: Seq<Seq<char>>,
    sets: Seq<Seq<N>>,
    ms: Seq<Metrics<N>>,
    places: Seq<usize>,
) -> SheetView {
    SheetView {
        header: seq![Seq::empty()] + names + seq!["收益"@, "年化"@, "回撤"@, "夏普"@, "胜率"@],
        rows: Seq::new(
            places.len(),
            |i: int| sweep_cells(i == 0, sets[places[i] as int], ms[places[i] as int]),
        ),
    }
}

/// The names of parameters.
pub open spec fn axis_names<N: Scalar>(axes: Seq<Axis<N>>) -> Seq<Seq<char>> {
    Seq::new(axes.len(), |i: int| axes[i].name@)
}

/// The table of sets of parameters by one of their figures, the best first and with a star.
pub fn sweep_report<N: Scalar>(
    axes: &Vec<Axis<N>>,
    sets: &Vec<Vec<N>>,
    ms: &Vec<Metrics<N>>,
    by: Objective,
) -> (r: Sheet)
    requires
        sets@.len() == ms@.len(),
    ensures
        exists|list: Seq<EntryView>|
            order::ordered(scored(ms@, by), list) && r@ == sweep_table(
                axis_names(axes@),
                lists(sets@),
                ms@,
                #[trigger] places(list),
            ),
{
    let order = best_first(ms, by);
    let ghost list = choose|list: Seq<EntryView>|
        order::ordered(scored(ms@, by), list) && order@ == #[trigger] places(list);
    let ghost names = axis_names(axes@);
    let ghost goal = sweep_table(names, lists(sets@), ms@, order@);
    proof {
        broadcast use vstd::seq_lib::group_to_multiset_ensures;

        assert forall|k: int| 0 <= k < order@.len() implies #[trigger] order@[k] < ms@.len() by {
            assert(list.contains(list[k]));
            assert(list.to_multiset().count(list[k]) > 0);
            assert(scored(ms@, by).contains(list[k]));
        }
    }
    let mut header = sheet::no_lines();
    proof {
        reveal_strlit("");
        assert(""@ =~= Seq::<char>::empty());
    }
    sheet::line(&mut header, "");
    let mut i: usize = 0;
    assert(text::texts(header@) =~= seq![Seq::<char>::empty()] + names.take(0));
    while i < axes.len()
        invariant
            names == axis_names(axes@),
            i <= axes@.len(),
            text::texts(header@) == seq![Seq::<char>::empty()] + names.take(i as int),
        decreases axes@.len() - i,
    {
        sheet::line(&mut header, axes[i].name.as_str());
        i += 1;
        assert(text::texts(header@) =~= seq![Seq::<char>::empty()] + names.take(i as int));
    }
    sheet::line(&mut header, "收益");
    sheet::line(&mut header, "年化");
    sheet::line(&mut header, "回撤");
    sheet::line(&mut header, "夏普");
    sheet::line(&mut header, "胜率");
    assert(text::texts(header@) =~= goal.header);
    let mut rows = sheet::no_rows();
    let mut k: usize = 0;
    assert(goal.rows.take(0) =~= Seq::<Seq<Seq<char>>>::empty());
    while k < order.len()
        invariant
            sets@.len() == ms@.len(),
            goal == sweep_table(names, lists(sets@), ms@, order@),
            forall|k: int| 0 <= k < order@.len() ==> #[trigger] order@[k] < ms@.len(),
            k <= order@.len(),
            sheet::cells(rows@) == goal.rows.take(k as int),
        decreases order@.len() - k,
    {
        let at = order[k];
        let m = &ms[at];
        let values = &sets[at];
        let ghost written = Seq::new(values@.len(), |i: int| values@[i].written());
        let mut cells = sheet::no_lines();
        sheet::line(
            &mut cells,
            if k == 0 {
                "★"
            } else {
                ""
            },
        );
        let ghost star = text::texts(cells@);
        let mut i: usize = 0;
        assert(star + written.take(0) =~= star);
        while i < values.len()
            invariant
                written == Seq::new(values@.len(), |i: int| values@[i].written()),
                i <= values@.len(),
                text::texts(cells@) == star + written.take(i as int),
            decreases values@.len() - i,
        {
            sheet::line(&mut cells, values[i].show().as_str());
            i += 1;
            assert(text::texts(cells@) =~= star + written.take(i as int));
        }
        assert(written.take(written.len() as int) =~= written);
        sheet::line(&mut cells, sheet::percent(m.total_return).as_str());
        sheet::line(&mut cells, sheet::percent(m.annual_return).as_str());
        let mut s = m.max_drawdown.times(N::from_int(100)).show_rounded(2);
        s.append("%");
        sheet::line(&mut cells, s.as_str());
        sheet::line(&mut cells, m.sharpe.show_rounded(2).as_str());
        let mut s = m.win_rate.times(N::from_int(100)).show_rounded(1);
        s.append("%");
        sheet::line(&mut cells, s.as_str());
        proof {
            reveal_strlit("");
            assert(""@ =~= Seq::<char>::empty());
            assert(lists(sets@)[at as int] == values@);
        }
        assert(text::texts(cells@) =~= sweep_cells(k == 0, values@, *m));
        sheet::row(&mut rows, cells);
        k += 1;
        assert(sheet::cells(rows@) =~= goal.rows.take(k as int));
    }
    assert(goal.rows.take(goal.rows.len() as int) =~= goal.rows);
    Sheet { header, rows }
}

// ---------------------------------------------------------------------------
// Days that both have
// ---------------------------------------------------------------------------
/// The close on a day is that of the first bar of the day; there is none where no bar is of
/// the day.
pub proof fn close_is_of_the_day<N: Scalar>(bars: Seq<KLineView<N>>, day: Seq<char>)
    ensures
        match close_on(bars, day) {
            Some(c) => exists|j: int|
                0 <= j < bars.len() && (#[trigger] bars[j]).date == day && bars[j].close == c
                    && forall|k: int| 0 <= k < j ==> (#[trigger] bars[k]).date != day,
            None => forall|j: int| 0 <= j < bars.len() ==> (#[trigger] bars[j]).date != day,
        },
    decreases bars.len(),
{
    if bars.len() > 0 {
        if bars[0].date == day {
            assert(bars[0].close == close_on(bars, day).unwrap());
        } else {
            let rest = bars.drop_first();
            close_is_of_the_day(rest, day);
            assert(forall|j: int| 0 <= j < rest.len() ==> #[trigger] rest[j] == bars[j + 1]);
            match close_on(rest, day) {
                Some(c) => {
                    let j = choose|j: int|
                        0 <= j < rest.len() && (#[trigger] rest[j]).date == day && rest[j].close
                            == c && forall|k: int|
                            0 <= k < j ==> (#[trigger] rest[k]).date != day;
                    assert(bars[j + 1].date == day);
                    assert forall|k: int| 0 <= k < j + 1 implies (#[trigger] bars[k]).date
                        != day by {
                        if k > 0 {
                            assert(rest[k - 1] == bars[k]);
                        }
                    }
                },
                None => {
                    assert forall|j: int| 0 <= j < bars.len() implies (#[trigger] bars[j]).date
                        != day by {
                        if j > 0 {
                            assert(rest[j - 1] == bars[j]);
                        }
                    }
                },
            }
        }
    }
}

/// Side by side stand the equity and the close of the index on the same day: of each day
/// that the index has a bar on, in order, and of no other.
pub proof fn pairs_are_of_one_day<N: Scalar>(
    days: Seq<Seq<char>>,
    equity: Seq<N>,
    bars: Seq<KLineView<N>>,
    n: int,
) -> (at: Seq<int>)
    requires
        0 <= n <= days.len(),
        n <= equity.len(),
    ensures
        pairs(days, equity, bars, n).0.len() == at.len(),
        pairs(days, equity, bars, n).1.len() == at.len(),
        forall|k: int| 0 <= k < at.len() ==> 0 <= #[trigger] at[k] < n,
        forall|j: int, k: int| 0 <= j < k < at.len() ==> #[trigger] at[j] < #[trigger] at[k],
        forall|k: int|
            0 <= k < at.len() ==> pairs(days, equity, bars, n).0[k] == equity[#[trigger] at[k]]
                && close_on(bars, days[at[k]]) == Some(pairs(days, equity, bars, n).1[k]),
        forall|i: int|
            0 <= i < n && close_on(bars, #[trigger] days[i]) is Some ==> at.contains(i),
    decreases n,
{
    if n <= 0 {
        Seq::empty()
    } else {
        let before = pairs_are_of_one_day(days, equity, bars, n - 1);
        match close_on(bars, days[n - 1]) {
            Some(c) => {
                let at = before.push(n - 1);
                assert forall|i: int|
                    0 <= i < n && close_on(bars, #[trigger] days[i]) is Some implies at.contains(
                    i,
                ) by {
                    if i < n - 1 {
                        let k = choose|k: int| 0 <= k < before.len() && before[k] == i;
                        assert(at[k] == i);
                    } else {
                        assert(at[before.len() as int] == i);
                    }
                }
                at
            },
            None => before,
        }
    }
}

/// Results are compared by the figure that is named: by the whole return, the yearly one,
/// the Sharpe ratio or the deepest fall, of which the one nearer to zero is the better.
pub proof fn objective_is_its_figure(a: Metrics<Fixed>, b: Metrics<Fixed>)
    requires
        a.total_return.below(b.total_return),
        b.annual_return.below(a.annual_return),
        a.sharpe.below(b.sharpe),
        b.max_drawdown.below(a.max_drawdown),
    ensures
        score(a, Objective::Return).below(score(b, Objective::Return)),
        score(b, Objective::Annual).below(score(a, Objective::Annual)),
        score(a, Objective::Sharpe).below(score(b, Objective::Sharpe)),
        score(b, Objective::Drawdown).below(score(a, Objective::Drawdown)),
        score(a, Objective::Return).units == a.total_return.units,
        score(a, Objective::Annual).units == a.annual_return.units,
        score(a, Objective::Sharpe).units == a.sharpe.units,
        score(a, Objective::Drawdown).units == a.max_drawdown.units,
{
}

/// Each parameter gets the value at its own place, where no two have one name, and nothing
/// else gets any.
pub proof fn values_go_by_place<N: Scalar>(
    axes: Seq<(Seq<char>, Seq<N>)>,
    c: Seq<N>,
    n: int,
)
    requires
        0 <= n <= axes.len(),
        n <= c.len(),
        forall|i: int, j: int|
            0 <= i < j < axes.len() ==> (#[trigger] axes[i]).0 != (#[trigger] axes[j]).0,
    ensures
        forall|i: int|
            0 <= i < n ==> assigned(axes, c, n).contains_key((#[trigger] axes[i]).0) && assigned(
                axes,
                c,
                n,
            )[axes[i].0] == c[i],
        forall|name: Seq<char>| #[trigger]
            assigned(axes, c, n).contains_key(name) ==> exists|i: int|
                0 <= i < n && (#[trigger] axes[i]).0 == name,
    decreases n,
{
    if n > 0 {
        values_go_by_place(axes, c, n - 1);
        let before = assigned(axes, c, n - 1);
        assert forall|name: Seq<char>| #[trigger]
            assigned(axes, c, n).contains_key(name) implies exists|i: int|
            0 <= i < n && (#[trigger] axes[i]).0 == name by {
            if before.contains_key(name) {
                let i = choose|i: int| 0 <= i < n - 1 && (#[trigger] axes[i]).0 == name;
                assert(axes[i].0 == name);
            } else {
                assert(axes[n - 1].0 == name);
            }
        }
    }
}

} // verus!
