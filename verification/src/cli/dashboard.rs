//! What is said of the account: the dashboard, the cleared codes, the trades.
use super::portfolio;
use super::portfolio::{
    closed_part, closed_total, mode_pnl, sale_pct, whole_gain, CostMode, DashRow, DashRowView,
    DashTotals,
};
use super::sheet;
use super::sheet::{Sheet, SheetView};
use crate::data::models;
use crate::data::models::{Trade, TradeView};
use crate::data::store;
use crate::data::store::{ClosedPosition, ClosedView, SellOutcome};
use crate::num;
use crate::num::Scalar;
use crate::text;
use vstd::prelude::*;

verus! {

// ---------------------------------------------------------------------------
// What is held
// ---------------------------------------------------------------------------
/// The header of the dashboard. The gains of sales have columns only where they are shown.
pub open spec fn header_of(mode: CostMode, realized: bool) -> Seq<Seq<char>> {
    let first = seq!["代码"@, "数量"@, "现价"@, "今日%"@, "今日盈亏"@, "市值"@];
    let second = if mode == CostMode::Diluted {
        seq!["总盈亏"@, "总%"@]
    } else {
        seq!["浮动盈亏"@, "浮动%"@]
    };
    let third = if realized {
        seq!["已实现"@, "总盈亏"@]
    } else {
        Seq::empty()
    };
    first + second + third
}

fn header(mode: CostMode, realized: bool) -> (r: Vec<String>)
    ensures
        text::texts(r@) == header_of(mode, realized),
{
    let mut out = sheet::no_lines();
    sheet::line(&mut out, "代码");
    sheet::line(&mut out, "数量");
    sheet::line(&mut out, "现价");
    sheet::line(&mut out, "今日%");
    sheet::line(&mut out, "今日盈亏");
    sheet::line(&mut out, "市值");
    match mode {
        CostMode::Diluted => {
            sheet::line(&mut out, "总盈亏");
            sheet::line(&mut out, "总%");
        },
        CostMode::Buy => {
            sheet::line(&mut out, "浮动盈亏");
            sheet::line(&mut out, "浮动%");
        },
    }
    if realized {
        sheet::line(&mut out, "已实现");
        sheet::line(&mut out, "总盈亏");
    }
    assert(text::texts(out@) =~= header_of(mode, realized));
    out
}

/// Today's gain in the dashboard. A star marks shares that were bought today: their gain is
/// counted from the purchase, not from the last close.
pub open spec fn today_cell<N: Scalar>(r: DashRowView<N>) -> Seq<char> {
    match r.today_pnl {
        Some(v) => sheet::amount_text(v) + (if r.new_lot {
            "*"@
        } else {
            Seq::empty()
        }),
        None => "--"@,
    }
}

/// The cells of one code.
pub open spec fn cells_of<N: Scalar>(r: DashRowView<N>, mode: CostMode, realized: bool) -> Seq<
    Seq<char>,
> {
    let gain = portfolio::gain_in_mode(mode, r.cost, r.value, r.realized);
    let first = seq![
        r.code,
        text::decimal_int(r.qty),
        r.cur.rounded(3),
        sheet::percent_cell(r.change_pct),
        today_cell(r),
        sheet::amount_text(r.value),
        sheet::amount_text(gain.0),
        sheet::percent_cell(gain.1),
    ];
    let second = if realized {
        seq![
            sheet::amount_text(r.realized),
            sheet::amount_text(r.value.difference(r.cost).sum(r.realized)),
        ]
    } else {
        Seq::empty()
    };
    first + second
}

fn dash_cells<N: Scalar>(r: &DashRow<N>, mode: CostMode, realized: bool) -> (c: Vec<String>)
    ensures
        text::texts(c@) == cells_of(r@, mode, realized),
{
    let (gain, part) = mode_pnl(mode, r.cost, r.value, r.realized);
    let mut out = sheet::no_lines();
    sheet::line(&mut out, r.code.as_str());
    sheet::line(&mut out, text::show_wide(r.qty).as_str());
    sheet::line(&mut out, r.cur.show_rounded(3).as_str());
    sheet::line(&mut out, sheet::percent_or_dashes(r.change_pct).as_str());
    let today = match r.today_pnl {
        Some(v) => {
            let mut t = sheet::amount(v);
            if r.new_lot {
                t.append("*");
            }
            assert(t@ =~= today_cell(r@));
            t
        },
        None => "--".to_owned(),
    };
    sheet::line(&mut out, today.as_str());
    sheet::line(&mut out, sheet::amount(r.value).as_str());
    sheet::line(&mut out, sheet::amount(gain).as_str());
    sheet::line(&mut out, sheet::percent_or_dashes(part).as_str());
    if realized {
        sheet::line(&mut out, sheet::amount(r.realized).as_str());
        sheet::line(&mut out, sheet::amount(whole_gain(r)).as_str());
    }
    assert(text::texts(out@) =~= cells_of(r@, mode, realized));
    out
}

/// The table of the dashboard.
pub open spec fn table_of<N: Scalar>(
    rows: Seq<DashRowView<N>>,
    mode: CostMode,
    realized: bool,
) -> SheetView {
    SheetView {
        header: header_of(mode, realized),
        rows: Seq::new(rows.len(), |i: int| cells_of(rows[i], mode, realized)),
    }
}

/// The table of the dashboard: one row for each code.
pub fn dashboard_table<N: Scalar>(rows: &[DashRow<N>], mode: CostMode, realized: bool) -> (r: Sheet)
    ensures
        r@ == table_of(portfolio::row_views(rows@), mode, realized),
{
    let ghost rs = portfolio::row_views(rows@);
    let ghost goal = table_of(rs, mode, realized).rows;
    let mut out = sheet::no_rows();
    let mut i: usize = 0;
    assert(goal.take(0) =~= Seq::<Seq<Seq<char>>>::empty());
    while i < rows.len()
        invariant
            rs == portfolio::row_views(rows@),
            goal == table_of(rs, mode, realized).rows,
            i <= rows@.len(),
            sheet::cells(out@) == goal.take(i as int),
        decreases rows@.len() - i,
    {
        assert(rs[i as int] == rows@[i as int]@);
        sheet::row(&mut out, dash_cells(&rows[i], mode, realized));
        i += 1;
        assert(sheet::cells(out@) =~= goal.take(i as int));
    }
    assert(goal.take(goal.len() as int) =~= goal);
    Sheet { header: header(mode, realized), rows: out }
}

/// The line of today's gain and of what is not realised.
pub open spec fn today_line<N: Scalar>(t: DashTotals<N>) -> Seq<char> {
    "今日盈亏 ¥"@ + sheet::amount_text(t.today_pnl) + " ("@ + sheet::percent_text(t.today_pct)
        + ")   累计浮动 ¥"@ + sheet::amount_text(t.total_pnl) + " ("@ + sheet::percent_text(
        t.total_pct,
    ) + ")"@
}

/// The line of the whole account: what sales gained, where they gained anything; the worth
/// of what is held; and the cash, where it is noted.
pub open spec fn account_line<N: Scalar>(t: DashTotals<N>, realized: N, cash: Option<N>) -> Seq<
    char,
> {
    let first = if num::zeroed(realized) {
        Seq::empty()
    } else {
        "已实现 ¥"@ + sheet::amount_text(realized) + "   总盈亏 ¥"@ + sheet::amount_text(
            t.total_pnl.sum(realized),
        ) + "   "@
    };
    let last = match cash {
        Some(c) => "   现金 ¥"@ + sheet::amount_text(c) + "   总资产 ¥"@ + sheet::amount_text(
            t.total_value.sum(c),
        ),
        None => Seq::empty(),
    };
    first + "总市值 ¥"@ + sheet::amount_text(t.total_value) + last
}

/// The lines below the dashboard.
pub open spec fn footing<N: Scalar>(
    mode: CostMode,
    t: DashTotals<N>,
    realized: N,
    cash: Option<N>,
) -> Seq<Seq<char>> {
    let star = if t.has_new_lot {
        seq!["* 今日建仓,今日盈亏自买入价起算(非昨收)"@]
    } else {
        Seq::empty()
    };
    let diluted = if mode == CostMode::Diluted {
        seq!["摊薄口径:已实现盈亏已折入成本(对齐东财),成本≤0 时收益率显示 --"@]
    } else {
        Seq::empty()
    };
    star + diluted + seq![
        text::repeated('─', 52),
        today_line(t),
        account_line(t, realized, cash),
    ]
}

/// The lines below the dashboard. The sums do not depend on how cost is counted: they give
/// the plain gains of what is held, and the gains of all sales, those of cleared codes too.
pub fn dashboard_lines<N: Scalar>(
    mode: CostMode,
    totals: &DashTotals<N>,
    realized: N,
    cash: Option<N>,
) -> (r: Vec<String>)
    ensures
        text::texts(r@) == footing(mode, *totals, realized, cash),
{
    let mut out = sheet::no_lines();
    if totals.has_new_lot {
        sheet::line(&mut out, "* 今日建仓,今日盈亏自买入价起算(非昨收)");
    }
    match mode {
        CostMode::Diluted => {
            sheet::line(
                &mut out,
                "摊薄口径:已实现盈亏已折入成本(对齐东财),成本≤0 时收益率显示 --",
            );
        },
        CostMode::Buy => {},
    }
    sheet::line(&mut out, text::repeat('─', 52).as_str());
    let mut first = String::new();
    first.append("今日盈亏 ¥");
    sheet::put(&mut first, sheet::amount(totals.today_pnl), " (");
    sheet::put(&mut first, sheet::percent(totals.today_pct), ")   累计浮动 ¥");
    sheet::put(&mut first, sheet::amount(totals.total_pnl), " (");
    sheet::put(&mut first, sheet::percent(totals.total_pct), ")");
    assert(first@ =~= today_line(*totals));
    sheet::line(&mut out, first.as_str());
    let mut second = String::new();
    if !num::is_zero(realized) {
        second.append("已实现 ¥");
        sheet::put(&mut second, sheet::amount(realized), "   总盈亏 ¥");
        sheet::put(&mut second, sheet::amount(totals.total_pnl.plus(realized)), "   ");
    }
    second.append("总市值 ¥");
    second.append(sheet::amount(totals.total_value).as_str());
    match cash {
        Some(c) => {
            second.append("   现金 ¥");
            sheet::put(&mut second, sheet::amount(c), "   总资产 ¥");
            second.append(sheet::amount(totals.total_value.plus(c)).as_str());
        },
        None => {},
    }
    assert(second@ =~= account_line(*totals, realized, cash));
    sheet::line(&mut out, second.as_str());
    assert(text::texts(out@) =~= footing(mode, *totals, realized, cash));
    out
}

/// What is said where nothing is held.
pub open spec fn nothing_held<N: Scalar>(cash: Option<N>) -> Seq<Seq<char>> {
    match cash {
        Some(c) => seq![
            "当前无持仓"@,
            "现金 ¥"@ + sheet::amount_text(c) + "  总资产 ¥"@ + sheet::amount_text(c),
        ],
        None => seq!["当前无持仓"@],
    }
}

pub fn no_holdings<N: Scalar>(cash: Option<N>) -> (r: Vec<String>)
    ensures
        text::texts(r@) == nothing_held(cash),
{
    let mut out = sheet::no_lines();
    sheet::line(&mut out, "当前无持仓");
    match cash {
        Some(c) => {
            let mut s = "现金 ¥".to_owned();
            sheet::put(&mut s, sheet::amount(c), "  总资产 ¥");
            s.append(sheet::amount(c).as_str());
            sheet::line(&mut out, s.as_str());
        },
        None => {},
    }
    assert(text::texts(out@) =~= nothing_held(cash));
    out
}

// ---------------------------------------------------------------------------
// What was cleared
// ---------------------------------------------------------------------------
/// What is said of the codes that were cleared.
pub struct ClosedReport {
    pub headline: String,
    pub table: Sheet,
    /// That there are more than are listed.
    pub tail: Option<String>,
}

/// The cells of a code that was cleared. The return is counted on what the shares sold had
/// cost.
pub open spec fn closed_cells<N: Scalar>(c: ClosedView<N>) -> Seq<Seq<char>> {
    seq![
        c.code,
        text::decimal_int(c.sold_qty),
        sheet::amount_text(c.cost),
        sheet::amount_text(c.realized_pnl),
        if num::above_zero(c.cost) {
            sheet::percent_text(c.realized_pnl.quotient(c.cost))
        } else {
            "--"@
        },
        c.last_date,
    ]
}

/// How many of the codes are listed.
pub open spec fn listed(n: nat, limit: Option<usize>) -> nat {
    match limit {
        Some(k) => if k < n {
            k as nat
        } else {
            n
        },
        None => n,
    }
}

/// The headline of the codes that were cleared. A blank line goes before it.
pub open spec fn closed_headline<N: Scalar>(v: Seq<ClosedView<N>>) -> Seq<char> {
    "\n已清仓 "@ + text::decimal(v.len()) + " 只  已实现合计 ¥"@ + sheet::amount_text(
        portfolio::closed_sum(v, v.len() as int),
    )
}

/// The table of the codes that were cleared.
pub open spec fn closed_table<N: Scalar>(v: Seq<ClosedView<N>>, limit: Option<usize>) -> SheetView {
    SheetView {
        header: seq!["代码"@, "卖出量"@, "成本"@, "已实现"@, "收益%"@, "最后卖出"@],
        rows: Seq::new(listed(v.len(), limit), |i: int| closed_cells(v[i])),
    }
}

/// That there are more codes than are listed.
pub open spec fn closed_tail(n: nat, limit: Option<usize>) -> Option<Seq<char>> {
    if listed(n, limit) < n {
        Some(
            "(仅列最近 "@ + text::decimal(listed(n, limit)) + " 只,共 "@ + text::decimal(n)
                + " 只;全部见 portfolio history)"@,
        )
    } else {
        None
    }
}

/// What is said of the codes that were cleared: the latest of them, where there is a limit.
/// Nothing where none was.
pub fn closed_report<N: Scalar>(closed: &[ClosedPosition<N>], limit: Option<usize>) -> (r: Option<
    ClosedReport,
>)
    ensures
        match r {
            Some(c) => {
                let v = store::closed_views(closed@);
                &&& v.len() > 0
                &&& c.headline@ == closed_headline(v)
                &&& c.table@ == closed_table(v, limit)
                &&& text::text_option(c.tail) == closed_tail(v.len(), limit)
            },
            None => closed@.len() == 0,
        },
{
    let ghost v = store::closed_views(closed@);
    let n = closed.len();
    if n == 0 {
        return None;
    }
    let shown: usize = match limit {
        Some(k) => if k < n {
            k
        } else {
            n
        },
        None => n,
    };
    let mut headline = String::new();
    headline.append("\n已清仓 ");
    sheet::put(&mut headline, text::show(n as u64), " 只  已实现合计 ¥");
    headline.append(sheet::amount(closed_total(closed)).as_str());
    assert(headline@ =~= closed_headline(v));
    let ghost goal = closed_table(v, limit).rows;
    let mut rows = sheet::no_rows();
    let mut i: usize = 0;
    assert(goal.take(0) =~= Seq::<Seq<Seq<char>>>::empty());
    while i < shown
        invariant
            v == store::closed_views(closed@),
            goal == closed_table(v, limit).rows,
            n == closed@.len(),
            shown == listed(n as nat, limit),
            i <= shown <= n,
            sheet::cells(rows@) == goal.take(i as int),
        decreases shown - i,
    {
        let c = &closed[i];
        assert(v[i as int] == c@);
        let mut cells = sheet::no_lines();
        sheet::line(&mut cells, c.code.as_str());
        sheet::line(&mut cells, text::show_wide(c.sold_qty).as_str());
        sheet::line(&mut cells, sheet::amount(c.cost).as_str());
        sheet::line(&mut cells, sheet::amount(c.realized_pnl).as_str());
        sheet::line(&mut cells, sheet::percent_or_dashes(closed_part(c)).as_str());
        sheet::line(&mut cells, c.last_date.as_str());
        assert(text::texts(cells@) =~= closed_cells(v[i as int]));
        sheet::row(&mut rows, cells);
        i += 1;
        assert(sheet::cells(rows@) =~= goal.take(i as int));
    }
    assert(goal.take(goal.len() as int) =~= goal);
    let mut header = sheet::no_lines();
    sheet::line(&mut header, "代码");
    sheet::line(&mut header, "卖出量");
    sheet::line(&mut header, "成本");
    sheet::line(&mut header, "已实现");
    sheet::line(&mut header, "收益%");
    sheet::line(&mut header, "最后卖出");
    assert(text::texts(header@) =~= closed_table(v, limit).header);
    let tail = if shown < n {
        let mut t = "(仅列最近 ".to_owned();
        sheet::put(&mut t, text::show(shown as u64), " 只,共 ");
        sheet::put(&mut t, text::show(n as u64), " 只;全部见 portfolio history)");
        Some(t)
    } else {
        None
    };
    Some(ClosedReport { headline, table: Sheet { header, rows }, tail })
}

// ---------------------------------------------------------------------------
// What was traded
// ---------------------------------------------------------------------------
/// The word for the direction of a trade.
pub open spec fn direction(action: Seq<char>) -> Seq<char> {
    if action == "buy"@ {
        "买入"@
    } else if action == "sell"@ {
        "卖出"@
    } else {
        action
    }
}

/// The cells of a trade.
pub open spec fn trade_cells<N: Scalar>(t: TradeView<N>) -> Seq<Seq<char>> {
    seq![
        t.date,
        t.code,
        direction(t.action),
        t.price.rounded(3),
        text::decimal_int(t.quantity as int),
        sheet::figure_cell(t.cost_basis, 3),
        sheet::money_cell(t.pnl),
        match t.note {
            Some(n) => n,
            None => Seq::empty(),
        },
    ]
}

/// The table of the trades.
pub open spec fn trades_table<N: Scalar>(ts: Seq<TradeView<N>>) -> SheetView {
    SheetView {
        header: seq![
            "日期"@,
            "代码"@,
            "方向"@,
            "价格"@,
            "数量"@,
            "成本"@,
            "已实现盈亏"@,
            "备注"@,
        ],
        rows: Seq::new(ts.len(), |i: int| trade_cells(ts[i])),
    }
}

/// The table of the trades; none where there are no trades.
pub fn history_table<N: Scalar>(trades: &[Trade<N>]) -> (r: Option<Sheet>)
    ensures
        match r {
            Some(s) => trades@.len() > 0 && s@ == trades_table(models::trade_views(trades@)),
            None => trades@.len() == 0,
        },
{
    if trades.len() == 0 {
        return None;
    }
    let ghost ts = models::trade_views(trades@);
    let ghost goal = trades_table(ts).rows;
    let mut rows = sheet::no_rows();
    let mut i: usize = 0;
    assert(goal.take(0) =~= Seq::<Seq<Seq<char>>>::empty());
    while i < trades.len()
        invariant
            ts == models::trade_views(trades@),
            goal == trades_table(ts).rows,
            i <= trades@.len(),
            sheet::cells(rows@) == goal.take(i as int),
        decreases trades@.len() - i,
    {
        let t = &trades[i];
        assert(ts[i as int] == t@);
        let mut cells = sheet::no_lines();
        sheet::line(&mut cells, t.date.as_str());
        sheet::line(&mut cells, t.code.as_str());
        sheet::line(&mut cells, portfolio::action_label(t.action.as_str()).as_str());
        sheet::line(&mut cells, t.price.show_rounded(3).as_str());
        sheet::line(&mut cells, text::show_int(t.quantity).as_str());
        sheet::line(&mut cells, sheet::figure(t.cost_basis, 3).as_str());
        sheet::line(&mut cells, sheet::money_or_dashes(t.pnl).as_str());
        let note = match &t.note {
            Some(n) => n.clone(),
            None => String::new(),
        };
        sheet::line(&mut cells, note.as_str());
        assert(text::texts(cells@) =~= trade_cells(ts[i as int]));
        sheet::row(&mut rows, cells);
        i += 1;
        assert(sheet::cells(rows@) =~= goal.take(i as int));
    }
    assert(goal.take(goal.len() as int) =~= goal);
    let mut header = sheet::no_lines();
    sheet::line(&mut header, "日期");
    sheet::line(&mut header, "代码");
    sheet::line(&mut header, "方向");
    sheet::line(&mut header, "价格");
    sheet::line(&mut header, "数量");
    sheet::line(&mut header, "成本");
    sheet::line(&mut header, "已实现盈亏");
    sheet::line(&mut header, "备注");
    assert(text::texts(header@) =~= trades_table(ts).header);
    Some(Sheet { header, rows })
}

/// A text and what sales gained, where they gained anything.
pub fn realized_line<N: Scalar>(label: &str, realized: N) -> (r: Option<String>)
    ensures
        text::text_option(r) == (if num::zeroed(realized) {
            None
        } else {
            Some(label@ + sheet::amount_text(realized))
        }),
{
    if num::is_zero(realized) {
        None
    } else {
        let mut s = label.to_owned();
        s.append(sheet::amount(realized).as_str());
        Some(s)
    }
}

// ---------------------------------------------------------------------------
// What was entered
// ---------------------------------------------------------------------------
/// What is said of a purchase that was entered.
pub fn added_line<N: Scalar>(code: &str, quantity: i64, price: N) -> (r: String)
    ensures
        r@ == "已添加持仓 "@ + code@ + " "@ + text::decimal_int(quantity as int) + "股 @ "@
            + price.written(),
{
    let mut s = "已添加持仓 ".to_owned();
    s.append(code);
    s.append(" ");
    sheet::put(&mut s, text::show_int(quantity), "股 @ ");
    s.append(price.show().as_str());
    s
}

/// What is said of a sale.
pub open spec fn sold_lines<N: Scalar>(code: Seq<char>, price: N, o: SellOutcome<N>) -> Seq<
    Seq<char>,
> {
    let pct = if num::zeroed(o.avg_cost) {
        num::nil::<N>()
    } else {
        price.difference(o.avg_cost).quotient(o.avg_cost).product(N::whole(100))
    };
    seq![
        "已卖出 "@ + code + " "@ + text::decimal_int(o.sold_qty as int) + "股 @ "@
            + price.rounded(3) + "  成本 ¥"@ + o.avg_cost.rounded(3) + "  已实现盈亏 ¥"@
            + sheet::amount_text(o.realized_pnl) + " ("@ + pct.signed(2) + "%)"@,
        if o.remaining_qty == 0 {
            "已清仓 "@ + code
        } else {
            "剩余持仓 "@ + text::decimal_int(o.remaining_qty as int) + "股"@
        },
    ]
}

pub fn sale_lines<N: Scalar>(code: &str, price: N, o: &SellOutcome<N>) -> (r: Vec<String>)
    ensures
        text::texts(r@) == sold_lines(code@, price, *o),
{
    let mut out = sheet::no_lines();
    let mut s = "已卖出 ".to_owned();
    s.append(code);
    s.append(" ");
    sheet::put(&mut s, text::show_int(o.sold_qty), "股 @ ");
    sheet::put(&mut s, price.show_rounded(3), "  成本 ¥");
    sheet::put(&mut s, o.avg_cost.show_rounded(3), "  已实现盈亏 ¥");
    sheet::put(&mut s, sheet::amount(o.realized_pnl), " (");
    sheet::put(&mut s, sale_pct(price, o.avg_cost).show_signed(2), "%)");
    assert(s@ =~= sold_lines(code@, price, *o)[0]);
    sheet::line(&mut out, s.as_str());
    let mut t = String::new();
    if o.remaining_qty == 0 {
        t.append("已清仓 ");
        t.append(code);
    } else {
        t.append("剩余持仓 ");
        sheet::put(&mut t, text::show_int(o.remaining_qty), "股");
    }
    assert(t@ =~= sold_lines(code@, price, *o)[1]);
    sheet::line(&mut out, t.as_str());
    assert(text::texts(out@) =~= sold_lines(code@, price, *o));
    out
}

/// What is said when an entry was taken back.
pub fn removed_line(code: &str, found: bool) -> (r: String)
    ensures
        r@ == (if found {
            "已移除持仓 "@ + code@
        } else {
            code@ + " 无持仓"@
        }),
{
    if found {
        let mut s = "已移除持仓 ".to_owned();
        s.append(code);
        s
    } else {
        let mut s = code.to_owned();
        s.append(" 无持仓");
        s
    }
}

/// What is said of the cash balance that is noted.
pub fn cash_line<N: Scalar>(cash: Option<N>) -> (r: String)
    ensures
        r@ == (match cash {
            Some(a) => "现金余额 ¥"@ + sheet::amount_text(a),
            None => "未设置现金余额(portfolio cash <金额> 设置)"@,
        }),
{
    match cash {
        Some(a) => {
            let mut s = "现金余额 ¥".to_owned();
            s.append(sheet::amount(a).as_str());
            s
        },
        None => "未设置现金余额(portfolio cash <金额> 设置)".to_owned(),
    }
}

/// What is said of a cash balance that is to be noted: an amount that is not finite, or is
/// below zero, is refused.
pub fn cash_set<N: Scalar>(amount: N) -> (r: Result<String, String>)
    ensures
        match r {
            Ok(s) => amount.bounded() && !amount.below(num::nil::<N>()) && s@ == "现金余额已设为 ¥"@
                + sheet::amount_text(amount),
            Err(e) => (!amount.bounded() || amount.below(num::nil::<N>())) && e@ == "现金金额无效:"@
                + amount.written(),
        },
{
    if !store::cash_allowed(amount) {
        let mut e = "现金金额无效:".to_owned();
        e.append(amount.show().as_str());
        Err(e)
    } else {
        let mut s = "现金余额已设为 ¥".to_owned();
        s.append(sheet::amount(amount).as_str());
        Ok(s)
    }
}

} // verus!
