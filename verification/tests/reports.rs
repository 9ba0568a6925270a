use stockrs::cli::analysis::{
    chosen_index, cleared_line, extremes, figures_since, gains, index_line, no_bars,
};
use stockrs::cli::backtest::{index_report, pf_report, report, sweep_report, Axis, Objective};
use stockrs::cli::dashboard::{
    added_line, cash_line, cash_set, closed_report, dashboard_lines, dashboard_table,
    history_table, no_holdings, realized_line, removed_line, sale_lines,
};
use stockrs::cli::data;
use stockrs::cli::indicator;
use stockrs::cli::portfolio::{dash_rows, dash_totals, shows_realized, CostMode, Lots};
use stockrs::cli::quote;
use stockrs::data::source::Source;
use stockrs::data::{Fundamental, KLine, Market, Quote, Stock, Store};
use stockrs::engine::backtest::BacktestResult;
use stockrs::engine::context::TradeRec;
use stockrs::engine::metrics::{Benchmark, Metrics};
use stockrs::engine::portfolio::{Holding, PfTrade, PortfolioResult};
use stockrs::engine::position;
use stockrs::fixed::Fixed;
use stockrs::num::Scalar;
use stockrs::utils::format::display_width;

/// Numbers of double precision.
#[derive(Debug, Clone, Copy, PartialEq, PartialOrd)]
struct F64(f64);

impl Scalar for F64 {
    fn from_int(n: i128) -> Self {
        F64(n as f64)
    }
    fn parse(s: &str) -> Option<Self> {
        s.parse::<f64>().ok().map(F64)
    }
    fn show(self) -> String {
        self.0.to_string()
    }
    fn show_rounded(self, places: usize) -> String {
        format!("{:.*}", places, self.0)
    }
    fn show_signed(self, places: usize) -> String {
        format!("{:+.*}", places, self.0)
    }
    fn nan() -> Self {
        F64(f64::NAN)
    }
    fn lowest() -> Self {
        F64(f64::MIN)
    }
    fn highest() -> Self {
        F64(f64::MAX)
    }
    fn plus(self, other: Self) -> Self {
        F64(self.0 + other.0)
    }
    fn minus(self, other: Self) -> Self {
        F64(self.0 - other.0)
    }
    fn times(self, other: Self) -> Self {
        F64(self.0 * other.0)
    }
    fn over(self, other: Self) -> Self {
        F64(self.0 / other.0)
    }
    fn less(self, other: Self) -> bool {
        self.0 < other.0
    }
    fn same(self, other: Self) -> bool {
        self.0 == other.0
    }
    fn is_finite(self) -> bool {
        self.0.is_finite()
    }
    fn sqrt(self) -> Self {
        F64(self.0.sqrt())
    }
    fn powf(self, exponent: Self) -> Self {
        F64(self.0.powf(exponent.0))
    }
    fn ceil(self) -> Self {
        F64(self.0.ceil())
    }
    fn round(self) -> i64 {
        self.0.round() as i64
    }
    fn trunc(self) -> i64 {
        self.0 as i64
    }
    fn order_key(self) -> i64 {
        let bits = (self.0 + 0.0).to_bits() as i64;
        bits ^ (((bits >> 63) as u64) >> 1) as i64
    }
    fn identical(self, other: Self) -> bool {
        self.0.to_bits() == other.0.to_bits()
    }
}


fn f(v: f64) -> F64 {
    F64(v)
}

fn quote(code: &str, price: f64, prev_close: f64, change_pct: f64) -> Quote<F64> {
    Quote {
        code: code.into(),
        name: "银行".into(),
        price: f(price),
        change: f(price - prev_close),
        change_pct: f(change_pct),
        open: f(10.0),
        high: f(12.0),
        low: f(9.0),
        prev_close: f(prev_close),
        volume: f(0.0),
        amount: f(0.0),
        turnover: None,
        pe: None,
        pb: Some(f(1.5)),
    }
}

fn book() -> Store<F64> {
    let mut s: Store<F64> = Store::new();
    s.add_position("600000", f(10.0), 100, "2024-01-01", None);
    s.add_position("600000", f(12.0), 100, "2024-06-01", Some("加仓"));
    s.add_position("000001", f(5.0), 200, "2024-02-01", None);
    s.sell_position("000001", f(6.0), 200, "2024-03-01", None).unwrap();
    s.sell_position("600000", f(11.0), 50, "2024-05-01", None).unwrap();
    s
}

#[test]
fn dashboard_text() {
    let b = book();
    let quotes = vec![quote("600000", 11.0, 10.0, 0.1)];
    let rows = dash_rows(&b.list_positions(), &quotes, &b.realized_by_code(), "2024-06-01");
    let totals = dash_totals(&rows);
    assert!(shows_realized(CostMode::Buy, &totals));
    let t = dashboard_table(&rows, CostMode::Buy, true);
    assert_eq!(
        t.header,
        ["代码", "数量", "现价", "今日%", "今日盈亏", "市值", "浮动盈亏", "浮动%", "已实现", "总盈亏"]
    );
    // 50 shares at 10 and 100 at 12, now worth 11 each.
    assert_eq!(
        t.rows,
        [[
            "600000", "150", "11.000", "+10.00%", "-50.00*", "1,650.00", "-50.00", "-2.94%",
            "50.00", "0.00"
        ]]
    );
    let t = dashboard_table(&rows, CostMode::Diluted, false);
    assert_eq!(&t.header[6..], ["总盈亏", "总%"]);
    assert_eq!(&t.rows[0][6..], ["0.00", "+0.00%"]);
    let lines = dashboard_lines(CostMode::Buy, &totals, b.realized_pnl(None), Some(f(1000.0)));
    assert_eq!(
        lines,
        [
            "* 今日建仓,今日盈亏自买入价起算(非昨收)",
            &"─".repeat(52),
            "今日盈亏 ¥-50.00 (-2.94%)   累计浮动 ¥-50.00 (-2.94%)",
            "已实现 ¥250.00   总盈亏 ¥200.00   总市值 ¥1,650.00   现金 ¥1,000.00   总资产 ¥2,650.00",
        ]
    );
    let lines = dashboard_lines(CostMode::Diluted, &totals, f(0.0), None);
    assert_eq!(lines.len(), 5);
    assert_eq!(
        lines[1],
        "摊薄口径:已实现盈亏已折入成本(对齐东财),成本≤0 时收益率显示 --"
    );
    assert_eq!(lines[4], "总市值 ¥1,650.00");
    assert_eq!(no_holdings::<F64>(None), ["当前无持仓"]);
    assert_eq!(
        no_holdings(Some(f(2.5))),
        ["当前无持仓", "现金 ¥2.50  总资产 ¥2.50"]
    );
}

#[test]
fn dashboard_without_quotes() {
    let b = book();
    let rows = dash_rows(&b.list_positions(), &[], &b.realized_by_code(), "2025-01-01");
    let t = dashboard_table(&rows, CostMode::Buy, false);
    assert_eq!(
        t.rows,
        [["600000", "150", "10.000", "--", "--", "1,700.00", "0.00", "+0.00%"]]
    );
}

#[test]
fn cleared_codes_text() {
    let b = book();
    let r = closed_report(&b.closed_positions(), Some(8)).unwrap();
    assert_eq!(r.headline, "\n已清仓 1 只  已实现合计 ¥200.00");
    assert_eq!(
        r.table.header,
        ["代码", "卖出量", "成本", "已实现", "收益%", "最后卖出"]
    );
    assert_eq!(
        r.table.rows,
        [["000001", "200", "1,000.00", "200.00", "+20.00%", "2024-03-01"]]
    );
    assert_eq!(r.tail, None);
    let r = closed_report(&b.closed_positions(), Some(0)).unwrap();
    assert!(r.table.rows.is_empty());
    assert_eq!(
        r.tail.as_deref(),
        Some("(仅列最近 0 只,共 1 只;全部见 portfolio history)")
    );
    assert!(closed_report::<F64>(&[], None).is_none());
}

#[test]
fn history_text() {
    let b = book();
    let t = history_table(&b.list_trades()).unwrap();
    assert_eq!(t.header.len(), 8);
    assert_eq!(
        t.rows[0],
        ["2024-01-01", "600000", "买入", "10.000", "100", "--", "--", ""]
    );
    assert_eq!(
        t.rows[2],
        ["2024-03-01", "000001", "卖出", "6.000", "200", "5.000", "200.00", ""]
    );
    assert_eq!(t.rows[4][7], "加仓");
    assert!(history_table::<F64>(&[]).is_none());
    assert_eq!(
        realized_line("已实现盈亏 ¥", f(3.0)).as_deref(),
        Some("已实现盈亏 ¥3.00")
    );
    assert_eq!(realized_line("已实现盈亏 ¥", f(0.0)), None);
}

#[test]
fn entries_text() {
    assert_eq!(added_line("600000", 100, f(10.5)), "已添加持仓 600000 100股 @ 10.5");
    assert_eq!(removed_line("600000", true), "已移除持仓 600000");
    assert_eq!(removed_line("600000", false), "600000 无持仓");
    let mut s: Store<F64> = Store::new();
    s.add_position("600000", f(10.0), 100, "2024-01-01", None);
    let o = s.sell_position("600000", f(12.0), 40, "2024-02-01", None).unwrap();
    assert_eq!(
        sale_lines("600000", f(12.0), &o),
        [
            "已卖出 600000 40股 @ 12.000  成本 ¥10.000  已实现盈亏 ¥80.00 (+20.00%)",
            "剩余持仓 60股"
        ]
    );
    let o = s.sell_position("600000", f(9.0), 60, "2024-02-02", None).unwrap();
    let lines = sale_lines("600000", f(9.0), &o);
    assert!(lines[0].ends_with("¥-60.00 (-10.00%)"));
    assert_eq!(lines[1], "已清仓 600000");
    assert_eq!(cash_line(Some(f(5.0))), "现金余额 ¥5.00");
    assert_eq!(cash_line::<F64>(None), "未设置现金余额(portfolio cash <金额> 设置)");
    assert_eq!(cash_set(f(5.0)), Ok("现金余额已设为 ¥5.00".to_string()));
    assert_eq!(cash_set(f(-5.0)), Err("现金金额无效:-5".to_string()));
    assert_eq!(cash_set(f(f64::NAN)), Err("现金金额无效:NaN".to_string()));
}

fn days(n: usize) -> Vec<String> {
    (1..=n).map(|d| format!("2024-01-{:02}", d)).collect()
}

#[test]
fn analysis_text() {
    let closes: Vec<F64> = [10.0, 11.0, 12.0, 9.0, 10.0, 11.0].map(F64).to_vec();
    let s = position::compute(f(10.0), 100, &days(6), &closes);
    let q = Some(quote("600000", 12.0, 11.0, 0.05));
    let lines = gains("600000", "银行", "2024-01-01", Some(9), &s, &q, "2024-01-06", Some(3));
    assert_eq!(
        lines,
        [
            "600000 银行 持仓分析",
            "建仓 2024-01-01（9 自然日 / 6 交易日）",
            "成本 ¥10.000 × 100 = ¥1,000.00",
            "现价 ¥12.000 (+5.00% 今日)   市值 ¥1,200.00",
            &"─".repeat(46),
            "浮动盈亏：¥200.00 (+20.00%)   日均 ¥16.67/交易日",
            "收益率：  今日 +5.00%   近一周 +10.00%   近一月 --   累计 +20.00%",
        ]
    );
    let lines = gains("600000", "银行", "x", None, &s, &None, "2024-01-06", Some(6));
    assert_eq!(lines[1], "建仓 x（0 自然日 / 6 交易日）");
    assert_eq!(
        lines[3],
        "现价 ¥11.000（本地日K 2024-01-06 收盘,无实时价）   市值 ¥1,100.00"
    );
    assert_eq!(
        lines[4],
        "⚠ 本地日K截至 2024-01-06,可能滞后;最新收盘请 stockrs data update 600000"
    );
    let tail = extremes(&s, f(0.0));
    assert_eq!(
        &tail[1..5],
        [
            "最大浮盈：¥200.00 (+20.00%) @ 2024-01-03",
            "最大浮亏：¥-100.00 (-10.00%) @ 2024-01-04",
            "最大回撤：-25.00%（持仓期市值峰值→谷值）",
            "收益曲线(浮盈%)：",
        ]
    );
    assert_eq!(tail[5], "▃▆█▁▃▆");
    let few = position::compute(f(10.0), 100, &days(2), &closes[..2]);
    assert_eq!(
        extremes(&few, f(7.0)),
        ["（持仓 2 交易日,样本太短,略去极值/回撤/曲线）", "本股已实现盈亏 ¥7.00"]
    );
    assert_eq!(
        cleared_line("600000", "银行", f(7.0)),
        "600000 银行 已清仓  本股已实现盈亏 ¥7.00"
    );
    assert_eq!(
        no_bars("600000", "2024-01-01"),
        "建仓日 2024-01-01 起无本地日K,请先 stockrs data update 600000"
    );
}

fn bar(close: f64) -> KLine<F64> {
    KLine {
        code: "T".into(),
        date: "d".into(),
        open: f(close),
        high: f(close),
        low: f(close),
        close: f(close),
        volume: f(0.0),
        amount: f(0.0),
        turnover: None,
    }
}

#[test]
fn index_beside_a_holding() {
    assert_eq!(
        index_line("sh", "上证指数", &[bar(10.0), bar(1.0), bar(11.0)], f(0.2)),
        "vs 上证指数(建仓至今)：跑赢 +10.00%（本股 +20.00% 自成本 / 基准 +10.00% 同期收盘）"
    );
    assert!(index_line("sh", "x", &[bar(10.0), bar(13.0)], f(0.2)).contains("跑输 -10.00%"));
    assert_eq!(
        index_line("sh", "x", &[bar(10.0)], f(0.2)),
        "（基准 sh 数据不可用,跳过对比）"
    );
    assert_eq!(chosen_index("600000", None).as_deref(), Some("sh"));
    assert_eq!(chosen_index("600000", Some("hs300")).as_deref(), Some("hs300"));
    assert_eq!(chosen_index("00700", None), None);
    assert_eq!(chosen_index("x", None), None);
}

fn metrics(total: f64) -> Metrics<F64> {
    Metrics {
        initial: f(100_000.0),
        final_value: f(120_000.0),
        total_return: f(total),
        annual_return: f(0.1),
        max_drawdown: f(-0.05),
        sharpe: f(1.234),
        win_rate: f(0.5),
        wins: 1,
        closed_trades: 2,
        total_trades: 4,
    }
}

#[test]
fn back_test_text() {
    let result = BacktestResult {
        metrics: metrics(0.2),
        trades: vec![
            TradeRec {
                date: "2024-01-02".into(),
                action: "BUY".into(),
                price: f(10.0),
                shares: 100,
                pnl_pct: None,
            },
            TradeRec {
                date: "2024-01-03".into(),
                action: "SELL".into(),
                price: f(12.0),
                shares: 100,
                pnl_pct: Some(f(0.2)),
            },
        ],
    };
    let r = report("均线", "600519", "茅台", "2024-01-01", "2024-01-03", &result);
    assert_eq!(r.len(), 18);
    for line in &r {
        assert_eq!(display_width(line), 50);
    }
    let inside: Vec<&str> = r
        .iter()
        .filter_map(|l| l.strip_prefix("│ ").map(|l| l.trim_end_matches('│').trim_end()))
        .collect();
    assert_eq!(
        inside,
        [
            "回测报告：均线",
            "股票：600519 茅台",
            "区间：2024-01-01 ~ 2024-01-03",
            "初始资金：¥100,000.00",
            "期末资产：¥120,000.00",
            "总收益：+20.00%",
            "年化收益：+10.00%",
            "最大回撤：-5.00%",
            "夏普比率：1.23",
            "胜率：50.0% (1/2)",
            "成交笔数：4",
            "交易明细：",
            "2024-01-02  BUY  100 @ ¥10.00",
            "2024-01-03  SELL 100 @ ¥12.00  +20.00%",
        ]
    );
    assert!(r[0].starts_with('┌') && r[0].ends_with('┐'));
    assert!(r[17].starts_with('└') && r[17].ends_with('┘'));
}

#[test]
fn portfolio_back_test_text() {
    let result = PortfolioResult {
        metrics: metrics(0.2),
        trades: vec![PfTrade {
            date: "2024-01-02".into(),
            code: "A".into(),
            action: "BUY".into(),
            price: f(10.0),
            shares: 100,
            pnl_pct: None,
        }],
        equity: vec![],
        dates: vec!["2024-01-01".into(), "2024-01-02".into()],
        holdings: vec![Holding {
            code: "A".into(),
            name: "甲".into(),
            shares: 100,
            avg_cost: f(10.0),
            last_price: f(11.0),
            value: f(1100.0),
            pnl_pct: f(0.1),
        }],
        stock_count: 3,
    };
    let r = pf_report("轮动", &result);
    let all = r.join("\n");
    for part in [
        "组合回测报告：轮动",
        "股票数：3",
        "区间：2024-01-01 ~ 2024-01-02",
        "A 甲 100股 ¥11.00 +10.00%",
        "2024-01-02 A BUY  100 @ ¥10.00",
    ] {
        assert!(all.contains(part), "{part}");
    }
    assert_eq!(r.len(), 20);
    let b = Benchmark {
        name: "沪深300".into(),
        code: "000300".into(),
        total_return: f(0.1),
        excess: f(0.05),
        beta: f(0.9),
        alpha_annual: f(0.02),
    };
    assert_eq!(
        index_report(&b),
        [
            "基准 000300 沪深300",
            "基准收益：+10.00%   超额收益：+5.00%",
            "Beta：0.90   年化 Alpha：+2.00%"
        ]
    );
}

#[test]
fn sweep_text() {
    let axes = vec![Axis { name: "fast".to_string(), values: vec![f(5.0), f(10.0)] }];
    let sets = vec![vec![f(5.0)], vec![f(10.0)]];
    let all = vec![metrics(0.1), metrics(0.3)];
    let t = sweep_report(&axes, &sets, &all, Objective::Return);
    assert_eq!(t.header, ["", "fast", "收益", "年化", "回撤", "夏普", "胜率"]);
    assert_eq!(
        t.rows,
        [
            ["★", "10", "+30.00%", "+10.00%", "-5.00%", "1.23", "50.0%"],
            ["", "5", "+10.00%", "+10.00%", "-5.00%", "1.23", "50.0%"]
        ]
    );
}

#[test]
fn indicators_text() {
    let bars: Vec<KLine<F64>> = (1..=5).map(|i| bar(i as f64)).collect();
    let l = indicator::latest(&bars, 5).unwrap();
    let lines = indicator::report("600000", 5, &l, &None);
    assert_eq!(lines.len(), 10);
    assert_eq!(lines[0], "600000 最新技术指标（d）");
    assert_eq!(lines[1], "收盘价：5.00");
    assert_eq!(lines[2], "");
    assert_eq!(lines[3], "MA5   : 3.00");
    assert_eq!(lines[4], "MA5   : 3.00   MA10  : --   MA20  : --");
    assert_eq!(lines[6], "RSI5 : --");
    let valued = Some(Fundamental {
        code: "600000".into(),
        date: "2024-01-01".into(),
        pe_ttm: Some(f(5.0)),
        pb_mrq: None,
        ps_ttm: Some(f(1.25)),
        total_mv: Some(f(2.5e11)),
    });
    let lines = indicator::report("600000", 5, &l, &valued);
    assert_eq!(
        lines[11],
        "PE(TTM): 5.00   PB: --   PS(TTM): 1.25   总市值: 2500.0亿   (截至 2024-01-01)"
    );
}

#[test]
fn quotes_text() {
    let stored = Some(Fundamental {
        code: "600000".into(),
        date: "2024-01-01".into(),
        pe_ttm: Some(f(5.0)),
        pb_mrq: None,
        ps_ttm: None,
        total_mv: None,
    });
    let quotes = vec![
        (quote("600000", 11.0, 10.0, 0.1), Source::Tencent),
        (quote("600001", 9.0, 10.0, -0.1), Source::Sina),
    ];
    let (t, note) = quote::table(&quotes, &vec![stored]);
    assert_eq!(t.header.len(), 12);
    assert_eq!(
        t.rows,
        [
            [
                "600000", "银行", "11.00", "+1.00", "+10.00%", "10.00", "12.00", "9.00", "10.00",
                "5.00*", "1.50", "tencent"
            ],
            [
                "600001", "银行", "9.00", "-1.00", "-10.00%", "10.00", "12.00", "9.00", "10.00",
                "--", "1.50", "sina"
            ]
        ]
    );
    assert!(note.is_some());
    let (_, note) = quote::table(&quotes, &vec![]);
    assert_eq!(note, None);
    assert_eq!(quote::unanswered(&vec![]), None);
    assert_eq!(
        quote::unanswered(&vec!["1".to_string(), "2".to_string()]).as_deref(),
        Some("以下代码所有数据源均无数据：1, 2")
    );
}

#[test]
fn list_text() {
    let s = Stock {
        code: "00700".into(),
        name: "腾讯".into(),
        market: Market::HK,
        added_at: "2024-01-01".into(),
        lot_size: 100,
    };
    assert_eq!(
        data::added_line(&s, 12, "sina"),
        "已添加 00700 腾讯，写入 12 条日K（来源 sina）"
    );
    assert_eq!(data::updated_line(&s, 3, "sina"), "00700 腾讯 更新 3 条（来源 sina）");
    assert_eq!(data::failed_line(&s, "超时"), "00700 腾讯 更新失败：超时");
    assert_eq!(data::removed_line("700", true), "已移除 700");
    assert_eq!(data::removed_line("700", false), "700 不在跟踪列表中");
    let range = Some(("2020-01-01".to_string(), "2024-01-01".to_string()));
    assert_eq!(
        data::info_lines(&s, 12, &range),
        [
            "代码：00700",
            "名称：腾讯",
            "市场：HK",
            "K线条数：12",
            "数据范围：2020-01-01 ~ 2024-01-01"
        ]
    );
    assert_eq!(data::info_lines(&s, 0, &None)[4], "数据范围：（无数据）");
    let t = data::list_report(&[s], &[12]).unwrap();
    assert_eq!(t.header, ["代码", "名称", "市场", "K线数", "添加时间"]);
    assert_eq!(t.rows, [["00700", "腾讯", "HK", "12", "2024-01-01"]]);
    assert!(data::list_report(&[], &[]).is_none());
}

#[test]
fn decimals_text() {
    let x = |s: &str| Fixed::parse(s).unwrap();
    assert_eq!(x("1.005").show_rounded(2), "1.01");
    assert_eq!(x("-1.005").show_rounded(2), "-1.01");
    assert_eq!(x("0.004").show_rounded(2), "0.00");
    assert_eq!(x("12").show_rounded(0), "12");
    assert_eq!(x("0.5").show_rounded(0), "1");
    assert_eq!(x("1.5").show_rounded(8), "1.50000000");
    assert_eq!(x("1.5").show_signed(1), "+1.5");
    assert_eq!(x("-1.5").show_signed(1), "-1.5");
    assert_eq!(Fixed::nan().show_rounded(2), "NaN");
    assert_eq!(Fixed::nan().show_signed(2), "NaN");
}

#[test]
fn figures_need_bars() {
    let lots = Lots {
        qty: 100,
        cost: F64(1_000.0),
        avg_cost: F64(10.0),
        buy_date: "2024-01-01".to_string(),
    };
    assert_eq!(
        figures_since("600000", &lots, &[]).err(),
        Some(no_bars("600000", "2024-01-01"))
    );
    let (s, last) = figures_since("600000", &lots, &[bar(11.0), bar(12.0)]).ok().unwrap();
    assert_eq!(last, bar(12.0).date);
    assert_eq!(s.trading_days, 2);
    assert_eq!(s.pnl, F64(200.0));
    assert_eq!(s.max_loss.0, F64(100.0));
}
