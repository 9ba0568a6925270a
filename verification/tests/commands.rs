use stockrs::cli::backtest::{
    best_first, border, check_bars, framed, grid, labelled, mode, param_table, parse_axes, parse_axis,
    side_by_side, Axis, Mode, Objective,
};
use stockrs::cli::data::{
    check_codes, lot_on, resolve_name, security_to_add, stored_code, update_start, UPDATE_TRIES,
};
use stockrs::cli::indicator::latest;
use stockrs::cli::quote::{quote_requests, ratios};
use stockrs::cli::selfupdate::{announce, announce_later, up_to_date, updated};
use stockrs::cli::strategy;
use stockrs::cli::strategy::StrategyCmd;
use stockrs::data::source::{wait_after, Source};
use stockrs::data::{Fundamental, KLine, Market, Quote};
use stockrs::engine::metrics::Metrics;
use stockrs::num::Scalar;

/// Numbers of double precision.
#[derive(Debug, Clone, Copy, PartialEq, PartialOrd)]
struct F64(f64);

impl Scalar for F64 {
    fn from_int(n: i128) -> Self {
        F64(n as f64)
    }
    fn parse(s: &str) -> Option<Self> {
        s.parse::<f64>().ok().map(F64)
    }
    fn show(self) -> String {
        self.0.to_string()
    }
    fn show_rounded(self, places: usize) -> String {
        format!("{:.*}", places, self.0)
    }
    fn show_signed(self, places: usize) -> String {
        format!("{:+.*}", places, self.0)
    }
    fn nan() -> Self {
        F64(f64::NAN)
    }
    fn lowest() -> Self {
        F64(f64::MIN)
    }
    fn highest() -> Self {
        F64(f64::MAX)
    }
    fn plus(self, other: Self) -> Self {
        F64(self.0 + other.0)
    }
    fn minus(self, other: Self) -> Self {
        F64(self.0 - other.0)
    }
    fn times(self, other: Self) -> Self {
        F64(self.0 * other.0)
    }
    fn over(self, other: Self) -> Self {
        F64(self.0 / other.0)
    }
    fn less(self, other: Self) -> bool {
        self.0 < other.0
    }
    fn same(self, other: Self) -> bool {
        self.0 == other.0
    }
    fn is_finite(self) -> bool {
        self.0.is_finite()
    }
    fn sqrt(self) -> Self {
        F64(self.0.sqrt())
    }
    fn powf(self, exponent: Self) -> Self {
        F64(self.0.powf(exponent.0))
    }
    fn ceil(self) -> Self {
        F64(self.0.ceil())
    }
    fn round(self) -> i64 {
        self.0.round() as i64
    }
    fn trunc(self) -> i64 {
        self.0 as i64
    }
    fn order_key(self) -> i64 {
        let bits = (self.0 + 0.0).to_bits() as i64;
        bits ^ (((bits >> 63) as u64) >> 1) as i64
    }
    fn identical(self, other: Self) -> bool {
        self.0.to_bits() == other.0.to_bits()
    }
}


fn f(v: f64) -> F64 {
    F64(v)
}

fn strings(v: &[&str]) -> Vec<String> {
    v.iter().map(|s| s.to_string()).collect()
}

fn quote(name: &str, pe: Option<f64>, pb: Option<f64>) -> Quote<F64> {
    Quote {
        code: "T".into(),
        name: name.into(),
        price: f(1.0),
        change: f(0.0),
        change_pct: f(0.0),
        open: f(0.0),
        high: f(0.0),
        low: f(0.0),
        prev_close: f(0.0),
        volume: f(0.0),
        amount: f(0.0),
        turnover: None,
        pe: pe.map(F64),
        pb: pb.map(F64),
    }
}

#[test]
fn quotes_need_known_codes() {
    assert_eq!(
        quote_requests(&strings(&["600519", " hk00700"])),
        Ok(vec![("600519".to_string(), Market::SH), ("00700".to_string(), Market::HK)])
    );
    assert_eq!(quote_requests(&[]), Err("请提供至少一个股票代码".to_string()));
    assert_eq!(
        quote_requests(&strings(&["600519", "abc", "xyz"])),
        Err("无法识别的代码 abc".to_string())
    );
}

#[test]
fn ratios_fall_back_to_what_is_stored() {
    let stored = Some(Fundamental {
        code: "T".into(),
        date: "d".into(),
        pe_ttm: Some(f(10.0)),
        pb_mrq: None,
        ps_ttm: None,
        total_mv: None,
    });
    let (pe, pb) = ratios(&quote("", None, Some(2.0)), &stored);
    assert_eq!((pe.value, pe.stored), (Some(f(10.0)), true));
    assert_eq!((pb.value, pb.stored), (Some(f(2.0)), false));
    let (pe, pb) = ratios(&quote("", Some(3.0), None), &stored);
    assert_eq!((pe.value, pe.stored), (Some(f(3.0)), false));
    assert_eq!((pb.value, pb.stored), (None, false));
    let (pe, _) = ratios(&quote("", None, None), &None);
    assert_eq!((pe.value, pe.stored), (None, false));
}

#[test]
fn list_of_securities() {
    assert!(check_codes(&strings(&["1"])).is_ok());
    assert_eq!(check_codes(&[]), Err("请提供至少一个股票代码".to_string()));
    assert_eq!(security_to_add("600519"), Ok(("600519".to_string(), Market::SH)));
    assert_eq!(security_to_add("hk00700"), Ok(("00700".to_string(), Market::HK)));
    assert_eq!(security_to_add("abc"), Err("无法识别的股票代码 abc".to_string()));
    assert_eq!(stored_code("hk700"), "00700");
    assert_eq!(stored_code("600519"), "600519");
    assert_eq!(stored_code("abc"), "abc");
    assert_eq!(stored_code("sh600519"), "sh600519");
    assert_eq!(stored_code(" 600519"), " 600519");
    assert_eq!(stored_code("00700.HK"), "00700");
    assert_eq!(lot_on(Market::HK, Some(500)), 500);
    assert_eq!(lot_on(Market::HK, None), 100);
    assert_eq!(lot_on(Market::SZ, Some(500)), 100);
    assert_eq!(update_start(Some("2024-01-02")), "20240102");
    assert_eq!(update_start(None), "0");
    let named = vec![(quote("五粮液", None, None), Source::Sina)];
    assert_eq!(resolve_name(&named, "000858"), "五粮液");
    let unnamed = vec![(quote("", None, None), Source::Sina)];
    assert_eq!(resolve_name(&unnamed, "000858"), "000858");
    assert_eq!(resolve_name::<F64>(&Vec::new(), "000858"), "000858");
}

#[test]
fn template_is_not_written_over() {
    let cmd = StrategyCmd::New { file: "my.rhai".into() };
    assert_eq!(
        strategy::run(&cmd, true),
        Err("my.rhai 已存在，换个文件名以免覆盖".to_string())
    );
    let lines = strategy::run(&cmd, false).unwrap();
    assert_eq!(lines.len(), 3);
    assert_eq!(lines[0], "已生成策略模板 my.rhai");
    assert_eq!(lines[2], "  stockrs backtest my.rhai --stock 600519 --start 2023-01-01");
    assert_eq!(strategy::write_error("a", "b"), "无法写入 a：b");
}

#[test]
fn versions_are_announced() {
    assert_eq!(
        announce("1.2.3", "1.10.0"),
        vec!["发现新版本：v1.2.3 → v1.10.0", "运行 `stockrs self-update` 更新"]
    );
    assert_eq!(announce("1.2.3", "1.2.3"), vec!["已是最新版本 v1.2.3"]);
    assert_eq!(announce("1.2.3", "1.2.3-beta"), vec!["已是最新版本 v1.2.3"]);
    assert_eq!(announce("1.2.3", "latest"), vec!["已是最新版本 v1.2.3"]);
    assert_eq!(announce_later("1", "2", Some(true)).len(), 2);
    assert_eq!(announce_later("1", "2", None), vec![up_to_date("1")]);
    assert_eq!(updated("1.0.0", "1.1.0"), "已更新：v1.0.0 → 1.1.0");
}

fn bar(h: f64, l: f64, c: f64) -> KLine<F64> {
    KLine {
        code: "T".into(),
        date: format!("d{c}"),
        open: f(c),
        high: f(h),
        low: f(l),
        close: f(c),
        volume: f(0.0),
        amount: f(0.0),
        turnover: None,
    }
}

#[test]
fn latest_indicators() {
    let bars: Vec<KLine<F64>> =
        (1..=10).map(|i| bar(i as f64, i as f64 - 1.0, i as f64)).collect();
    let l = latest(&bars, 4).unwrap();
    assert_eq!(l.date, "d10");
    assert_eq!(l.close, f(10.0));
    assert_eq!(l.ma, Some(f(8.5)));
    assert_eq!(l.ma5, Some(f(8.0)));
    assert_eq!(l.ma10, Some(f(5.5)));
    assert_eq!(l.ma20, None);
    assert_eq!(l.ema12, None);
    assert_eq!(l.rsi, Some(f(100.0)));
    assert_eq!(l.dif, None);
    assert!(l.k.is_some());
    assert_eq!(l.mid, Some(f(8.5)));
    assert!(latest::<F64>(&[], 4).is_none());
}

#[test]
fn what_is_tested() {
    assert!(matches!(mode(Some("A".into()), vec![], false), Ok(Mode::Single(c)) if c == "A"));
    assert!(matches!(mode(None, strings(&["A", "B"]), false), Ok(Mode::Several(v)) if v.len() == 2));
    assert!(matches!(mode(None, vec![], true), Ok(Mode::Universe)));
    assert!(mode(Some("A".into()), strings(&["B"]), false).is_err());
    assert!(mode(Some("A".into()), vec![], true).is_err());
    assert!(mode(None, vec![], false).is_err());
    assert!(check_bars("A", 2).is_ok());
    assert_eq!(check_bars("A", 1), Err("A 本地数据不足，请先 data add / update".to_string()));
}

#[test]
fn report_has_a_frame() {
    let line = framed("股票");
    assert!(line.starts_with("│ 股票 ") && line.ends_with(" │"));
    assert_eq!(line.chars().count(), 2 + 2 + 43 + 1);
    assert_eq!(border("┌", "┐").chars().count(), 50);
    assert_eq!(labelled("胜率", "50%"), "胜率：50%");
}

#[test]
fn parameters_are_read() {
    let a: Axis<F64> = parse_axis(" fast = 5, 10").unwrap();
    assert_eq!(a.name, "fast");
    assert_eq!(a.values, vec![f(5.0), f(10.0)]);
    assert!(parse_axis::<F64>("fast").is_none());
    assert!(parse_axis::<F64>("fast=1,x").is_none());
    assert!(parse_axis::<F64>("fast=").is_none());
    assert_eq!(
        parse_axes::<F64>(&strings(&["a=1", "b"])).err().unwrap(),
        "参数格式应为 key=v1,v2,...，实得 b"
    );
    assert_eq!(parse_axes::<F64>(&[]).unwrap().len(), 0);
}

#[test]
fn grid_tries_every_combination() {
    let axes: Vec<Axis<F64>> = parse_axes(&strings(&["a=1,2", "b=3,4,5"])).unwrap();
    let g = grid(&axes).unwrap();
    assert_eq!(g.len(), 6);
    assert_eq!(g[0], vec![f(1.0), f(3.0)]);
    assert_eq!(g[1], vec![f(1.0), f(4.0)]);
    assert_eq!(g[5], vec![f(2.0), f(5.0)]);
    let t = param_table(&axes, &g[4]);
    assert_eq!(t.get("a"), Some(f(2.0)));
    assert_eq!(t.get("b"), Some(f(4.0)));
    assert_eq!(grid::<F64>(&Vec::new()).unwrap(), vec![Vec::<F64>::new()]);
    let wide = |n: usize| Axis { name: "w".into(), values: vec![f(0.0); n] };
    assert_eq!(grid(&vec![wide(20), wide(10)]).unwrap().len(), 200);
    assert!(grid(&vec![wide(67), wide(3)]).is_none());
    assert_eq!(grid(&vec![wide(500), wide(0)]).unwrap().len(), 0);
}

fn metrics(total_return: f64, max_drawdown: f64) -> Metrics<F64> {
    Metrics {
        initial: f(1.0),
        final_value: f(1.0),
        total_return: f(total_return),
        annual_return: f(-total_return),
        max_drawdown: f(max_drawdown),
        sharpe: f(0.0),
        win_rate: f(0.0),
        wins: 0,
        closed_trades: 0,
        total_trades: 0,
    }
}

#[test]
fn best_results_come_first() {
    let ms = vec![metrics(0.1, -0.3), metrics(0.5, -0.2), metrics(-0.2, -0.2)];
    assert_eq!(best_first(&ms, Objective::Return), vec![1, 0, 2]);
    assert_eq!(best_first(&ms, Objective::Annual), vec![2, 0, 1]);
    assert_eq!(best_first(&ms, Objective::Sharpe), vec![0, 1, 2]);
    assert_eq!(best_first(&ms, Objective::Drawdown), vec![1, 2, 0]);
    assert_eq!(Objective::parse(None), Some(Objective::Return));
    assert_eq!(Objective::parse(Some("sharpe")), Some(Objective::Sharpe));
    assert_eq!(Objective::parse(Some("drawdown")), Some(Objective::Drawdown));
    assert_eq!(Objective::parse(Some("annual")), Some(Objective::Annual));
    assert_eq!(Objective::parse(Some("best")), None);
}

#[test]
fn equity_beside_an_index() {
    let days = strings(&["d1", "d2", "d3"]);
    let equity = vec![f(1.0), f(2.0), f(3.0)];
    let index = vec![bar(9.0, 9.0, 3.0), bar(9.0, 9.0, 1.0), bar(9.0, 9.0, 1.0)];
    let (mine, other) = side_by_side(&days, &equity, &index);
    assert_eq!(mine, vec![f(1.0), f(3.0)]);
    assert_eq!(other, vec![f(1.0), f(3.0)]);
}

#[test]
fn an_update_tries_three_times_again() {
    assert_eq!(wait_after(1, UPDATE_TRIES, 7), Some(307));
    assert_eq!(wait_after(2, UPDATE_TRIES, 7), Some(607));
    assert_eq!(wait_after(3, UPDATE_TRIES, 7), Some(1207));
    assert_eq!(wait_after(4, UPDATE_TRIES, 7), None);
}
