use stockrs::cli::portfolio::{
    action_label, closed_part, closed_total, dash_rows, dash_totals, find_quote, is_stale, mode_pnl,
    part_of, present_of, quote_requests, sale_pct, shows_realized, standing_of, stats_targets,
    today_basis, versus, whole_gain, CostMode, Standing,
};
use stockrs::data::store::ClosedPosition;
use stockrs::data::{Market, Position, Quote};
use stockrs::engine::position;
use stockrs::fixed::Fixed;
use stockrs::num::Scalar;
use stockrs::table::Table;
use stockrs::utils::date::today;

/// Numbers of double precision.
#[derive(Debug, Clone, Copy, PartialEq, PartialOrd)]
struct F64(f64);

impl Scalar for F64 {
    fn from_int(n: i128) -> Self {
        F64(n as f64)
    }
    fn parse(s: &str) -> Option<Self> {
        s.parse::<f64>().ok().map(F64)
    }
    fn show(self) -> String {
        self.0.to_string()
    }
    fn show_rounded(self, places: usize) -> String {
        format!("{:.*}", places, self.0)
    }
    fn show_signed(self, places: usize) -> String {
        format!("{:+.*}", places, self.0)
    }
    fn nan() -> Self {
        F64(f64::NAN)
    }
    fn lowest() -> Self {
        F64(f64::MIN)
    }
    fn highest() -> Self {
        F64(f64::MAX)
    }
    fn plus(self, other: Self) -> Self {
        F64(self.0 + other.0)
    }
    fn minus(self, other: Self) -> Self {
        F64(self.0 - other.0)
    }
    fn times(self, other: Self) -> Self {
        F64(self.0 * other.0)
    }
    fn over(self, other: Self) -> Self {
        F64(self.0 / other.0)
    }
    fn less(self, other: Self) -> bool {
        self.0 < other.0
    }
    fn same(self, other: Self) -> bool {
        self.0 == other.0
    }
    fn is_finite(self) -> bool {
        self.0.is_finite()
    }
    fn sqrt(self) -> Self {
        F64(self.0.sqrt())
    }
    fn powf(self, exponent: Self) -> Self {
        F64(self.0.powf(exponent.0))
    }
    fn ceil(self) -> Self {
        F64(self.0.ceil())
    }
    fn round(self) -> i64 {
        self.0.round() as i64
    }
    fn trunc(self) -> i64 {
        self.0 as i64
    }
    fn order_key(self) -> i64 {
        let bits = (self.0 + 0.0).to_bits() as i64;
        bits ^ (((bits >> 63) as u64) >> 1) as i64
    }
    fn identical(self, other: Self) -> bool {
        self.0.to_bits() == other.0.to_bits()
    }
}


/// What a position gains in a day: the price less its basis, for each share.
fn today_pnl(new_lot: bool, buy: f64, prev_close: f64, cur: f64, qty: i64) -> Option<f64> {
    today_basis(new_lot, F64(buy), F64(prev_close)).map(|b| (cur - b.0) * qty as f64)
}

fn basis(new_lot: bool, buy: f64, prev_close: f64) -> Option<f64> {
    today_basis(new_lot, F64(buy), F64(prev_close)).map(|b| b.0)
}

fn pnl(mode: CostMode, cost: f64, value: f64, realized: f64) -> (f64, Option<f64>) {
    let (pnl, pct) = mode_pnl(mode, F64(cost), F64(value), F64(realized));
    (pnl.0, pct.map(|p| p.0))
}

#[test]
fn new_lot_uses_buy_price_not_prev_close() {
    let (buy, prev_close, cur, qty) = (1.546, 1.61, 1.545, 3200);
    let new = today_pnl(true, buy, prev_close, cur, qty).unwrap();
    assert!((new - (-3.2)).abs() < 1e-9, "new={new}");
    let held = today_pnl(false, buy, prev_close, cur, qty).unwrap();
    assert!((held - (-208.0)).abs() < 1e-9, "held={held}");
    assert!(new > held);
}

#[test]
fn diluted_folds_realized_into_cost() {
    let (cost, value, realized) = (10_000.0, 9_000.0, 1_500.0);
    let (p, pct) = pnl(CostMode::Buy, cost, value, realized);
    assert!((p + 1000.0).abs() < 1e-9);
    assert!((pct.unwrap() + 0.1).abs() < 1e-9);

    let (pnl_d, pct_d) = pnl(CostMode::Diluted, cost, value, realized);
    assert!((pnl_d - 500.0).abs() < 1e-9);
    assert!((pnl_d - (p + realized)).abs() < 1e-9);
    assert!((pct_d.unwrap() - 500.0 / 8500.0).abs() < 1e-9);
}

#[test]
fn diluted_pct_none_when_cost_eaten_up() {
    let (p, pct) = pnl(CostMode::Diluted, 1_000.0, 1_200.0, 1_000.0);
    assert!((p - 1200.0).abs() < 1e-9);
    assert_eq!(pct, None);
    assert_eq!(pnl(CostMode::Diluted, 1_000.0, 1_200.0, 1_500.0).1, None);
    assert_eq!(pnl(CostMode::Buy, 0.0, 100.0, 0.0).1, None);
}

#[test]
fn no_sells_means_modes_agree() {
    for (cost, value) in [(1000.0, 1200.0), (5000.0, 3000.0)] {
        assert_eq!(
            pnl(CostMode::Buy, cost, value, 0.0),
            pnl(CostMode::Diluted, cost, value, 0.0)
        );
    }
}

#[test]
fn basis_switches_on_position_date() {
    let today = today();
    let future = "9999-12-31";
    assert!(future >= today.as_str());
    assert_eq!(basis(true, 10.0, 9.0), Some(10.0));
    assert_eq!(basis(false, 10.0, 9.0), Some(9.0));
}

#[test]
fn invalid_basis_excluded_from_today() {
    assert_eq!(basis(false, 10.0, 0.0), None);
    assert_eq!(today_pnl(false, 10.0, 0.0, 11.0, 100), None);
    assert_eq!(basis(true, 0.0, 9.0), None);
}

fn held(id: i64, code: &str, price: f64, quantity: i64, date: &str) -> Position<F64> {
    Position {
        id,
        code: code.into(),
        price: F64(price),
        quantity,
        date: date.into(),
        note: None,
    }
}

fn quote(code: &str, price: f64, prev_close: f64) -> Quote<F64> {
    Quote {
        code: code.into(),
        name: String::new(),
        price: F64(price),
        change: F64(price - prev_close),
        change_pct: F64(0.01),
        open: F64(0.0),
        high: F64(0.0),
        low: F64(0.0),
        prev_close: F64(prev_close),
        volume: F64(0.0),
        amount: F64(0.0),
        turnover: None,
        pe: None,
        pb: None,
    }
}

#[test]
fn dashboard_adds_up_positions_of_a_code() {
    let positions = vec![
        held(1, "600519", 10.0, 100, "2024-01-01"),
        held(2, "000858", 5.0, 10, "2024-01-01"),
        held(3, "600519", 20.0, 50, "2024-05-01"),
    ];
    let quotes = vec![quote("600519", 16.0, 15.0)];
    let mut realized: Table<F64> = Table::new();
    realized.set("600519".into(), F64(30.0));
    let rows = dash_rows(&positions, &quotes, &realized, "2024-05-01");
    assert_eq!(rows.len(), 2);
    let r = &rows[0];
    assert_eq!((r.code.as_str(), r.qty), ("600519", 150));
    assert_eq!(r.cost, F64(2000.0));
    assert_eq!(r.value, F64(2400.0));
    assert!(r.new_lot);
    // 100 shares from 15 on, 50 shares from what they were bought for today.
    assert_eq!(r.today_pnl, Some(F64(100.0 - 200.0)));
    assert_eq!(r.today_basis_value, F64(1500.0 + 1000.0));
    assert_eq!(r.realized, F64(30.0));
    assert_eq!(whole_gain(r), F64(430.0));
    let other = &rows[1];
    assert_eq!(other.value, F64(50.0));
    assert_eq!(other.today_pnl, None);
    assert_eq!(other.change_pct, None);

    let t = dash_totals(&rows);
    assert_eq!(t.total_cost, F64(2050.0));
    assert_eq!(t.total_value, F64(2450.0));
    assert_eq!(t.total_pnl, F64(400.0));
    assert_eq!(t.today_pnl, F64(-100.0));
    assert_eq!(t.prev_value, F64(2500.0));
    assert_eq!(t.today_pct, F64(-0.04));
    assert!(t.has_new_lot && t.any_realized);
    assert!(shows_realized(CostMode::Buy, &t));
    assert!(!shows_realized(CostMode::Diluted, &t));
}

#[test]
fn quotes_are_asked_once_for_each_code() {
    let codes: Vec<String> =
        ["600519", "hk700", "00700", "??"].iter().map(|s| s.to_string()).collect();
    assert_eq!(
        quote_requests(&codes),
        vec![("600519".to_string(), Market::SH), ("00700".to_string(), Market::HK)]
    );
    let quotes = vec![quote("00700", 1.0, 1.0), quote("00700", 2.0, 1.0)];
    assert_eq!(find_quote(&quotes, "hk700").unwrap().price, F64(2.0));
    assert!(find_quote(&quotes, "600519").is_none());
    assert!(find_quote(&quotes, "??").is_none());
}

#[test]
fn how_a_code_stands() {
    let positions = vec![
        held(1, "A", 20.0, 50, "2024-02-01"),
        held(2, "A", 10.0, 150, "2024-01-01"),
        held(3, "B", 1.0, 1, "2024-01-01"),
    ];
    match standing_of("A", &positions, F64(0.0)) {
        Standing::Held(l) => {
            assert_eq!(l.qty, 200);
            assert_eq!(l.cost, F64(2500.0));
            assert_eq!(l.avg_cost, F64(12.5));
            assert_eq!(l.buy_date, "2024-01-01");
        }
        _ => panic!("A is held"),
    }
    assert!(matches!(standing_of("C", &positions, F64(3.0)), Standing::Cleared));
    assert!(matches!(standing_of("C", &positions, F64(0.0)), Standing::Unknown));
    assert_eq!(stats_targets(None, false, &positions), vec!["A", "B"]);
    assert_eq!(stats_targets(Some("C".into()), false, &positions), vec!["C"]);
    assert_eq!(stats_targets(Some("C".into()), true, &positions), vec!["A", "B"]);
}

#[test]
fn holding_at_its_present_price() {
    let dates: Vec<String> = (1..=6).map(|d| format!("d{d}")).collect();
    let closes: Vec<F64> = [10.0, 11.0, 12.0, 11.0, 10.0, 12.0].iter().map(|c| F64(*c)).collect();
    let s = position::compute(F64(10.0), 100, &dates, &closes);
    let without = present_of(&s, &None);
    assert_eq!(without.cur, F64(12.0));
    assert_eq!(without.pnl, F64(200.0));
    assert_eq!(without.pct, F64(0.2));
    assert!(without.with_curve);
    let with = present_of(&s, &Some(quote("A", 15.0, 12.0)));
    assert_eq!(with.value, F64(1500.0));
    assert_eq!(with.pnl, F64(500.0));
    assert_eq!(with.today, Some(F64(0.01)));
    let short = position::compute(F64(10.0), 100, &dates[..5], &closes[..5]);
    assert!(!present_of(&short, &None).with_curve);
}

#[test]
fn small_figures() {
    assert_eq!(part_of(F64(1.0), F64(4.0)), F64(0.25));
    assert_eq!(part_of(F64(1.0), F64(0.0)), F64(0.0));
    assert_eq!(sale_pct(F64(12.0), F64(10.0)), F64(20.0));
    assert_eq!(sale_pct(F64(12.0), F64(0.0)), F64(0.0));
    assert_eq!(action_label("buy"), "买入");
    assert_eq!(action_label("sell"), "卖出");
    assert_eq!(action_label("split"), "split");
    assert!(is_stale(Some(6)));
    assert!(!is_stale(Some(5)));
    assert!(!is_stale(None));
    let v = versus(F64(0.1), F64(100.0), F64(125.0));
    assert_eq!(v.index_return, F64(0.25));
    assert!(!v.ahead);
    assert!(versus(F64(0.25), F64(100.0), F64(125.0)).ahead);
    let closed = |cost: f64, pnl: f64| ClosedPosition {
        code: "A".into(),
        sold_qty: 1,
        cost: F64(cost),
        realized_pnl: F64(pnl),
        last_date: "d".into(),
    };
    assert_eq!(closed_part(&closed(10.0, 5.0)), Some(F64(0.5)));
    assert_eq!(closed_part(&closed(0.0, 5.0)), None);
    assert_eq!(closed_total(&[closed(1.0, 5.0), closed(1.0, -7.0)]), F64(-2.0));
}

#[test]
fn the_diluted_gain_adds_what_was_realized() {
    let d = |s: &str| Fixed::parse(s).unwrap();
    let (cost, value, realized) = (d("1000"), d("1150.25"), d("200.5"));
    let (plain, part) = mode_pnl(CostMode::Buy, cost, value, realized);
    let (diluted, diluted_part) = mode_pnl(CostMode::Diluted, cost, value, realized);
    assert_eq!((plain, part), (d("150.25"), Some(d("0.15025"))));
    assert_eq!(diluted, plain.plus(realized));
    assert!(diluted_part.is_some());
    assert_eq!(mode_pnl(CostMode::Diluted, cost, value, d("1000")), (value, None));
    assert_eq!(
        mode_pnl(CostMode::Diluted, cost, value, d("0")),
        mode_pnl(CostMode::Buy, cost, value, d("0"))
    );
}
