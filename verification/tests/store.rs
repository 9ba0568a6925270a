use stockrs::data::store::{refusal, SellError};
use stockrs::data::{Fundamental, KLine, Market, Period, Stock, Store};
use stockrs::fixed::Fixed;
use stockrs::num::Scalar;

/// Numbers of double precision.
#[derive(Debug, Clone, Copy, PartialEq, PartialOrd)]
struct F64(f64);

impl Scalar for F64 {
    fn from_int(n: i128) -> Self {
        F64(n as f64)
    }
    fn parse(s: &str) -> Option<Self> {
        s.parse::<f64>().ok().map(F64)
    }
    fn show(self) -> String {
        self.0.to_string()
    }
    fn show_rounded(self, places: usize) -> String {
        format!("{:.*}", places, self.0)
    }
    fn show_signed(self, places: usize) -> String {
        format!("{:+.*}", places, self.0)
    }
    fn nan() -> Self {
        F64(f64::NAN)
    }
    fn lowest() -> Self {
        F64(f64::MIN)
    }
    fn highest() -> Self {
        F64(f64::MAX)
    }
    fn plus(self, other: Self) -> Self {
        F64(self.0 + other.0)
    }
    fn minus(self, other: Self) -> Self {
        F64(self.0 - other.0)
    }
    fn times(self, other: Self) -> Self {
        F64(self.0 * other.0)
    }
    fn over(self, other: Self) -> Self {
        F64(self.0 / other.0)
    }
    fn less(self, other: Self) -> bool {
        self.0 < other.0
    }
    fn same(self, other: Self) -> bool {
        self.0 == other.0
    }
    fn is_finite(self) -> bool {
        self.0.is_finite()
    }
    fn sqrt(self) -> Self {
        F64(self.0.sqrt())
    }
    fn powf(self, exponent: Self) -> Self {
        F64(self.0.powf(exponent.0))
    }
    fn ceil(self) -> Self {
        F64(self.0.ceil())
    }
    fn round(self) -> i64 {
        self.0.round() as i64
    }
    fn trunc(self) -> i64 {
        self.0 as i64
    }
    fn order_key(self) -> i64 {
        let bits = (self.0 + 0.0).to_bits() as i64;
        bits ^ (((bits >> 63) as u64) >> 1) as i64
    }
    fn identical(self, other: Self) -> bool {
        self.0.to_bits() == other.0.to_bits()
    }
}


fn f(v: f64) -> F64 {
    F64(v)
}

fn held_qty(store: &Store<F64>, code: &str) -> i64 {
    store
        .list_positions()
        .into_iter()
        .filter(|p| p.code == code)
        .map(|p| p.quantity)
        .sum()
}

#[test]
fn sell_partial_then_full() {
    let mut s: Store<F64> = Store::new();
    s.add_position("600000", f(10.0), 100, "2024-01-01", None);

    let o = s.sell_position("600000", f(12.0), 40, "2024-02-01", None).unwrap();
    assert!((o.avg_cost.0 - 10.0).abs() < 1e-9);
    assert!((o.realized_pnl.0 - 80.0).abs() < 1e-9);
    assert_eq!(o.sold_qty, 40);
    assert_eq!(o.remaining_qty, 60);
    assert_eq!(held_qty(&s, "600000"), 60);
    assert!((s.realized_pnl(Some("600000")).0 - 80.0).abs() < 1e-9);

    let o2 = s.sell_position("600000", f(12.0), 60, "2024-03-01", None).unwrap();
    assert!((o2.realized_pnl.0 - 120.0).abs() < 1e-9);
    assert_eq!(o2.remaining_qty, 0);
    assert_eq!(held_qty(&s, "600000"), 0);
    assert!((s.realized_pnl(None).0 - 200.0).abs() < 1e-9);
}

#[test]
fn sell_over_holding_errors_and_leaves_state() {
    let mut s: Store<F64> = Store::new();
    s.add_position("600000", f(10.0), 100, "2024-01-01", None);
    assert!(s.sell_position("600000", f(12.0), 200, "2024-02-01", None).is_err());
    assert!(s.sell_position("000001", f(12.0), 100, "2024-02-01", None).is_err());
    assert!(s.sell_position("600000", f(12.0), 0, "2024-02-01", None).is_err());
    assert_eq!(held_qty(&s, "600000"), 100);
    assert!(s.realized_pnl(None).0.abs() < 1e-9);
}

#[test]
fn sell_fifo_cost_basis_across_lots() {
    let mut s: Store<F64> = Store::new();
    s.add_position("600000", f(10.0), 100, "2024-01-01", None);
    s.add_position("600000", f(20.0), 100, "2024-01-02", None);
    let o = s.sell_position("600000", f(18.0), 150, "2024-02-01", None).unwrap();
    assert!((o.avg_cost.0 - 2000.0 / 150.0).abs() < 1e-9);
    assert!((o.realized_pnl.0 - 700.0).abs() < 1e-9);
    assert_eq!(o.remaining_qty, 50);
    let lots: Vec<_> = s.list_positions().into_iter().filter(|p| p.code == "600000").collect();
    assert_eq!(lots.len(), 1);
    assert_eq!(lots[0].quantity, 50);
    assert!((lots[0].price.0 - 20.0).abs() < 1e-9);
}

#[test]
fn sell_multilot_closed_conserves_pnl() {
    let mut s: Store<F64> = Store::new();
    s.add_position("600000", f(10.0), 100, "2024-01-01", None);
    s.add_position("600000", f(20.0), 100, "2024-01-02", None);
    let o1 = s.sell_position("600000", f(30.0), 100, "2024-02-01", None).unwrap();
    assert!((o1.realized_pnl.0 - 2000.0).abs() < 1e-9);
    let o2 = s.sell_position("600000", f(30.0), 100, "2024-02-02", None).unwrap();
    assert!((o2.realized_pnl.0 - 1000.0).abs() < 1e-9);
    assert!((s.realized_pnl(None).0 - 3000.0).abs() < 1e-9);
    assert_eq!(held_qty(&s, "600000"), 0);
}

#[test]
fn remove_purges_buys_keeps_sells() {
    let mut s: Store<F64> = Store::new();
    s.add_position("000001", f(5.0), 100, "2024-01-01", None);
    assert!(s.remove_position("000001"));
    assert!(s.list_trades().iter().all(|t| t.code != "000001"));
    s.add_position("600000", f(10.0), 100, "2024-01-01", None);
    s.sell_position("600000", f(12.0), 40, "2024-02-01", None).unwrap();
    s.remove_position("600000");
    let trades = s.list_trades();
    assert!(trades.iter().all(|t| !(t.code == "600000" && t.action == "buy")));
    assert_eq!(trades.iter().filter(|t| t.code == "600000" && t.action == "sell").count(), 1);
    assert!((s.realized_pnl(Some("600000")).0 - 80.0).abs() < 1e-9);
    assert_eq!(held_qty(&s, "600000"), 0);
}

#[test]
fn sell_records_trade_with_pnl() {
    let mut s: Store<F64> = Store::new();
    s.add_position("600000", f(10.0), 100, "2024-01-01", None);
    s.sell_position("600000", f(12.0), 40, "2024-02-01", Some("减仓")).unwrap();
    let trades = s.list_trades();
    let buy = trades.iter().find(|t| t.action == "buy").unwrap();
    assert!(buy.pnl.is_none() && buy.cost_basis.is_none());
    let sell = trades.iter().find(|t| t.action == "sell").unwrap();
    assert_eq!(sell.quantity, 40);
    assert!((sell.pnl.unwrap().0 - 80.0).abs() < 1e-9);
    assert!((sell.cost_basis.unwrap().0 - 10.0).abs() < 1e-9);
    assert_eq!(sell.note.as_deref(), Some("减仓"));
}

#[test]
fn refused_sales_say_why() {
    let mut s: Store<F64> = Store::new();
    s.add_position("600000", f(10.0), 100, "2024-01-01", None);
    let code = "600000";
    assert_eq!(
        s.sell_position(code, f(1.0), -1, "2024-02-01", None).err(),
        Some(SellError::NotPositive)
    );
    assert_eq!(
        s.sell_position("1", f(1.0), 1, "2024-02-01", None).err(),
        Some(SellError::NothingHeld)
    );
    assert_eq!(
        s.sell_position(code, f(1.0), 101, "2024-02-01", None).err(),
        Some(SellError::TooMany)
    );
    assert!(s.sell_position(code, f(1.0), 100, "2024-02-01", None).is_ok());
    assert_eq!(refusal(SellError::NotPositive, code, -1, 100), "卖出数量必须为正,收到 -1");
    assert_eq!(refusal(SellError::NothingHeld, "1", 1, 0), "1 无持仓");
    assert_eq!(refusal(SellError::TooMany, code, 101, 100), "卖出 101 股超过持仓 100 股");
}

#[test]
fn older_shares_go_first_whatever_the_order_of_entry() {
    let mut s: Store<F64> = Store::new();
    s.add_position("A", f(20.0), 100, "2024-01-02", None);
    s.add_position("A", f(10.0), 100, "2024-01-01", None);
    let dates: Vec<String> = s.list_positions().into_iter().map(|p| p.date).collect();
    assert_eq!(dates, vec!["2024-01-01", "2024-01-02"]);
    let o = s.sell_position("A", f(30.0), 100, "2024-02-01", None).unwrap();
    assert_eq!(o.avg_cost, f(10.0));
}

#[test]
fn two_sales_cost_as_much_as_one() {
    let lot = |s: &mut Store<Fixed>| {
        s.add_position("A", Fixed::parse("10.5").unwrap(), 30, "2024-01-01", None);
        s.add_position("A", Fixed::parse("12.25").unwrap(), 70, "2024-01-02", None);
    };
    let price = Fixed::parse("20").unwrap();
    let mut one: Store<Fixed> = Store::new();
    lot(&mut one);
    let whole = one.sell_position("A", price, 100, "2024-02-01", None).unwrap().realized_pnl;
    let mut two: Store<Fixed> = Store::new();
    lot(&mut two);
    let a = two.sell_position("A", price, 45, "2024-02-01", None).unwrap().realized_pnl;
    let b = two.sell_position("A", price, 55, "2024-02-01", None).unwrap().realized_pnl;
    assert_eq!(a.plus(b), whole);
    // 2000 less 315 and 857.5.
    assert_eq!(whole, Fixed::parse("827.5").unwrap());
    assert_eq!(two.list_positions().len(), 0);
}

#[test]
fn gains_by_code_and_cleared_codes() {
    let mut s: Store<F64> = Store::new();
    s.add_position("A", f(10.0), 100, "2024-01-01", None);
    s.add_position("B", f(5.0), 10, "2024-01-01", None);
    s.add_position("C", f(1.0), 10, "2024-01-01", None);
    s.sell_position("A", f(11.0), 100, "2024-02-01", None).unwrap();
    s.sell_position("B", f(4.0), 10, "2024-03-01", None).unwrap();
    s.sell_position("C", f(2.0), 5, "2024-03-01", None).unwrap();
    let gains = s.realized_by_code();
    assert_eq!(gains.get("A"), Some(f(100.0)));
    assert_eq!(gains.get("B"), Some(f(-10.0)));
    assert_eq!(gains.get("C"), Some(f(5.0)));
    assert_eq!(gains.get("D"), None);
    let closed = s.closed_positions();
    let codes: Vec<&str> = closed.iter().map(|c| c.code.as_str()).collect();
    assert_eq!(codes, vec!["B", "A"]);
    assert_eq!(closed[1].sold_qty, 100);
    assert_eq!(closed[1].cost, f(1000.0));
    assert_eq!(closed[1].realized_pnl, f(100.0));
    assert_eq!(closed[1].last_date, "2024-02-01");
}

#[test]
fn nothing_is_removed_of_what_is_not_held() {
    let mut s: Store<F64> = Store::new();
    s.add_position("A", f(10.0), 100, "2024-01-01", None);
    assert!(!s.remove_position("B"));
    assert_eq!(s.list_positions().len(), 1);
    assert_eq!(s.list_trades().len(), 1);
}

#[test]
fn trades_are_listed_by_date() {
    let mut s: Store<F64> = Store::new();
    s.add_position("A", f(1.0), 1, "2024-03-01", None);
    s.add_position("B", f(1.0), 1, "2024-01-01", Some("first"));
    s.add_position("C", f(1.0), 1, "2024-03-01", None);
    let codes: Vec<String> = s.list_trades().into_iter().map(|t| t.code).collect();
    assert_eq!(codes, vec!["B", "A", "C"]);
}

fn bar(code: &str, date: &str, close: f64) -> KLine<F64> {
    KLine {
        code: code.to_string(),
        date: date.to_string(),
        open: f(1.0),
        high: f(3.0),
        low: f(0.5),
        close: f(close),
        volume: f(10.0),
        amount: f(20.0),
        turnover: None,
    }
}

fn dates(v: Vec<KLine<F64>>) -> Vec<String> {
    v.into_iter().map(|k| k.date).collect()
}

#[test]
fn bars_by_date_and_range() {
    let mut s: Store<F64> = Store::new();
    let n = s.upsert_klines(
        &[
            bar("600000", "2024-01-03", 3.0),
            bar("600000", "2024-01-01", 1.0),
            bar("000001", "2024-01-02", 9.0),
            bar("600000", "2024-01-02", 2.0),
        ],
        Period::Day,
    );
    assert_eq!(n, 4);
    let all = dates(s.get_klines("600000", Period::Day, None, None));
    assert_eq!(all, ["2024-01-01", "2024-01-02", "2024-01-03"]);
    let some = s.get_klines("600000", Period::Day, Some("2024-01-02"), None);
    assert_eq!(dates(some), ["2024-01-02", "2024-01-03"]);
    let some = s.get_klines("600000", Period::Day, None, Some("2024-01-02"));
    assert_eq!(dates(some), ["2024-01-01", "2024-01-02"]);
    let some = s.get_klines("600000", Period::Day, Some("2024-01-02"), Some("2024-01-02"));
    assert_eq!(dates(some), ["2024-01-02"]);
    assert_eq!(s.kline_count("600000", Period::Day), 3);
    assert_eq!(s.kline_count("600001", Period::Day), 0);
    assert_eq!(
        s.latest_kline_date("600000", Period::Day).as_deref(),
        Some("2024-01-03")
    );
    assert_eq!(
        s.kline_date_range("600000", Period::Day),
        Some(("2024-01-01".to_string(), "2024-01-03".to_string()))
    );
    assert_eq!(s.kline_date_range("600001", Period::Day), None);
    assert_eq!(s.latest_kline_date("600001", Period::Day), None);
}

#[test]
fn bars_are_replaced_and_periods_kept_apart() {
    let mut s: Store<F64> = Store::new();
    s.upsert_klines(&[bar("600000", "2024-01-01", 1.0)], Period::Day);
    s.upsert_klines(&[bar("600000", "2024-01-01", 2.0)], Period::Min5);
    s.upsert_klines(
        &[bar("600000", "2024-01-01", 5.0), bar("600000", "2024-01-01", 7.0)],
        Period::Day,
    );
    let day = s.get_klines("600000", Period::Day, None, None);
    assert_eq!(day.len(), 1);
    assert_eq!(day[0].close, f(7.0));
    let five = s.get_klines("600000", Period::Min5, None, None);
    assert_eq!(five.len(), 1);
    assert_eq!(five[0].close, f(2.0));
    s.upsert_klines(&[bar("600000", "2024-01-01", 7.0)], Period::Day);
    assert_eq!(s.kline_count("600000", Period::Day), 1);
}

fn valuation(code: &str, date: &str, pe: f64) -> Fundamental<F64> {
    Fundamental {
        code: code.to_string(),
        date: date.to_string(),
        pe_ttm: Some(f(pe)),
        pb_mrq: None,
        ps_ttm: None,
        total_mv: None,
    }
}

#[test]
fn valuations_by_date_and_the_latest() {
    let mut s: Store<F64> = Store::new();
    assert!(s.latest_fundamental("600000").is_none());
    assert!(s.latest_fundamental_date("600000").is_none());
    let n = s.upsert_fundamentals(&[
        valuation("600000", "2024-02-01", 8.0),
        valuation("600000", "2024-01-01", 7.0),
        valuation("000001", "2024-03-01", 6.0),
        valuation("600000", "2024-02-01", 9.0),
    ]);
    assert_eq!(n, 4);
    let all = s.get_fundamentals("600000", None, None);
    assert_eq!(all.len(), 2);
    assert_eq!(all[0].date, "2024-01-01");
    assert_eq!(all[1].pe_ttm, Some(f(9.0)));
    assert_eq!(s.get_fundamentals("600000", Some("2024-01-02"), None).len(), 1);
    assert_eq!(s.get_fundamentals("600000", None, Some("2023-12-31")).len(), 0);
    assert_eq!(s.latest_fundamental("600000").unwrap().pe_ttm, Some(f(9.0)));
    assert_eq!(
        s.latest_fundamental_date("600000").as_deref(),
        Some("2024-02-01")
    );
}

#[test]
fn valuations_of_others_stay() {
    let mut s: Store<F64> = Store::new();
    s.upsert_fundamentals(&[valuation("000001", "2024-03-01", 6.0)]);
    s.upsert_fundamentals(&[
        valuation("600000", "2024-03-01", 8.0),
        valuation("00700", "2024-02-01", 20.0),
    ]);
    let other = s.get_fundamentals("000001", None, None);
    assert_eq!(other.len(), 1);
    assert_eq!(other[0].date, "2024-03-01");
    assert_eq!(other[0].pe_ttm, Some(f(6.0)));
}

fn stock(code: &str, name: &str) -> Stock {
    Stock {
        code: code.to_string(),
        name: name.to_string(),
        market: Market::SH,
        added_at: "2024-01-01".to_string(),
        lot_size: 100,
    }
}

#[test]
fn watch_list_and_removal() {
    let mut s: Store<F64> = Store::new();
    s.add_stock(&stock("600519", "old"));
    s.add_stock(&stock("600000", "bank"));
    s.add_stock(&stock("600519", "new"));
    let codes: Vec<String> = s.list_stocks().into_iter().map(|x| x.code).collect();
    assert_eq!(codes, ["600000", "600519"]);
    assert_eq!(s.get_stock("600519").unwrap().name, "new");
    assert!(s.get_stock("000001").is_none());

    s.upsert_klines(&[bar("600519", "2024-01-01", 1.0)], Period::Day);
    s.upsert_klines(&[bar("600519", "2024-01-01", 1.0)], Period::Min60);
    s.upsert_klines(&[bar("600000", "2024-01-01", 1.0)], Period::Day);
    s.upsert_fundamentals(&[
        valuation("600519", "2024-01-01", 30.0),
        valuation("600000", "2024-01-01", 5.0),
    ]);
    s.add_position("600519", f(10.0), 100, "2024-01-01", None);
    assert!(s.remove_stock("600519"));
    assert!(!s.remove_stock("600519"));
    assert!(s.get_stock("600519").is_none());
    assert_eq!(s.kline_count("600519", Period::Day), 0);
    assert_eq!(s.kline_count("600519", Period::Min60), 0);
    assert!(s.latest_fundamental("600519").is_none());
    assert_eq!(s.kline_count("600000", Period::Day), 1);
    assert!(s.latest_fundamental("600000").is_some());
    assert_eq!(s.list_positions().len(), 1);
}

#[test]
fn notes_and_cash() {
    let mut s: Store<F64> = Store::new();
    assert!(s.get_meta("cash").is_none());
    assert_eq!(s.get_cash(), None);
    s.set_meta("color", "red");
    s.set_cash(f(12.5));
    assert_eq!(s.get_meta("cash").as_deref(), Some("12.5"));
    assert_eq!(s.get_cash(), Some(f(12.5)));
    s.set_cash(f(0.1));
    assert_eq!(s.get_cash(), Some(f(0.1)));
    assert_eq!(s.get_meta("color").as_deref(), Some("red"));
    s.set_meta("cash", "x");
    assert_eq!(s.get_cash(), None);
    s.set_meta("cash", "inf");
    assert_eq!(s.get_cash(), None);
    s.set_meta("cash", "NaN");
    assert_eq!(s.get_cash(), None);
}

#[test]
fn cash_in_decimals() {
    let mut s: Store<Fixed> = Store::new();
    for (text, shown) in [
        ("12.5", "12.500000"),
        ("-0.000001", "-0.000001"),
        ("0", "0.000000"),
        ("-9223372036854.775808", "-9223372036854.775808"),
    ] {
        let amount = Fixed::parse(text).unwrap();
        s.set_cash(amount);
        assert_eq!(s.get_meta("cash").as_deref(), Some(shown));
        assert_eq!(s.get_cash(), Some(amount));
    }
    s.set_cash(Fixed::nan());
    assert_eq!(s.get_cash(), None);
}

#[test]
fn a_cleared_code_gained_its_sales_less_its_purchases() {
    let d = |s: &str| Fixed::parse(s).unwrap();
    let mut s: Store<Fixed> = Store::new();
    s.add_position("A", d("10"), 100, "2024-01-01", None);
    s.sell_position("A", d("30"), 40, "2024-01-02", None).unwrap();
    s.add_position("A", d("20"), 100, "2024-01-03", None);
    s.add_position("B", d("1.5"), 10, "2024-01-03", None);
    s.sell_position("A", d("30"), 100, "2024-01-04", None).unwrap();
    s.sell_position("B", d("1"), 10, "2024-01-04", None).unwrap();
    s.sell_position("A", d("30"), 60, "2024-01-05", None).unwrap();
    assert_eq!(s.realized_pnl(Some("A")), d("3000"));
    assert_eq!(s.realized_pnl(Some("B")), d("-5"));
    assert_eq!(s.realized_pnl(None), d("2995"));
}

#[test]
fn trades_of_a_day_stand_by_their_numbers() {
    let mut s: Store<F64> = Store::new();
    s.add_position("A", f(1.0), 10, "2024-01-02", None);
    s.add_position("B", f(1.0), 10, "2024-01-01", None);
    s.sell_position("A", f(2.0), 5, "2024-01-02", None).unwrap();
    s.add_position("C", f(1.0), 10, "2024-01-01", None);
    s.remove_position("B");
    let listed: Vec<(String, i64)> = s.list_trades().into_iter().map(|t| (t.code, t.id)).collect();
    assert_eq!(
        listed,
        vec![("C".to_string(), 4), ("A".to_string(), 1), ("A".to_string(), 3)]
    );
}
