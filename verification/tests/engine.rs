use std::cell::{Cell, RefCell};
use stockrs::data::{KLine, Period};
use stockrs::engine::backtest;
use stockrs::engine::context::Ctx;
use stockrs::engine::metrics::{compute_benchmark, max_fall};
use stockrs::engine::portfolio;
use stockrs::engine::portfolio::{PortfolioCtx, StockData};
use stockrs::engine::position;
use stockrs::engine::rules::{floor_to_lot, FeeModel};
use stockrs::fixed::Fixed;
use stockrs::indicator::{boll, ema, kdj, macd, rsi, sma};
use stockrs::num::Scalar;
use stockrs::table::Table;

/// Numbers of double precision.
#[derive(Debug, Clone, Copy, PartialEq, PartialOrd)]
struct F64(f64);

impl Scalar for F64 {
    fn from_int(n: i128) -> Self {
        F64(n as f64)
    }
    fn parse(s: &str) -> Option<Self> {
        s.parse::<f64>().ok().map(F64)
    }
    fn show(self) -> String {
        self.0.to_string()
    }
    fn show_rounded(self, places: usize) -> String {
        format!("{:.*}", places, self.0)
    }
    fn show_signed(self, places: usize) -> String {
        format!("{:+.*}", places, self.0)
    }
    fn nan() -> Self {
        F64(f64::NAN)
    }
    fn lowest() -> Self {
        F64(f64::MIN)
    }
    fn highest() -> Self {
        F64(f64::MAX)
    }
    fn plus(self, other: Self) -> Self {
        F64(self.0 + other.0)
    }
    fn minus(self, other: Self) -> Self {
        F64(self.0 - other.0)
    }
    fn times(self, other: Self) -> Self {
        F64(self.0 * other.0)
    }
    fn over(self, other: Self) -> Self {
        F64(self.0 / other.0)
    }
    fn less(self, other: Self) -> bool {
        self.0 < other.0
    }
    fn same(self, other: Self) -> bool {
        self.0 == other.0
    }
    fn is_finite(self) -> bool {
        self.0.is_finite()
    }
    fn sqrt(self) -> Self {
        F64(self.0.sqrt())
    }
    fn powf(self, exponent: Self) -> Self {
        F64(self.0.powf(exponent.0))
    }
    fn ceil(self) -> Self {
        F64(self.0.ceil())
    }
    fn round(self) -> i64 {
        self.0.round() as i64
    }
    fn trunc(self) -> i64 {
        self.0 as i64
    }
    fn order_key(self) -> i64 {
        let bits = (self.0 + 0.0).to_bits() as i64;
        bits ^ (((bits >> 63) as u64) >> 1) as i64
    }
    fn identical(self, other: Self) -> bool {
        self.0.to_bits() == other.0.to_bits()
    }
}

fn f(v: f64) -> F64 {
    F64(v)
}

fn fs(v: &[f64]) -> Vec<F64> {
    v.iter().map(|x| F64(*x)).collect()
}

#[test]
fn sma_basic() {
    let d = fs(&[1.0, 2.0, 3.0, 4.0, 5.0]);
    let r = sma(&d, 3);
    assert_eq!(r[0], None);
    assert_eq!(r[1], None);
    assert_eq!(r[2], Some(f(2.0)));
    assert_eq!(r[4], Some(f(4.0)));
}

#[test]
fn ema_seed_is_sma() {
    let d = fs(&[1.0, 2.0, 3.0, 4.0]);
    let r = ema(&d, 2);
    assert_eq!(r[0], None);
    assert_eq!(r[1], Some(f(1.5)));
    assert!(r[3].unwrap() > r[1].unwrap());
}

#[test]
fn floor_to_lot_basic() {
    assert_eq!(floor_to_lot(1234, 100), 1200);
    assert_eq!(floor_to_lot(1234, 500), 1000);
    assert_eq!(floor_to_lot(999, 1000), 0);
    assert_eq!(floor_to_lot(1234, 0), 1234);
}

#[test]
fn a_share_fees_match_old_constants() {
    let m: FeeModel<F64> = FeeModel::a_share();
    assert!((m.buy_cost(f(100_000.0)).0 - 30.0).abs() < 1e-9);
    assert!((m.sell_cost(f(100_000.0)).0 - 130.0).abs() < 1e-9);
    assert!((m.buy_rate_approx().0 - 0.0003).abs() < 1e-12);
}

#[test]
fn hk_fees_charge_both_directions() {
    let m: FeeModel<F64> = FeeModel::hk();
    let buy = m.buy_cost(f(100_000.0)).0;
    let sell = m.sell_cost(f(100_000.0)).0;
    assert!((buy - sell).abs() < 1e-9);
    assert!(buy > 100.0 && buy < 130.0, "buy={}", buy);
}

#[test]
fn benchmark_beta_and_alpha() {
    let bench = fs(&[100.0, 110.0, 104.5, 106.59]);
    let strat = fs(&[100.0, 120.0, 108.0, 112.32]);
    let b = compute_benchmark("HS300".into(), "000300".into(), &strat, &bench);
    assert!((b.beta.0 - 2.0).abs() < 1e-6, "beta={}", b.beta.0);
    assert!(b.alpha_annual.0.abs() < 1e-6, "alpha={}", b.alpha_annual.0);
    assert!((b.total_return.0 - (106.59 / 100.0 - 1.0)).abs() < 1e-9);
    assert!(b.excess.0 > 0.0);
}

#[test]
fn benchmark_insufficient_samples() {
    let b = compute_benchmark("X".into(), "0".into(), &fs(&[100.0]), &fs(&[100.0]));
    assert!(b.beta.0.is_nan());
    assert!(b.alpha_annual.0.is_nan());
}

#[test]
fn basic_stats() {
    let dates: Vec<String> = ["d1", "d2", "d3", "d4"].iter().map(|s| s.to_string()).collect();
    let closes = fs(&[10.0, 12.0, 9.0, 11.0]);
    let s = position::compute(f(10.0), 100, &dates, &closes);
    assert_eq!(s.trading_days, 4);
    assert!((s.pnl.0 - 100.0).abs() < 1e-6);
    assert!((s.pnl_pct.0 - 0.1).abs() < 1e-6);
    assert_eq!(s.max_profit.2, "d2");
    assert_eq!(s.max_loss.2, "d3");
    assert!((s.max_drawdown.0 - (-0.25)).abs() < 1e-6);
    assert!((s.ret_day.unwrap().0 - (11.0 / 9.0 - 1.0)).abs() < 1e-6);
}

fn k(date: &str, o: f64, c: f64) -> KLine<F64> {
    KLine {
        code: "T".into(),
        date: date.into(),
        open: f(o),
        high: f(c.max(o)),
        low: f(c.min(o)),
        close: f(c),
        volume: f(0.0),
        amount: f(0.0),
        turnover: None,
    }
}

#[test]
fn buy_fills_next_open_and_realizes_pnl() {
    let klines = vec![k("d1", 10.0, 10.0), k("d2", 10.0, 10.0), k("d3", 12.0, 12.0)];
    let ctx = Ctx::new(
        klines,
        f(100_000.0),
        &[],
        100,
        FeeModel::a_share(),
        Period::Day,
    );
    let bar = Cell::new(0);
    let res = backtest::run(ctx, |mut c: Ctx<F64>| {
        if bar.get() == 0 {
            c.buy(f(10.0), 100);
        } else if bar.get() == 1 {
            c.sell(f(10.0), 100);
        }
        bar.set(bar.get() + 1);
        (c, None)
    })
    .unwrap()
    .0;
    assert_eq!(res.trades.len(), 2);
    assert_eq!(res.trades[0].action, "BUY");
    assert_eq!(res.trades[1].action, "SELL");
    let pnl = res.trades[1].pnl_pct.unwrap().0;
    assert!((pnl - 0.2).abs() < 1e-6);
    assert!(res.metrics.final_value.0 > 100_000.0);
}

fn left_after_buying(price: &str, cash: &str, lot: i64) -> (i64, Fixed) {
    let d = |s: &str| Fixed::parse(s).unwrap();
    let bar = |date: &str| KLine {
        code: "T".into(),
        date: date.into(),
        open: d(price),
        high: d(price),
        low: d(price),
        close: d(price),
        volume: d("0"),
        amount: d("0"),
        turnover: None,
    };
    let ctx = Ctx::new(
        vec![bar("d1"), bar("d2")],
        d(cash),
        &[],
        lot,
        FeeModel::a_share(),
        Period::Day,
    );
    let (res, last) = backtest::run(ctx, |mut c: Ctx<Fixed>| {
        c.buy(d(price), 5_000_000);
        (c, None)
    })
    .unwrap();
    (res.trades[0].shares, last.0.cash)
}

#[test]
fn purchases_are_covered_by_the_cash() {
    let d = |s: &str| Fixed::parse(s).unwrap();
    assert_eq!(left_after_buying("10", "1000.3", 100), (100, d("0")));
    assert_eq!(left_after_buying("10", "1900", 100), (100, d("899.7")));
    assert_eq!(left_after_buying("10", "1900", 0), (189, d("9.433")));
    // The unit cost of 0.0000010003 has no place for the charge.
    assert_eq!(
        left_after_buying("0.000001", "1", 1),
        (1_000_000, d("-0.0003"))
    );
}

fn stock(code: &str, bars: &[(&str, f64, f64)]) -> StockData<F64> {
    StockData {
        code: code.into(),
        name: code.into(),
        klines: bars.iter().map(|(d, o, c)| k(d, *o, *c)).collect(),
        funda: Vec::new(),
    }
}

#[test]
fn buy_fills_next_open_across_two_stocks() {
    let a = stock("A", &[("d1", 10.0, 10.0), ("d2", 10.0, 10.0), ("d3", 12.0, 12.0)]);
    let b = stock("B", &[("d1", 20.0, 20.0), ("d2", 20.0, 20.0), ("d3", 20.0, 20.0)]);
    let ctx = PortfolioCtx::new(vec![a, b], f(100_000.0), Table::new());
    let bar = Cell::new(0);
    let res = portfolio::run(ctx, |mut c: PortfolioCtx<F64>| {
        if bar.get() == 0 {
            c.buy("A".into(), 100);
        } else if bar.get() == 1 {
            c.sell("A".into(), 100);
        }
        bar.set(bar.get() + 1);
        (c, None)
    })
    .unwrap();
    assert_eq!(res.trades.len(), 2);
    assert_eq!(res.trades[0].action, "BUY");
    assert_eq!(res.trades[0].code, "A");
    assert_eq!(res.trades[1].action, "SELL");
    let pnl = res.trades[1].pnl_pct.unwrap().0;
    assert!((pnl - 0.2).abs() < 1e-6, "pnl={}", pnl);
    assert!(res.metrics.final_value.0 > 100_000.0);
    assert_eq!(res.equity.len(), 3);
}

#[test]
fn rank_orders_by_momentum_desc_and_excludes_nan() {
    let a = stock("A", &[("d1", 10.0, 10.0), ("d2", 10.0, 12.0)]);
    let b = stock("B", &[("d1", 10.0, 10.0), ("d2", 10.0, 11.0)]);
    let c = stock("C", &[("d2", 5.0, 5.0)]);
    let ctx = PortfolioCtx::new(vec![a, b, c], f(100_000.0), Table::new());
    let captured: RefCell<Vec<String>> = RefCell::new(Vec::new());
    portfolio::run(ctx, |ctx: PortfolioCtx<F64>| {
        if ctx.date() == "d2" {
            assert!(ctx.rank_fits(1));
            *captured.borrow_mut() = ctx.rank(1);
        }
        (ctx, None)
    })
    .unwrap();
    assert_eq!(captured.into_inner(), vec!["A".to_string(), "B".to_string()]);
}

#[test]
fn order_target_pct_rebalances_to_weight() {
    let a = stock("A", &[("d1", 10.0, 10.0), ("d2", 10.0, 10.0), ("d3", 10.0, 10.0)]);
    let ctx = PortfolioCtx::new(vec![a], f(100_000.0), Table::new());
    let bar = Cell::new(0);
    let res = portfolio::run(ctx, |mut c: PortfolioCtx<F64>| {
        if bar.get() == 0 {
            c.order_target_pct_f("A".into(), f(0.5));
        }
        bar.set(bar.get() + 1);
        (c, None)
    })
    .unwrap();
    let h = &res.holdings;
    assert_eq!(h.len(), 1);
    assert_eq!(h[0].shares, 5000);
}

#[test]
fn complaint_ends_the_back_test() {
    let klines = vec![k("d1", 10.0, 10.0), k("d2", 10.0, 10.0), k("d3", 12.0, 12.0)];
    let ctx = Ctx::new(klines, f(100.0), &[], 100, FeeModel::a_share(), Period::Day);
    let bars = Cell::new(0);
    let res = backtest::run(ctx, |c: Ctx<F64>| {
        bars.set(bars.get() + 1);
        let complaint = if bars.get() == 2 { Some("boom".to_string()) } else { None };
        (c, complaint)
    });
    assert_eq!(res.err(), Some("boom".to_string()));
    assert_eq!(bars.get(), 2);

    let a = stock("A", &[("d1", 10.0, 10.0), ("d2", 10.0, 10.0)]);
    let pf = PortfolioCtx::new(vec![a], f(100.0), Table::new());
    let res = portfolio::run(pf, |c: PortfolioCtx<F64>| (c, Some("halt".to_string())));
    assert_eq!(res.err(), Some("halt".to_string()));
}

#[test]
fn purchase_is_cut_to_what_cash_buys() {
    let klines = vec![k("d1", 10.0, 10.0), k("d2", 10.0, 10.0)];
    let ctx = Ctx::new(klines, f(2_500.0), &[], 100, FeeModel::a_share(), Period::Day);
    let (res, last) = backtest::run(ctx, |mut c: Ctx<F64>| {
        c.buy(f(10.0), 1_000);
        (c, None)
    })
    .unwrap();
    assert_eq!(last.position(), 200);
    assert_eq!(last.equity_curve().len(), 2);
    assert_eq!(res.trades.len(), 1);
    assert_eq!(res.trades[0].shares, 200);
    // 2500 less 2000 for the shares and 0.6 in fees, and shares worth 2000.
    assert!((res.metrics.final_value.0 - 2_499.4).abs() < 1e-9);
}

#[test]
fn sales_of_a_day_go_before_purchases() {
    let a = stock("A", &[("d1", 10.0, 10.0), ("d2", 10.0, 10.0), ("d3", 10.0, 10.0)]);
    let b = stock("B", &[("d1", 10.0, 10.0), ("d2", 10.0, 10.0), ("d3", 10.0, 10.0)]);
    let ctx = PortfolioCtx::new(vec![a, b], f(10_100.0), Table::new());
    let res = portfolio::run(ctx, |mut c: PortfolioCtx<F64>| {
        if c.date() == "d1" {
            c.buy("A".into(), 1_000);
        } else if c.date() == "d2" {
            c.buy("B".into(), 900);
            c.sell("A".into(), 1_000);
        }
        (c, None)
    })
    .unwrap();
    let trades: Vec<(&str, &str)> =
        res.trades.iter().map(|t| (t.code.as_str(), t.action.as_str())).collect();
    assert_eq!(trades, vec![("A", "BUY"), ("A", "SELL"), ("B", "BUY")]);
}

#[test]
fn what_is_kept_is_found_at_later_bars() {
    let klines = vec![k("d1", 1.0, 1.0), k("d2", 1.0, 2.0)];
    let ctx = Ctx::new(klines, f(100.0), &[], 100, FeeModel::a_share(), Period::Day);
    let seen = Cell::new(false);
    backtest::run(ctx, |mut c: Ctx<F64>| {
        if c.date() == "d1" {
            assert!(!c.has("entry".into()));
            c.set_f("entry".into(), f(7.5));
        } else {
            seen.set(c.has("entry".into()) && c.get_f("entry".into(), f(0.0)) == f(7.5));
            assert_eq!(c.get_i("none".into(), 3), 3);
        }
        (c, None)
    })
    .unwrap();
    assert!(seen.get());

    let a = stock("A", &[("d1", 10.0, 10.0), ("d2", 10.0, 10.0)]);
    let pf = PortfolioCtx::new(vec![a], f(100.0), Table::new());
    portfolio::run(pf, |mut c: PortfolioCtx<F64>| {
        if c.date() == "d1" {
            c.set_i("entry:A".into(), 4);
        } else {
            assert!(c.has("entry:A".into()) && !c.has("entry:B".into()));
            assert_eq!(c.get_i("entry:A".into(), 0), 4);
            assert_eq!(c.get_f("entry:B".into(), f(1.5)), f(1.5));
        }
        (c, None)
    })
    .unwrap();
}

#[test]
fn indicators_look_back_only() {
    let short = fs(&[3.0, 1.0, 4.0, 1.0, 5.0, 9.0, 2.0]);
    let mut long = short.clone();
    long.extend(fs(&[60.0, 0.5, 7.0]));
    for p in 1..5 {
        assert_eq!(sma(&short, p)[..], sma(&long, p)[..short.len()]);
        assert_eq!(ema(&short, p)[..], ema(&long, p)[..short.len()]);
        assert_eq!(rsi(&short, p)[..], rsi(&long, p)[..short.len()]);
        assert_eq!(boll(&short, p, f(2.0)).upper[..], boll(&long, p, f(2.0)).upper[..short.len()]);
        assert_eq!(
            kdj(&short, &short, &short, p).k[..],
            kdj(&long, &long, &long, p).k[..short.len()]
        );
    }
    assert_eq!(macd(&short, 2, 3, 2).macd[..], macd(&long, 2, 3, 2).macd[..short.len()]);
}

#[test]
fn bands_stand_two_deviations_away() {
    let d = fs(&[2.0, 4.0, 4.0, 4.0, 5.0, 5.0, 7.0, 9.0]);
    let b = boll(&d, 8, f(2.0));
    assert_eq!(b.mid[7], Some(f(5.0)));
    assert_eq!(b.upper[7], Some(f(9.0)));
    assert_eq!(b.lower[7], Some(f(1.0)));
    assert_eq!(b.upper[6], None);
}

#[test]
fn strength_and_stochastic_values() {
    assert_eq!(rsi(&fs(&[1.0, 2.0, 3.0]), 2)[2], Some(f(100.0)));
    let r = rsi(&fs(&[2.0, 3.0, 2.0]), 2)[2].unwrap().0;
    assert!((r - 50.0).abs() < 1e-9);
    let line = kdj(&fs(&[10.0, 12.0]), &fs(&[8.0, 9.0]), &fs(&[9.0, 12.0]), 2);
    assert_eq!(line.k[0], None);
    // The close is the highest price: 2/3 of 50 and 1/3 of 100.
    assert!((line.k[1].unwrap().0 - 200.0 / 3.0).abs() < 1e-9);
}

#[test]
fn purchases_are_of_whole_lots() {
    let klines = vec![k("d1", 10.0, 10.0), k("d2", 10.0, 10.0)];
    let ctx = Ctx::new(klines, f(100_000.0), &[], 100, FeeModel::a_share(), Period::Day);
    let (res, last) = backtest::run(ctx, |mut c: Ctx<F64>| {
        c.buy(f(10.0), 150);
        (c, None)
    })
    .unwrap();
    assert_eq!((res.trades[0].shares, last.position()), (100, 100));

    let a = stock("A", &[("d1", 10.0, 10.0), ("d2", 10.0, 10.0)]);
    let pf = PortfolioCtx::new(vec![a], f(100_000.0), Table::new());
    let res = portfolio::run(pf, |mut c: PortfolioCtx<F64>| {
        c.buy("A".into(), 250);
        c.buy("A".into(), 99);
        (c, None)
    })
    .unwrap();
    assert_eq!(res.trades.len(), 1);
    assert_eq!(res.trades[0].shares, 200);
}

#[test]
fn a_back_test_keeps_to_the_rules() {
    let b = stock("B", &[("d1", 10.0, 11.0), ("d2", 12.0, 13.0), ("d3", 14.0, 15.0)]);
    let a = stock("A", &[("d1", 20.0, 21.0), ("d2", 22.0, 23.0), ("d3", 24.0, 25.0)]);
    let ctx = PortfolioCtx::new(vec![b, a], f(100_000.0), Table::new());
    let days: RefCell<Vec<String>> = RefCell::new(Vec::new());
    let res = portfolio::run(ctx, |mut c: PortfolioCtx<F64>| {
        days.borrow_mut().push(c.date());
        c.buy("B".into(), 200);
        c.sell("B".into(), 100);
        c.buy("A".into(), 100);
        (c, None)
    })
    .unwrap();
    assert_eq!(*days.borrow(), ["d1", "d2", "d3"]);
    assert_eq!(res.equity.len(), res.dates.len());
    let trades: Vec<(&str, &str, &str, f64)> = res
        .trades
        .iter()
        .map(|t| (t.date.as_str(), t.code.as_str(), t.action.as_str(), t.price.0))
        .collect();
    assert_eq!(
        trades,
        vec![
            ("d2", "B", "BUY", 12.0),
            ("d2", "A", "BUY", 22.0),
            ("d3", "B", "SELL", 14.0),
            ("d3", "B", "BUY", 14.0),
            ("d3", "A", "BUY", 24.0),
        ]
    );
    let held: Vec<(&str, i64)> =
        res.holdings.iter().map(|h| (h.code.as_str(), h.shares)).collect();
    assert_eq!(held, vec![("A", 200), ("B", 300)]);
}

#[test]
fn the_drawdown_is_the_deepest_fall() {
    let d = |s: &str| Fixed::parse(s).unwrap();
    let curve: Vec<Fixed> = ["100", "120", "90", "150", "120", "160"].map(d).to_vec();
    assert_eq!(max_fall(&curve), d("-0.25"));
    assert_eq!(max_fall(&[d("1"), d("1"), d("2")]), d("0"));
    assert_eq!(max_fall::<Fixed>(&[]), d("0"));
}
