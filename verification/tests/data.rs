use stockrs::data::benchmark::{resolve, resolve_input};
use stockrs::data::fundamental::align;
use stockrs::data::models::{infer_market, normalize_code, secid, secu_code};
use stockrs::data::{Fundamental, Market, Period};
use stockrs::num::Scalar;

/// Numbers of double precision.
#[derive(Debug, Clone, Copy, PartialEq, PartialOrd)]
struct F64(f64);

impl Scalar for F64 {
    fn from_int(n: i128) -> Self {
        F64(n as f64)
    }
    fn parse(s: &str) -> Option<Self> {
        s.parse::<f64>().ok().map(F64)
    }
    fn show(self) -> String {
        self.0.to_string()
    }
    fn show_rounded(self, places: usize) -> String {
        format!("{:.*}", places, self.0)
    }
    fn show_signed(self, places: usize) -> String {
        format!("{:+.*}", places, self.0)
    }
    fn nan() -> Self {
        F64(f64::NAN)
    }
    fn lowest() -> Self {
        F64(f64::MIN)
    }
    fn highest() -> Self {
        F64(f64::MAX)
    }
    fn plus(self, other: Self) -> Self {
        F64(self.0 + other.0)
    }
    fn minus(self, other: Self) -> Self {
        F64(self.0 - other.0)
    }
    fn times(self, other: Self) -> Self {
        F64(self.0 * other.0)
    }
    fn over(self, other: Self) -> Self {
        F64(self.0 / other.0)
    }
    fn less(self, other: Self) -> bool {
        self.0 < other.0
    }
    fn same(self, other: Self) -> bool {
        self.0 == other.0
    }
    fn is_finite(self) -> bool {
        self.0.is_finite()
    }
    fn sqrt(self) -> Self {
        F64(self.0.sqrt())
    }
    fn powf(self, exponent: Self) -> Self {
        F64(self.0.powf(exponent.0))
    }
    fn ceil(self) -> Self {
        F64(self.0.ceil())
    }
    fn round(self) -> i64 {
        self.0.round() as i64
    }
    fn trunc(self) -> i64 {
        self.0 as i64
    }
    fn order_key(self) -> i64 {
        let bits = (self.0 + 0.0).to_bits() as i64;
        bits ^ (((bits >> 63) as u64) >> 1) as i64
    }
    fn identical(self, other: Self) -> bool {
        self.0.to_bits() == other.0.to_bits()
    }
}

#[test]
fn infer_market_stocks_and_funds() {
    assert_eq!(infer_market("600519"), Some(Market::SH));
    assert_eq!(infer_market("000858"), Some(Market::SZ));
    assert_eq!(infer_market("300750"), Some(Market::SZ));
    assert_eq!(infer_market("161226"), Some(Market::SZ));
    assert_eq!(infer_market("159915"), Some(Market::SZ));
    assert_eq!(infer_market("510300"), Some(Market::SH));
    assert_eq!(infer_market("113050"), Some(Market::SH));
    assert_eq!(infer_market("abc"), None);
}

#[test]
fn period_parse_aliases_and_tags() {
    assert_eq!(Period::parse("d"), Some(Period::Day));
    assert_eq!(Period::parse("daily"), Some(Period::Day));
    assert_eq!(Period::parse("5m"), Some(Period::Min5));
    assert_eq!(Period::parse("m5"), Some(Period::Min5));
    assert_eq!(Period::parse("60m"), Some(Period::Min60));
    assert_eq!(Period::parse("1h"), Some(Period::Min60));
    assert_eq!(Period::parse("xyz"), None);
    for p in [
        Period::Day,
        Period::Min1,
        Period::Min5,
        Period::Min15,
        Period::Min30,
        Period::Min60,
    ] {
        assert_eq!(Period::parse(p.tag()), Some(p));
    }
}

#[test]
fn period_bars_per_year() {
    assert_eq!(Period::Day.bars_per_year::<F64>(), F64(252.0));
    assert_eq!(Period::Min5.bars_per_year::<F64>(), F64(252.0 * 48.0));
    assert_eq!(Period::Min60.bars_per_year::<F64>(), F64(252.0 * 4.0));
    assert!(Period::Min1.bars_per_year::<F64>() > Period::Day.bars_per_year::<F64>());
}

#[test]
fn secid_format() {
    assert_eq!(secid("161226", Market::SZ), "0.161226");
    assert_eq!(secid("600519", Market::SH), "1.600519");
}

#[test]
fn secu_code_format() {
    assert_eq!(secu_code("600519", Market::SH), "600519.SH");
    assert_eq!(secu_code("000858", Market::SZ), "000858.SZ");
}

#[test]
fn hk_secid_and_normalize() {
    assert_eq!(secid("00700", Market::HK), "116.00700");
    assert_eq!(normalize_code("600519"), Some(("600519".into(), Market::SH)));
    assert_eq!(normalize_code("000858"), Some(("000858".into(), Market::SZ)));
    assert_eq!(normalize_code("hk00700"), Some(("00700".into(), Market::HK)));
    assert_eq!(normalize_code("00700.HK"), Some(("00700".into(), Market::HK)));
    assert_eq!(normalize_code("00700"), Some(("00700".into(), Market::HK)));
    assert_eq!(normalize_code("700"), Some(("00700".into(), Market::HK)));
    assert_eq!(normalize_code("000700"), Some(("000700".into(), Market::SZ)));
    assert!(normalize_code("abc").is_none());
}

#[test]
fn resolve_aliases_and_market() {
    assert_eq!(resolve("hs300"), Some(("000300", "沪深300", Market::SH)));
    assert_eq!(resolve("000300"), Some(("000300", "沪深300", Market::SH)));
    assert_eq!(resolve("ZZ500"), Some(("000905", "中证500", Market::SH)));
    assert_eq!(resolve("cyb"), Some(("399006", "创业板指", Market::SZ)));
    assert_eq!(resolve("sz"), Some(("399001", "深证成指", Market::SZ)));
    assert!(resolve("不存在").is_none());
}

#[test]
fn resolve_input_index_vs_same_coded_stock() {
    let sh = |c: &str| Some((c.to_string(), Market::SH));
    let sz = |c: &str| Some((c.to_string(), Market::SZ));
    assert_eq!(resolve_input("sh000001"), sh("000001"));
    assert_eq!(resolve_input("SH000688"), sh("000688"));
    assert_eq!(resolve_input("sz399001"), sz("399001"));
    assert_eq!(resolve_input("sh600519"), sh("600519"));

    assert_eq!(resolve_input("上证指数"), sh("000001"));
    assert_eq!(resolve_input("hs300"), sh("000300"));
    assert_eq!(resolve_input("kc50"), sh("000688"));
    assert_eq!(resolve_input("sh"), sh("000001"));

    assert_eq!(resolve_input("000001"), sz("000001"));
    assert_eq!(resolve_input("000688"), sz("000688"));
    assert_eq!(resolve_input("600519"), sh("600519"));

    assert_eq!(resolve_input("hk00700"), Some(("00700".into(), Market::HK)));
    assert!(resolve_input("无效").is_none());
}

fn funda(date: &str, pe: Option<f64>, ps: Option<f64>) -> Fundamental<F64> {
    Fundamental {
        code: "T".into(),
        date: date.into(),
        pe_ttm: pe.map(F64),
        pb_mrq: Some(F64(1.5)),
        ps_ttm: ps.map(F64),
        total_mv: Some(F64(100.0)),
    }
}

#[test]
fn align_pit_carry_forward() {
    let fs = vec![
        funda("2024-01-02", Some(10.0), None),
        funda("2024-01-04", Some(20.0), Some(3.0)),
    ];
    let dates: Vec<String> = [
        "2024-01-01",
        "2024-01-02",
        "2024-01-03",
        "2024-01-04",
        "2024-01-05",
    ]
    .iter()
    .map(|s| s.to_string())
    .collect();
    let a = align(&dates, &fs);
    assert!(a.pe[0].0.is_nan());
    assert_eq!(a.pe[1], F64(10.0));
    assert_eq!(a.pe[2], F64(10.0));
    assert_eq!(a.pe[3], F64(20.0));
    assert_eq!(a.pe[4], F64(20.0));
    assert!(a.ps[1].0.is_nan());
    assert!(a.ps[2].0.is_nan());
    assert_eq!(a.ps[3], F64(3.0));
    assert_eq!(a.pb[1], F64(1.5));
}

#[test]
fn other_characters_mean_no_security() {
    for s in ["x700", "sh600519", "hk", "HK.HK", ".HK", "70x0.hk", "hk 700", "hk700000", "", "7000000"] {
        assert_eq!(normalize_code(s), None, "{s}");
    }
    let tencent = Some(("00700".to_string(), Market::HK));
    for s in [" 700 ", "Hk700", "700.hK", "hk00700.HK", "\u{3000}00700\u{a0}"] {
        assert_eq!(normalize_code(s), tencent, "{s}");
    }
}

#[test]
fn an_index_is_found_by_all_its_names() {
    let kc50 = Some(("000688", "科创50", Market::SH));
    for s in [" KC50 ", "kc50", "000688", "科创50", "\u{3000}科创50\n"] {
        assert_eq!(resolve(s), kc50, "{s}");
    }
    let aliases = ["hs300", "zz500", "zz1000", "sh", "sz", "cyb", "kc50"];
    for a in aliases {
        let (code, name, market) = resolve(a).unwrap();
        assert_eq!(resolve(code), Some((code, name, market)));
        assert_eq!(resolve(name), Some((code, name, market)));
    }
    assert_eq!(resolve_input("Sz399001"), Some(("399001".to_string(), Market::SZ)));
}
