use stockrs::fixed::Fixed;
use stockrs::num::Scalar;
use stockrs::utils::date::{
    can_count_from, civil_from_days, day_at, days_from_civil, days_since, days_since_at, from_epoch_ms, ms_at, now_ms,
    parse_ymd, show_day, to_epoch_ms, today,
};
use stockrs::utils::format::{char_width, display_width, money, pad_end, sparkline};

/// Numbers of double precision.
#[derive(Debug, Clone, Copy, PartialEq, PartialOrd)]
struct F64(f64);

impl Scalar for F64 {
    fn from_int(n: i128) -> Self {
        F64(n as f64)
    }
    fn parse(s: &str) -> Option<Self> {
        s.parse::<f64>().ok().map(F64)
    }
    fn show(self) -> String {
        self.0.to_string()
    }
    fn show_rounded(self, places: usize) -> String {
        format!("{:.*}", places, self.0)
    }
    fn show_signed(self, places: usize) -> String {
        format!("{:+.*}", places, self.0)
    }
    fn nan() -> Self {
        F64(f64::NAN)
    }
    fn lowest() -> Self {
        F64(f64::MIN)
    }
    fn highest() -> Self {
        F64(f64::MAX)
    }
    fn plus(self, other: Self) -> Self {
        F64(self.0 + other.0)
    }
    fn minus(self, other: Self) -> Self {
        F64(self.0 - other.0)
    }
    fn times(self, other: Self) -> Self {
        F64(self.0 * other.0)
    }
    fn over(self, other: Self) -> Self {
        F64(self.0 / other.0)
    }
    fn less(self, other: Self) -> bool {
        self.0 < other.0
    }
    fn same(self, other: Self) -> bool {
        self.0 == other.0
    }
    fn is_finite(self) -> bool {
        self.0.is_finite()
    }
    fn sqrt(self) -> Self {
        F64(self.0.sqrt())
    }
    fn powf(self, exponent: Self) -> Self {
        F64(self.0.powf(exponent.0))
    }
    fn ceil(self) -> Self {
        F64(self.0.ceil())
    }
    fn round(self) -> i64 {
        self.0.round() as i64
    }
    fn trunc(self) -> i64 {
        self.0 as i64
    }
    fn order_key(self) -> i64 {
        let bits = (self.0 + 0.0).to_bits() as i64;
        bits ^ (((bits >> 63) as u64) >> 1) as i64
    }
    fn identical(self, other: Self) -> bool {
        self.0.to_bits() == other.0.to_bits()
    }
}

#[test]
fn roundtrip_and_known_dates() {
    assert_eq!(parse_ymd("1970-01-01"), Some(0));
    assert_eq!(parse_ymd("2000-01-01"), Some(10957));
    for &(y, m, d) in &[(2024, 2, 29), (1999, 12, 31), (2025, 7, 14)] {
        let days = days_from_civil(y, m, d);
        assert_eq!(civil_from_days(days), (y, m, d));
    }
}

#[test]
fn days_between_dates() {
    let a = parse_ymd("2024-01-01").unwrap();
    let b = parse_ymd("2024-12-31").unwrap();
    assert_eq!(b - a, 365);
}

#[test]
fn bad_input_is_none() {
    assert!(parse_ymd("2024-13-01").is_none());
    assert!(parse_ymd("not-a-date").is_none());
    assert!(parse_ymd("2024-01").is_none());
}

#[test]
fn money_carries_cents_into_integer() {
    let money = |v: f64| money(F64(v));
    assert_eq!(money(0.0), "0.00");
    assert_eq!(money(2.5), "2.50");
    assert_eq!(money(1234.5), "1,234.50");
    assert_eq!(money(100000.0), "100,000.00");
    assert_eq!(money(-1680.0), "-1,680.00");
    assert_eq!(money(1.999), "2.00");
    assert_eq!(money(99.999), "100.00");
    assert_eq!(money(-1.999), "-2.00");
    assert_eq!(money(-0.001), "0.00");
}

#[test]
fn days_are_written_and_read_back() {
    for n in [-719_162, -1, 0, 59, 19_782, 20_000, 2_932_896] {
        assert_eq!(parse_ymd(&show_day(n)), Some(n));
    }
    assert_eq!(show_day(0), "1970-01-01");
    assert_eq!(show_day(19_782), "2024-02-29");
    assert_eq!(parse_ymd(" 2024 - 2 - 29 "), Some(19_782));
    assert_eq!(day_at(57_599), 0);
    assert_eq!(day_at(57_600), 1);
    assert_eq!(days_since_at("1970-01-01", 57_600), Some(1));
    assert_eq!(days_since_at("x", 0), None);
}

#[test]
fn the_clock_runs_after_2020() {
    assert!(now_ms() > 1_577_836_800_000);
    assert!(today().as_str() > "2020-01-01");
    assert_eq!(days_since(&today()), Some(0));
    assert_eq!(days_since("nonsense"), None);
}

#[test]
fn moments_in_beijing() {
    assert_eq!(to_epoch_ms("1970-01-01"), Some(-28_800_000));
    assert_eq!(from_epoch_ms(-28_800_000, true), "1970-01-01 00:00");
    assert_eq!(from_epoch_ms(-28_800_001, true), "1969-12-31 23:59");
    assert_eq!(from_epoch_ms(1_735_660_800_000, false), "2025-01-01");
    assert_eq!(to_epoch_ms("2024-13-01"), None);
    assert_eq!(ms_at(1, 999_999_999), 1_999);
    assert_eq!(ms_at(u64::MAX, 0), i64::MAX);
}

#[test]
fn texts_fill_columns() {
    assert_eq!(display_width("ab"), 2);
    assert_eq!(display_width("股票"), 4);
    assert_eq!(char_width('│'), char_width('a'));
    assert_eq!(pad_end("股票", 6), "股票  ");
    assert_eq!(pad_end("股票", 3), "股票");
    assert_eq!(display_width(&pad_end("a股", 10)), 10);
}

#[test]
fn charts_rise_from_low_to_high() {
    let data: Vec<F64> = [0.0, 0.5, 1.0].iter().map(|v| F64(*v)).collect();
    let line: Vec<char> = sparkline(&data, 46).chars().collect();
    assert_eq!(line.len(), 3);
    assert_eq!((line[0], line[2]), ('▁', '█'));
    let many: Vec<F64> = (0..100).map(|v| F64(v as f64)).collect();
    assert_eq!(sparkline(&many, 10).chars().count(), 10);
    assert_eq!(sparkline::<F64>(&[], 10), "");
}

#[test]
fn decimals_of_six_places() {
    let d = |s: &str| Fixed::parse(s).unwrap();
    assert_eq!(d("1.25").plus(d("-0.5")), d("0.75"));
    assert_eq!(d("1.5").times(d("1.5")), d("2.25"));
    assert_eq!(d("1").over(d("3")), d("0.333333"));
    assert_eq!(d("2").sqrt(), d("1.414213"));
    assert_eq!(d("-2.5").round(), -3);
    assert_eq!(d("2.9").trunc(), 2);
    assert!(d("1").less(d("1.000001")));
    assert!(!Fixed::nan().same(Fixed::nan()));
    assert!(!d("1").over(d("0")).is_finite());
    assert!(Fixed::parse("abc").is_none());
    assert_eq!(money(d("-1680")), "-1,680.00");
}

#[test]
fn days_that_the_calendar_lacks_are_none() {
    for s in ["2024-02-30", "2023-02-29", "1900-02-29", "2024-04-31", "2024-01-32", "2024-01-00"] {
        assert_eq!(parse_ymd(s), None, "{s}");
        assert_eq!(days_since(s), None, "{s}");
    }
    assert_eq!(parse_ymd("2000-02-29"), Some(11_016));
    assert_eq!(parse_ymd("2024-12-31"), Some(20_088));
    assert!(can_count_from("2024-02-30"));
    assert!(can_count_from("2024-02-29"));
    assert!(!can_count_from("9000000000000000000-01-01"));
    assert!(can_count_from("-9000000000000000000-01-01"));
}
