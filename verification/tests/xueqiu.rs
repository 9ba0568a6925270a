use flate2::write::GzEncoder;
use flate2::Compression;
use std::io::Write;
use stockrs::data::xueqiu::{
    check_error, code_from_symbol, column_index, compact_to_ms, cookie, decode_body, klines_params,
    parse_klines, parse_quote, parse_quotes, quotes_params, read_body, read_klines, read_quotes,
    single_quote, symbol, token, token_missing, TOKEN_ENV,
};
use stockrs::data::{KLine, Market, Period, Quote};
use stockrs::json;
use stockrs::json::Json;
use stockrs::num::Scalar;
use stockrs::utils::date;

/// Numbers of double precision.
#[derive(Debug, Clone, Copy, PartialEq, PartialOrd)]
struct F64(f64);

impl Scalar for F64 {
    fn from_int(n: i128) -> Self {
        F64(n as f64)
    }
    fn parse(s: &str) -> Option<Self> {
        s.parse::<f64>().ok().map(F64)
    }
    fn show(self) -> String {
        self.0.to_string()
    }
    fn show_rounded(self, places: usize) -> String {
        format!("{:.*}", places, self.0)
    }
    fn show_signed(self, places: usize) -> String {
        format!("{:+.*}", places, self.0)
    }
    fn nan() -> Self {
        F64(f64::NAN)
    }
    fn lowest() -> Self {
        F64(f64::MIN)
    }
    fn highest() -> Self {
        F64(f64::MAX)
    }
    fn plus(self, other: Self) -> Self {
        F64(self.0 + other.0)
    }
    fn minus(self, other: Self) -> Self {
        F64(self.0 - other.0)
    }
    fn times(self, other: Self) -> Self {
        F64(self.0 * other.0)
    }
    fn over(self, other: Self) -> Self {
        F64(self.0 / other.0)
    }
    fn less(self, other: Self) -> bool {
        self.0 < other.0
    }
    fn same(self, other: Self) -> bool {
        self.0 == other.0
    }
    fn is_finite(self) -> bool {
        self.0.is_finite()
    }
    fn sqrt(self) -> Self {
        F64(self.0.sqrt())
    }
    fn powf(self, exponent: Self) -> Self {
        F64(self.0.powf(exponent.0))
    }
    fn ceil(self) -> Self {
        F64(self.0.ceil())
    }
    fn round(self) -> i64 {
        self.0.round() as i64
    }
    fn trunc(self) -> i64 {
        self.0 as i64
    }
    fn order_key(self) -> i64 {
        let bits = (self.0 + 0.0).to_bits() as i64;
        bits ^ (((bits >> 63) as u64) >> 1) as i64
    }
    fn identical(self, other: Self) -> bool {
        self.0.to_bits() == other.0.to_bits()
    }
}


const QUOTEC_SAMPLE: &str = r#"{"data":[
      {"symbol":"SZ000858","current":78.4,"percent":4.3,"chg":3.23,"volume":42992286,
       "amount":3.338939101E9,"turnover_rate":1.11,"open":75.1,"last_close":75.17,
       "high":78.74,"low":75.01},
      {"symbol":"SH600519","current":1355.36,"percent":2.6,"chg":34.36,"volume":3460448,
       "amount":4.663368848E9,"turnover_rate":0.28,"open":1323.0,"last_close":1321.0,
       "high":1358.0,"low":1322.0},
      {"symbol":"00700","current":465.4,"percent":-0.21,"chg":-1.0,"volume":9789459,
       "amount":4576759323.7,"turnover_rate":0.11,"open":466.4,"last_close":466.4,
       "high":474.4,"low":462.8}
    ],"error_code":0,"error_description":null}"#;

fn doc(s: &str) -> Json {
    json::parse(s).unwrap()
}

#[test]
fn symbol_mapping_roundtrip() {
    assert_eq!(symbol("600519", Market::SH), "SH600519");
    assert_eq!(symbol("000858", Market::SZ), "SZ000858");
    assert_eq!(symbol("00700", Market::HK), "00700");
    for (code, market) in [
        ("600519", Market::SH),
        ("000858", Market::SZ),
        ("00700", Market::HK),
    ] {
        assert_eq!(code_from_symbol(&symbol(code, market)), code);
    }
}

#[test]
fn parse_quotec_sample() {
    let json = doc(QUOTEC_SAMPLE);
    check_error(&json).unwrap();
    let qs: Vec<Quote<F64>> =
        json.get("data").unwrap().items().unwrap().iter().filter_map(parse_quote).collect();
    assert_eq!(qs.len(), 3);

    let mao = qs.iter().find(|q| q.code == "600519").unwrap();
    assert_eq!(mao.price.0, 1355.36);
    assert_eq!(mao.prev_close.0, 1321.0);
    assert!((mao.change_pct.0 - 0.026).abs() < 1e-9);
    assert_eq!(mao.volume.0, 3460448.0 / 100.0);
    assert_eq!(mao.turnover, Some(F64(0.28)));
    assert!(mao.name.is_empty());
    assert!(mao.pe.is_none() && mao.pb.is_none());

    assert!(qs.iter().any(|q| q.code == "00700"));
    let tx = qs.iter().find(|q| q.code == "00700").unwrap();
    assert!(tx.change.0 < 0.0 && tx.change_pct.0 < 0.0);
}

#[test]
fn quote_without_price_is_dropped() {
    let json = doc(r#"{"symbol":"SH600519","current":null,"chg":0}"#);
    assert!(parse_quote::<F64>(&json).is_none());
}

#[test]
fn business_error_in_200_body_is_detected() {
    let e = doc(
        r#"{"error_description":"遇到错误，请刷新页面或者重新登录帐号后再试","error_code":"400016"}"#,
    );
    let msg = check_error(&e).unwrap_err();
    assert!(msg.contains(TOKEN_ENV), "msg={msg}");

    let ok = doc(r#"{"data":[],"error_code":0}"#);
    assert!(check_error(&ok).is_ok());
    let other = doc(r#"{"error_code":"1000","error_description":"x"}"#);
    assert!(check_error(&other).is_err());
}

fn gzipped(payload: &str) -> Vec<u8> {
    let mut enc = GzEncoder::new(Vec::new(), Compression::default());
    enc.write_all(payload.as_bytes()).unwrap();
    enc.finish().unwrap()
}

#[test]
fn gzip_and_plaintext_both_decode() {
    let payload = r#"{"error_code":0}"#;
    let gz = gzipped(payload);
    assert_eq!(decode_body(&gz).unwrap(), payload);
    assert_eq!(decode_body(payload.as_bytes()).unwrap(), payload);
}

#[test]
fn kline_parsed_by_column_name() {
    let data = doc(
        r#"{"symbol":"SH600519",
                "column":["volume","timestamp","close","open","high","low","amount","turnoverrate"],
                "item":[[3460448,1735660800000,1400.5,1390.0,1410.0,1385.0,4.8E9,0.28]]}"#,
    );
    let ks: Vec<KLine<F64>> = parse_klines("600519", Period::Day, &data);
    assert_eq!(ks.len(), 1);
    let k = &ks[0];
    assert_eq!(k.code, "600519");
    assert_eq!(k.open.0, 1390.0);
    assert_eq!(k.close.0, 1400.5);
    assert_eq!(k.high.0, 1410.0);
    assert_eq!(k.low.0, 1385.0);
    assert_eq!(k.volume.0, 3460448.0 / 100.0);
    assert_eq!(k.turnover, Some(F64(0.28)));
    assert_eq!(k.date, date::from_epoch_ms(1735660800000, false));
    assert!(!k.date.contains(':'));

    let ks_min: Vec<KLine<F64>> = parse_klines("600519", Period::Min5, &data);
    assert!(ks_min[0].date.contains(':'));
}

#[test]
fn kline_rows_missing_close_are_skipped() {
    let data = doc(
        r#"{"column":["timestamp","close"],
                "item":[[1735660800000,null],[1735747200000,10.0],"garbage"]}"#,
    );
    let ks: Vec<KLine<F64>> = parse_klines("600519", Period::Day, &data);
    assert_eq!(ks.len(), 1);
    assert_eq!(ks[0].close.0, 10.0);
}

#[test]
fn compact_date_conversion() {
    assert_eq!(compact_to_ms("20240102"), date::to_epoch_ms("2024-01-02"));
    assert_eq!(compact_to_ms("0"), None);
    assert_eq!(compact_to_ms("2024-01-02"), None);
    assert_eq!(compact_to_ms("2024010"), None);
    assert_eq!(compact_to_ms("abcdefgh"), None);
}

#[test]
fn errors_are_spelled_out() {
    let login = check_error(&doc(r#"{"error_description":"过期","error_code":"400016"}"#));
    assert_eq!(
        login.unwrap_err(),
        "雪球要求登录(过期):请将浏览器 cookie 中 xq_a_token 的值设入环境变量 XUEQIU_TOKEN"
    );
    let number = check_error(&doc(r#"{"error_code":17,"error_description":""}"#));
    assert_eq!(number.unwrap_err(), "雪球接口报错 17:未知错误");
    let quoted = check_error(&doc(r#"{"error_code":"a\"b\n\u0001","error_description":"x"}"#));
    assert_eq!(quoted.unwrap_err(), "雪球接口报错 \"a\\\"b\\n\\u0001\":x");
    assert!(check_error(&doc(r#"{"error_code":"0"}"#)).is_ok());
    assert!(check_error(&doc(r#"{"error_code":""}"#)).is_ok());
    assert!(check_error(&doc(r#"{"error_code":[1]}"#)).is_ok());
    assert!(check_error(&doc(r#"{"error_code":1.5}"#)).is_ok());
}

#[test]
fn bodies_that_cannot_be_read() {
    assert_eq!(read_body(&[]).err().unwrap(), "雪球返回空响应(通常是未声明 gzip 或被限流)");
    assert_eq!(
        read_body(&[0xff, 0xfe, 0x00]).err().unwrap(),
        "雪球响应既不是 gzip 也不是合法 UTF-8"
    );
    assert_eq!(read_body(b"<html>").err().unwrap(), "解析雪球响应失败");
    assert_eq!(
        read_quotes::<F64>(br#"{"error_code":5}"#).err().unwrap(),
        "雪球接口报错 5:未知错误"
    );
}

#[test]
fn quotes_of_a_packed_answer() {
    let qs: Vec<Quote<F64>> = read_quotes(&gzipped(QUOTEC_SAMPLE)).unwrap();
    let codes: Vec<&str> = qs.iter().map(|q| q.code.as_str()).collect();
    assert_eq!(codes, vec!["000858", "600519", "00700"]);
    assert_eq!(single_quote("000858", qs).unwrap().price, F64(78.4));
    assert_eq!(
        single_quote::<F64>("1", Vec::new()).err().unwrap(),
        "雪球行情返回空,代码 1 可能不存在"
    );
    assert_eq!(parse_quotes::<F64>(&doc("{}")).len(), 0);
}

#[test]
fn bars_of_an_answer() {
    let body = br#"{"data":{"column":["timestamp","close"],"item":[[1735660800000,10.5]]}}"#;
    let ks: Vec<KLine<F64>> = read_klines("600519", Period::Min5, body).unwrap();
    assert_eq!(ks.len(), 1);
    assert_eq!(ks[0].date, "2025-01-01 00:00");
    // Without other prices the close stands for them.
    assert_eq!(ks[0].open, F64(10.5));
    assert_eq!(ks[0].volume, F64(0.0));
    assert_eq!(
        read_klines::<F64>("1", Period::Day, br#"{"data":null}"#).err().unwrap(),
        "雪球K线返回空数据,代码 1 可能不存在"
    );
}

#[test]
fn requests_are_put_together() {
    let reqs = vec![("600519".to_string(), Market::SH), ("00700".to_string(), Market::HK)];
    assert_eq!(
        quotes_params(&reqs),
        vec![("symbol".to_string(), "SH600519,00700".to_string())]
    );
    let params = klines_params("600519", Market::SH, Period::Min5, "0", "20240102", 7);
    let values: Vec<&str> = params.iter().map(|p| p.1.as_str()).collect();
    assert_eq!(
        values,
        vec!["SH600519", "631123200000", "1704124800000", "5m", "before", "kline"]
    );
    let open_end = klines_params("600519", Market::SH, Period::Day, "20240102", "x", 7);
    assert_eq!(open_end[2].1, "7");
}

#[test]
fn token_is_trimmed() {
    assert_eq!(token(Some(" \u{3000}abc\n".to_string())), Some("abc".to_string()));
    assert_eq!(token(Some(" \t".to_string())), None);
    assert_eq!(token(None), None);
    assert_eq!(cookie("t"), "xq_a_token=t; xqat=t");
    assert!(token_missing().ends_with(TOKEN_ENV));
}

#[test]
fn first_column_of_a_name_counts() {
    let columns: Vec<String> = ["a", "b", "a"].iter().map(|s| s.to_string()).collect();
    assert_eq!(column_index(&columns, "a"), Some(0));
    assert_eq!(column_index(&columns, "b"), Some(1));
    assert_eq!(column_index(&columns, "c"), None);
}
