use stockrs::data::benchmark;
use stockrs::data::eastmoney;
use stockrs::data::fundamental;
use stockrs::data::fundamental::Paging;
use stockrs::data::hk;
use stockrs::data::sina;
use stockrs::data::source::{jitter_ms, jitter_of, wait_after, KlineHunt, QuoteHunt, Source};
use stockrs::data::store;
use stockrs::data::tencent;
use stockrs::data::wire::{dash_date, prefixed_code};
use stockrs::data::{KLine, Market, Period, Quote};
use stockrs::json;
use stockrs::json::Json;
use stockrs::num::Scalar;

/// Numbers of double precision.
#[derive(Debug, Clone, Copy, PartialEq, PartialOrd)]
struct F64(f64);

impl Scalar for F64 {
    fn from_int(n: i128) -> Self {
        F64(n as f64)
    }
    fn parse(s: &str) -> Option<Self> {
        s.parse::<f64>().ok().map(F64)
    }
    fn show(self) -> String {
        self.0.to_string()
    }
    fn show_rounded(self, places: usize) -> String {
        format!("{:.*}", places, self.0)
    }
    fn show_signed(self, places: usize) -> String {
        format!("{:+.*}", places, self.0)
    }
    fn nan() -> Self {
        F64(f64::NAN)
    }
    fn lowest() -> Self {
        F64(f64::MIN)
    }
    fn highest() -> Self {
        F64(f64::MAX)
    }
    fn plus(self, other: Self) -> Self {
        F64(self.0 + other.0)
    }
    fn minus(self, other: Self) -> Self {
        F64(self.0 - other.0)
    }
    fn times(self, other: Self) -> Self {
        F64(self.0 * other.0)
    }
    fn over(self, other: Self) -> Self {
        F64(self.0 / other.0)
    }
    fn less(self, other: Self) -> bool {
        self.0 < other.0
    }
    fn same(self, other: Self) -> bool {
        self.0 == other.0
    }
    fn is_finite(self) -> bool {
        self.0.is_finite()
    }
    fn sqrt(self) -> Self {
        F64(self.0.sqrt())
    }
    fn powf(self, exponent: Self) -> Self {
        F64(self.0.powf(exponent.0))
    }
    fn ceil(self) -> Self {
        F64(self.0.ceil())
    }
    fn round(self) -> i64 {
        self.0.round() as i64
    }
    fn trunc(self) -> i64 {
        self.0 as i64
    }
    fn order_key(self) -> i64 {
        let bits = (self.0 + 0.0).to_bits() as i64;
        bits ^ (((bits >> 63) as u64) >> 1) as i64
    }
    fn identical(self, other: Self) -> bool {
        self.0.to_bits() == other.0.to_bits()
    }
}


fn f(v: f64) -> F64 {
    F64(v)
}

fn doc(s: &str) -> Json {
    json::parse(s).unwrap()
}

fn values(params: &[(String, String)]) -> Vec<&str> {
    params.iter().map(|p| p.1.as_str()).collect()
}

// ---------------------------------------------------------------------------
// JSON
// ---------------------------------------------------------------------------
#[test]
fn documents_are_read() {
    let j = doc(r#"{"a":[1,-2,3.5e2,"x",null,true],"b":{"c":"d"}}"#);
    let a = j.get("a").unwrap();
    assert_eq!(a.at(0).unwrap().as_i64(), Some(1));
    assert_eq!(a.at(0).unwrap().as_u64(), Some(1));
    assert_eq!(a.at(1).unwrap().as_i64(), Some(-2));
    assert_eq!(a.at(1).unwrap().as_u64(), None);
    assert_eq!(a.at(2).unwrap().as_num::<F64>(), Some(f(350.0)));
    assert_eq!(a.at(2).unwrap().as_i64(), None);
    assert_eq!(a.at(3).unwrap().as_str(), Some("x"));
    assert!(a.at(4).unwrap().is_null());
    assert!(a.at(6).is_none());
    assert_eq!(j.get("b").unwrap().str_field("c"), Some("d"));
    assert!(j.get("z").is_none());
    assert!(json::parse("{\"a\":").is_none());
    assert_eq!(doc("18446744073709551615").as_u64(), Some(u64::MAX));
    assert_eq!(doc("18446744073709551615").as_i64(), None);
}

// ---------------------------------------------------------------------------
// Eastmoney
// ---------------------------------------------------------------------------
#[test]
fn eastmoney_bars() {
    let body = r#"{"data":{"name":"五粮液","klines":[
        "2024-01-02,10.1,10.5,10.9,9.8,1234,56789.5,1,2,3,0.45",
        "short,1,2",
        "2024-01-03,x,10.6,11,10,1,2,1,2,3,-"]}}"#;
    let (name, ks): (String, Vec<KLine<F64>>) = eastmoney::read_klines("000858", body).unwrap();
    assert_eq!(name, "五粮液");
    assert_eq!(ks.len(), 2);
    assert_eq!(ks[0].code, "000858");
    assert_eq!(ks[0].date, "2024-01-02");
    assert_eq!(ks[0].open, f(10.1));
    assert_eq!(ks[0].close, f(10.5));
    assert_eq!(ks[0].high, f(10.9));
    assert_eq!(ks[0].low, f(9.8));
    assert_eq!(ks[0].volume, f(1234.0));
    assert_eq!(ks[0].amount, f(56789.5));
    assert_eq!(ks[0].turnover, Some(f(0.45)));
    assert_eq!(ks[1].open, f(0.0));
    assert_eq!(ks[1].turnover, None);
}

#[test]
fn eastmoney_refuses_what_is_no_answer() {
    assert_eq!(
        eastmoney::read_klines::<F64>("1", r#"{"data":null}"#).err().unwrap(),
        "东财返回空数据，代码 1 可能不存在"
    );
    assert_eq!(eastmoney::read_klines::<F64>("1", "<").err().unwrap(), "解析东财K线响应失败");
    assert_eq!(
        eastmoney::read_quote::<F64>("1", "{}").err().unwrap(),
        "东财行情返回空，代码 1 可能不存在"
    );
    assert_eq!(eastmoney::read_quote::<F64>("1", "").err().unwrap(), "解析东财行情响应失败");
    assert_eq!(eastmoney::read_quotes::<F64>("[").err().unwrap(), "解析东财批量行情失败");
    assert_eq!(eastmoney::read_quotes::<F64>("{}").unwrap().len(), 0);
}

#[test]
fn eastmoney_quote_is_scaled() {
    let body = r#"{"data":{"f43":135536,"f44":135800,"f45":132200,"f46":132300,"f47":34604,
        "f48":4663368848.0,"f58":"贵州茅台","f59":2,"f60":132100,"f168":28,"f169":3436,"f170":260}}"#;
    let q: Quote<F64> = eastmoney::read_quote("600519", body).unwrap();
    assert_eq!(q.code, "600519");
    assert_eq!(q.name, "贵州茅台");
    assert_eq!(q.price, f(1355.36));
    assert_eq!(q.high, f(1358.0));
    assert_eq!(q.low, f(1322.0));
    assert_eq!(q.open, f(1323.0));
    assert_eq!(q.prev_close, f(1321.0));
    assert_eq!(q.change, f(34.36));
    assert_eq!(q.change_pct, f(0.026));
    assert_eq!(q.volume, f(34604.0));
    assert_eq!(q.turnover, Some(f(0.28)));
}

#[test]
fn eastmoney_list_is_scaled_by_each_record() {
    let body = r#"{"data":{"diff":[
        {"f1":2,"f2":135536,"f3":260,"f4":3436,"f12":"600519","f14":"贵州茅台","f18":132100},
        {"f1":3,"f2":1545,"f12":"161226","f14":"基金","f8":12},
        {"f2":"-","f12":"1"}]}}"#;
    let qs: Vec<Quote<F64>> = eastmoney::read_quotes(body).unwrap();
    assert_eq!(qs.len(), 3);
    assert_eq!(qs[0].price, f(1355.36));
    assert_eq!(qs[0].prev_close, f(1321.0));
    assert_eq!(qs[1].price, f(1.545));
    assert_eq!(qs[1].turnover, Some(f(0.12)));
    assert_eq!(qs[2].price, f(0.0));
    assert_eq!(qs[2].name, "");
}

#[test]
fn eastmoney_requests() {
    let p = eastmoney::klines_params("600519", Market::SH, Period::Day, "0", "20500101");
    assert_eq!(
        values(&p),
        vec![
            "1.600519",
            "f1,f2,f3,f4,f5,f6",
            "f51,f52,f53,f54,f55,f56,f57,f58,f59,f60,f61",
            "101",
            "1",
            "0",
            "20500101"
        ]
    );
    let reqs = vec![("600519".to_string(), Market::SH), ("000858".to_string(), Market::SZ)];
    assert_eq!(values(&eastmoney::quotes_params(&reqs))[1], "1.600519,0.000858");
    assert_eq!(values(&eastmoney::quote_params("00700", Market::HK))[0], "116.00700");
}

// ---------------------------------------------------------------------------
// Sina
// ---------------------------------------------------------------------------
/// 贵州茅台 in GBK.
const MAOTAI: [u8; 8] = [0xb9, 0xf3, 0xd6, 0xdd, 0xc3, 0xa9, 0xcc, 0xa8];

#[test]
fn sina_quotes_in_gbk() {
    let mut body: Vec<u8> = Vec::new();
    body.extend_from_slice(b"var hq_str_sh600519=\"");
    body.extend_from_slice(&MAOTAI);
    body.extend_from_slice(b",1323,1320,1353,1358,1322,0,0,3460400,466336.5,x\";\r\n");
    body.extend_from_slice(b"var hq_str_sz000001=\"\";\nnonsense\n");
    let qs: Vec<Quote<F64>> = sina::read_quotes(&body);
    assert_eq!(qs.len(), 1);
    let q = &qs[0];
    assert_eq!(q.code, "600519");
    assert_eq!(q.name, "贵州茅台");
    assert_eq!(q.price, f(1353.0));
    assert_eq!(q.prev_close, f(1320.0));
    assert_eq!(q.change, f(33.0));
    assert_eq!(q.change_pct, f(0.025));
    assert_eq!(q.open, f(1323.0));
    assert_eq!(q.high, f(1358.0));
    assert_eq!(q.low, f(1322.0));
    assert_eq!(q.volume, f(34604.0));
    assert_eq!(q.amount, f(466336.5));
    assert_eq!(sina::single_quote("600519", qs).unwrap().price, f(1353.0));
    assert_eq!(
        sina::single_quote::<F64>("1", Vec::new()).err().unwrap(),
        "新浪行情无数据，代码 1 可能停牌或不存在"
    );
}

#[test]
fn sina_bars_within_a_range() {
    let row = |d: &str| {
        format!(
            r#"{{"day":"{d}","open":"1","high":"3","low":"0.5","close":"2","volume":"250"}}"#
        )
    };
    let body = format!(
        "[{},{},{},{{\"close\":\"1\"}}]",
        row("2024-01-01"),
        row("2024-01-02"),
        row("2024-01-03")
    );
    let dates = |beg: &str, end: &str| -> Vec<String> {
        let ks: Vec<KLine<F64>> = sina::read_klines("1", &body, beg, end).unwrap();
        ks.into_iter().map(|k| k.date).collect()
    };
    assert_eq!(dates("0", "0").len(), 3);
    assert_eq!(dates("20240102", "20240102"), vec!["2024-01-02"]);
    assert_eq!(dates("20240103", "0"), vec!["2024-01-03"]);
    let ks: Vec<KLine<F64>> = sina::read_klines("1", &body, "0", "0").unwrap();
    assert_eq!(ks[0].volume, f(2.5));
    assert_eq!(ks[0].close, f(2.0));
    assert_eq!(ks[0].amount, f(0.0));
    assert_eq!(
        sina::read_klines::<F64>("1", "null", "0", "0").err().unwrap(),
        "新浪K线返回异常，代码 1 可能不存在"
    );
    assert_eq!(
        sina::read_klines::<F64>("1", "x", "0", "0").err().unwrap(),
        "解析新浪K线响应失败"
    );
}

#[test]
fn sina_requests() {
    let reqs = vec![("600519".to_string(), Market::SH), ("000858".to_string(), Market::SZ)];
    assert_eq!(sina::quotes_url(&reqs), "https://hq.sinajs.cn/list=sh600519,sz000858");
    let p = sina::klines_params("600519", Market::SH, Period::Day);
    assert_eq!(values(&p), vec!["sh600519", "240", "no", "1023"]);
    assert_eq!(prefixed_code("00700", Market::HK), "hk00700");
}

// ---------------------------------------------------------------------------
// Tencent
// ---------------------------------------------------------------------------
fn tencent_line(symbol: &str, name: &[u8], amount: &str) -> Vec<u8> {
    let mut fields: Vec<Vec<u8>> = vec![b"0".to_vec(); 39];
    fields[1] = name.to_vec();
    fields[3] = b"105".to_vec();
    fields[4] = b"100".to_vec();
    fields[5] = b"101".to_vec();
    fields[6] = b"77".to_vec();
    fields[33] = b"106".to_vec();
    fields[34] = b"99".to_vec();
    fields[37] = amount.as_bytes().to_vec();
    fields[38] = b"1.5".to_vec();
    let mut out = format!("v_{symbol}=\"").into_bytes();
    out.extend_from_slice(&fields.join(&b'~'));
    out.extend_from_slice(b"\";\n");
    out
}

#[test]
fn tencent_quotes_in_gbk() {
    let mut body = tencent_line("sh600519", &MAOTAI, "12");
    body.extend_from_slice(&tencent_line("hk00700", b"T", "12"));
    body.extend_from_slice(b"v_pv_none_match=\"1\";\n");
    let qs: Vec<Quote<F64>> = tencent::read_quotes(&body);
    assert_eq!(qs.len(), 2);
    assert_eq!(qs[0].code, "600519");
    assert_eq!(qs[0].name, "贵州茅台");
    assert_eq!(qs[0].price, f(105.0));
    assert_eq!(qs[0].change, f(5.0));
    assert_eq!(qs[0].change_pct, f(0.05));
    assert_eq!(qs[0].high, f(106.0));
    assert_eq!(qs[0].low, f(99.0));
    assert_eq!(qs[0].volume, f(77.0));
    assert_eq!(qs[0].amount, f(120_000.0));
    assert_eq!(qs[0].turnover, Some(f(1.5)));
    assert_eq!(qs[1].code, "00700");
    assert_eq!(qs[1].amount, f(12.0));
    assert_eq!(
        tencent::single_quote::<F64>("1", Vec::new()).err().unwrap(),
        "腾讯行情无数据，代码 1 可能不存在"
    );
}

#[test]
fn short_tencent_lines() {
    let qs: Vec<Quote<F64>> = tencent::parse_quotes("v_sz1=\"1~N~1~7~7~6\";");
    assert_eq!(qs.len(), 1);
    assert_eq!(qs[0].high, f(7.0));
    assert_eq!(qs[0].low, f(7.0));
    assert_eq!(qs[0].amount, f(0.0));
    assert_eq!(qs[0].turnover, None);
    assert_eq!(tencent::parse_quotes::<F64>("v_sz1=\"1~N~1~~7~6\";").len(), 0);
    assert_eq!(tencent::parse_quotes::<F64>("v_sz1=\"1~N~1~7~0~6\";")[0].change_pct, f(0.0));
}

#[test]
fn tencent_bars() {
    let body = r#"{"data":{"sh600519":{"qfqday":[["2024-01-02","1","2","3","0.5","9"],["x"],7]}}}"#;
    let ks: Vec<KLine<F64>> = tencent::read_klines("600519", Market::SH, body).unwrap();
    assert_eq!(ks.len(), 1);
    assert_eq!(ks[0].date, "2024-01-02");
    assert_eq!(ks[0].open, f(1.0));
    assert_eq!(ks[0].close, f(2.0));
    assert_eq!(ks[0].high, f(3.0));
    assert_eq!(ks[0].low, f(0.5));
    assert_eq!(ks[0].volume, f(9.0));
    let plain = r#"{"data":{"sh1":{"day":[["2024-01-02","1","2","3","0.5","9"]]}}}"#;
    assert_eq!(tencent::read_klines::<F64>("1", Market::SH, plain).unwrap().len(), 1);
    assert_eq!(
        tencent::read_klines::<F64>("1", Market::SZ, plain).err().unwrap(),
        "腾讯K线返回空，代码 1 可能不存在"
    );
    assert_eq!(
        tencent::read_klines::<F64>("1", Market::SH, r#"{"data":{"sh1":{}}}"#).err().unwrap(),
        "腾讯K线缺少日K字段，代码 1"
    );
    assert_eq!(
        tencent::read_klines::<F64>("1", Market::SH, "").err().unwrap(),
        "解析腾讯K线响应失败"
    );
    assert_eq!(
        tencent::klines_param("600519", Market::SH, "20240101", "0"),
        "sh600519,day,2024-01-01,,640,qfq"
    );
    assert_eq!(
        tencent::quotes_url(&[("00700".to_string(), Market::HK)]),
        "https://qt.gtimg.cn/q=hk00700"
    );
}

#[test]
fn dates_with_and_without_dashes() {
    assert_eq!(dash_date("20240102"), "2024-01-02");
    assert_eq!(dash_date("0"), "");
    assert_eq!(dash_date("2024-01-02"), "");
    assert_eq!(dash_date("二〇二四〇一〇二"), "");
    assert_eq!(dash_date("éééé"), "éé-é-é");
}

// ---------------------------------------------------------------------------
// Valuations
// ---------------------------------------------------------------------------
#[test]
fn valuations_come_page_by_page() {
    let mut p: Paging<F64> = Paging::new(Market::SZ);
    assert!(!p.done);
    let first = r#"{"result":{"pages":2,"data":[
        {"TRADE_DATE":"2024-01-02 00:00:00","PE_TTM":-3.5,"PB_MRQ":1.2,"PS_TTM":null,
         "TOTAL_MARKET_CAP":1e9},
        {"TRADE_DATE":"bad"}]}}"#;
    p.take("000858", first).unwrap();
    assert_eq!(p.page, 2);
    assert!(!p.done);
    assert_eq!(p.rows.len(), 1);
    assert_eq!(p.rows[0].date, "2024-01-02");
    assert_eq!(p.rows[0].pe_ttm, Some(f(-3.5)));
    assert_eq!(p.rows[0].ps_ttm, None);
    assert_eq!(p.rows[0].total_mv, Some(f(1e9)));
    assert_eq!(p.take("000858", "?").err().unwrap(), "解析东财基本面响应失败");
    assert_eq!(p.page, 2);
    p.take("000858", r#"{"result":{"pages":2,"data":[{"TRADE_DATE":"2024-01-03"}]}}"#).unwrap();
    assert!(p.done);
    assert_eq!(p.rows.len(), 2);

    let mut empty: Paging<F64> = Paging::new(Market::SH);
    empty.take("1", r#"{"result":null}"#).unwrap();
    assert!(empty.done);
    let hk: Paging<F64> = Paging::new(Market::HK);
    assert!(hk.done && hk.rows.is_empty());
}

#[test]
fn valuation_request() {
    let p = fundamental::page_params("600519", Market::SH, Some("2024-01-02"), 3);
    assert_eq!(p[2].1, "(SECUCODE=\"600519.SH\")(TRADE_DATE>='2024-01-02')");
    assert_eq!(p[3].1, "3");
    assert_eq!(p[4].1, "5000");
    let all = fundamental::page_params("000858", Market::SZ, None, 1);
    assert_eq!(all[2].1, "(SECUCODE=\"000858.SZ\")");
}

#[test]
fn hong_kong_lots() {
    assert_eq!(
        hk::read_lot_size(r#"{"result":{"data":[{"TRADE_UNIT":500}]}}"#),
        Ok(Some(500))
    );
    assert_eq!(hk::read_lot_size(r#"{"result":null}"#), Ok(None));
    assert_eq!(hk::read_lot_size(r#"{"result":{"data":[]}}"#), Ok(None));
    assert_eq!(hk::read_lot_size("!"), Err("解析港股 F10 响应失败".to_string()));
    assert_eq!(hk::lot_params("00700")[2].1, "(SECUCODE=\"00700.HK\")");
    assert_eq!(hk::metric_params("00700", "市净率")[4].1, "市净率");
}

fn chart(rows: &str) -> String {
    format!(
        r#"{{"Result":[{{"DisplayData":{{"resultData":{{"tplData":{{"result":
        {{"chartInfo":[{{"body":{rows}}}]}}}}}}}}}}]}}"#
    )
}

#[test]
fn hong_kong_figures() {
    let body = chart(r#"[["2024-01-03","12.5"],["2024-01-02 x","11"],["2024-01-04","-"],["1"],5]"#);
    let pe: Vec<(String, F64)> = hk::read_metric(&body).unwrap();
    assert_eq!(
        pe,
        vec![("2024-01-03".to_string(), f(12.5)), ("2024-01-02".to_string(), f(11.0))]
    );
    assert_eq!(hk::read_metric::<F64>("{}").unwrap(), vec![]);
    assert_eq!(hk::read_metric::<F64>("").err().unwrap(), "解析百度估值响应失败");

    let pb = vec![("2024-01-01".to_string(), f(1.0)), ("2024-01-01".to_string(), f(2.0))];
    let mv = vec![("2024-01-03".to_string(), f(3.0))];
    let rows = hk::merge("00700", &pe, &pb, &mv);
    let dates: Vec<&str> = rows.iter().map(|r| r.date.as_str()).collect();
    assert_eq!(dates, vec!["2024-01-01", "2024-01-02", "2024-01-03"]);
    assert_eq!(rows[0].pb_mrq, Some(f(2.0)));
    assert_eq!(rows[0].pe_ttm, None);
    assert_eq!(rows[2].pe_ttm, Some(f(12.5)));
    assert_eq!(rows[2].total_mv, Some(f(3e8)));
    assert_eq!(rows[2].ps_ttm, None);
    assert_eq!(rows[2].code, "00700");
}

// ---------------------------------------------------------------------------
// One source after the other
// ---------------------------------------------------------------------------
fn quote(code: &str, price: f64) -> Quote<F64> {
    Quote {
        code: code.into(),
        name: String::new(),
        price: f(price),
        change: f(0.0),
        change_pct: f(0.0),
        open: f(0.0),
        high: f(0.0),
        low: f(0.0),
        prev_close: f(0.0),
        volume: f(0.0),
        amount: f(0.0),
        turnover: None,
        pe: None,
        pb: None,
    }
}

fn bar(date: &str) -> KLine<F64> {
    KLine {
        code: "T".into(),
        date: date.into(),
        open: f(1.0),
        high: f(1.0),
        low: f(1.0),
        close: f(1.0),
        volume: f(0.0),
        amount: f(0.0),
        turnover: None,
    }
}

#[test]
fn bars_come_from_the_first_source_that_has_them() {
    let mut h = KlineHunt::new();
    assert_eq!(h.next(), Some(Source::Eastmoney));
    assert!(h.take::<F64>(Err("timeout".to_string())).is_none());
    assert_eq!(h.next(), Some(Source::Tencent));
    assert!(h.take::<F64>(Ok((String::new(), Vec::new()))).is_none());
    assert_eq!(h.next(), Some(Source::Sina));
    let (name, ks) = h.take(Ok(("N".to_string(), vec![bar("d")]))).unwrap();
    assert_eq!((name.as_str(), ks.len()), ("N", 1));
    assert_eq!(h.next(), None);
    assert_eq!(
        h.failure(),
        "所有日K源均失败：\n  [eastmoney] timeout\n  [tencent] 返回空数据"
    );
}

#[test]
fn quotes_are_made_up_from_several_sources() {
    let reqs: Vec<(String, Market)> = ["A", "B", "C", "A"]
        .iter()
        .map(|c| (c.to_string(), Market::SH))
        .collect();
    let mut h: QuoteHunt<F64> = QuoteHunt::new(&reqs);
    assert_eq!(h.next(), Some(Source::Eastmoney));
    h.take(Some(vec![quote("B", 1.0), quote("X", 9.0)]));
    let left: Vec<&str> = h.remaining.iter().map(|r| r.0.as_str()).collect();
    assert_eq!(left, vec!["A", "C", "A"]);
    assert_eq!(h.next(), Some(Source::Tencent));
    h.take(None);
    assert_eq!(h.next(), Some(Source::Sina));
    h.take(Some(vec![quote("A", 2.0), quote("B", 5.0)]));
    assert_eq!(h.next(), None);
    let (found, failed) = h.finish();
    let got: Vec<(&str, f64, Source)> =
        found.iter().map(|(q, s)| (q.code.as_str(), q.price.0, *s)).collect();
    assert_eq!(got, vec![("A", 2.0, Source::Sina), ("B", 1.0, Source::Eastmoney)]);
    assert_eq!(failed, vec!["C"]);
}

#[test]
fn nothing_more_is_asked_when_all_has_come() {
    let mut h: QuoteHunt<F64> = QuoteHunt::new(&[("A".to_string(), Market::SH)]);
    h.take(Some(vec![quote("A", 1.0)]));
    assert_eq!(h.next(), None);
    let (found, failed) = h.finish();
    assert_eq!(found.len(), 1);
    assert!(failed.is_empty());
    assert_eq!(Source::Xueqiu.name(), "xueqiu");
}

#[test]
fn waits_double() {
    assert_eq!(wait_after(1, 3, 0), Some(300));
    assert_eq!(wait_after(2, 3, 17), Some(617));
    assert_eq!(wait_after(3, 4, 0), Some(1200));
    assert_eq!(wait_after(3, 3, 0), None);
    assert_eq!(wait_after(1, 0, 0), None);
    assert_eq!(jitter_of(999_999_999, 400), 399);
    assert_eq!(jitter_of(5, 0), 0);
    assert!(jitter_ms(300) < 300);
}

#[test]
fn index_bars_from_the_store_or_from_afar() {
    assert!(benchmark::local_bars::<F64>(None).is_none());
    assert!(benchmark::local_bars(Some(vec![bar("a")])).is_none());
    assert_eq!(benchmark::local_bars(Some(vec![bar("a"), bar("b")])).unwrap().len(), 2);
    assert_eq!(
        benchmark::remote_range(Some("2024-01-02"), None),
        ("20240102".to_string(), "20500101".to_string())
    );
    assert_eq!(
        benchmark::remote_range(None, Some("2024-01-03")),
        ("0".to_string(), "20240103".to_string())
    );
    assert!(benchmark::fetched_bars::<F64>(Vec::new(), Some(vec![bar("a")])).is_none());
    assert_eq!(benchmark::fetched_bars(vec![bar("a")], None).unwrap().len(), 1);
    assert_eq!(benchmark::fetched_bars(vec![bar("a")], Some(Vec::new())).unwrap().len(), 0);
    assert_eq!(benchmark::benchmark_for("688001", Market::SH), Some("kc50"));
    assert_eq!(benchmark::benchmark_for("600519", Market::SH), Some("sh"));
    assert_eq!(benchmark::benchmark_for("300750", Market::SZ), Some("cyb"));
    assert_eq!(benchmark::benchmark_for("000858", Market::SZ), Some("sz"));
    assert_eq!(benchmark::benchmark_for("00700", Market::HK), None);
}

#[test]
fn rows_of_the_store() {
    assert_eq!(store::market_of_row("SH", "x"), Some(Market::SH));
    assert_eq!(store::market_of_row("?", "000858"), Some(Market::SZ));
    assert_eq!(store::market_of_row("?", "x"), None);
}
