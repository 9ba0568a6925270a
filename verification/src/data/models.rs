//! Securities and the records kept of them.
use crate::num::Scalar;
use crate::text;
use vstd::prelude::*;

verus! {

// ---------------------------------------------------------------------------
// Markets
// ---------------------------------------------------------------------------
/// A security on the watch list.
#[derive(Debug)]
pub struct Stock {
    pub code: String,
    pub name: String,
    pub market: Market,
    pub added_at: String,
    /// Shares of a board lot: 100 on the mainland, set by the company in Hong Kong.
    pub lot_size: i64,
}

/// A security of the watch list with its texts as sequences of characters.
pub ghost struct StockView {
    pub code: Seq<char>,
    pub name: Seq<char>,
    pub market: Market,
    pub added_at: Seq<char>,
    pub lot_size: i64,
}

impl View for Stock {
    type V = StockView;

    open spec fn view(&self) -> StockView {
        StockView {
            code: self.code@,
            name: self.name@,
            market: self.market,
            added_at: self.added_at@,
            lot_size: self.lot_size,
        }
    }
}

impl Clone for Stock {
    fn clone(&self) -> (r: Self)
        ensures
            r@ == self@,
    {
        Stock {
            code: self.code.clone(),
            name: self.name.clone(),
            market: self.market,
            added_at: self.added_at.clone(),
            lot_size: self.lot_size,
        }
    }
}

/// The securities of the watch list.
pub open spec fn stock_views(v: Seq<Stock>) -> Seq<StockView> {
    Seq::new(v.len(), |i: int| v[i]@)
}

/// Shanghai, Shenzhen and Hong Kong.
#[derive(Debug, Clone, Copy, PartialEq, Eq, Structural)]
pub enum Market {
    SH,
    SZ,
    HK,
}

/// The short name of a market.
pub open spec fn market_text(m: Market) -> Seq<char> {
    match m {
        Market::SH => "SH"@,
        Market::SZ => "SZ"@,
        Market::HK => "HK"@,
    }
}

/// The number of a market in a security identifier.
pub open spec fn market_number(m: Market) -> nat {
    match m {
        Market::SH => 1,
        Market::SZ => 0,
        Market::HK => 116,
    }
}

/// The market that a short name stands for.
pub open spec fn market_named(s: Seq<char>) -> Option<Market> {
    if s == "SH"@ {
        Some(Market::SH)
    } else if s == "SZ"@ {
        Some(Market::SZ)
    } else if s == "HK"@ {
        Some(Market::HK)
    } else {
        None
    }
}

impl Market {
    pub fn as_str(&self) -> (r: &'static str)
        ensures
            r@ == market_text(*self),
    {
        match self {
            Market::SH => "SH",
            Market::SZ => "SZ",
            Market::HK => "HK",
        }
    }

    pub fn from_str(s: &str) -> (r: Option<Market>)
        ensures
            r == market_named(s@),
    {
        if text::same(s, "SH") {
            Some(Market::SH)
        } else if text::same(s, "SZ") {
            Some(Market::SZ)
        } else if text::same(s, "HK") {
            Some(Market::HK)
        } else {
            None
        }
    }

    /// The number of the market in a security identifier: Shanghai 1, Shenzhen 0, Hong
    /// Kong 116.
    pub fn secid_prefix(&self) -> (r: u8)
        ensures
            r == market_number(*self),
    {
        match self {
            Market::SH => 1,
            Market::SZ => 0,
            Market::HK => 116,
        }
    }
}

/// The short name of a market stands for that market, and no other name does.
pub proof fn market_round_trip(m: Market, s: Seq<char>)
    ensures
        market_named(market_text(m)) == Some(m),
        market_named(s) == Some(m) ==> s == market_text(m),
{
    reveal_strlit("SH");
    reveal_strlit("SZ");
    reveal_strlit("HK");
    assert("SH"@[1] == 'H' && "SZ"@[1] == 'Z' && "HK"@[0] == 'H' && "SH"@[0] == 'S');
}

// ---------------------------------------------------------------------------
// Codes
// ---------------------------------------------------------------------------
/// The mainland market that a code belongs to, by its first digits.
pub open spec fn market_of(code: Seq<char>) -> Option<Market> {
    if code.len() == 0 {
        None
    } else if code[0] == '6' || code[0] == '9' || code[0] == '5' {
        Some(Market::SH)
    } else if code[0] == '0' || code[0] == '2' || code[0] == '3' {
        Some(Market::SZ)
    } else if code[0] == '1' {
        if code.len() > 1 && code[1] == '1' {
            Some(Market::SH)
        } else {
            Some(Market::SZ)
        }
    } else {
        None
    }
}

/// The mainland market that a code belongs to. Codes that begin with 6, 9 or 5 and
/// convertible bonds, which begin with 11, are traded in Shanghai; those that begin with
/// 0, 2 or 3 and what else begins with 1, in Shenzhen.
pub fn infer_market(code: &str) -> (r: Option<Market>)
    ensures
        r == market_of(code@),
{
    let v = text::chars_of(code);
    if v.len() == 0 {
        None
    } else if v[0] == '6' || v[0] == '9' || v[0] == '5' {
        Some(Market::SH)
    } else if v[0] == '0' || v[0] == '2' || v[0] == '3' {
        Some(Market::SZ)
    } else if v[0] == '1' {
        if v.len() > 1 && v[1] == '1' {
            Some(Market::SH)
        } else {
            Some(Market::SZ)
        }
    } else {
        None
    }
}

/// An input in capitals without an `HK` before it and a `.HK` behind it.
pub open spec fn bare(up: Seq<char>) -> Seq<char> {
    let tail = if text::starts(up, "HK"@) {
        up.skip(2)
    } else {
        up
    };
    if text::ends(tail, ".HK"@) {
        tail.take(tail.len() - 3)
    } else {
        tail
    }
}

/// The code and the market that a user's input means.
pub open spec fn normalized(input: Seq<char>) -> Option<(Seq<char>, Market)> {
    let up = text::uppercase(text::trimmed(input));
    let hong_kong = text::starts(up, "HK"@) || text::ends(up, ".HK"@);
    let digits = bare(up);
    if digits.len() == 0 || !text::all_digits(digits) {
        None
    } else if digits.len() <= 5 {
        Some((text::left_padded(digits, '0', 5), Market::HK))
    } else if digits.len() == 6 && !hong_kong {
        match market_of(digits) {
            Some(m) => Some((digits, m)),
            None => None,
        }
    } else {
        None
    }
}

/// A code and a market, taken apart from the text that holds the code.
pub open spec fn code_view(v: Option<(String, Market)>) -> Option<(Seq<char>, Market)> {
    match v {
        Some((code, m)) => Some((code@, m)),
        None => None,
    }
}

/// The code and the market that a user's input means. Digits with an `hk` before them or a
/// `.HK` behind them, or at most five digits, mean Hong Kong, whose codes have five digits;
/// six digits alone mean the mainland. An input with any other character means nothing.
pub fn normalize_code(input: &str) -> (r: Option<(String, Market)>)
    ensures
        code_view(r) == normalized(input@),
{
    let t = text::trim(input);
    let up = t.as_str().to_uppercase();
    assert(up@ == text::uppercase(text::trimmed(input@)));
    let hong_kong = text::starts_with(up.as_str(), "HK") || text::ends_with(up.as_str(), ".HK");
    let code = take_bare(up.as_str());
    let digits = text::chars_of(code.as_str());
    assert(digits@.skip(0) =~= digits@);
    if digits.len() == 0 || !text::is_numeric(&digits, 0) {
        return None;
    }
    if digits.len() <= 5 {
        Some((text::pad_left(&digits, '0', 5), Market::HK))
    } else if digits.len() == 6 && !hong_kong {
        match infer_market(code.as_str()) {
            Some(m) => Some((code, m)),
            None => None,
        }
    } else {
        None
    }
}

fn take_bare(up: &str) -> (r: String)
    ensures
        r@ == bare(up@),
{
    proof {
        reveal_strlit("HK");
        reveal_strlit(".HK");
    }
    let v = text::chars_of(up);
    let tail = if text::starts_with(up, "HK") {
        text::text_between(&v, 2, v.len())
    } else {
        up.to_owned()
    };
    assert(text::starts(up@, "HK"@) ==> tail@ =~= up@.skip(2));
    let w = text::chars_of(tail.as_str());
    if text::ends_with(tail.as_str(), ".HK") {
        let r = text::text_between(&w, 0, w.len() - 3);
        assert(r@ =~= tail@.take(tail@.len() - 3));
        r
    } else {
        tail
    }
}

/// What an input is normalised to is a code of digits: five of them in Hong Kong, six on
/// the mainland, of the market that the code belongs to. Normalising the code once more
/// changes nothing.
pub proof fn normalized_code_is_stable(input: Seq<char>)
    ensures
        normalized(input) matches Some((code, m)) ==> {
            &&& text::all_digits(code)
            &&& m == Market::HK ==> code.len() == 5
            &&& m != Market::HK ==> code.len() == 6 && market_of(code) == Some(m)
            &&& normalized(code) == Some((code, m))
        },
{
    if let Some((code, m)) = normalized(input) {
        let digits = bare(text::uppercase(text::trimmed(input)));
        text::padding_keeps_value(digits, 5);
        text::digits_have_no_case(code);
        reveal_strlit("HK");
        reveal_strlit(".HK");
        assert(text::is_digit(code[0]));
        assert(text::is_digit(code.last()));
        assert(!text::starts(code, "HK"@)) by {
            assert(text::starts(code, "HK"@) ==> code.subrange(0, 2)[0] == code[0]);
        }
        assert(!text::ends(code, ".HK"@)) by {
            assert(text::ends(code, ".HK"@) ==> code.subrange(code.len() - 3, code.len() as int)[2]
                == code.last());
        }
        assert(m == Market::HK ==> text::left_padded(code, '0', 5) == code);
    }
}

/// The identifier of a security: the number of its market, a dot and its code.
pub open spec fn secid_text(code: Seq<char>, market: Market) -> Seq<char> {
    text::decimal(market_number(market)) + seq!['.'] + code
}

pub fn secid(code: &str, market: Market) -> (r: String)
    ensures
        r@ == secid_text(code@, market),
{
    let mut out = text::show(market.secid_prefix() as u64);
    out.push('.');
    out.append(code);
    out
}

/// The code of a security, a dot and the short name of its market.
pub open spec fn secu_text(code: Seq<char>, market: Market) -> Seq<char> {
    code + seq!['.'] + market_text(market)
}

pub fn secu_code(code: &str, market: Market) -> (r: String)
    ensures
        r@ == secu_text(code@, market),
{
    let mut out = code.to_owned();
    out.push('.');
    out.append(market.as_str());
    out
}

// ---------------------------------------------------------------------------
// Periods
// ---------------------------------------------------------------------------
/// The time that one bar of a chart covers.
#[derive(Debug, Clone, Copy, PartialEq, Eq, Structural, Default)]
pub enum Period {
    #[default]
    Day,
    Min1,
    Min5,
    Min15,
    Min30,
    Min60,
}

/// The period that a small-letter word stands for.
pub open spec fn period_named(s: Seq<char>) -> Option<Period> {
    if s == "d"@ || s == "day"@ || s == "1d"@ || s == "daily"@ || s == "day1"@ {
        Some(Period::Day)
    } else if s == "1m"@ || s == "1"@ || s == "m1"@ || s == "min1"@ {
        Some(Period::Min1)
    } else if s == "5m"@ || s == "5"@ || s == "m5"@ || s == "min5"@ {
        Some(Period::Min5)
    } else if s == "15m"@ || s == "15"@ || s == "m15"@ || s == "min15"@ {
        Some(Period::Min15)
    } else if s == "30m"@ || s == "30"@ || s == "m30"@ || s == "min30"@ {
        Some(Period::Min30)
    } else if s == "60m"@ || s == "60"@ || s == "m60"@ || s == "min60"@ || s == "1h"@ || s == "h1"@ {
        Some(Period::Min60)
    } else {
        None
    }
}

/// The period that an input means, whatever its case and the white space around it.
pub open spec fn period_meant(s: Seq<char>) -> Option<Period> {
    period_named(text::ascii_lowered(text::trimmed(s)))
}

/// The mark of a period in the store.
pub open spec fn period_tag(p: Period) -> Seq<char> {
    match p {
        Period::Day => "d"@,
        Period::Min1 => "m1"@,
        Period::Min5 => "m5"@,
        Period::Min15 => "m15"@,
        Period::Min30 => "m30"@,
        Period::Min60 => "m60"@,
    }
}

/// How many minutes of trading a bar covers.
pub open spec fn period_minutes(p: Period) -> nat {
    match p {
        Period::Day => 240,
        Period::Min1 => 1,
        Period::Min5 => 5,
        Period::Min15 => 15,
        Period::Min30 => 30,
        Period::Min60 => 60,
    }
}

/// How many bars a year of 252 trading days has.
pub open spec fn year_bars(p: Period) -> int {
    252 * (240int / period_minutes(p) as int)
}

impl Period {
    /// The period that an input means: `d`, `1m`, `5m`, `15m`, `30m`, `60m` and other
    /// usual names.
    pub fn parse(s: &str) -> (r: Option<Period>)
        ensures
            r == period_meant(s@),
    {
        let t = text::lower_ascii(text::trim(s).as_str());
        let t = t.as_str();
        if text::same(t, "d") || text::same(t, "day") || text::same(t, "1d") || text::same(
            t,
            "daily",
        ) || text::same(t, "day1") {
            Some(Period::Day)
        } else if text::same(t, "1m") || text::same(t, "1") || text::same(t, "m1") || text::same(
            t,
            "min1",
        ) {
            Some(Period::Min1)
        } else if text::same(t, "5m") || text::same(t, "5") || text::same(t, "m5") || text::same(
            t,
            "min5",
        ) {
            Some(Period::Min5)
        } else if text::same(t, "15m") || text::same(t, "15") || text::same(t, "m15")
            || text::same(t, "min15") {
            Some(Period::Min15)
        } else if text::same(t, "30m") || text::same(t, "30") || text::same(t, "m30")
            || text::same(t, "min30") {
            Some(Period::Min30)
        } else if text::same(t, "60m") || text::same(t, "60") || text::same(t, "m60")
            || text::same(t, "min60") || text::same(t, "1h") || text::same(t, "h1") {
            Some(Period::Min60)
        } else {
            None
        }
    }

    /// The mark of the period in the store.
    pub fn tag(&self) -> (r: &'static str)
        ensures
            r@ == period_tag(*self),
    {
        match self {
            Period::Day => "d",
            Period::Min1 => "m1",
            Period::Min5 => "m5",
            Period::Min15 => "m15",
            Period::Min30 => "m30",
            Period::Min60 => "m60",
        }
    }

    /// The name of the period in a report.
    pub fn label(&self) -> (r: &'static str)
        ensures
            r@ == (match *self {
                Period::Day => "日K"@,
                Period::Min1 => "1分"@,
                Period::Min5 => "5分"@,
                Period::Min15 => "15分"@,
                Period::Min30 => "30分"@,
                Period::Min60 => "60分"@,
            }),
    {
        match self {
            Period::Day => "日K",
            Period::Min1 => "1分",
            Period::Min5 => "5分",
            Period::Min15 => "15分",
            Period::Min30 => "30分",
            Period::Min60 => "60分",
        }
    }

    /// Whether a bar covers less than a day.
    pub fn is_intraday(&self) -> (r: bool)
        ensures
            r == (*self != Period::Day),
    {
        match self {
            Period::Day => false,
            _ => true,
        }
    }

    /// The period in a request to Eastmoney.
    pub fn eastmoney_klt(&self) -> (r: &'static str)
        ensures
            r@ == (match *self {
                Period::Day => "101"@,
                Period::Min1 => "1"@,
                Period::Min5 => "5"@,
                Period::Min15 => "15"@,
                Period::Min30 => "30"@,
                Period::Min60 => "60"@,
            }),
    {
        match self {
            Period::Day => "101",
            Period::Min1 => "1",
            Period::Min5 => "5",
            Period::Min15 => "15",
            Period::Min30 => "30",
            Period::Min60 => "60",
        }
    }

    /// The minutes of a bar in a request to Sina; a day has 240 minutes of trading.
    pub fn sina_scale(&self) -> (r: &'static str)
        ensures
            r@ == (match *self {
                Period::Day => "240"@,
                Period::Min1 => "1"@,
                Period::Min5 => "5"@,
                Period::Min15 => "15"@,
                Period::Min30 => "30"@,
                Period::Min60 => "60"@,
            }),
    {
        match self {
            Period::Day => "240",
            Period::Min1 => "1",
            Period::Min5 => "5",
            Period::Min15 => "15",
            Period::Min30 => "30",
            Period::Min60 => "60",
        }
    }

    /// The period in a request to Xueqiu.
    pub fn xueqiu_period(&self) -> (r: &'static str)
        ensures
            r@ == (match *self {
                Period::Day => "day"@,
                Period::Min1 => "1m"@,
                Period::Min5 => "5m"@,
                Period::Min15 => "15m"@,
                Period::Min30 => "30m"@,
                Period::Min60 => "60m"@,
            }),
    {
        match self {
            Period::Day => "day",
            Period::Min1 => "1m",
            Period::Min5 => "5m",
            Period::Min15 => "15m",
            Period::Min30 => "30m",
            Period::Min60 => "60m",
        }
    }

    /// How many bars a year has: 252 days of 240 minutes.
    pub fn bars_per_year<N: Scalar>(&self) -> (r: N)
        ensures
            r == N::whole(year_bars(*self)),
    {
        N::from_int(
            match self {
                Period::Day => 252,
                Period::Min1 => 252 * 240,
                Period::Min5 => 252 * 48,
                Period::Min15 => 252 * 16,
                Period::Min30 => 252 * 8,
                Period::Min60 => 252 * 4,
            },
        )
    }
}

/// The mark of a period, read as an input, means that period.
pub proof fn period_round_trip(p: Period)
    ensures
        period_meant(period_tag(p)) == Some(p),
{
    let t = period_tag(p);
    reveal_strlit("d");
    reveal_strlit("day");
    reveal_strlit("1d");
    reveal_strlit("daily");
    reveal_strlit("day1");
    reveal_strlit("1m");
    reveal_strlit("1");
    reveal_strlit("m1");
    reveal_strlit("min1");
    reveal_strlit("5m");
    reveal_strlit("5");
    reveal_strlit("m5");
    reveal_strlit("min5");
    reveal_strlit("15m");
    reveal_strlit("15");
    reveal_strlit("m15");
    reveal_strlit("min15");
    reveal_strlit("30m");
    reveal_strlit("30");
    reveal_strlit("m30");
    reveal_strlit("min30");
    reveal_strlit("m60");
    text::trimmed_identity(t);
    assert(text::ascii_lowered(t) =~= t);
    assert("m1"@[0] == 'm' && "m1"@[1] == '1' && "m5"@[0] == 'm' && "m5"@[1] == '5');
    assert("m15"@[0] == 'm' && "m15"@[1] == '1' && "m15"@[2] == '5');
    assert("m30"@[0] == 'm' && "m30"@[1] == '3' && "m30"@[2] == '0');
    assert("m60"@[0] == 'm' && "m60"@[1] == '6' && "m60"@[2] == '0');
    assert("1d"@[0] == '1' && "1m"@[0] == '1' && "5m"@[0] == '5' && "15"@[0] == '1');
    assert("30"@[0] == '3' && "15m"@[0] == '1' && "30m"@[0] == '3' && "day"@[0] == 'd');
}

// ---------------------------------------------------------------------------
// Records
// ---------------------------------------------------------------------------
/// One bar of a chart.
#[derive(Debug)]
pub struct KLine<N: Scalar> {
    pub code: String,
    pub date: String,
    pub open: N,
    pub high: N,
    pub low: N,
    pub close: N,
    pub volume: N,
    pub amount: N,
    pub turnover: Option<N>,
}

/// A bar with its texts as sequences of characters.
pub ghost struct KLineView<N: Scalar> {
    pub code: Seq<char>,
    pub date: Seq<char>,
    pub open: N,
    pub high: N,
    pub low: N,
    pub close: N,
    pub volume: N,
    pub amount: N,
    pub turnover: Option<N>,
}

impl<N: Scalar> View for KLine<N> {
    type V = KLineView<N>;

    open spec fn view(&self) -> KLineView<N> {
        KLineView {
            code: self.code@,
            date: self.date@,
            open: self.open,
            high: self.high,
            low: self.low,
            close: self.close,
            volume: self.volume,
            amount: self.amount,
            turnover: self.turnover,
        }
    }
}

impl<N: Scalar> Clone for KLine<N> {
    fn clone(&self) -> (r: Self)
        ensures
            r@ == self@,
    {
        KLine {
            code: self.code.clone(),
            date: self.date.clone(),
            open: self.open,
            high: self.high,
            low: self.low,
            close: self.close,
            volume: self.volume,
            amount: self.amount,
            turnover: self.turnover,
        }
    }
}

/// The bars of a chart.
pub open spec fn bars<N: Scalar>(v: Seq<KLine<N>>) -> Seq<KLineView<N>> {
    Seq::new(v.len(), |i: int| v[i]@)
}

/// The valuation of a security on a day. A ratio that is not known is missing; that of a
/// company with losses is below zero.
#[derive(Debug)]
pub struct Fundamental<N: Scalar> {
    pub code: String,
    pub date: String,
    pub pe_ttm: Option<N>,
    pub pb_mrq: Option<N>,
    pub ps_ttm: Option<N>,
    pub total_mv: Option<N>,
}

/// A valuation with its texts as sequences of characters.
pub ghost struct FundamentalView<N: Scalar> {
    pub code: Seq<char>,
    pub date: Seq<char>,
    pub pe_ttm: Option<N>,
    pub pb_mrq: Option<N>,
    pub ps_ttm: Option<N>,
    pub total_mv: Option<N>,
}

impl<N: Scalar> View for Fundamental<N> {
    type V = FundamentalView<N>;

    open spec fn view(&self) -> FundamentalView<N> {
        FundamentalView {
            code: self.code@,
            date: self.date@,
            pe_ttm: self.pe_ttm,
            pb_mrq: self.pb_mrq,
            ps_ttm: self.ps_ttm,
            total_mv: self.total_mv,
        }
    }
}

impl<N: Scalar> Clone for Fundamental<N> {
    fn clone(&self) -> (r: Self)
        ensures
            r@ == self@,
    {
        Fundamental {
            code: self.code.clone(),
            date: self.date.clone(),
            pe_ttm: self.pe_ttm,
            pb_mrq: self.pb_mrq,
            ps_ttm: self.ps_ttm,
            total_mv: self.total_mv,
        }
    }
}

/// The valuations of a security.
pub open spec fn valuations<N: Scalar>(v: Seq<Fundamental<N>>) -> Seq<FundamentalView<N>> {
    Seq::new(v.len(), |i: int| v[i]@)
}

/// The price of a security at this moment. Turnover and ratios are missing where the
/// source does not give them.
#[derive(Debug)]
pub struct Quote<N: Scalar> {
    pub code: String,
    pub name: String,
    pub price: N,
    pub change: N,
    pub change_pct: N,
    pub open: N,
    pub high: N,
    pub low: N,
    pub prev_close: N,
    pub volume: N,
    pub amount: N,
    pub turnover: Option<N>,
    pub pe: Option<N>,
    pub pb: Option<N>,
}

/// A quote with its texts as sequences of characters.
pub ghost struct QuoteView<N: Scalar> {
    pub code: Seq<char>,
    pub name: Seq<char>,
    pub price: N,
    pub change: N,
    pub change_pct: N,
    pub open: N,
    pub high: N,
    pub low: N,
    pub prev_close: N,
    pub volume: N,
    pub amount: N,
    pub turnover: Option<N>,
    pub pe: Option<N>,
    pub pb: Option<N>,
}

impl<N: Scalar> View for Quote<N> {
    type V = QuoteView<N>;

    open spec fn view(&self) -> QuoteView<N> {
        QuoteView {
            code: self.code@,
            name: self.name@,
            price: self.price,
            change: self.change,
            change_pct: self.change_pct,
            open: self.open,
            high: self.high,
            low: self.low,
            prev_close: self.prev_close,
            volume: self.volume,
            amount: self.amount,
            turnover: self.turnover,
            pe: self.pe,
            pb: self.pb,
        }
    }
}

impl<N: Scalar> Clone for Quote<N> {
    fn clone(&self) -> (r: Self)
        ensures
            r@ == self@,
    {
        Quote {
            code: self.code.clone(),
            name: self.name.clone(),
            price: self.price,
            change: self.change,
            change_pct: self.change_pct,
            open: self.open,
            high: self.high,
            low: self.low,
            prev_close: self.prev_close,
            volume: self.volume,
            amount: self.amount,
            turnover: self.turnover,
            pe: self.pe,
            pb: self.pb,
        }
    }
}

/// The quotes of several securities.
pub open spec fn quote_views<N: Scalar>(v: Seq<Quote<N>>) -> Seq<QuoteView<N>> {
    Seq::new(v.len(), |i: int| v[i]@)
}

/// Shares bought at one time and still held, in whole or in part.
#[derive(Debug)]
pub struct Position<N: Scalar> {
    pub id: i64,
    pub code: String,
    pub price: N,
    pub quantity: i64,
    pub date: String,
    pub note: Option<String>,
}

/// A position with its texts as sequences of characters.
pub ghost struct PositionView<N: Scalar> {
    pub id: i64,
    pub code: Seq<char>,
    pub price: N,
    pub quantity: i64,
    pub date: Seq<char>,
    pub note: Option<Seq<char>>,
}

impl<N: Scalar> View for Position<N> {
    type V = PositionView<N>;

    open spec fn view(&self) -> PositionView<N> {
        PositionView {
            id: self.id,
            code: self.code@,
            price: self.price,
            quantity: self.quantity,
            date: self.date@,
            note: text::text_option(self.note),
        }
    }
}

impl<N: Scalar> Clone for Position<N> {
    fn clone(&self) -> (r: Self)
        ensures
            r@ == self@,
    {
        Position {
            id: self.id,
            code: self.code.clone(),
            price: self.price,
            quantity: self.quantity,
            date: self.date.clone(),
            note: text::copy_option(&self.note),
        }
    }
}

/// The positions held.
pub open spec fn position_views<N: Scalar>(v: Seq<Position<N>>) -> Seq<PositionView<N>> {
    Seq::new(v.len(), |i: int| v[i]@)
}

/// A purchase or a sale. A sale keeps what the shares sold had cost and what was gained.
#[derive(Debug)]
pub struct Trade<N: Scalar> {
    pub id: i64,
    pub code: String,
    pub action: String,
    pub price: N,
    pub quantity: i64,
    pub date: String,
    pub note: Option<String>,
    pub cost_basis: Option<N>,
    pub pnl: Option<N>,
}

/// A trade with its texts as sequences of characters.
pub ghost struct TradeView<N: Scalar> {
    pub id: i64,
    pub code: Seq<char>,
    pub action: Seq<char>,
    pub price: N,
    pub quantity: i64,
    pub date: Seq<char>,
    pub note: Option<Seq<char>>,
    pub cost_basis: Option<N>,
    pub pnl: Option<N>,
}

impl<N: Scalar> View for Trade<N> {
    type V = TradeView<N>;

    open spec fn view(&self) -> TradeView<N> {
        TradeView {
            id: self.id,
            code: self.code@,
            action: self.action@,
            price: self.price,
            quantity: self.quantity,
            date: self.date@,
            note: text::text_option(self.note),
            cost_basis: self.cost_basis,
            pnl: self.pnl,
        }
    }
}

impl<N: Scalar> Clone for Trade<N> {
    fn clone(&self) -> (r: Self)
        ensures
            r@ == self@,
    {
        Trade {
            id: self.id,
            code: self.code.clone(),
            action: self.action.clone(),
            price: self.price,
            quantity: self.quantity,
            date: self.date.clone(),
            note: text::copy_option(&self.note),
            cost_basis: self.cost_basis,
            pnl: self.pnl,
        }
    }
}

/// The trades made.
pub open spec fn trade_views<N: Scalar>(v: Seq<Trade<N>>) -> Seq<TradeView<N>> {
    Seq::new(v.len(), |i: int| v[i]@)
}

/// A year of 252 trading days has so many bars that their minutes are those of its days,
/// which have 240 each.
pub proof fn bars_fill_the_year(p: Period)
    ensures
        year_bars(p) * period_minutes(p) == 252 * 240,
        period_minutes(Period::Day) == 240,
        period_minutes(Period::Min1) == 1,
        period_minutes(Period::Min5) == 5,
        period_minutes(Period::Min15) == 15,
        period_minutes(Period::Min30) == 30,
        period_minutes(Period::Min60) == 60,
{
    let bars = year_bars(p);
    let minutes = period_minutes(p) as int;
    assert(bars * minutes == 252 * 240) by (nonlinear_arith)
        requires
            bars == 252 * (240int / minutes),
            minutes == 240 || minutes == 1 || minutes == 5 || minutes == 15 || minutes == 30
                || minutes == 60,
    ;
}

} // verus!
