//! The command that shows the latest indicators of a security.
use super::sheet;
use crate::data::models::{Fundamental, FundamentalView, KLine};
use crate::fixed::{is_ratio_of, units_in_all, Fixed};
use crate::indicator;
use crate::indicator::reading;
use crate::indicator::{boll, kdj, ma, macd, rsi};
use crate::num::Scalar;
use crate::text;
use vstd::prelude::*;

verus! {

/// The indicators at the last bar.
#[derive(Debug)]
pub struct Latest<N: Scalar> {
    pub date: String,
    pub close: N,
    pub ma: Option<N>,
    pub ma5: Option<N>,
    pub ma10: Option<N>,
    pub ma20: Option<N>,
    pub ema12: Option<N>,
    pub ema26: Option<N>,
    pub rsi: Option<N>,
    pub dif: Option<N>,
    pub dea: Option<N>,
    pub macd: Option<N>,
    pub k: Option<N>,
    pub d: Option<N>,
    pub j: Option<N>,
    pub upper: Option<N>,
    pub mid: Option<N>,
    pub lower: Option<N>,
}

/// The closing prices of bars.
pub open spec fn closes<N: Scalar>(klines: Seq<KLine<N>>) -> Seq<N> {
    Seq::new(klines.len(), |i: int| klines[i].close)
}

/// The highest prices of bars.
pub open spec fn highs<N: Scalar>(klines: Seq<KLine<N>>) -> Seq<N> {
    Seq::new(klines.len(), |i: int| klines[i].high)
}

/// The lowest prices of bars.
pub open spec fn lows<N: Scalar>(klines: Seq<KLine<N>>) -> Seq<N> {
    Seq::new(klines.len(), |i: int| klines[i].low)
}

/// The indicators at the last of some bars: the averages, the strength index and the bands
/// over a period, the moving averages over 12 and 26 bars with a signal over 9, and the
/// lines K, D and J over 9 bars.
pub open spec fn latest_of<N: Scalar>(klines: Seq<KLine<N>>, period: int, r: Latest<N>) -> bool {
    let i = klines.len() - 1;
    let c = closes(klines);
    let dif = macd::dif_of(c, 12, 26);
    let lines = kdj::kdj_lines(highs(klines), lows(klines), c, 9);
    &&& r.date@ == klines[i].date@
    &&& r.close == klines[i].close
    &&& r.ma == ma::sma_at(c, period, i)
    &&& r.ma5 == ma::sma_at(c, 5, i)
    &&& r.ma10 == ma::sma_at(c, 10, i)
    &&& r.ma20 == ma::sma_at(c, 20, i)
    &&& r.ema12 == ma::ema_at(c, 12, i)
    &&& r.ema26 == ma::ema_at(c, 26, i)
    &&& r.rsi == rsi::rsi_at(c, period, i)
    &&& r.dif == dif[i]
    &&& r.dea == macd::dea_at(dif, 9, i)
    &&& r.macd == macd::bar_at(dif, 9, i)
    &&& r.k == lines.0[i]
    &&& r.d == lines.1[i]
    &&& r.j == lines.2[i]
    &&& r.upper == boll::upper_at(c, period, N::whole(2), i)
    &&& r.mid == ma::sma_at(c, period, i)
    &&& r.lower == boll::lower_at(c, period, N::whole(2), i)
}

/// The indicators at the last of some bars; none where there are no bars.
pub fn latest<N: Scalar>(klines: &[KLine<N>], period: usize) -> (r: Option<Latest<N>>)
    ensures
        match r {
            Some(l) => klines@.len() > 0 && latest_of(klines@, period as int, l),
            None => klines@.len() == 0,
        },
{
    let n = klines.len();
    if n == 0 {
        return None;
    }
    let mut close: Vec<N> = Vec::new();
    let mut high: Vec<N> = Vec::new();
    let mut low: Vec<N> = Vec::new();
    let mut i: usize = 0;
    while i < n
        invariant
            n == klines@.len(),
            i <= n,
            close@ == closes(klines@).take(i as int),
            high@ == highs(klines@).take(i as int),
            low@ == lows(klines@).take(i as int),
        decreases n - i,
    {
        close.push(klines[i].close);
        high.push(klines[i].high);
        low.push(klines[i].low);
        i += 1;
        assert(close@ =~= closes(klines@).take(i as int));
        assert(high@ =~= highs(klines@).take(i as int));
        assert(low@ =~= lows(klines@).take(i as int));
    }
    assert(close@ =~= closes(klines@));
    assert(high@ =~= highs(klines@));
    assert(low@ =~= lows(klines@));
    let last: usize = n - 1;
    let c = close.as_slice();
    let m = indicator::macd(c, 12, 26, 9);
    let k = indicator::kdj(high.as_slice(), low.as_slice(), c, 9);
    let b = indicator::boll(c, period, N::from_int(2));
    Some(
        Latest {
            date: klines[last].date.clone(),
            close: klines[last].close,
            ma: indicator::sma(c, period)[last],
            ma5: indicator::sma(c, 5)[last],
            ma10: indicator::sma(c, 10)[last],
            ma20: indicator::sma(c, 20)[last],
            ema12: indicator::ema(c, 12)[last],
            ema26: indicator::ema(c, 26)[last],
            rsi: indicator::rsi(c, period)[last],
            dif: m.dif[last],
            dea: m.dea[last],
            macd: m.macd[last],
            k: k.k[last],
            d: k.d[last],
            j: k.j[last],
            upper: b.upper[last],
            mid: b.mid[last],
            lower: b.lower[last],
        },
    )
}

/// The worth of a company in hundreds of millions, or two dashes.
pub open spec fn worth_cell<N: Scalar>(v: Option<N>) -> Seq<char> {
    match v {
        Some(x) => x.quotient(N::whole(100_000_000)).rounded(1) + "亿"@,
        None => "--"@,
    }
}

/// The line of the latest valuation.
pub open spec fn valuation_line<N: Scalar>(f: FundamentalView<N>) -> Seq<char> {
    "PE(TTM): "@ + sheet::figure_cell(f.pe_ttm, 2) + "   PB: "@ + sheet::figure_cell(f.pb_mrq, 2)
        + "   PS(TTM): "@ + sheet::figure_cell(f.ps_ttm, 2) + "   总市值: "@ + worth_cell(
        f.total_mv,
    ) + "   (截至 "@ + f.date + ")"@
}

/// The lines of the latest indicators.
pub open spec fn indicator_lines<N: Scalar>(
    code: Seq<char>,
    period: nat,
    l: Latest<N>,
    f: Option<FundamentalView<N>>,
) -> Seq<Seq<char>> {
    let own = text::decimal(period);
    seq![
        code + " 最新技术指标（"@ + l.date@ + "）"@,
        "收盘价："@ + l.close.rounded(2),
        Seq::empty(),
        "MA"@ + text::right_padded(own, 3) + " : "@ + sheet::figure_cell(l.ma, 2),
        "MA5   : "@ + sheet::figure_cell(l.ma5, 2) + "   MA10  : "@ + sheet::figure_cell(l.ma10, 2)
            + "   MA20  : "@ + sheet::figure_cell(l.ma20, 2),
        "EMA12 : "@ + sheet::figure_cell(l.ema12, 2) + "   EMA26 : "@ + sheet::figure_cell(
            l.ema26,
            2,
        ),
        "RSI"@ + text::right_padded(own, 2) + ": "@ + sheet::figure_cell(l.rsi, 2),
        "MACD  : DIF "@ + sheet::figure_cell(l.dif, 2) + "  DEA "@ + sheet::figure_cell(l.dea, 2)
            + "  MACD "@ + sheet::figure_cell(l.macd, 2),
        "KDJ   : K "@ + sheet::figure_cell(l.k, 2) + "  D "@ + sheet::figure_cell(l.d, 2) + "  J "@
            + sheet::figure_cell(l.j, 2),
        "BOLL  : 上 "@ + sheet::figure_cell(l.upper, 2) + "  中 "@ + sheet::figure_cell(l.mid, 2)
            + "  下 "@ + sheet::figure_cell(l.lower, 2),
    ] + (match f {
        Some(f) => seq![Seq::empty(), valuation_line(f)],
        None => Seq::empty(),
    })
}

fn three<N: Scalar>(
    a: &str,
    x: Option<N>,
    b: &str,
    y: Option<N>,
    c: &str,
    z: Option<N>,
) -> (r: String)
    ensures
        r@ == a@ + sheet::figure_cell(x, 2) + b@ + sheet::figure_cell(y, 2) + c@
            + sheet::figure_cell(z, 2),
{
    let mut s = a.to_owned();
    sheet::put(&mut s, sheet::figure(x, 2), b);
    sheet::put(&mut s, sheet::figure(y, 2), c);
    s.append(sheet::figure(z, 2).as_str());
    s
}

/// The lines of the latest indicators, and of the latest valuation where one is stored.
pub fn report<N: Scalar>(
    code: &str,
    period: usize,
    l: &Latest<N>,
    f: &Option<Fundamental<N>>,
) -> (r: Vec<String>)
    ensures
        text::texts(r@) == indicator_lines(
            code@,
            period as nat,
            *l,
            match *f {
                Some(f) => Some(f@),
                None => None,
            },
        ),
{
    let own = text::show(period as u64);
    let mut out = sheet::no_lines();
    let mut s = code.to_owned();
    s.append(" 最新技术指标（");
    s.append(l.date.as_str());
    s.append("）");
    sheet::line(&mut out, s.as_str());
    let mut s = "收盘价：".to_owned();
    s.append(l.close.show_rounded(2).as_str());
    sheet::line(&mut out, s.as_str());
    proof {
        reveal_strlit("");
        assert(""@ =~= Seq::<char>::empty());
    }
    sheet::line(&mut out, "");
    let mut s = "MA".to_owned();
    sheet::put(&mut s, text::pad_right(own.as_str(), 3), " : ");
    s.append(sheet::figure(l.ma, 2).as_str());
    sheet::line(&mut out, s.as_str());
    sheet::line(
        &mut out,
        three("MA5   : ", l.ma5, "   MA10  : ", l.ma10, "   MA20  : ", l.ma20).as_str(),
    );
    let mut s = "EMA12 : ".to_owned();
    sheet::put(&mut s, sheet::figure(l.ema12, 2), "   EMA26 : ");
    s.append(sheet::figure(l.ema26, 2).as_str());
    sheet::line(&mut out, s.as_str());
    let mut s = "RSI".to_owned();
    sheet::put(&mut s, text::pad_right(own.as_str(), 2), ": ");
    s.append(sheet::figure(l.rsi, 2).as_str());
    sheet::line(&mut out, s.as_str());
    sheet::line(
        &mut out,
        three("MACD  : DIF ", l.dif, "  DEA ", l.dea, "  MACD ", l.macd).as_str(),
    );
    sheet::line(&mut out, three("KDJ   : K ", l.k, "  D ", l.d, "  J ", l.j).as_str());
    sheet::line(
        &mut out,
        three("BOLL  : 上 ", l.upper, "  中 ", l.mid, "  下 ", l.lower).as_str(),
    );
    match f {
        Some(f) => {
            sheet::line(&mut out, "");
            let mut s = three("PE(TTM): ", f.pe_ttm, "   PB: ", f.pb_mrq, "   PS(TTM): ", f.ps_ttm);
            s.append("   总市值: ");
            match f.total_mv {
                Some(x) => {
                    sheet::put(&mut s, x.over(N::from_int(100_000_000)).show_rounded(1), "亿");
                },
                None => {
                    s.append("--");
                },
            }
            s.append("   (截至 ");
            s.append(f.date.as_str());
            s.append(")");
            assert(s@ =~= valuation_line(f@));
            sheet::line(&mut out, s.as_str());
        },
        None => {},
    }
    assert(text::texts(out@) =~= indicator_lines(
        code@,
        period as nat,
        *l,
        match *f {
            Some(f) => Some(f@),
            None => None,
        },
    ));
    out
}

/// The figures at the last bar hang together: the difference and the slow average make the
/// fast one, the bar is twice the distance of the difference from its average, J is three
/// times K less twice D, and the middle lies midway between the bands. The averages over
/// five, ten and twenty bars are the means of as many closing prices.
pub proof fn latest_figures_agree(klines: Seq<KLine<Fixed>>, period: int, r: Latest<Fixed>)
    requires
        0 < klines.len(),
        0 < period,
        latest_of(klines, period, r),
    ensures
        r.close == klines.last().close,
        r.date@ == klines.last().date@,
        r.mid == r.ma,
        match (r.dif, r.ema12, r.ema26) {
            (Some(d), Some(f), Some(s)) => d.defined ==> d.units + s.units == f.units,
            (d, f, s) => d is None && (f is None || s is None),
        },
        match (r.macd, r.dif, r.dea) {
            (Some(b), Some(d), Some(e)) => b.defined ==> b.units == 2 * (d.units - e.units),
            (b, d, e) => b is None && e is None,
        },
        match (r.k, r.d, r.j) {
            (Some(k), Some(d), Some(j)) => j.defined ==> j.units == 3 * k.units - 2 * d.units,
            (k, d, j) => k is None && d is None && j is None,
        },
        match (r.upper, r.mid, r.lower) {
            (Some(u), Some(m), Some(l)) => u.defined && l.defined ==> u.units - m.units == m.units
                - l.units && l.units <= u.units,
            (u, m, l) => u is None && m is None && l is None,
        },
        is_mean_of_last(klines, 5, r.ma5),
        is_mean_of_last(klines, 10, r.ma10),
        is_mean_of_last(klines, 20, r.ma20),
        is_mean_of_last(klines, period, r.ma),
{
    let c = closes(klines);
    let i = klines.len() - 1;
    let two = Fixed::whole(2);
    reading::difference_leads_from_slow_to_fast(c, 12, 26, 9, i);
    reading::bar_is_twice_the_distance(c, 12, 26, 9, i);
    reading::oscillator_smooths_the_standing(highs(klines), lows(klines), c, 9, i);
    reading::bands_are_deviations_away(c, period, two, i);
    reading::simple_average_is_the_mean(c, 5, i);
    reading::simple_average_is_the_mean(c, 10, i);
    reading::simple_average_is_the_mean(c, 20, i);
    reading::simple_average_is_the_mean(c, period, i);
    assert(two.units == 2_000_000);
}

/// A figure is the mean of the last closing prices, rounded down to the unit; there is none
/// where there are less of them.
pub open spec fn is_mean_of_last(klines: Seq<KLine<Fixed>>, count: int, figure: Option<Fixed>) -> bool {
    let n = klines.len() as int;
    &&& figure is Some <==> count <= n
    &&& figure matches Some(m) ==> m.defined ==> is_ratio_of(
        m.units as int,
        units_in_all(closes(klines).subrange(n - count, n)),
        count,
    )
}

} // verus!
