//! How the figures of a quote or a valuation come out of what a source gives.
//!
//! The laws here are of decimals. They are stated over whole units, where each sum and each
//! comparison is exact, and say what rounding leaves open.
use super::eastmoney;
use super::hk;
use super::models::{KLineView, QuoteView};
use super::sina;
use super::tencent;
use super::wire;
use super::xueqiu;
use crate::fixed;
use crate::fixed::{is_ratio_of, Fixed, SCALE};
use crate::json;
use crate::json::JsonView;
use crate::num::Scalar;
use crate::text;
use vstd::prelude::*;

verus! {

/// The last close and the change make the price, and the change is told as a part of the
/// last close; where that is zero, the part is.
pub open spec fn change_leads_to_the_price(q: QuoteView<Fixed>) -> bool {
    &&& q.change.defined ==> q.prev_close.units + q.change.units == q.price.units
    &&& q.prev_close.defined && 0 < q.prev_close.units && q.change_pct.defined ==> is_ratio_of(
        q.change_pct.units as int,
        q.change.units * SCALE,
        q.prev_close.units as int,
    )
    &&& q.prev_close.defined && q.prev_close.units == 0 ==> q.change_pct.units == 0
}

proof fn part_of_the_last_close(change: Fixed, prev_close: Fixed)
    requires
        prev_close.defined,
        0 < prev_close.units,
        wire::change_part(change, prev_close).defined,
    ensures
        is_ratio_of(
            wire::change_part(change, prev_close).units as int,
            change.units * SCALE,
            prev_close.units as int,
        ),
{
    fixed::quotient_is_ratio(change, prev_close);
}

/// Sina gives the price and the last close, which the change leads from and to, and the
/// volume in shares, of which a hundred are a lot.
pub proof fn sina_quotes_add_up(code: Seq<char>, content: Seq<char>)
    ensures
        sina::quote_in::<Fixed>(code, content) matches Some(q) ==> {
            let shares = wire::number_at::<Fixed>(text::pieces(content, ','), 8);
            &&& change_leads_to_the_price(q)
            &&& shares.defined ==> is_ratio_of(q.volume.units as int, shares.units as int, 100)
        },
{
    match sina::quote_in::<Fixed>(code, content) {
        Some(q) => {
            let shares = wire::number_at::<Fixed>(text::pieces(content, ','), 8);
            if q.prev_close.defined && 0 < q.prev_close.units && q.change_pct.defined {
                part_of_the_last_close(q.change, q.prev_close);
            }
            if shares.defined {
                fixed::share_is_ratio(shares, 100);
            }
        },
        None => {},
    }
}

/// Tencent gives the price and the last close, which the change leads from and to, and for
/// the mainland the money traded in units of ten thousand.
pub proof fn tencent_quotes_add_up(code: Seq<char>, content: Seq<char>, is_hk: bool)
    ensures
        tencent::quote_in::<Fixed>(code, content, is_hk) matches Some(q) ==> {
            let f = text::pieces(content, '~');
            let money = wire::number_at::<Fixed>(f, 37);
            &&& change_leads_to_the_price(q)
            &&& 37 < f.len() && is_hk ==> q.amount == money
            &&& 37 < f.len() && !is_hk && q.amount.defined ==> q.amount.units == 10_000
                * money.units
            &&& f.len() <= 33 ==> q.high == q.price
            &&& f.len() <= 34 ==> q.low == q.price
        },
{
    match tencent::quote_in::<Fixed>(code, content, is_hk) {
        Some(q) => {
            let f = text::pieces(content, '~');
            let money = wire::number_at::<Fixed>(f, 37);
            if q.prev_close.defined && 0 < q.prev_close.units && q.change_pct.defined {
                part_of_the_last_close(q.change, q.prev_close);
            }
            if 37 < f.len() && !is_hk && q.amount.defined {
                fixed::product_is_part(money, Fixed::whole(10_000));
                fixed::multiple_is_exact(10_000, money);
            }
        },
        None => {},
    }
}

/// Xueqiu gives the change in per cent, and the volume in shares, of which a hundred are a
/// lot.
pub proof fn xueqiu_quotes_are_in_per_cent(d: JsonView)
    ensures
        xueqiu::quote_of::<Fixed>(d) matches Some(q) ==> {
            let percent = json::scalar_or_zero::<Fixed>(d, "percent"@);
            let shares = json::scalar_or_zero::<Fixed>(d, "volume"@);
            &&& percent.defined ==> is_ratio_of(
                q.change_pct.units as int,
                percent.units as int,
                100,
            )
            &&& shares.defined ==> is_ratio_of(q.volume.units as int, shares.units as int, 100)
        },
{
    let percent = json::scalar_or_zero::<Fixed>(d, "percent"@);
    let shares = json::scalar_or_zero::<Fixed>(d, "volume"@);
    if percent.defined {
        fixed::share_is_ratio(percent, 100);
    }
    if shares.defined {
        fixed::share_is_ratio(shares, 100);
    }
}

proof fn tens_are_powers(n: nat)
    requires
        n <= 12,
    ensures
        eastmoney::tens::<Fixed>(n) == Fixed::whole(fixed::tens(n) as int),
        Fixed::whole(fixed::tens(n) as int).defined,
        0 < fixed::tens(n) <= 1_000_000_000_000,
        n <= 11 ==> fixed::tens(n) <= 100_000_000_000,
    decreases n,
{
    if n > 0 {
        tens_are_powers((n - 1) as nat);
        let t = fixed::tens((n - 1) as nat) as int;
        reveal_with_fuel(fixed::tens, 13);
        fixed::multiple_is_exact(10, Fixed::whole(t));
    }
}

/// Eastmoney gives a price as a whole number with so many decimal places, and parts in ten
/// thousandths: the price, the point moved back, is that number.
pub proof fn eastmoney_prices_have_places(d: JsonView, key: Seq<char>, places: int)
    requires
        0 <= places <= 12,
        json::scalar_or_zero::<Fixed>(d, key).defined,
    ensures
        ({
            let raw = json::scalar_or_zero::<Fixed>(d, key).units as int;
            let price = eastmoney::divided::<Fixed>(
                d,
                key,
                eastmoney::scale_of::<Fixed>(places),
            );
            &&& price.defined
            &&& is_ratio_of(price.units as int, raw, fixed::tens(places as nat) as int)
        }),
{
    tens_are_powers(places as nat);
    fixed::share_is_ratio(
        json::scalar_or_zero::<Fixed>(d, key),
        fixed::tens(places as nat) as int,
    );
}

/// What Eastmoney gives of a security: prices and the change with the places that are said,
/// the change as a part in ten thousandths.
pub proof fn eastmoney_quotes_have_places(code: Seq<char>, j: JsonView, d: JsonView)
    requires
        json::present(json::field(j, "data"@)) == Some(d),
        0 <= eastmoney::places_in(d, "f59"@) <= 12,
        json::scalar_or_zero::<Fixed>(d, "f43"@).defined,
        json::scalar_or_zero::<Fixed>(d, "f169"@).defined,
        json::scalar_or_zero::<Fixed>(d, "f170"@).defined,
        json::scalar_or_zero::<Fixed>(d, "f60"@).defined,
    ensures
        eastmoney::quote_of::<Fixed>(code, j) is Some,
        ({
            let q = eastmoney::quote_of::<Fixed>(code, j).unwrap();
            let scale = fixed::tens(eastmoney::places_in(d, "f59"@) as nat) as int;
            &&& q.code == code
            &&& is_ratio_of(
                q.price.units as int,
                json::scalar_or_zero::<Fixed>(d, "f43"@).units as int,
                scale,
            )
            &&& is_ratio_of(
                q.change.units as int,
                json::scalar_or_zero::<Fixed>(d, "f169"@).units as int,
                scale,
            )
            &&& is_ratio_of(
                q.prev_close.units as int,
                json::scalar_or_zero::<Fixed>(d, "f60"@).units as int,
                scale,
            )
            &&& is_ratio_of(
                q.change_pct.units as int,
                json::scalar_or_zero::<Fixed>(d, "f170"@).units as int,
                10_000,
            )
        }),
{
    let places = eastmoney::places_in(d, "f59"@);
    eastmoney_prices_have_places(d, "f43"@, places);
    eastmoney_prices_have_places(d, "f169"@, places);
    eastmoney_prices_have_places(d, "f60"@, places);
    fixed::share_is_ratio(json::scalar_or_zero::<Fixed>(d, "f170"@), 10_000);
}

/// The value of a figure on a day is the last that is given for the day; there is none only
/// where none is given.
pub proof fn value_is_the_last_of_the_day<N: Scalar>(ps: Seq<(Seq<char>, N)>, day: Seq<char>)
    ensures
        match hk::value_on(ps, day) {
            Some(v) => exists|k: int|
                0 <= k < ps.len() && (#[trigger] ps[k]).0 == day && ps[k].1 == v && forall|j: int|
                    k < j < ps.len() ==> (#[trigger] ps[j]).0 != day,
            None => forall|j: int| 0 <= j < ps.len() ==> (#[trigger] ps[j]).0 != day,
        },
    decreases ps.len(),
{
    if ps.len() > 0 {
        let n = ps.len() - 1;
        if ps.last().0 == day {
            assert(ps[n].1 == hk::value_on(ps, day).unwrap());
        } else {
            let r = ps.drop_last();
            value_is_the_last_of_the_day(r, day);
            assert(forall|j: int| 0 <= j < r.len() ==> #[trigger] r[j] == ps[j]);
            match hk::value_on(r, day) {
                Some(v) => {
                    let k = choose|k: int|
                        0 <= k < r.len() && (#[trigger] r[k]).0 == day && r[k].1 == v
                            && forall|j: int| k < j < r.len() ==> (#[trigger] r[j]).0 != day;
                    assert(ps[k].0 == day);
                    assert forall|j: int| k < j < ps.len() implies (#[trigger] ps[j]).0
                        != day by {
                        if j < n {
                            assert(r[j] == ps[j]);
                        }
                    }
                },
                None => {
                    assert forall|j: int| 0 <= j < ps.len() implies (#[trigger] ps[j]).0
                        != day by {
                        if j < n {
                            assert(r[j] == ps[j]);
                        }
                    }
                },
            }
        }
    }
}

/// The valuation of a day in Hong Kong has the ratios of the day, and the market value,
/// which comes in units of a hundred million, in single ones.
pub proof fn valuation_is_of_the_day(
    code: Seq<char>,
    pe: Seq<(Seq<char>, Fixed)>,
    pb: Seq<(Seq<char>, Fixed)>,
    mv: Seq<(Seq<char>, Fixed)>,
    day: Seq<char>,
)
    ensures
        ({
            let f = hk::valuation_on(code, pe, pb, mv, day);
            &&& f.code == code
            &&& f.date == day
            &&& f.pe_ttm == hk::value_on(pe, day)
            &&& f.pb_mrq == hk::value_on(pb, day)
            &&& f.ps_ttm is None
            &&& f.total_mv is Some <==> hk::value_on(mv, day) is Some
            &&& f.total_mv matches Some(v) ==> v.defined ==> v.units == 100_000_000
                * hk::value_on(mv, day).unwrap().units
        }),
{
    match hk::value_on(mv, day) {
        Some(v) => {
            if v.defined {
                fixed::multiple_is_exact(100_000_000, v);
            }
        },
        None => {},
    }
}

// ---------------------------------------------------------------------------
// Rows that are read back
// ---------------------------------------------------------------------------
proof fn written_reads_back(f: Fixed)
    requires
        f.defined,
    ensures
        wire::number::<Fixed>(f.written()) == f,
        Fixed::denoted(f.written()) == Some(f),
        text::free_of(f.written(), ','),
        text::free_of(f.written(), '~'),
        0 < f.written().len(),
{
    fixed::notation_reads_back(f);
    fixed::notation_is_plain(f, ',');
    fixed::notation_is_plain(f, '~');
}

/// A bar that is written in the fields of a row as Eastmoney writes it, date, open, close,
/// high, low, volume and amount, and behind three fields that are not kept the turnover, is
/// read back.
pub proof fn eastmoney_rows_are_read_back(f: Seq<Seq<char>>, bar: KLineView<Fixed>)
    requires
        11 <= f.len(),
        forall|i: int| 0 <= i < f.len() ==> text::free_of(#[trigger] f[i], ','),
        f[0] == bar.date,
        bar.open.defined && f[1] == bar.open.written(),
        bar.close.defined && f[2] == bar.close.written(),
        bar.high.defined && f[3] == bar.high.written(),
        bar.low.defined && f[4] == bar.low.written(),
        bar.volume.defined && f[5] == bar.volume.written(),
        bar.amount.defined && f[6] == bar.amount.written(),
        bar.turnover is Some && bar.turnover.unwrap().defined && f[10]
            == bar.turnover.unwrap().written(),
    ensures
        eastmoney::bar_in::<Fixed>(bar.code, text::joined(f, seq![','])) == Some(bar),
{
    written_reads_back(bar.open);
    written_reads_back(bar.close);
    written_reads_back(bar.high);
    written_reads_back(bar.low);
    written_reads_back(bar.volume);
    written_reads_back(bar.amount);
    written_reads_back(bar.turnover.unwrap());
    text::joined_comes_apart(f, ',');
}

/// A quote that is written in the fields of a line as Sina writes it, name, open, last close,
/// price, high and low, and behind two fields that are not kept the shares and the amount, is
/// read back.
pub proof fn sina_lines_are_read_back(
    code: Seq<char>,
    f: Seq<Seq<char>>,
    q: QuoteView<Fixed>,
    shares: Fixed,
)
    requires
        10 <= f.len(),
        forall|i: int| 0 <= i < f.len() ==> text::free_of(#[trigger] f[i], ','),
        q.open.defined && f[1] == q.open.written(),
        q.prev_close.defined && f[2] == q.prev_close.written(),
        q.price.defined && f[3] == q.price.written(),
        q.high.defined && f[4] == q.high.written(),
        q.low.defined && f[5] == q.low.written(),
        shares.defined && f[8] == shares.written(),
        q.amount.defined && f[9] == q.amount.written(),
    ensures
        sina::quote_in::<Fixed>(code, text::joined(f, seq![','])) is Some,
        ({
            let r = sina::quote_in::<Fixed>(code, text::joined(f, seq![','])).unwrap();
            &&& r.code == code
            &&& r.name == f[0]
            &&& r.open == q.open
            &&& r.prev_close == q.prev_close
            &&& r.price == q.price
            &&& r.high == q.high
            &&& r.low == q.low
            &&& r.amount == q.amount
            &&& is_ratio_of(r.volume.units as int, shares.units as int, 100)
            &&& change_leads_to_the_price(r)
        }),
{
    written_reads_back(q.open);
    written_reads_back(q.prev_close);
    written_reads_back(q.price);
    written_reads_back(q.high);
    written_reads_back(q.low);
    written_reads_back(shares);
    written_reads_back(q.amount);
    text::joined_comes_apart(f, ',');
    sina_quotes_add_up(code, text::joined(f, seq![',']));
}

/// A quote that is written in the fields of a line as Tencent writes it, name, price, last
/// close, open and volume, and far behind high, low, amount and turnover, is read back.
pub proof fn tencent_lines_are_read_back(
    code: Seq<char>,
    f: Seq<Seq<char>>,
    is_hk: bool,
    q: QuoteView<Fixed>,
    money: Fixed,
)
    requires
        39 <= f.len(),
        forall|i: int| 0 <= i < f.len() ==> text::free_of(#[trigger] f[i], '~'),
        q.price.defined && f[3] == q.price.written(),
        q.prev_close.defined && f[4] == q.prev_close.written(),
        q.open.defined && f[5] == q.open.written(),
        q.volume.defined && f[6] == q.volume.written(),
        q.high.defined && f[33] == q.high.written(),
        q.low.defined && f[34] == q.low.written(),
        money.defined && f[37] == money.written(),
        q.turnover is Some && q.turnover.unwrap().defined && f[38]
            == q.turnover.unwrap().written(),
    ensures
        tencent::quote_in::<Fixed>(code, text::joined(f, seq!['~']), is_hk) is Some,
        ({
            let r = tencent::quote_in::<Fixed>(code, text::joined(f, seq!['~']), is_hk).unwrap();
            &&& r.code == code
            &&& r.name == f[1]
            &&& r.price == q.price
            &&& r.prev_close == q.prev_close
            &&& r.open == q.open
            &&& r.volume == q.volume
            &&& r.high == q.high
            &&& r.low == q.low
            &&& r.turnover == q.turnover
            &&& is_hk ==> r.amount == money
            &&& !is_hk && r.amount.defined ==> r.amount.units == 10_000 * money.units
            &&& change_leads_to_the_price(r)
        }),
{
    written_reads_back(q.price);
    written_reads_back(q.prev_close);
    written_reads_back(q.open);
    written_reads_back(q.volume);
    written_reads_back(q.high);
    written_reads_back(q.low);
    written_reads_back(money);
    written_reads_back(q.turnover.unwrap());
    text::joined_comes_apart(f, '~');
    tencent_quotes_add_up(code, text::joined(f, seq!['~']), is_hk);
}

} // verus!
