//! The command that shows quotes.
use super::sheet;
use super::sheet::{Sheet, SheetView};
use crate::data::models;
use crate::data::models::{
    normalize_code, Fundamental, FundamentalView, Market, Quote, QuoteView,
};
use crate::data::source;
use crate::data::source::Source;
use crate::data::wire;
use crate::num::Scalar;
use crate::text;
use vstd::prelude::*;

verus! {

/// The first of the inputs that means no security.
pub open spec fn first_unknown(inputs: Seq<Seq<char>>) -> Option<Seq<char>>
    decreases inputs.len(),
{
    if inputs.len() == 0 {
        None
    } else if models::normalized(inputs[0]) is None {
        Some(inputs[0])
    } else {
        first_unknown(inputs.drop_first())
    }
}

/// The securities that inputs mean.
pub open spec fn meant(inputs: Seq<Seq<char>>) -> Seq<(Seq<char>, Market)> {
    Seq::new(inputs.len(), |i: int| models::normalized(inputs[i]).unwrap())
}

/// The securities to ask quotes for. There has to be one, and each input has to mean one.
pub fn quote_requests(codes: &[String]) -> (r: Result<Vec<(String, Market)>, String>)
    ensures
        match r {
            Ok(v) => codes@.len() > 0 && first_unknown(text::texts(codes@)) is None
                && source::requests(v@) == meant(text::texts(codes@)),
            Err(e) => if codes@.len() == 0 {
                e@ == "请提供至少一个股票代码"@
            } else {
                first_unknown(text::texts(codes@)) matches Some(input) && e@ == "无法识别的代码 "@
                    + input
            },
        },
{
    if codes.len() == 0 {
        return Err("请提供至少一个股票代码".to_owned());
    }
    let ghost cs = text::texts(codes@);
    let mut out: Vec<(String, Market)> = Vec::new();
    let mut i: usize = 0;
    assert(cs.skip(0) =~= cs);
    assert(source::requests(out@) =~= meant(cs).take(0));
    while i < codes.len()
        invariant
            cs == text::texts(codes@),
            0 < codes@.len(),
            i <= codes@.len(),
            first_unknown(cs) == first_unknown(cs.skip(i as int)),
            source::requests(out@) == meant(cs).take(i as int),
        decreases codes@.len() - i,
    {
        let ghost rest = cs.skip(i as int);
        assert(rest[0] == codes@[i as int]@);
        assert(rest.drop_first() =~= cs.skip(i + 1));
        match normalize_code(codes[i].as_str()) {
            Some((code, market)) => {
                let ghost before = out@;
                out.push((code, market));
                assert(source::requests(out@) =~= source::requests(before).push((code@, market)));
                assert(source::requests(out@) =~= meant(cs).take(i + 1));
            },
            None => {
                return Err(wire::both("无法识别的代码 ", codes[i].as_str()));
            },
        }
        i += 1;
    }
    assert(meant(cs).take(cs.len() as int) =~= meant(cs));
    Ok(out)
}

/// A ratio of the price that is shown, and whether it is the stored one.
pub struct Shown<N: Scalar> {
    pub value: Option<N>,
    pub stored: bool,
}

/// The ratio that came with the quote, or else the stored one.
pub open spec fn shown_of<N: Scalar>(live: Option<N>, stored: Option<N>) -> Shown<N> {
    match (live, stored) {
        (None, Some(v)) => Shown { value: Some(v), stored: true },
        _ => Shown { value: live, stored: false },
    }
}

fn shown<N: Scalar>(live: Option<N>, stored: Option<N>) -> (r: Shown<N>)
    ensures
        r == shown_of(live, stored),
{
    match (live, stored) {
        (None, Some(v)) => Shown { value: Some(v), stored: true },
        _ => Shown { value: live, stored: false },
    }
}

/// The ratios of the price to the earnings and to the book value that are shown with a
/// quote: those that came with it, or else those of the last valuation that is stored.
pub fn ratios<N: Scalar>(q: &Quote<N>, latest: &Option<Fundamental<N>>) -> (r: (
    Shown<N>,
    Shown<N>,
))
    ensures
        match *latest {
            Some(f) => r.0 == shown_of(q.pe, f.pe_ttm) && r.1 == shown_of(q.pb, f.pb_mrq),
            None => r.0 == shown_of(q.pe, None) && r.1 == shown_of(q.pb, None),
        },
{
    match latest {
        Some(f) => (shown(q.pe, f.pe_ttm), shown(q.pb, f.pb_mrq)),
        None => (shown(q.pe, None), shown(q.pb, None)),
    }
}

/// A ratio, with a star where it is the stored one, or two dashes.
pub open spec fn ratio_cell<N: Scalar>(s: Shown<N>) -> Seq<char> {
    match s.value {
        Some(x) => x.rounded(2) + (if s.stored {
            "*"@
        } else {
            Seq::empty()
        }),
        None => "--"@,
    }
}

fn ratio_text<N: Scalar>(s: &Shown<N>) -> (r: String)
    ensures
        r@ == ratio_cell(*s),
{
    match s.value {
        Some(x) => {
            let mut t = x.show_rounded(2);
            if s.stored {
                t.append("*");
            }
            assert(t@ =~= ratio_cell(*s));
            t
        },
        None => "--".to_owned(),
    }
}

/// The ratios that are shown with a quote.
pub open spec fn ratios_of<N: Scalar>(q: QuoteView<N>, f: Option<FundamentalView<N>>) -> (
    Shown<N>,
    Shown<N>,
) {
    match f {
        Some(f) => (shown_of(q.pe, f.pe_ttm), shown_of(q.pb, f.pb_mrq)),
        None => (shown_of(q.pe, None), shown_of(q.pb, None)),
    }
}

/// The cells of a quote.
pub open spec fn quote_cells<N: Scalar>(
    q: QuoteView<N>,
    source: Source,
    f: Option<FundamentalView<N>>,
) -> Seq<Seq<char>> {
    seq![
        q.code,
        q.name,
        q.price.rounded(2),
        q.change.signed(2),
        sheet::percent_text(q.change_pct),
        q.open.rounded(2),
        q.high.rounded(2),
        q.low.rounded(2),
        q.prev_close.rounded(2),
        ratio_cell(ratios_of(q, f).0),
        ratio_cell(ratios_of(q, f).1),
        source::source_name(source),
    ]
}

/// The valuation that is stored beside quote `i`, where there is one.
pub open spec fn stored_beside<N: Scalar>(stored: Seq<Option<Fundamental<N>>>, i: int) -> Option<
    FundamentalView<N>,
> {
    if i < stored.len() {
        match stored[i] {
            Some(f) => Some(f@),
            None => None,
        }
    } else {
        None
    }
}

/// The table of quotes.
pub open spec fn quotes_table<N: Scalar>(
    quotes: Seq<(QuoteView<N>, Source)>,
    stored: Seq<Option<Fundamental<N>>>,
) -> SheetView {
    SheetView {
        header: seq![
            "代码"@,
            "名称"@,
            "现价"@,
            "涨跌"@,
            "涨跌幅"@,
            "今开"@,
            "最高"@,
            "最低"@,
            "昨收"@,
            "PE"@,
            "PB"@,
            "来源"@,
        ],
        rows: Seq::new(
            quotes.len(),
            |i: int| quote_cells(quotes[i].0, quotes[i].1, stored_beside(stored, i)),
        ),
    }
}

/// Some ratio in the table is a stored one.
pub open spec fn some_stored<N: Scalar>(
    quotes: Seq<(QuoteView<N>, Source)>,
    stored: Seq<Option<Fundamental<N>>>,
    n: int,
) -> bool {
    exists|i: int|
        0 <= i < n && {
            let r = ratios_of((#[trigger] quotes[i]).0, stored_beside(stored, i));
            r.0.stored || r.1.stored
        }
}

/// The table of quotes, each with the latest valuation that is stored, and whether any of
/// their ratios is shown. Then a line says what the star means.
pub fn table<N: Scalar>(
    quotes: &Vec<(Quote<N>, Source)>,
    stored: &Vec<Option<Fundamental<N>>>,
) -> (r: (Sheet, Option<String>))
    ensures
        r.0@ == quotes_table(source::sourced(quotes@), stored@),
        text::text_option(r.1) == (if some_stored(
            source::sourced(quotes@),
            stored@,
            quotes@.len() as int,
        ) {
            Some("* PE/PB 来自本地基本面（截至最近收盘），实时行情源未提供"@)
        } else {
            None
        }),
{
    let ghost qs = source::sourced(quotes@);
    let ghost goal = quotes_table(qs, stored@).rows;
    let mut rows = sheet::no_rows();
    let mut local = false;
    let mut i: usize = 0;
    assert(goal.take(0) =~= Seq::<Seq<Seq<char>>>::empty());
    while i < quotes.len()
        invariant
            qs == source::sourced(quotes@),
            goal == quotes_table(qs, stored@).rows,
            i <= quotes@.len(),
            sheet::cells(rows@) == goal.take(i as int),
            local == some_stored(qs, stored@, i as int),
        decreases quotes@.len() - i,
    {
        let q = &quotes[i].0;
        assert(qs[i as int] == (q@, quotes@[i as int].1));
        let nothing: Option<Fundamental<N>> = None;
        let f = if i < stored.len() {
            &stored[i]
        } else {
            &nothing
        };
        let (pe, pb) = ratios(q, f);
        assert((pe, pb) == ratios_of(q@, stored_beside(stored@, i as int)));
        let mut cells = sheet::no_lines();
        sheet::line(&mut cells, q.code.as_str());
        sheet::line(&mut cells, q.name.as_str());
        sheet::line(&mut cells, q.price.show_rounded(2).as_str());
        sheet::line(&mut cells, q.change.show_signed(2).as_str());
        sheet::line(&mut cells, sheet::percent(q.change_pct).as_str());
        sheet::line(&mut cells, q.open.show_rounded(2).as_str());
        sheet::line(&mut cells, q.high.show_rounded(2).as_str());
        sheet::line(&mut cells, q.low.show_rounded(2).as_str());
        sheet::line(&mut cells, q.prev_close.show_rounded(2).as_str());
        sheet::line(&mut cells, ratio_text(&pe).as_str());
        sheet::line(&mut cells, ratio_text(&pb).as_str());
        sheet::line(&mut cells, quotes[i].1.name());
        assert(text::texts(cells@) =~= quote_cells(
            q@,
            quotes@[i as int].1,
            stored_beside(stored@, i as int),
        ));
        sheet::row(&mut rows, cells);
        let ghost was = local;
        if pe.stored || pb.stored {
            local = true;
            assert(qs[i as int].0 == q@);
        }
        i += 1;
        proof {
            assert(sheet::cells(rows@) =~= goal.take(i as int));
            if some_stored(qs, stored@, i as int) && !was {
                let k = choose|k: int|
                    0 <= k < i && {
                        let r = ratios_of((#[trigger] qs[k]).0, stored_beside(stored@, k));
                        r.0.stored || r.1.stored
                    };
                assert(k == i - 1);
            }
        }
    }
    assert(goal.take(goal.len() as int) =~= goal);
    let mut header = sheet::no_lines();
    sheet::line(&mut header, "代码");
    sheet::line(&mut header, "名称");
    sheet::line(&mut header, "现价");
    sheet::line(&mut header, "涨跌");
    sheet::line(&mut header, "涨跌幅");
    sheet::line(&mut header, "今开");
    sheet::line(&mut header, "最高");
    sheet::line(&mut header, "最低");
    sheet::line(&mut header, "昨收");
    sheet::line(&mut header, "PE");
    sheet::line(&mut header, "PB");
    sheet::line(&mut header, "来源");
    assert(text::texts(header@) =~= quotes_table(qs, stored@).header);
    let note = if local {
        Some("* PE/PB 来自本地基本面（截至最近收盘），实时行情源未提供".to_owned())
    } else {
        None
    };
    (Sheet { header, rows }, note)
}

/// What is said of the codes that no source knows; nothing where there are none.
pub fn unanswered(failed: &Vec<String>) -> (r: Option<String>)
    ensures
        text::text_option(r) == (if failed@.len() == 0 {
            None
        } else {
            Some(
                "以下代码所有数据源均无数据："@ + text::joined(text::texts(failed@), ", "@),
            )
        }),
{
    if failed.len() == 0 {
        None
    } else {
        Some(wire::both("以下代码所有数据源均无数据：", text::join(failed, ", ").as_str()))
    }
}

/// The first input that means no security is told, and every input before it means one;
/// where none is told, all mean one.
pub proof fn unknown_is_the_first(inputs: Seq<Seq<char>>)
    ensures
        match first_unknown(inputs) {
            Some(s) => exists|k: int|
                0 <= k < inputs.len() && #[trigger] inputs[k] == s && models::normalized(
                    inputs[k],
                ) is None && forall|j: int|
                    0 <= j < k ==> models::normalized(#[trigger] inputs[j]) is Some,
            None => forall|j: int|
                0 <= j < inputs.len() ==> models::normalized(#[trigger] inputs[j]) is Some,
        },
    decreases inputs.len(),
{
    if inputs.len() > 0 {
        if models::normalized(inputs[0]) is None {
            assert(inputs[0] == first_unknown(inputs).unwrap());
        } else {
            let r = inputs.drop_first();
            unknown_is_the_first(r);
            assert(forall|j: int| 0 <= j < r.len() ==> #[trigger] r[j] == inputs[j + 1]);
            match first_unknown(r) {
                Some(s) => {
                    let k = choose|k: int|
                        0 <= k < r.len() && #[trigger] r[k] == s && models::normalized(r[k]) is None
                            && forall|j: int|
                            0 <= j < k ==> models::normalized(#[trigger] r[j]) is Some;
                    assert(inputs[k + 1] == s);
                    assert forall|j: int| 0 <= j < k + 1 implies models::normalized(
                        #[trigger] inputs[j],
                    ) is Some by {
                        if j > 0 {
                            assert(r[j - 1] == inputs[j]);
                        }
                    }
                },
                None => {
                    assert forall|j: int| 0 <= j < inputs.len() implies models::normalized(
                        #[trigger] inputs[j],
                    ) is Some by {
                        if j > 0 {
                            assert(r[j - 1] == inputs[j]);
                        }
                    }
                },
            }
        }
    }
}

/// What came with a quote is shown before what is stored, and only what is stored bears a
/// star.
pub proof fn live_goes_before_stored<N: Scalar>(live: Option<N>, stored: Option<N>)
    ensures
        live is Some ==> shown_of(live, stored).value == live && !shown_of(live, stored).stored,
        live is None ==> shown_of(live, stored).value == stored && (shown_of(live, stored).stored
            <==> stored is Some),
{
}

} // verus!
