//! What reports are made of: tables and figures.
use crate::num::Scalar;
use crate::text;
use vstd::prelude::*;

verus! {

/// A table with a header.
#[derive(Debug)]
pub struct Sheet {
    pub header: Vec<String>,
    pub rows: Vec<Vec<String>>,
}

/// A table with its texts as sequences of characters.
pub ghost struct SheetView {
    pub header: Seq<Seq<char>>,
    pub rows: Seq<Seq<Seq<char>>>,
}

/// The texts of several rows.
pub open spec fn cells(rows: Seq<Vec<String>>) -> Seq<Seq<Seq<char>>> {
    Seq::new(rows.len(), |i: int| text::texts(rows[i]@))
}

impl View for Sheet {
    type V = SheetView;

    open spec fn view(&self) -> SheetView {
        SheetView { header: text::texts(self.header@), rows: cells(self.rows@) }
    }
}

/// Adds a line.
pub fn line(out: &mut Vec<String>, s: &str)
    ensures
        text::texts(final(out)@) == text::texts(old(out)@).push(s@),
{
    let ghost before = out@;
    out.push(s.to_owned());
    assert(text::texts(out@) =~= text::texts(before).push(s@));
}

/// No line yet.
pub fn no_lines() -> (r: Vec<String>)
    ensures
        text::texts(r@) == Seq::<Seq<char>>::empty(),
{
    let out: Vec<String> = Vec::new();
    assert(text::texts(out@) =~= Seq::<Seq<char>>::empty());
    out
}

/// No row yet.
pub fn no_rows() -> (r: Vec<Vec<String>>)
    ensures
        cells(r@) == Seq::<Seq<Seq<char>>>::empty(),
{
    let out: Vec<Vec<String>> = Vec::new();
    assert(cells(out@) =~= Seq::<Seq<Seq<char>>>::empty());
    out
}

/// Adds a row.
pub fn row(out: &mut Vec<Vec<String>>, r: Vec<String>)
    ensures
        cells(final(out)@) == cells(old(out)@).push(text::texts(r@)),
{
    let ghost before = out@;
    let ghost added = text::texts(r@);
    out.push(r);
    assert(cells(out@) =~= cells(before).push(added));
}

/// A part in per cent, with its sign and two decimals.
pub open spec fn percent_text<N: Scalar>(v: N) -> Seq<char> {
    v.product(N::whole(100)).signed(2) + "%"@
}

pub fn percent<N: Scalar>(v: N) -> (r: String)
    ensures
        r@ == percent_text(v),
{
    let mut out = v.times(N::from_int(100)).show_signed(2);
    out.append("%");
    out
}

/// A part in per cent, with its sign and two decimals, or two dashes.
pub open spec fn percent_cell<N: Scalar>(v: Option<N>) -> Seq<char> {
    match v {
        Some(x) => percent_text(x),
        None => "--"@,
    }
}

pub fn percent_or_dashes<N: Scalar>(v: Option<N>) -> (r: String)
    ensures
        r@ == percent_cell(v),
{
    match v {
        Some(x) => percent(x),
        None => "--".to_owned(),
    }
}

/// A number with some decimals, or two dashes.
pub open spec fn figure_cell<N: Scalar>(v: Option<N>, places: nat) -> Seq<char> {
    match v {
        Some(x) => x.rounded(places),
        None => "--"@,
    }
}

pub fn figure<N: Scalar>(v: Option<N>, places: usize) -> (r: String)
    ensures
        r@ == figure_cell(v, places as nat),
{
    match v {
        Some(x) => x.show_rounded(places),
        None => "--".to_owned(),
    }
}

/// An amount, or two dashes.
pub open spec fn money_cell<N: Scalar>(v: Option<N>) -> Seq<char> {
    match v {
        Some(x) => crate::utils::format::money_text(x),
        None => "--"@,
    }
}

pub fn money_or_dashes<N: Scalar>(v: Option<N>) -> (r: String)
    ensures
        r@ == money_cell(v),
{
    match v {
        Some(x) => crate::utils::format::money(x),
        None => "--".to_owned(),
    }
}

/// An amount of money.
pub open spec fn amount_text<N: Scalar>(v: N) -> Seq<char> {
    crate::utils::format::money_text(v)
}

pub fn amount<N: Scalar>(v: N) -> (r: String)
    ensures
        r@ == amount_text(v),
{
    crate::utils::format::money(v)
}

/// Puts a figure and what follows it behind a text.
pub fn put(out: &mut String, figure: String, after: &str)
    ensures
        final(out)@ == old(out)@ + figure@ + after@,
{
    out.append(figure.as_str());
    out.append(after);
}

} // verus!
