//! What the sources of prices share: encodings, requests, and the fields of their answers.
use super::models::Market;
use crate::num;
use crate::num::Scalar;
use crate::text;
use std::io::Read;
use vstd::prelude::*;

verus! {

// ---------------------------------------------------------------------------
// Encodings
// ---------------------------------------------------------------------------
/// The text of bytes in GBK, as `encoding_rs` decodes them.
pub uninterp spec fn gbk_text(bytes: Seq<u8>) -> Seq<char>;

/// `encoding_rs::GBK.decode`: the text of bytes in GBK, or in the encoding that a byte order
/// mark at their beginning announces; what cannot be decoded is replaced. The text is only
/// named.
#[verifier::external_body]
pub(crate) fn decode_gbk(bytes: &[u8]) -> (r: String)
    ensures
        r@ == gbk_text(bytes@),
{
    encoding_rs::GBK.decode(bytes).0.into_owned()
}

/// The text that bytes in the gzip format hold, as `flate2` unpacks them; none where they
/// are not in the format or do not hold text in UTF-8.
pub uninterp spec fn gunzipped(bytes: Seq<u8>) -> Option<Seq<char>>;

/// `flate2::read::GzDecoder` read to its end: the text that bytes in the gzip format hold,
/// or none. The text is only named.
#[verifier::external_body]
pub(crate) fn gunzip(bytes: &[u8]) -> (r: Option<String>)
    ensures
        text::text_option(r) == gunzipped(bytes@),
{
    let mut out = String::new();
    flate2::read::GzDecoder::new(bytes).read_to_string(&mut out).ok().map(|_| out)
}

/// `String::from_utf8` of the standard library: the text of bytes in UTF-8, or none where
/// they are not in UTF-8.
#[verifier::external_body]
pub(crate) fn from_utf8(bytes: &[u8]) -> (r: Option<String>)
    ensures
        match r {
            Some(s) => vstd::utf8::valid_utf8(bytes@) && s@ == vstd::utf8::decode_utf8(bytes@),
            None => !vstd::utf8::valid_utf8(bytes@),
        },
{
    String::from_utf8(bytes.to_vec()).ok()
}

// ---------------------------------------------------------------------------
// Requests
// ---------------------------------------------------------------------------
/// The parameters of a request, apart from the texts that hold them.
pub open spec fn params(v: Seq<(String, String)>) -> Seq<(Seq<char>, Seq<char>)> {
    Seq::new(v.len(), |i: int| (v[i].0@, v[i].1@))
}

/// Adds a parameter to a request.
pub(crate) fn add_param(v: &mut Vec<(String, String)>, key: &str, value: &str)
    ensures
        params(final(v)@) == params(old(v)@).push((key@, value@)),
{
    let ghost before = v@;
    v.push((key.to_owned(), value.to_owned()));
    assert(params(v@) =~= params(before).push((key@, value@)));
}

/// The letters before a code: `sh`, `sz` or `hk`.
pub open spec fn prefix_of(m: Market) -> Seq<char> {
    match m {
        Market::SH => "sh"@,
        Market::SZ => "sz"@,
        Market::HK => "hk"@,
    }
}

/// The letters before a code: `sh`, `sz` or `hk`.
pub fn prefix(m: Market) -> (r: &'static str)
    ensures
        r@ == prefix_of(m),
{
    match m {
        Market::SH => "sh",
        Market::SZ => "sz",
        Market::HK => "hk",
    }
}

/// A code with the letters of its market before it.
pub fn prefixed_code(code: &str, m: Market) -> (r: String)
    ensures
        r@ == prefix_of(m) + code@,
{
    let mut out = prefix(m).to_owned();
    out.append(code);
    out
}

/// The codes of a request with the letters of their markets before them.
pub open spec fn prefixed_codes(reqs: Seq<(String, Market)>) -> Seq<Seq<char>> {
    Seq::new(reqs.len(), |i: int| prefix_of(reqs[i].1) + reqs[i].0@)
}

/// The codes of a request with the letters of their markets before them, and commas
/// between.
pub fn code_list(reqs: &[(String, Market)]) -> (r: String)
    ensures
        r@ == text::joined(prefixed_codes(reqs@), ","@),
{
    let mut parts: Vec<String> = Vec::new();
    let mut i: usize = 0;
    while i < reqs.len()
        invariant
            i <= reqs@.len(),
            text::texts(parts@) == prefixed_codes(reqs@).take(i as int),
        decreases reqs@.len() - i,
    {
        let ghost before = parts@;
        parts.push(prefixed_code(reqs[i].0.as_str(), reqs[i].1));
        i += 1;
        assert(text::texts(parts@) =~= text::texts(before).push(parts@.last()@));
        assert(text::texts(parts@) =~= prefixed_codes(reqs@).take(i as int));
    }
    assert(text::texts(parts@) =~= prefixed_codes(reqs@));
    text::join(&parts, ",")
}

/// A date of eight bytes with dashes behind the fourth and the sixth; nothing where it is
/// not that long.
pub open spec fn dashed(s: Seq<char>) -> Seq<char> {
    match (text::chars_in(s, 4), text::chars_in(s, 6), text::chars_in(s, 8)) {
        (Some(a), Some(b), Some(c)) => if c == s.len() {
            s.subrange(0, a) + seq!['-'] + s.subrange(a, b) + seq!['-'] + s.subrange(b, c)
        } else {
            Seq::empty()
        },
        _ => Seq::empty(),
    }
}

proof fn chars_in_ordered(s: Seq<char>, j: int, k: int)
    requires
        0 <= j <= k,
    ensures
        match (text::chars_in(s, j), text::chars_in(s, k)) {
            (Some(a), Some(b)) => 0 <= a <= b <= s.len(),
            _ => true,
        },
    decreases s.len(),
{
    if s.len() > 0 && j > 0 && text::byte_width(s[0]) <= j {
        chars_in_ordered(s.drop_first(), j - text::byte_width(s[0]), k - text::byte_width(s[0]));
    } else if s.len() > 0 && j == 0 && k > 0 && text::byte_width(s[0]) <= k {
        chars_in_ordered(s.drop_first(), 0, k - text::byte_width(s[0]));
    }
}

/// `YYYYMMDD` as `YYYY-MM-DD`; nothing where it is no date, as for `0`, which stands for no
/// limit.
pub fn dash_date(s: &str) -> (r: String)
    ensures
        r@ == dashed(s@),
{
    let v = text::chars_of(s);
    let mut out = String::new();
    proof {
        chars_in_ordered(s@, 4, 6);
        chars_in_ordered(s@, 6, 8);
    }
    match (text::chars_within(&v, 4), text::chars_within(&v, 6), text::chars_within(&v, 8)) {
        (Some(a), Some(b), Some(c)) => {
            if c == v.len() {
                out = text::text_between(&v, 0, a);
                out.push('-');
                out.append(text::text_between(&v, a, b).as_str());
                out.push('-');
                out.append(text::text_between(&v, b, c).as_str());
            }
        },
        _ => {},
    }
    assert(out@ =~= dashed(s@));
    out
}

/// The first ten bytes of a text, where a date stands; none where it is shorter.
pub open spec fn date_part(s: Seq<char>) -> Option<Seq<char>> {
    match text::chars_in(s, 10) {
        Some(n) => Some(s.take(n)),
        None => None,
    }
}

pub(crate) fn first_ten(s: &str) -> (r: Option<String>)
    ensures
        text::text_option(r) == date_part(s@),
{
    let v = text::chars_of(s);
    match text::chars_within(&v, 10) {
        Some(n) => {
            let r = text::text_between(&v, 0, n);
            assert(r@ =~= s@.take(n as int));
            Some(r)
        },
        None => None,
    }
}

// ---------------------------------------------------------------------------
// Answers
// ---------------------------------------------------------------------------
/// A number, or zero where a text is none.
pub open spec fn number<N: Scalar>(s: Seq<char>) -> N {
    match N::denoted(s) {
        Some(v) => v,
        None => num::nil::<N>(),
    }
}

pub fn parse_number<N: Scalar>(s: &str) -> (r: N)
    ensures
        r == number::<N>(s@),
{
    match N::parse(s) {
        Some(v) => v,
        None => num::zero::<N>(),
    }
}

/// The number in one of the fields, or zero.
pub open spec fn number_at<N: Scalar>(f: Seq<Seq<char>>, i: int) -> N {
    if i < f.len() {
        number::<N>(f[i])
    } else {
        num::nil::<N>()
    }
}

pub fn number_in<N: Scalar>(f: &Vec<String>, i: usize) -> (r: N)
    ensures
        r == number_at::<N>(text::texts(f@), i as int),
{
    if i < f.len() {
        parse_number(f[i].as_str())
    } else {
        num::zero::<N>()
    }
}

/// The part of a change in the price before it; zero where that is zero.
pub open spec fn change_part<N: Scalar>(change: N, prev_close: N) -> N {
    if num::zeroed(prev_close) {
        num::nil::<N>()
    } else {
        change.quotient(prev_close)
    }
}

pub fn change_of<N: Scalar>(change: N, prev_close: N) -> (r: N)
    ensures
        r == change_part(change, prev_close),
{
    if num::is_zero(prev_close) {
        num::zero::<N>()
    } else {
        change.over(prev_close)
    }
}

/// The symbol of a line of an answer: what stands between a mark and the next equals sign.
pub open spec fn line_symbol(line: Seq<char>, mark: Seq<char>) -> Option<Seq<char>> {
    match text::behind_text(line, mark) {
        Some(rest) => text::up_to(rest, '='),
        None => None,
    }
}

/// What stands between the first and the last quotation mark of a line.
pub open spec fn line_content(line: Seq<char>) -> Option<Seq<char>> {
    match text::behind(line, '"') {
        Some(rest) => text::up_to_last(rest, '"'),
        None => None,
    }
}

/// A symbol without the two letters of its market; the whole symbol where no character
/// ends behind two bytes.
pub open spec fn bare_code(symbol: Seq<char>) -> Seq<char> {
    match text::chars_in(symbol, 2) {
        Some(n) => symbol.skip(n),
        None => symbol,
    }
}

pub(crate) fn symbol_of(line: &str, mark: &str) -> (r: Option<String>)
    ensures
        text::text_option(r) == line_symbol(line@, mark@),
{
    match text::after_text(line, mark) {
        Some(rest) => text::before_char(rest.as_str(), '='),
        None => None,
    }
}

pub(crate) fn content_of(line: &str) -> (r: Option<String>)
    ensures
        text::text_option(r) == line_content(line@),
{
    match text::after_char(line, '"') {
        Some(rest) => text::before_last(rest.as_str(), '"'),
        None => None,
    }
}

pub(crate) fn code_in(symbol: &str) -> (r: String)
    ensures
        r@ == bare_code(symbol@),
{
    let v = text::chars_of(symbol);
    match text::chars_within(&v, 2) {
        Some(n) => {
            let r = text::text_between(&v, n, v.len());
            assert(r@ =~= symbol@.skip(n as int));
            r
        },
        None => symbol.to_owned(),
    }
}

/// One text behind another.
pub(crate) fn both(head: &str, tail: &str) -> (r: String)
    ensures
        r@ == head@ + tail@,
{
    let mut out = head.to_owned();
    out.append(tail);
    out
}

/// A message with something put between its two halves.
pub(crate) fn message(head: &str, middle: &str, tail: &str) -> (r: String)
    ensures
        r@ == head@ + middle@ + tail@,
{
    let mut out = head.to_owned();
    out.append(middle);
    out.append(tail);
    out
}

} // verus!
