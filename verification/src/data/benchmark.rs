//! Stock indices.
//!
//! The code of an index can be that of a stock of the other mainland market: 000300 is the
//! CSI 300 in Shanghai. The market of an index is therefore never inferred from its code.
use super::models;
use super::models::{normalize_code, KLine, Market};
use crate::num::Scalar;
use crate::text;
use vstd::prelude::*;

verus! {

/// The code, the name and the market of the index that a small-letter word stands for.
pub open spec fn index_named(s: Seq<char>) -> Option<(Seq<char>, Seq<char>, Market)> {
    if s == "hs300"@ || s == "000300"@ || s == "沪深300"@ || s == "沪深300指数"@ {
        Some(("000300"@, "沪深300"@, Market::SH))
    } else if s == "zz500"@ || s == "000905"@ || s == "中证500"@ {
        Some(("000905"@, "中证500"@, Market::SH))
    } else if s == "zz1000"@ || s == "000852"@ || s == "中证1000"@ {
        Some(("000852"@, "中证1000"@, Market::SH))
    } else if s == "sh"@ || s == "sse"@ || s == "000001"@ || s == "上证指数"@ || s == "上证"@ {
        Some(("000001"@, "上证指数"@, Market::SH))
    } else if s == "sz"@ || s == "399001"@ || s == "深证成指"@ || s == "深证"@ {
        Some(("399001"@, "深证成指"@, Market::SZ))
    } else if s == "cyb"@ || s == "399006"@ || s == "创业板指"@ || s == "创业板"@ {
        Some(("399006"@, "创业板指"@, Market::SZ))
    } else if s == "kc50"@ || s == "000688"@ || s == "科创50"@ {
        Some(("000688"@, "科创50"@, Market::SH))
    } else {
        None
    }
}

/// The index that an input means, whatever its case and the white space around it.
pub open spec fn index_meant(s: Seq<char>) -> Option<(Seq<char>, Seq<char>, Market)> {
    index_named(text::lowercase(text::trimmed(s)))
}

/// The code, the name and the market of the index that an input, a name or a code, means.
pub fn resolve(input: &str) -> (r: Option<(&'static str, &'static str, Market)>)
    ensures
        match r {
            Some((code, name, market)) => index_meant(input@) == Some((code@, name@, market)),
            None => index_meant(input@) is None,
        },
{
    let t = text::trim(input);
    let l = t.as_str().to_lowercase();
    assert(l@ == text::lowercase(text::trimmed(input@)));
    let s = l.as_str();
    if text::same(s, "hs300") || text::same(s, "000300") || text::same(s, "沪深300") || text::same(
        s,
        "沪深300指数",
    ) {
        Some(("000300", "沪深300", Market::SH))
    } else if text::same(s, "zz500") || text::same(s, "000905") || text::same(s, "中证500") {
        Some(("000905", "中证500", Market::SH))
    } else if text::same(s, "zz1000") || text::same(s, "000852") || text::same(s, "中证1000") {
        Some(("000852", "中证1000", Market::SH))
    } else if text::same(s, "sh") || text::same(s, "sse") || text::same(s, "000001") || text::same(
        s,
        "上证指数",
    ) || text::same(s, "上证") {
        Some(("000001", "上证指数", Market::SH))
    } else if text::same(s, "sz") || text::same(s, "399001") || text::same(s, "深证成指")
        || text::same(s, "深证") {
        Some(("399001", "深证成指", Market::SZ))
    } else if text::same(s, "cyb") || text::same(s, "399006") || text::same(s, "创业板指")
        || text::same(s, "创业板") {
        Some(("399006", "创业板指", Market::SZ))
    } else if text::same(s, "kc50") || text::same(s, "000688") || text::same(s, "科创50") {
        Some(("000688", "科创50", Market::SH))
    } else {
        None
    }
}

/// The code and the market that `sh` or `sz` and six digits mean.
pub open spec fn prefixed(input: Seq<char>) -> Option<(Seq<char>, Market)> {
    let lower = text::lowercase(input);
    let rest = lower.skip(2);
    if !text::starts(lower, "sh"@) && !text::starts(lower, "sz"@) {
        None
    } else if rest.len() == 6 && text::all_digits(rest) {
        Some((rest, if text::starts(lower, "sh"@) {
            Market::SH
        } else {
            Market::SZ
        }))
    } else {
        None
    }
}

fn parse_exchange_prefix(input: &str) -> (r: Option<(String, Market)>)
    ensures
        models::code_view(r) == prefixed(input@),
{
    let lower = input.to_lowercase();
    assert(lower@ == text::lowercase(input@));
    proof {
        reveal_strlit("sh");
        reveal_strlit("sz");
    }
    let market = if text::starts_with(lower.as_str(), "sh") {
        Market::SH
    } else if text::starts_with(lower.as_str(), "sz") {
        Market::SZ
    } else {
        return None;
    };
    let v = text::chars_of(lower.as_str());
    if v.len() == 8 && text::is_numeric(&v, 2) {
        let code = text::text_between(&v, 2, 8);
        assert(code@ =~= lower@.skip(2));
        Some((code, market))
    } else {
        None
    }
}

/// The code and the market that an input on the command line means.
pub open spec fn input_meant(input: Seq<char>) -> Option<(Seq<char>, Market)> {
    let t = text::trimmed(input);
    match prefixed(t) {
        Some(r) => Some(r),
        None => if t.len() > 0 && text::all_digits(t) {
            models::normalized(t)
        } else {
            match index_meant(t) {
                Some((code, name, market)) => Some((code, market)),
                None => models::normalized(t),
            }
        },
    }
}

/// The code and the market that an input on the command line means. `sh` or `sz` before
/// six digits force the market, so that an index can be told from the stock of the same
/// code; the name of an index means the index; digits alone always mean a stock or a fund.
pub fn resolve_input(input: &str) -> (r: Option<(String, Market)>)
    ensures
        models::code_view(r) == input_meant(input@),
{
    let t = text::trim(input);
    match parse_exchange_prefix(t.as_str()) {
        Some(r) => {
            return Some(r);
        },
        None => {},
    }
    let v = text::chars_of(t.as_str());
    assert(v@.skip(0) =~= v@);
    if v.len() > 0 && text::is_numeric(&v, 0) {
        return normalize_code(t.as_str());
    }
    match resolve(t.as_str()) {
        Some((code, _, market)) => Some((code.to_owned(), market)),
        None => normalize_code(t.as_str()),
    }
}

/// Digits alone never mean an index: they are normalised as the code of a stock.
pub proof fn digits_mean_no_index(input: Seq<char>)
    requires
        input.len() > 0,
        text::all_digits(input),
    ensures
        input_meant(input) == models::normalized(input),
{
    text::digits_have_no_case(input);
    reveal_strlit("sh");
    reveal_strlit("sz");
    assert(text::is_digit(input[0]));
    assert(text::starts(input, "sh"@) ==> input.subrange(0, 2)[0] == input[0]);
    assert(text::starts(input, "sz"@) ==> input.subrange(0, 2)[0] == input[0]);
}

/// `sh` or `sz`, in letters of either case, and six digits mean the code of those digits in
/// Shanghai or in Shenzhen.
pub proof fn prefix_forces_market(p: Seq<char>, code: Seq<char>)
    requires
        code.len() == 6,
        text::all_digits(code),
    ensures
        text::ascii_lowered(p) == "sh"@ ==> input_meant(p + code) == Some((code, Market::SH)),
        text::ascii_lowered(p) == "sz"@ ==> input_meant(p + code) == Some((code, Market::SZ)),
{
    reveal_strlit("sh");
    reveal_strlit("sz");
    let q = text::ascii_lowered(p);
    if q == "sh"@ || q == "sz"@ {
        assert(q[0] == 's');
        assert(q[1] == 'h' || q[1] == 'z');
        prefixed_code(p, code);
        assert((q + code).subrange(0, 2)[1] == q[1]);
    }
}

proof fn prefixed_code(p: Seq<char>, code: Seq<char>)
    requires
        code.len() == 6,
        text::all_digits(code),
        p.len() == 2,
        text::ascii_lower(p[0]) == 's',
        text::ascii_lower(p[1]) == 'h' || text::ascii_lower(p[1]) == 'z',
    ensures
        text::trimmed(p + code) == p + code,
        text::lowercase(p + code) == text::ascii_lowered(p) + code,
        (text::ascii_lowered(p) + code).skip(2) == code,
        (text::ascii_lowered(p) + code).subrange(0, 2) == text::ascii_lowered(p),
{
    let s = p + code;
    let q = text::ascii_lowered(p);
    assert(text::is_digit(code[5]));
    text::trimmed_identity(s);
    assert forall|i: int| 0 <= i < s.len() implies text::is_ascii(#[trigger] s[i]) && text::ascii_lower(
        s[i],
    ) == (q + code)[i] by {
        if i >= 2 {
            assert(text::is_digit(code[i - 2]));
        }
    }
    assert(text::ascii_lowered(s) =~= q + code);
    assert((q + code).skip(2) =~= code);
    assert((q + code).subrange(0, 2) =~= q);
}

/// The words that stand for an index have no capitals and no white space, and the code and
/// the name of the index are among them.
proof fn words_for_an_index(w: Seq<char>)
    ensures
        index_named(w) matches Some((code, name, m)) ==> {
            &&& index_meant(w) == index_named(w)
            &&& index_meant(code) == index_named(w)
            &&& index_meant(name) == index_named(w)
        },
{
    reveal_strlit("hs300");
    reveal_strlit("000300");
    reveal_strlit("沪深300");
    reveal_strlit("沪深300指数");
    reveal_strlit("zz500");
    reveal_strlit("000905");
    reveal_strlit("中证500");
    reveal_strlit("zz1000");
    reveal_strlit("000852");
    reveal_strlit("中证1000");
    reveal_strlit("sh");
    reveal_strlit("sse");
    reveal_strlit("000001");
    reveal_strlit("上证指数");
    reveal_strlit("上证");
    reveal_strlit("sz");
    reveal_strlit("399001");
    reveal_strlit("深证成指");
    reveal_strlit("深证");
    reveal_strlit("cyb");
    reveal_strlit("399006");
    reveal_strlit("创业板指");
    reveal_strlit("创业板");
    reveal_strlit("kc50");
    reveal_strlit("000688");
    reveal_strlit("科创50");
    if let Some((code, name, m)) = index_named(w) {
        text::caseless(w);
        text::caseless(code);
        text::caseless(name);
    }
}

/// Neither white space around an input nor the case of its letters matters: an input means
/// the index that it means without them. This is of every input that means an index, and of
/// every input that is made of ASCII characters and Chinese ideographs, white space around
/// it aside.
pub proof fn case_and_space_do_not_matter(s: Seq<char>)
    requires
        text::plain(text::trimmed(s)) || index_meant(s) is Some,
    ensures
        index_meant(text::lowercase(text::trimmed(s))) == index_meant(s),
{
    if text::plain(text::trimmed(s)) {
        text::trimmed_ends(s);
        text::lowering_twice(text::trimmed(s));
    } else {
        words_for_an_index(text::lowercase(text::trimmed(s)));
    }
}

/// An index is also found by its own code and by its own name.
pub proof fn code_and_name_mean_the_index(s: Seq<char>)
    ensures
        index_meant(s) matches Some((code, name, m)) ==> {
            &&& index_meant(code) == Some((code, name, m))
            &&& index_meant(name) == Some((code, name, m))
        },
{
    words_for_an_index(text::lowercase(text::trimmed(s)));
}

// ---------------------------------------------------------------------------
// The bars of an index
// ---------------------------------------------------------------------------
/// The bars of an index that are stored, where they are enough to compare with: two at
/// least.
pub fn local_bars<N: Scalar>(stored: Option<Vec<KLine<N>>>) -> (r: Option<Vec<KLine<N>>>)
    ensures
        r == (match stored {
            Some(v) => if v@.len() >= 2 {
                Some(v)
            } else {
                None
            },
            None => None,
        }),
{
    match stored {
        Some(v) => if v.len() >= 2 {
            Some(v)
        } else {
            None
        },
        None => None,
    }
}

/// A day without its dashes, or what stands for no limit.
pub open spec fn compact_or(day: Option<&str>, open: Seq<char>) -> Seq<char> {
    match day {
        Some(s) => text::without(s@, '-'),
        None => open,
    }
}

/// The days between which the bars of an index are asked for.
pub fn remote_range(start: Option<&str>, end: Option<&str>) -> (r: (String, String))
    ensures
        r.0@ == compact_or(start, "0"@),
        r.1@ == compact_or(end, "20500101"@),
{
    let beg = match start {
        Some(s) => text::remove_char(s, '-'),
        None => "0".to_owned(),
    };
    let until = match end {
        Some(s) => text::remove_char(s, '-'),
        None => "20500101".to_owned(),
    };
    (beg, until)
}

/// The bars of an index that were fetched, as they are read back from the store, or as they
/// came where they cannot be read back; none where nothing came.
pub fn fetched_bars<N: Scalar>(fetched: Vec<KLine<N>>, stored: Option<Vec<KLine<N>>>) -> (r: Option<
    Vec<KLine<N>>,
>)
    ensures
        r == (if fetched@.len() == 0 {
            None
        } else {
            match stored {
                Some(v) => Some(v),
                None => Some(fetched),
            }
        }),
{
    if fetched.len() == 0 {
        None
    } else {
        match stored {
            Some(v) => Some(v),
            None => Some(fetched),
        }
    }
}

/// The index that a security is compared with: that of its board or of its exchange. There
/// is none for Hong Kong.
pub open spec fn index_for(code: Seq<char>, market: Market) -> Option<Seq<char>> {
    match market {
        Market::SH => if text::starts(code, "688"@) {
            Some("kc50"@)
        } else {
            Some("sh"@)
        },
        Market::SZ => if text::starts(code, "30"@) {
            Some("cyb"@)
        } else {
            Some("sz"@)
        },
        Market::HK => None,
    }
}

pub fn benchmark_for(code: &str, market: Market) -> (r: Option<&'static str>)
    ensures
        match r {
            Some(s) => index_for(code@, market) == Some(s@),
            None => index_for(code@, market) is None,
        },
{
    match market {
        Market::SH => if text::starts_with(code, "688") {
            Some("kc50")
        } else {
            Some("sh")
        },
        Market::SZ => if text::starts_with(code, "30") {
            Some("cyb")
        } else {
            Some("sz")
        },
        Market::HK => None,
    }
}

/// The index that a security is compared with has a name that is known.
pub proof fn chosen_index_is_known(code: Seq<char>, market: Market)
    ensures
        index_for(code, market) matches Some(s) ==> index_named(s) is Some,
{
}

} // verus!
