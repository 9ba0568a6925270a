//! Amounts of money, columns of a terminal and small charts as text.
use crate::fixed;
use crate::fixed::{Fixed, SCALE};
use crate::num;
use crate::num::Scalar;
use crate::text;
use vstd::prelude::*;

verus! {

// ---------------------------------------------------------------------------
// Amounts
// ---------------------------------------------------------------------------
/// Digits with a comma before each group of three, counted from the end.
pub open spec fn grouped(s: Seq<char>) -> Seq<char>
    decreases s.len(),
{
    if s.len() <= 3 {
        s
    } else {
        grouped(s.take(s.len() - 3)) + seq![','] + s.skip(s.len() - 3)
    }
}

/// The decimal notation of a number with a comma between thousands.
fn thousands(n: u64) -> (r: String)
    ensures
        r@ == grouped(text::decimal(n as nat)),
{
    let s = text::chars_of(text::show(n).as_str());
    let mut out = String::new();
    let len = s.len();
    let mut i: usize = 0;
    assert(out@ =~= prefix_grouped(s@, 0));
    while i < len
        invariant
            len == s@.len(),
            i <= len,
            out@ == prefix_grouped(s@, i as int),
        decreases len - i,
    {
        if i > 0 && (len - i) % 3 == 0 {
            out.push(',');
        }
        out.push(s[i]);
        assert(out@ =~= prefix_grouped(s@, i + 1));
        i += 1;
    }
    proof {
        grouped_whole(s@);
    }
    out
}

/// The first `i` of a text's digits, with the commas that stand between them.
spec fn prefix_grouped(s: Seq<char>, i: int) -> Seq<char>
    decreases i,
{
    if i <= 0 {
        Seq::empty()
    } else if i > 1 && (s.len() - (i - 1)) % 3 == 0 {
        prefix_grouped(s, i - 1).push(',').push(s[i - 1])
    } else {
        prefix_grouped(s, i - 1).push(s[i - 1])
    }
}

proof fn prefix_of_shorter(s: Seq<char>, i: int)
    requires
        s.len() > 3,
        0 <= i <= s.len() - 3,
    ensures
        prefix_grouped(s, i) == prefix_grouped(s.take(s.len() - 3), i),
    decreases i,
{
    if i > 0 {
        prefix_of_shorter(s, i - 1);
    }
}

proof fn grouped_whole(s: Seq<char>)
    ensures
        prefix_grouped(s, s.len() as int) == grouped(s),
    decreases s.len(),
{
    let n = s.len() as int;
    reveal_with_fuel(prefix_grouped, 4);
    if n <= 3 {
        assert(prefix_grouped(s, n) =~= s);
    } else {
        let h = s.take(n - 3);
        grouped_whole(h);
        prefix_of_shorter(s, n - 3);
        assert(prefix_grouped(s, n) =~= grouped(h) + seq![','] + s.skip(n - 3));
    }
}

/// How many cents an amount has, sign left aside, rounded to whole cents.
pub open spec fn cents_of<N: Scalar>(v: N) -> nat {
    let c = num::magnitude(v).product(N::whole(100)).nearest();
    if c < 0 {
        0
    } else {
        c as nat
    }
}

/// An amount with two decimals and a comma between thousands.
pub open spec fn money_text<N: Scalar>(v: N) -> Seq<char> {
    let cents = cents_of(v);
    (if v.below(num::nil::<N>()) && cents != 0 {
        seq!['-']
    } else {
        Seq::empty()
    }) + grouped(text::decimal(cents / 100)) + seq!['.'] + text::zero_padded(
        (cents % 100) as int,
        2,
    )
}

/// An amount with two decimals and a comma between thousands. It is rounded to whole
/// cents first, so that a carry reaches the integer part; what rounds to zero has no sign.
pub fn money<N: Scalar>(v: N) -> (r: String)
    ensures
        r@ == money_text(v),
{
    let c: i64 = num::abs(v).times(N::from_int(100)).round();
    let cents: u64 = if c < 0 {
        0
    } else {
        c as u64
    };
    let mut out = String::new();
    if v.less(num::zero::<N>()) && cents != 0 {
        out.push('-');
    }
    out.append(thousands(cents / 100).as_str());
    out.push('.');
    out.append(text::pad_zero((cents % 100) as i64, 2).as_str());
    assert(out@ =~= money_text(v));
    out
}

// ---------------------------------------------------------------------------
// Columns
// ---------------------------------------------------------------------------
/// A character that takes two columns: East Asian ideographs, syllables and full-width
/// forms, and pictographs.
pub open spec fn wide(c: char) -> bool {
    let u = c as u32;
    ||| 0x1100 <= u <= 0x115F
    ||| 0x2E80 <= u <= 0x303E
    ||| 0x3041 <= u <= 0x33FF
    ||| 0x3400 <= u <= 0x4DBF
    ||| 0x4E00 <= u <= 0x9FFF
    ||| 0xA000 <= u <= 0xA4CF
    ||| 0xAC00 <= u <= 0xD7A3
    ||| 0xF900 <= u <= 0xFAFF
    ||| 0xFE30 <= u <= 0xFE4F
    ||| 0xFF00 <= u <= 0xFF60
    ||| 0xFFE0 <= u <= 0xFFE6
    ||| 0x1F300 <= u <= 0x1FAFF
    ||| 0x20000 <= u <= 0x3FFFD
}

/// How many columns a character takes.
pub open spec fn columns_of(c: char) -> nat {
    if wide(c) {
        2
    } else {
        1
    }
}

/// How many columns a text takes.
pub open spec fn columns(s: Seq<char>) -> nat
    decreases s.len(),
{
    if s.len() == 0 {
        0
    } else {
        columns(s.drop_last()) + columns_of(s.last())
    }
}

/// How many columns of a terminal a character takes.
pub fn char_width(c: char) -> (r: usize)
    ensures
        r == columns_of(c),
{
    let u = c as u32;
    if (0x1100 <= u && u <= 0x115F) || (0x2E80 <= u && u <= 0x303E) || (0x3041 <= u && u
        <= 0x33FF) || (0x3400 <= u && u <= 0x4DBF) || (0x4E00 <= u && u <= 0x9FFF) || (0xA000 <= u
        && u <= 0xA4CF) || (0xAC00 <= u && u <= 0xD7A3) || (0xF900 <= u && u <= 0xFAFF) || (0xFE30
        <= u && u <= 0xFE4F) || (0xFF00 <= u && u <= 0xFF60) || (0xFFE0 <= u && u <= 0xFFE6) || (
    0x1F300 <= u && u <= 0x1FAFF) || (0x20000 <= u && u <= 0x3FFFD) {
        2
    } else {
        1
    }
}

/// Two texts one after the other take the columns of both.
pub proof fn columns_of_both(a: Seq<char>, b: Seq<char>)
    ensures
        columns(a + b) == columns(a) + columns(b),
    decreases b.len(),
{
    if b.len() == 0 {
        assert(a + b =~= a);
    } else {
        assert((a + b).drop_last() =~= a + b.drop_last());
        columns_of_both(a, b.drop_last());
    }
}

/// A text takes no more columns than it has bytes.
proof fn columns_within_bytes(s: Seq<char>)
    ensures
        columns(s) <= vstd::utf8::encode_utf8(s).len(),
    decreases s.len(),
{
    if s.len() > 0 {
        let head = s.take(1);
        let tail = s.drop_first();
        assert(s =~= head + tail);
        columns_of_both(head, tail);
        columns_within_bytes(tail);
        reveal_with_fuel(columns, 2);
        assert(head.drop_last() =~= Seq::<char>::empty());
        let c = s[0];
        vstd::utf8::char_is_scalar(c);
        assert(wide(c) ==> vstd::utf8::encode_scalar(c as u32).len() >= 3);
        assert(vstd::utf8::encode_scalar(c as u32).len() >= 1);
    }
}

/// How many columns of a terminal a text takes.
pub fn display_width(s: &str) -> (r: usize)
    ensures
        r == columns(s@),
{
    let v = text::chars_of(s);
    let bytes = s.as_bytes().len();
    let n = v.len();
    let mut w: u128 = 0;
    let mut i: usize = 0;
    assert(v@.take(0) =~= Seq::<char>::empty());
    while i < n
        invariant
            n == v@.len(),
            i <= n,
            w == columns(v@.take(i as int)),
            w <= 2 * i,
        decreases n - i,
    {
        assert(v@.take(i + 1).drop_last() =~= v@.take(i as int));
        w = w + char_width(v[i]) as u128;
        i += 1;
    }
    proof {
        assert(v@.take(n as int) =~= s@);
        columns_within_bytes(s@);
    }
    w as usize
}

/// As many spaces.
pub open spec fn spaces(n: nat) -> Seq<char> {
    Seq::new(n, |i: int| ' ')
}

proof fn columns_of_spaces(n: nat)
    ensures
        columns(spaces(n)) == n,
    decreases n,
{
    if n > 0 {
        assert(spaces(n).drop_last() =~= spaces((n - 1) as nat));
        columns_of_spaces((n - 1) as nat);
    }
}

/// A text with spaces behind it until it takes `width` columns; a text that takes as many
/// or more is left as it is.
pub fn pad_end(s: &str, width: usize) -> (r: String)
    ensures
        r@ == s@ + spaces((if columns(s@) >= width {
            0
        } else {
            width - columns(s@)
        }) as nat),
        columns(r@) == (if columns(s@) >= width {
            columns(s@)
        } else {
            width as nat
        }),
{
    let w = display_width(s);
    let mut out = s.to_owned();
    let mut i: usize = w;
    assert(out@ =~= s@ + spaces(0));
    while i < width
        invariant
            w == columns(s@),
            w <= i,
            i <= width || i == w,
            out@ == s@ + spaces((i - w) as nat),
        decreases width - i,
    {
        out.push(' ');
        i += 1;
        assert(out@ =~= s@ + spaces((i - w) as nat));
    }
    proof {
        columns_of_both(s@, spaces((i - w) as nat));
        columns_of_spaces((i - w) as nat);
    }
    out
}

// ---------------------------------------------------------------------------
// Charts
// ---------------------------------------------------------------------------
/// The numbers of a chart: all of them, or `width` of them at equal distances where there
/// are more.
pub open spec fn sampled<N: Scalar>(data: Seq<N>, width: nat) -> Seq<N> {
    if data.len() > width && width > 0 {
        Seq::new(
            width,
            |i: int|
                data[i * (data.len() - 1) / (if width > 1 {
                    width - 1
                } else {
                    1
                })],
        )
    } else {
        data
    }
}

/// The height, from 0 to 7, at which a number stands between two others.
pub open spec fn height<N: Scalar>(v: N, lo: N, hi: N) -> int {
    let span = hi.difference(lo);
    if num::above_zero(span) {
        let h = v.difference(lo).quotient(span).product(N::whole(7)).nearest();
        if h < 0 {
            0
        } else if h > 7 {
            7
        } else {
            h as int
        }
    } else {
        3
    }
}

/// The block that is `h` + 1 eighths high.
pub open spec fn block(h: int) -> char {
    (0x2581 + h) as char
}

fn block_of(h: i64) -> (c: char)
    requires
        0 <= h <= 7,
    ensures
        c == block(h as int),
{
    if h == 0 {
        '▁'
    } else if h == 1 {
        '▂'
    } else if h == 2 {
        '▃'
    } else if h == 3 {
        '▄'
    } else if h == 4 {
        '▅'
    } else if h == 5 {
        '▆'
    } else if h == 6 {
        '▇'
    } else {
        '█'
    }
}

/// A chart of blocks, one for each number, between the smallest and the largest.
pub open spec fn chart<N: Scalar>(s: Seq<N>) -> Seq<char> {
    Seq::new(s.len(), |i: int| block(height(s[i], num::smallest(s), num::largest(s))))
}

proof fn sample_index(i: int, len: int, width: int)
    requires
        0 <= i < width < len,
    ensures
        0 <= i * (len - 1),
        0 <= i * (len - 1) / (if width > 1 {
            width - 1
        } else {
            1
        }) < len,
{
    let w = if width > 1 {
        width - 1
    } else {
        1
    };
    assert(0 <= i * (len - 1) <= w * (len - 1)) by (nonlinear_arith)
        requires
            0 <= i <= w,
            len > 1,
    ;
    assert(0 <= i * (len - 1) / w <= len - 1) by (nonlinear_arith)
        requires
            0 <= i * (len - 1) <= w * (len - 1),
            w >= 1,
    ;
}

/// A chart of blocks, at most `width` of them where `width` is not 0.
pub fn sparkline<N: Scalar>(data: &[N], width: usize) -> (r: String)
    ensures
        r@ == chart(sampled(data@, width as nat)),
{
    let mut points: Vec<N> = Vec::new();
    let n = data.len();
    if n > width && width > 0 {
        let step: usize = if width > 1 {
            width - 1
        } else {
            1
        };
        let mut i: usize = 0;
        while i < width
            invariant
                n == data@.len(),
                i <= width < n,
                width > 0,
                step == (if width > 1 {
                    width - 1
                } else {
                    1
                }),
                points@.len() == i,
                forall|j: int| 0 <= j < i ==> points@[j] == sampled(data@, width as nat)[j],
            decreases width - i,
        {
            proof {
                sample_index(i as int, n as int, width as int);
                assert(i * (n - 1) <= 0xffff_ffff_ffff_ffff * 0xffff_ffff_ffff_ffff) by (nonlinear_arith)
                    requires
                        0 <= i <= 0xffff_ffff_ffff_ffff,
                        0 <= n - 1 <= 0xffff_ffff_ffff_ffff,
                ;
            }
            let k: u128 = i as u128 * (n as u128 - 1) / step as u128;
            points.push(data[k as usize]);
            i += 1;
        }
        assert(points@ =~= sampled(data@, width as nat));
    } else {
        let mut i: usize = 0;
        while i < n
            invariant
                n == data@.len(),
                i <= n,
                points@ == data@.take(i as int),
            decreases n - i,
        {
            points.push(data[i]);
            i += 1;
            assert(points@ =~= data@.take(i as int));
        }
        assert(points@ =~= sampled(data@, width as nat));
    }
    let ghost s = points@;
    let lo = num::min_of(points.as_slice(), 0, points.len());
    let hi = num::max_of(points.as_slice(), 0, points.len());
    assert(s.subrange(0, s.len() as int) =~= s);
    let span = hi.minus(lo);
    let mut out = String::new();
    let mut k: usize = 0;
    while k < points.len()
        invariant
            s == points@,
            k <= s.len(),
            lo == num::smallest(s),
            hi == num::largest(s),
            span == hi.difference(lo),
            out@ == chart(s).take(k as int),
        decreases s.len() - k,
    {
        let h: i64 = if num::positive(span) {
            let h: i64 = points[k].minus(lo).over(span).times(N::from_int(7)).round();
            if h < 0 {
                0
            } else if h > 7 {
                7
            } else {
                h
            }
        } else {
            3
        };
        out.push(block_of(h));
        k += 1;
        assert(out@ =~= chart(s).take(k as int));
    }
    assert(chart(s).take(s.len() as int) =~= chart(s));
    out
}

// ---------------------------------------------------------------------------
// Laws
// ---------------------------------------------------------------------------
proof fn without_of_both(a: Seq<char>, b: Seq<char>, c: char)
    ensures
        text::without(a + b, c) == text::without(a, c) + text::without(b, c),
    decreases b.len(),
{
    if b.len() == 0 {
        assert(a + b =~= a);
        assert(text::without(a, c) + text::without(b, c) =~= text::without(a, c));
    } else {
        without_of_both(a, b.drop_last(), c);
        assert((a + b).drop_last() =~= a + b.drop_last());
        assert((a + b).last() == b.last());
        assert(text::without(a + b, c) =~= text::without(a, c) + text::without(b, c));
    }
}

proof fn without_of_digits(s: Seq<char>)
    requires
        text::all_digits(s),
    ensures
        text::without(s, ',') == s,
    decreases s.len(),
{
    if s.len() > 0 {
        assert(text::is_digit(s[s.len() - 1]));
        assert(text::all_digits(s.drop_last())) by {
            assert forall|i: int| 0 <= i < s.drop_last().len() implies text::is_digit(
                #[trigger] s.drop_last()[i],
            ) by {
                assert(s.drop_last()[i] == s[i]);
            }
        }
        without_of_digits(s.drop_last());
        assert(s.drop_last().push(s.last()) =~= s);
    }
}

/// Grouping keeps the digits and puts a comma at each fourth place from the end, nowhere
/// else.
pub proof fn grouping_keeps_the_digits(s: Seq<char>)
    requires
        text::all_digits(s),
        0 < s.len(),
    ensures
        text::without(grouped(s), ',') == s,
        grouped(s).len() == s.len() + (s.len() - 1) / 3,
        forall|j: int|
            0 <= j < grouped(s).len() ==> (#[trigger] grouped(s)[j] == ',' <==> (grouped(s).len()
                - 1 - j) % 4 == 3),
    decreases s.len(),
{
    let n = s.len() as int;
    if n <= 3 {
        without_of_digits(s);
        assert forall|j: int| 0 <= j < s.len() implies #[trigger] s[j] != ',' by {
            assert(text::is_digit(s[j]));
        }
    } else {
        let h = s.take(n - 3);
        let t = s.skip(n - 3);
        assert(text::all_digits(h));
        assert(text::all_digits(t));
        grouping_keeps_the_digits(h);
        without_of_digits(t);
        let comma = seq![','];
        without_of_both(grouped(h), comma, ',');
        without_of_both(grouped(h) + comma, t, ',');
        assert(comma.drop_last() =~= Seq::<char>::empty());
        reveal_with_fuel(text::without, 2);
        assert(comma.last() == ',');
        assert(text::without(comma, ',') =~= Seq::<char>::empty());
        assert(h + Seq::<char>::empty() =~= h);
        assert(h + t =~= s);
        let g = grouped(s);
        let m = grouped(h).len() as int;
        assert(g.len() == m + 4);
        assert forall|j: int| 0 <= j < g.len() implies (#[trigger] g[j] == ',' <==> (g.len() - 1
            - j) % 4 == 3) by {
            if j < m {
                assert(g[j] == grouped(h)[j]);
            } else if j == m {
                assert(g[j] == ',');
            } else {
                assert(g[j] == t[j - m - 1]);
                assert(text::is_digit(t[j - m - 1]));
            }
        }
    }
}

/// The cents of an amount are a hundred times it, sign left aside, rounded to the nearest
/// whole number.
pub proof fn cents_are_nearest(v: Fixed)
    requires
        v.defined,
        -(i64::MAX / 100) <= v.units <= i64::MAX / 100,
    ensures
        ({
            let u = fixed::distance(v.units as int) as int;
            let c = cents_of(v) as int;
            2 * (c * SCALE - 100 * u) <= SCALE && 2 * (100 * u - c * SCALE) < SCALE
        }),
{
    let u = fixed::distance(v.units as int) as int;
    let a = num::magnitude(v);
    assert(a == fixed::of_units(u));
    fixed::multiple_is_exact(100, a);
    let x = a.product(Fixed::whole(100));
    fixed::nearest_is_closest(x);
    assert(x.units == 100 * u);
}

/// An amount is told with its cents: what stands before the dot, commas left out, are whole
/// ones, and behind it are two digits for the hundredths. A minus stands before an amount
/// below zero that is not rounded to nothing.
pub proof fn money_tells_the_cents(v: Fixed) -> (r: (Seq<char>, Seq<char>))
    requires
        v.defined,
    ensures
        money_text(v) == (if v.units < 0 && cents_of(v) != 0 {
            seq!['-']
        } else {
            Seq::empty()
        }) + r.0 + seq!['.'] + r.1,
        r.1.len() == 2,
        text::all_digits(text::without(r.0, ',')),
        text::all_digits(r.1),
        text::digits_value(text::without(r.0, ',')) * 100 + text::digits_value(r.1) == cents_of(v),
{
    let c = cents_of(v);
    let whole = text::decimal(c / 100);
    let part = text::zero_padded((c % 100) as int, 2);
    text::decimal_reads_back(c / 100);
    text::decimal_reads_back(c % 100);
    text::padding_keeps_value(text::decimal(c % 100), 2);
    grouping_keeps_the_digits(whole);
    reveal_with_fuel(text::decimal, 3);
    assert(part.len() == 2);
    (grouped(whole), part)
}

/// A chart shows the first and the last number and as many as fit.
pub proof fn samples_reach_both_ends(data: Seq<Fixed>, width: nat)
    requires
        1 < width,
        0 < data.len(),
    ensures
        sampled(data, width).len() == (if data.len() > width {
            width
        } else {
            data.len()
        }),
        sampled(data, width)[0] == data[0],
        sampled(data, width).last() == data.last(),
{
    if data.len() > width {
        let n = data.len() - 1;
        let w = width - 1;
        assert(0 * n / w == 0) by (nonlinear_arith)
            requires
                0 < w,
        ;
        assert(w * n / w == n) by (nonlinear_arith)
            requires
                0 < w,
        ;
    }
}

/// A number stands at the bottom where it is the lowest and at the top where it is the
/// highest, and not below a smaller one; where all are the same they stand in the middle.
pub proof fn height_keeps_the_order(v: Fixed, w: Fixed, lo: Fixed, hi: Fixed)
    requires
        v.defined,
        w.defined,
        lo.defined,
        hi.defined,
        lo.units <= v.units <= w.units <= hi.units,
        hi.units - lo.units <= i64::MAX,
    ensures
        0 <= height(v, lo, hi) <= height(w, lo, hi) <= 7,
        lo.units == hi.units ==> height(v, lo, hi) == 3,
        lo.units < hi.units ==> height(lo, lo, hi) == 0,
        lo.units < hi.units ==> height(hi, lo, hi) == 7,
{
    if lo.units < hi.units {
        height_is_a_part(v, lo, hi);
        height_is_a_part(w, lo, hi);
        height_is_a_part(lo, lo, hi);
        height_is_a_part(hi, lo, hi);
        let s = SCALE as int;
        let span = hi.units - lo.units;
        let a = (v.units - lo.units) * s / span;
        let b = (w.units - lo.units) * s / span;
        fixed::floored((v.units - lo.units) * s, span);
        fixed::floored((w.units - lo.units) * s, span);
        assert(a <= b) by (nonlinear_arith)
            requires
                a * span <= (v.units - lo.units) * s,
                (w.units - lo.units) * s < b * span + span,
                v.units <= w.units,
                0 < span,
                s == 1_000_000,
        ;
        assert(0int * s / span == 0) by (nonlinear_arith)
            requires
                0 < span,
        ;
        assert(span * s / span == s) by (nonlinear_arith)
            requires
                0 < span,
        ;
    }
}

proof fn height_is_a_part(v: Fixed, lo: Fixed, hi: Fixed)
    requires
        v.defined,
        lo.defined,
        hi.defined,
        lo.units <= v.units <= hi.units,
        lo.units < hi.units,
        hi.units - lo.units <= i64::MAX,
    ensures
        ({
            let x = (v.units - lo.units) * SCALE / (hi.units - lo.units);
            &&& 0 <= x <= SCALE
            &&& height(v, lo, hi) == (7 * x + 500_000) / 1_000_000
        }),
{
    let s = SCALE as int;
    let span = hi.units - lo.units;
    let up = v.units - lo.units;
    let x = up * s / span;
    fixed::floored(up * s, span);
    assert(0 <= x <= s) by (nonlinear_arith)
        requires
            x * span <= up * s < x * span + span,
            0 <= up <= span,
            0 < span,
            s == 1_000_000,
    ;
    let part = v.difference(lo).quotient(hi.difference(lo));
    assert(part == fixed::of_units(x));
    fixed::multiple_is_exact(7, part);
    assert(part.product(Fixed::whole(7)) == fixed::of_units(7 * x));
}

} // verus!
