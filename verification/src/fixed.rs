//! Decimals with six places.
use crate::num;
use crate::num::Scalar;
use crate::text;
use vstd::prelude::*;

verus! {

/// How many units make one.
pub const SCALE: i128 = 1_000_000;

/// A decimal with six places, or undefined. What is out of range is undefined. Sums and
/// differences are exact, products, quotients and roots are rounded down. A power is defined
/// where the base is above zero and the exponent is a whole number above zero, or one over
/// such a number; it is rounded down too.
#[derive(Debug, Clone, Copy, PartialEq, Eq, Structural)]
pub struct Fixed {
    pub defined: bool,
    pub units: i64,
}

/// The decimal of a number of units.
pub open spec fn of_units(n: int) -> Fixed {
    if i64::MIN <= n <= i64::MAX {
        Fixed { defined: true, units: n as i64 }
    } else {
        Fixed { defined: false, units: 0 }
    }
}

/// The largest integer whose square is not above a number.
pub open spec fn is_root(n: int, r: int) -> bool {
    0 <= r && r * r <= n < (r + 1) * (r + 1)
}

/// The square root, rounded down.
pub open spec fn root_of(n: int) -> int {
    choose|r: int| is_root(n, r)
}

/// A number of units raised to a whole exponent, each product rounded down.
pub open spec fn raised(r: int, n: nat) -> int
    decreases n,
{
    if n == 0 {
        SCALE as int
    } else {
        raised(r, (n - 1) as nat) * r / (SCALE as int)
    }
}

/// Whether a number of units is the largest that, raised to an exponent, is not above
/// another.
pub open spec fn is_root_of_degree(u: int, n: nat, r: int) -> bool {
    0 <= r && raised(r, n) <= u < raised(r + 1, n)
}

/// The root of some degree, rounded down.
pub open spec fn degree_root(u: int, n: nat) -> int {
    choose|r: int| is_root_of_degree(u, n, r)
}

/// The units that a decimal notation without a sign stands for: digits, and at most one
/// dot among or beside them.
pub open spec fn notation_units(s: Seq<char>) -> Option<int> {
    let i = text::first_index(s, '.') as int;
    let whole = s.take(i);
    let part = if i < s.len() {
        s.skip(i + 1)
    } else {
        Seq::empty()
    };
    if whole.len() + part.len() == 0 || !text::all_digits(whole) || !text::all_digits(part) {
        None
    } else if part.len() <= 6 {
        Some(text::digits_value(whole + part + Seq::new((6 - part.len()) as nat, |k: int| '0')))
    } else {
        Some(text::digits_value(whole + part.take(6)))
    }
}

/// The decimal that a notation, with or without a sign, stands for.
pub open spec fn notation(s: Seq<char>) -> Option<Fixed> {
    if s.len() > 0 && (s[0] == '-' || s[0] == '+') {
        match notation_units(s.drop_first()) {
            Some(n) => Some(
                of_units(
                    if s[0] == '-' {
                        -n
                    } else {
                        n
                    },
                ),
            ),
            None => None,
        }
    } else {
        match notation_units(s) {
            Some(n) => Some(of_units(n)),
            None => None,
        }
    }
}

/// A power of ten.
pub open spec fn tens(k: nat) -> nat
    decreases k,
{
    if k == 0 {
        1
    } else {
        10 * tens((k - 1) as nat)
    }
}

/// The distance of a number of units from zero.
pub open spec fn distance(n: int) -> nat {
    (if n < 0 {
        -n
    } else {
        n
    }) as nat
}

/// The digits of a number, with a dot before the last `places` of them and at least one
/// before the dot.
pub open spec fn placed(n: nat, places: nat) -> Seq<char> {
    let d = text::left_padded(text::decimal(n), '0', places + 1);
    if places == 0 {
        d
    } else {
        d.take(d.len() - places) + seq!['.'] + d.skip(d.len() - places)
    }
}

/// A number of units with so many decimal places, without a sign; halves are rounded away
/// from zero.
pub open spec fn placed_units(n: nat, places: nat) -> Seq<char> {
    if places >= 6 {
        placed(n, 6) + Seq::new((places - 6) as nat, |i: int| '0')
    } else {
        let step = tens((6 - places) as nat);
        placed((n + step / 2) / step, places)
    }
}

/// The notation of a decimal: its sign where it is below zero, its digits, and a dot before
/// the six places.
pub open spec fn notation_of(f: Fixed) -> Seq<char> {
    if f.defined {
        (if f.units < 0 {
            seq!['-']
        } else {
            Seq::empty()
        }) + placed(distance(f.units as int), 6)
    } else {
        "NaN"@
    }
}

/// The notation of a decimal stands for that decimal.
pub proof fn notation_reads_back(f: Fixed)
    requires
        f.defined,
    ensures
        notation(notation_of(f)) == Some(f),
{
    let n = f.units as int;
    let m = distance(n);
    let d = text::left_padded(text::decimal(m), '0', 7);
    text::decimal_reads_back(m);
    text::padding_keeps_value(text::decimal(m), 7);
    let whole = d.take(d.len() - 6);
    let part = d.skip(d.len() - 6);
    let body = whole + seq!['.'] + part;
    assert(text::all_digits(whole)) by {
        assert forall|i: int| 0 <= i < whole.len() implies text::is_digit(#[trigger] whole[i]) by {
            assert(text::is_digit(d[i]));
        }
    }
    assert(text::all_digits(part)) by {
        assert forall|i: int| 0 <= i < part.len() implies text::is_digit(#[trigger] part[i]) by {
            assert(text::is_digit(d[d.len() - 6 + i]));
        }
    }
    text::first_index_of_joined(whole, '.', part);
    assert(body.take(whole.len() as int) =~= whole);
    assert(body.skip(whole.len() as int + 1) =~= part);
    assert(whole + part + Seq::new(0, |k: int| '0') =~= d);
    assert(notation_units(body) == Some(m as int));
    let s = notation_of(f);
    if n < 0 {
        assert(s.drop_first() =~= body);
        assert(s[0] == '-');
    } else {
        assert(s =~= body);
        assert(text::is_digit(whole[0]));
        assert(s[0] == whole[0]);
    }
}

fn make(n: i128) -> (r: Fixed)
    ensures
        r == of_units(n as int),
{
    if n < i64::MIN as i128 || n > i64::MAX as i128 {
        Fixed { defined: false, units: 0 }
    } else {
        Fixed { defined: true, units: n as i64 }
    }
}

/// The quotient rounded down, for a divisor above zero.
fn div_down(a: i128, b: i128) -> (r: i128)
    requires
        b > 0,
        i128::MIN + b <= a,
    ensures
        r == a as int / b as int,
{
    if a >= 0 {
        a / b
    } else {
        proof {
            vstd::arithmetic::div_mod::lemma_fundamental_div_mod(a as int, b as int);
            let q = a as int / b as int;
            let m = a as int % b as int;
            assert(a - (b - 1) == b * q - (b - 1 - m));
            assert(b * q <= 0) by (nonlinear_arith)
                requires
                    b * q + m == a,
                    a < 0,
                    0 <= m < b,
                    b > 0,
            ;
            assert((-q) * b == -(b * q)) by (nonlinear_arith);
            vstd::arithmetic::div_mod::lemma_fundamental_div_mod_converse(
                -(a - (b - 1)),
                b as int,
                -q,
                b - 1 - m,
            );
        }
        (a - (b - 1)) / b
    }
}

/// The square root, rounded down, by halving an interval.
fn isqrt(n: i128) -> (r: i128)
    requires
        0 <= n <= 9_223_372_036_854_775_807_000_000,
    ensures
        is_root(n as int, r as int),
        r == root_of(n as int),
        r <= 4_000_000_000_000,
{
    let mut lo: i128 = 0;
    let mut hi: i128 = 4_000_000_000_000;
    while hi - lo > 1
        invariant
            0 <= lo < hi <= 4_000_000_000_000,
            lo * lo <= n < hi * hi,
        decreases hi - lo,
    {
        let mid: i128 = lo + (hi - lo) / 2;
        assert(0 <= mid * mid <= 16_000_000_000_000_000_000_000_000) by (nonlinear_arith)
            requires
                0 <= mid <= 4_000_000_000_000,
        ;
        if mid * mid <= n {
            lo = mid;
        } else {
            hi = mid;
        }
    }
    assert(hi == lo + 1);
    proof {
        let r = root_of(n as int);
        assert(is_root(n as int, lo as int));
        assert(is_root(n as int, r));
        assert(r == lo) by (nonlinear_arith)
            requires
                0 <= r,
                r * r <= n < (r + 1) * (r + 1),
                0 <= lo,
                lo * lo <= n < (lo + 1) * (lo + 1),
        ;
    }
    lo
}

/// The number that digits stand for, where it is not above a limit.
fn digits_below(v: &Vec<char>, limit: i128) -> (r: Option<i128>)
    requires
        text::all_digits(v@),
        0 <= limit <= 9_223_372_036_854_775_808,
    ensures
        match r {
            Some(n) => n == text::digits_value(v@) && 0 <= n <= limit,
            None => text::digits_value(v@) > limit,
        },
{
    let mut acc: i128 = 0;
    let mut i: usize = 0;
    assert(v@.take(0) =~= Seq::<char>::empty());
    while i < v.len()
        invariant
            i <= v@.len(),
            text::all_digits(v@),
            0 <= acc <= limit <= 9_223_372_036_854_775_808,
            acc == text::digits_value(v@.take(i as int)),
        decreases v@.len() - i,
    {
        assert(v@.take(i + 1).drop_last() =~= v@.take(i as int));
        assert(text::is_digit(v@[i as int]));
        acc = acc * 10 + (v[i] as u32 as i128 - 48);
        if acc > limit {
            proof {
                text::digits_value_grows(v@, i + 1);
            }
            return None;
        }
        i += 1;
    }
    assert(v@.take(v@.len() as int) =~= v@);
    Some(acc)
}

/// The units that a notation without a sign stands for, where they are not above a limit.
fn parse_units(v: &Vec<char>, from: usize, limit: i128) -> (r: Option<Option<i128>>)
    requires
        from <= v@.len(),
        0 <= limit <= 9_223_372_036_854_775_808,
    ensures
        match r {
            Some(Some(n)) => notation_units(v@.skip(from as int)) == Some(n as int) && 0 <= n
                <= limit,
            Some(None) => notation_units(v@.skip(from as int)) matches Some(n) && n > limit,
            None => notation_units(v@.skip(from as int)) is None,
        },
{
    let ghost s = v@.skip(from as int);
    let i = text::find(v, from, '.');
    let ghost k = i - from;
    let n = v.len();
    let ghost whole = s.take(k);
    let ghost part = if k < s.len() {
        s.skip(k + 1)
    } else {
        Seq::empty()
    };
    let mut digits: Vec<char> = Vec::new();
    let mut j: usize = from;
    while j < i
        invariant
            from <= j <= i <= n == v@.len(),
            s == v@.skip(from as int),
            i - from == text::first_index(s, '.'),
            whole == s.take(i - from),
            digits@ == whole.take(j - from),
            text::all_digits(digits@),
        decreases i - j,
    {
        assert(whole[j - from] == v@[j as int]);
        if !text::is_ascii_digit(v[j]) {
            return None;
        }
        digits.push(v[j]);
        j += 1;
        assert(digits@ =~= whole.take(j - from));
    }
    assert(digits@ =~= whole);
    let dot = i < n;
    let start: usize = if dot {
        i + 1
    } else {
        n
    };
    let mut places: usize = 0;
    let mut j: usize = start;
    while j < n
        invariant
            start <= j <= n == v@.len(),
            start == (if dot {
                i + 1
            } else {
                n as int
            }),
            from <= i <= n,
            dot == (i < n),
            s == v@.skip(from as int),
            i - from == text::first_index(s, '.'),
            whole == s.take(i - from),
            part == (if dot {
                s.skip(i - from + 1)
            } else {
                Seq::empty()
            }),
            part.len() == n - start,
            places == (if j - start < 6 {
                j - start
            } else {
                6
            }),
            digits@ == whole + part.take(places as int),
            text::all_digits(whole),
            text::all_digits(part.take(j - start)),
            text::all_digits(digits@),
        decreases n - j,
    {
        assert(part[j - start] == v@[j as int]);
        if !text::is_ascii_digit(v[j]) {
            assert(!text::is_digit(part[j - start]));
            return None;
        }
        assert(part.take(j - start + 1) =~= part.take(j - start).push(v@[j as int]));
        if places < 6 {
            digits.push(v[j]);
            places += 1;
            assert(digits@ =~= whole + part.take(places as int));
        }
        j += 1;
    }
    assert(part.take(n - start) =~= part);
    if i == from && start == n {
        return None;
    }
    let ghost so_far = digits@;
    let ghost had = places as int;
    while places < 6
        invariant
            0 <= had <= places <= 6,
            digits@ == so_far + Seq::new((places - had) as nat, |k: int| '0'),
            text::all_digits(digits@),
        decreases 6 - places,
    {
        digits.push('0');
        places += 1;
        assert(digits@ =~= so_far + Seq::new((places - had) as nat, |k: int| '0'));
    }
    assert(so_far + Seq::new(0, |k: int| '0') =~= so_far);
    assert(notation_units(s) == Some(text::digits_value(digits@)));
    Some(digits_below(&digits, limit))
}

/// A number divided by a smaller one above zero is at least one and not above itself.
proof fn quotient_of_less(a: int, b: int)
    requires
        0 < b <= a,
    ensures
        1 <= a / b <= a,
{
    assert(1 <= a / b <= a) by (nonlinear_arith)
        requires
            0 < b <= a,
    ;
}

/// A power of what is not below zero is not below zero.
pub proof fn raised_is_not_negative(r: int, n: nat)
    requires
        0 <= r,
    ensures
        0 <= raised(r, n),
    decreases n,
{
    if n > 0 {
        let v = raised(r, (n - 1) as nat);
        raised_is_not_negative(r, (n - 1) as nat);
        assert(0 <= v * r) by (nonlinear_arith)
            requires
                0 <= v,
                0 <= r,
        ;
    }
}

/// A power of a larger base is not smaller.
pub proof fn raised_is_monotonic(r: int, s: int, n: nat)
    requires
        0 <= r <= s,
    ensures
        raised(r, n) <= raised(s, n),
    decreases n,
{
    if n > 0 {
        let v = raised(r, (n - 1) as nat);
        let w = raised(s, (n - 1) as nat);
        raised_is_monotonic(r, s, (n - 1) as nat);
        raised_is_not_negative(r, (n - 1) as nat);
        assert(v * r <= w * s) by (nonlinear_arith)
            requires
                0 <= v <= w,
                0 <= r <= s,
        ;
    }
}

/// Powers of a base from one up do not fall, those of a base up to one do not rise.
pub proof fn raised_goes_one_way(r: int, m: nat, n: nat)
    requires
        0 <= r,
        m <= n,
    ensures
        SCALE <= r ==> raised(r, m) <= raised(r, n),
        r <= SCALE ==> raised(r, n) <= raised(r, m),
    decreases n - m,
{
    if m < n {
        let v = raised(r, (n - 1) as nat);
        raised_goes_one_way(r, m, (n - 1) as nat);
        raised_is_not_negative(r, (n - 1) as nat);
        if SCALE <= r {
            assert(v * SCALE <= v * r) by (nonlinear_arith)
                requires
                    0 <= v,
                    SCALE <= r,
            ;
        }
        if r <= SCALE {
            assert(v * r <= v * SCALE) by (nonlinear_arith)
                requires
                    0 <= v,
                    r <= SCALE,
            ;
        }
    }
}

/// A number of units raised to an exponent, where that is not above a limit.
fn raise(r: i128, n: u64, limit: i128) -> (v: Option<i128>)
    requires
        0 <= r <= 9_223_372_036_854_775_808,
        0 <= limit <= 9_223_372_036_854_775_807,
    ensures
        match v {
            Some(p) => p == raised(r as int, n as nat) && p <= limit,
            None => limit < raised(r as int, n as nat),
        },
{
    let mut v: i128 = SCALE;
    let mut i: u64 = 0;
    while i < n && v != 0 && r != SCALE && (r < SCALE || v <= limit)
        invariant
            0 <= i <= n,
            0 <= r <= 9_223_372_036_854_775_808,
            0 <= limit <= 9_223_372_036_854_775_807,
            0 <= v,
            v == raised(r as int, i as nat),
            r <= SCALE ==> v <= SCALE,
        decreases n - i,
    {
        proof {
            assert(0 <= v * r <= 85_070_591_730_234_615_865_843_651_857_942_052_864)
                by (nonlinear_arith)
                requires
                    0 <= v <= 9_223_372_036_854_775_808,
                    0 <= r <= 9_223_372_036_854_775_808,
            ;
            raised_goes_one_way(r as int, i as nat, (i + 1) as nat);
        }
        v = v * r / SCALE;
        i = i + 1;
    }
    proof {
        raised_goes_one_way(r as int, i as nat, n as nat);
        raised_is_not_negative(r as int, n as nat);
        if v == 0 && r > SCALE {
            raised_goes_one_way(r as int, 0, i as nat);
        }
    }
    if v <= limit {
        Some(v)
    } else {
        None
    }
}

/// The root of some degree, rounded down.
fn root_of_degree(u: i128, n: u64) -> (r: i128)
    requires
        0 < u <= 9_223_372_036_854_775_807,
        0 < n,
    ensures
        r == degree_root(u as int, n as nat),
        0 <= r <= 9_223_372_036_854_775_807,
{
    let mut low: i128 = 0;
    let mut high: i128 = if u < SCALE {
        SCALE + 1
    } else {
        u + 1
    };
    proof {
        let top = high as int;
        raised_goes_one_way(0, 1, n as nat);
        raised_goes_one_way(top, 1, n as nat);
        raised_is_not_negative(0, n as nat);
        reveal_with_fuel(raised, 2);
        assert(SCALE * 0 / (SCALE as int) == 0);
        assert(SCALE * top / (SCALE as int) == top);
    }
    while low + 1 < high
        invariant
            0 <= low < high <= 9_223_372_036_854_775_808,
            0 < u <= 9_223_372_036_854_775_807,
            raised(low as int, n as nat) <= u < raised(high as int, n as nat),
        decreases high - low,
    {
        let middle = low + (high - low) / 2;
        match raise(middle, n, u) {
            Some(_) => {
                low = middle;
            },
            None => {
                high = middle;
            },
        }
    }
    proof {
        assert(is_root_of_degree(u as int, n as nat, low as int));
        root_is_unique(u as int, n as nat, low as int, degree_root(u as int, n as nat));
    }
    low
}

/// A number has one root of each degree.
pub proof fn root_is_unique(u: int, n: nat, r: int, s: int)
    requires
        is_root_of_degree(u, n, r),
        is_root_of_degree(u, n, s),
    ensures
        r == s,
{
    if r < s {
        raised_is_monotonic(r + 1, s, n);
    }
    if s < r {
        raised_is_monotonic(s + 1, r, n);
    }
}

/// A number above zero has a root of each degree from one up, which is not above the
/// number or one, whichever is the larger.
pub proof fn root_exists(u: int, n: nat)
    requires
        0 < u,
        0 < n,
    ensures
        is_root_of_degree(u, n, degree_root(u, n)),
        degree_root(u, n) <= u || degree_root(u, n) <= SCALE,
{
    let top = if u < SCALE {
        SCALE as int
    } else {
        u
    };
    reveal_with_fuel(raised, 2);
    raised_goes_one_way(0, 1, n);
    raised_is_not_negative(0, n);
    raised_goes_one_way(top + 1, 1, n);
    assert(SCALE * 0 / (SCALE as int) == 0);
    assert(SCALE * (top + 1) / (SCALE as int) == top + 1);
    let r = root_between(u, n, 0, top + 1);
    root_is_unique(u, n, r, degree_root(u, n));
}

/// Between a number whose power is not above another and one whose power is, there is a
/// root.
proof fn root_between(u: int, n: nat, low: int, high: int) -> (r: int)
    requires
        0 <= low < high,
        raised(low, n) <= u < raised(high, n),
    ensures
        is_root_of_degree(u, n, r),
        low <= r < high,
    decreases high - low,
{
    if low + 1 == high {
        low
    } else if raised(low + 1, n) <= u {
        root_between(u, n, low + 1, high)
    } else {
        low
    }
}

fn magnitude(n: i64) -> (r: u64)
    ensures
        r == distance(n as int),
        r <= 9_223_372_036_854_775_808,
{
    if n < 0 {
        (-(n as i128)) as u64
    } else {
        n as u64
    }
}

fn place(n: u64, places: usize) -> (r: String)
    requires
        places <= 6,
    ensures
        r@ == placed(n as nat, places as nat),
{
    let digits = text::pad_left(&text::chars_of(text::show(n).as_str()), '0', places + 1);
    if places == 0 {
        return digits;
    }
    let d = text::chars_of(digits.as_str());
    let whole = text::text_between(&d, 0, d.len() - places);
    let part = text::text_between(&d, d.len() - places, d.len());
    let mut out = whole;
    out.push('.');
    out.append(part.as_str());
    assert(d@.subrange(0, d@.len() - places) =~= d@.take(d@.len() - places));
    assert(d@.subrange(d@.len() - places, d@.len() as int) =~= d@.skip(d@.len() - places));
    assert(out@ =~= placed(n as nat, places as nat));
    out
}

fn place_units(n: u64, places: usize) -> (r: String)
    requires
        n <= 9_223_372_036_854_775_808,
    ensures
        r@ == placed_units(n as nat, places as nat),
{
    if places >= 6 {
        let mut out = place(n, 6);
        let ghost start = out@;
        let mut k: usize = 6;
        assert(out@ =~= start + Seq::new(0, |i: int| '0'));
        while k < places
            invariant
                6 <= k <= places,
                start == placed(n as nat, 6),
                out@ == start + Seq::new((k - 6) as nat, |i: int| '0'),
            decreases places - k,
        {
            out.push('0');
            k += 1;
            assert(out@ =~= start + Seq::new((k - 6) as nat, |i: int| '0'));
        }
        return out;
    }
    let mut step: u64 = 1;
    let mut k: usize = 6;
    while k > places
        invariant
            places <= k <= 6,
            step == tens((6 - k) as nat),
            1 <= step <= 1_000_000,
            k == 6 ==> step <= 1,
            k == 5 ==> step <= 10,
            k == 4 ==> step <= 100,
            k == 3 ==> step <= 1_000,
            k == 2 ==> step <= 10_000,
            k == 1 ==> step <= 100_000,
        decreases k,
    {
        step = step * 10;
        k -= 1;
    }
    place((n + step / 2) / step, places)
}

impl Scalar for Fixed {
    open spec fn whole(n: int) -> Self {
        of_units(n * SCALE)
    }

    open spec fn denoted(s: Seq<char>) -> Option<Self> {
        notation(s)
    }

    open spec fn written(self) -> Seq<char> {
        notation_of(self)
    }

    open spec fn rounded(self, places: nat) -> Seq<char> {
        if self.defined {
            (if self.units < 0 {
                seq!['-']
            } else {
                Seq::empty()
            }) + placed_units(distance(self.units as int), places)
        } else {
            "NaN"@
        }
    }

    open spec fn signed(self, places: nat) -> Seq<char> {
        if self.defined {
            seq![
                if self.units < 0 {
                    '-'
                } else {
                    '+'
                },
            ] + placed_units(distance(self.units as int), places)
        } else {
            "NaN"@
        }
    }

    open spec fn undefined() -> Self {
        Fixed { defined: false, units: 0 }
    }

    open spec fn bottom() -> Self {
        of_units(i64::MIN as int)
    }

    open spec fn top() -> Self {
        of_units(i64::MAX as int)
    }

    open spec fn sum(self, other: Self) -> Self {
        if self.defined && other.defined {
            of_units(self.units + other.units)
        } else {
            Self::undefined()
        }
    }

    open spec fn difference(self, other: Self) -> Self {
        if self.defined && other.defined {
            of_units(self.units - other.units)
        } else {
            Self::undefined()
        }
    }

    open spec fn product(self, other: Self) -> Self {
        if self.defined && other.defined {
            of_units(self.units * other.units / (SCALE as int))
        } else {
            Self::undefined()
        }
    }

    open spec fn quotient(self, other: Self) -> Self {
        if self.defined && other.defined && other.units > 0 {
            of_units(self.units * SCALE / (other.units as int))
        } else if self.defined && other.defined && other.units < 0 {
            of_units((-self.units) * SCALE / (-other.units))
        } else {
            Self::undefined()
        }
    }

    open spec fn below(self, other: Self) -> bool {
        self.defined && other.defined && self.units < other.units
    }

    open spec fn equals(self, other: Self) -> bool {
        self.defined && other.defined && self.units == other.units
    }

    open spec fn bounded(self) -> bool {
        self.defined
    }

    open spec fn root(self) -> Self {
        if self.defined && self.units >= 0 {
            of_units(root_of(self.units * SCALE))
        } else {
            Self::undefined()
        }
    }

    open spec fn power(self, exponent: Self) -> Self {
        let e = exponent.units as int;
        let one = SCALE as int;
        if !self.defined || !exponent.defined || self.units <= 0 || e <= 0 {
            Self::undefined()
        } else if e % one == 0 {
            of_units(raised(self.units as int, (e / one) as nat))
        } else if e < one && one / (one / e) == e {
            of_units(degree_root(self.units as int, (one / e) as nat))
        } else {
            Self::undefined()
        }
    }

    open spec fn ceiling(self) -> Self {
        if self.defined {
            of_units(-((-self.units) / (SCALE as int)) * SCALE)
        } else {
            Self::undefined()
        }
    }

    open spec fn nearest(self) -> i64 {
        if !self.defined {
            0
        } else if self.units >= 0 {
            ((self.units + SCALE / 2) / (SCALE as int)) as i64
        } else {
            (-((-self.units + SCALE / 2) / (SCALE as int))) as i64
        }
    }

    open spec fn integral(self) -> i64 {
        if !self.defined {
            0
        } else if self.units >= 0 {
            (self.units as int / (SCALE as int)) as i64
        } else {
            (-((-self.units) / (SCALE as int))) as i64
        }
    }

    open spec fn rank(self) -> i64 {
        self.units
    }

    fn from_int(n: i128) -> (r: Self) {
        let limit: i128 = 9_223_372_036_855;
        if n > limit || n < -limit {
            Fixed { defined: false, units: 0 }
        } else {
            make(n * SCALE)
        }
    }

    fn parse(s: &str) -> (r: Option<Self>) {
        let v = text::chars_of(s);
        let signed = v.len() > 0 && (v[0] == '-' || v[0] == '+');
        let negative = v.len() > 0 && v[0] == '-';
        let from: usize = if signed {
            1
        } else {
            0
        };
        assert(signed ==> s@.drop_first() =~= s@.skip(1));
        assert(s@.skip(0) =~= s@);
        let limit: i128 = if negative {
            9_223_372_036_854_775_808
        } else {
            9_223_372_036_854_775_807
        };
        match parse_units(&v, from, limit) {
            Some(Some(n)) => Some(
                make(
                    if negative {
                        -n
                    } else {
                        n
                    },
                ),
            ),
            Some(None) => Some(Fixed { defined: false, units: 0 }),
            None => None,
        }
    }

    fn show(self) -> (r: String) {
        if !self.defined {
            return "NaN".to_owned();
        }
        let mut out = String::new();
        if self.units < 0 {
            out.push('-');
        }
        out.append(place(magnitude(self.units), 6).as_str());
        assert(out@ =~= notation_of(self));
        out
    }

    fn show_rounded(self, places: usize) -> (r: String) {
        if !self.defined {
            return "NaN".to_owned();
        }
        let mut out = String::new();
        if self.units < 0 {
            out.push('-');
        }
        out.append(place_units(magnitude(self.units), places).as_str());
        assert(out@ =~= self.rounded(places as nat));
        out
    }

    fn show_signed(self, places: usize) -> (r: String) {
        if !self.defined {
            return "NaN".to_owned();
        }
        let mut out = String::new();
        if self.units < 0 {
            out.push('-');
        } else {
            out.push('+');
        }
        out.append(place_units(magnitude(self.units), places).as_str());
        assert(out@ =~= self.signed(places as nat));
        out
    }

    fn nan() -> (r: Self) {
        Fixed { defined: false, units: 0 }
    }

    fn lowest() -> (r: Self) {
        Fixed { defined: true, units: i64::MIN }
    }

    fn highest() -> (r: Self) {
        Fixed { defined: true, units: i64::MAX }
    }

    fn plus(self, other: Self) -> (r: Self) {
        if self.defined && other.defined {
            make(self.units as i128 + other.units as i128)
        } else {
            Fixed { defined: false, units: 0 }
        }
    }

    fn minus(self, other: Self) -> (r: Self) {
        if self.defined && other.defined {
            make(self.units as i128 - other.units as i128)
        } else {
            Fixed { defined: false, units: 0 }
        }
    }

    fn times(self, other: Self) -> (r: Self) {
        if self.defined && other.defined {
            let a = self.units as i128;
            let b = other.units as i128;
            assert(-85_070_591_730_234_615_865_843_651_857_942_052_864 <= a * b
                <= 85_070_591_730_234_615_865_843_651_857_942_052_864) by (nonlinear_arith)
                requires
                    -9_223_372_036_854_775_808 <= a <= 9_223_372_036_854_775_807,
                    -9_223_372_036_854_775_808 <= b <= 9_223_372_036_854_775_807,
            ;
            make(div_down(a * b, SCALE))
        } else {
            Fixed { defined: false, units: 0 }
        }
    }

    fn over(self, other: Self) -> (r: Self) {
        if self.defined && other.defined && other.units != 0 {
            let a = self.units as i128 * SCALE;
            if other.units > 0 {
                make(div_down(a, other.units as i128))
            } else {
                assert((-self.units) * SCALE == -(self.units * SCALE));
                make(div_down(-a, -(other.units as i128)))
            }
        } else {
            Fixed { defined: false, units: 0 }
        }
    }

    fn less(self, other: Self) -> (r: bool) {
        self.defined && other.defined && self.units < other.units
    }

    fn same(self, other: Self) -> (r: bool) {
        self.defined && other.defined && self.units == other.units
    }

    fn is_finite(self) -> (r: bool) {
        self.defined
    }

    fn sqrt(self) -> (r: Self) {
        if self.defined && self.units >= 0 {
            make(isqrt(self.units as i128 * SCALE))
        } else {
            Fixed { defined: false, units: 0 }
        }
    }

    fn powf(self, exponent: Self) -> (r: Self) {
        if !self.defined || !exponent.defined || self.units <= 0 || exponent.units <= 0 {
            return Fixed { defined: false, units: 0 };
        }
        let u = self.units as i128;
        let e = exponent.units as i128;
        if e % SCALE == 0 {
            match raise(u, (e / SCALE) as u64, i64::MAX as i128) {
                Some(v) => {
                    proof {
                        raised_is_not_negative(u as int, (e / SCALE) as nat);
                    }
                    make(v)
                },
                None => Fixed { defined: false, units: 0 },
            }
        } else if e < SCALE {
            proof {
                quotient_of_less(SCALE as int, e as int);
            }
            let n = SCALE / e;
            if SCALE / n == e {
                make(root_of_degree(u, n as u64))
            } else {
                Fixed { defined: false, units: 0 }
            }
        } else {
            Fixed { defined: false, units: 0 }
        }
    }

    fn ceil(self) -> (r: Self) {
        if self.defined {
            make(-div_down(-(self.units as i128), SCALE) * SCALE)
        } else {
            Fixed { defined: false, units: 0 }
        }
    }

    fn round(self) -> (r: i64) {
        if !self.defined {
            0
        } else if self.units >= 0 {
            ((self.units as i128 + 500_000) / SCALE) as i64
        } else {
            (-((-(self.units as i128) + 500_000) / SCALE)) as i64
        }
    }

    fn trunc(self) -> (r: i64) {
        if !self.defined {
            0
        } else if self.units >= 0 {
            (self.units as i128 / SCALE) as i64
        } else {
            (-(-(self.units as i128) / SCALE)) as i64
        }
    }

    fn order_key(self) -> (r: i64) {
        self.units
    }

    fn identical(self, other: Self) -> (r: bool) {
        self.defined == other.defined && self.units == other.units
    }
}

// ---------------------------------------------------------------------------
// What rounding down leaves
// ---------------------------------------------------------------------------
/// Whether a number is the part of an amount at a rate, in units and rounded down.
pub open spec fn is_part_of(part: int, amount: int, rate: int) -> bool {
    part * SCALE <= amount * rate < part * SCALE + SCALE
}

/// Whether a number is what a divisor goes into a number, rounded down.
pub open spec fn is_ratio_of(ratio: int, number: int, divisor: int) -> bool {
    ratio * divisor <= number < ratio * divisor + divisor
}

/// A quotient by a number above zero, rounded down, is the largest multiple of it that is
/// not above what is divided.
pub proof fn floored(n: int, d: int)
    requires
        0 < d,
    ensures
        is_ratio_of(n / d, n, d),
{
    assert(n / d * d <= n < n / d * d + d) by (nonlinear_arith)
        requires
            0 < d,
    ;
}

/// A number has one quotient by a number above zero, rounded down.
pub proof fn one_ratio(a: int, b: int, n: int, d: int)
    requires
        0 < d,
        is_ratio_of(a, n, d),
        is_ratio_of(b, n, d),
    ensures
        a == b,
{
    assert(a == b) by (nonlinear_arith)
        requires
            0 < d,
            a * d <= n < a * d + d,
            b * d <= n < b * d + d,
    ;
}

/// A product is exact but for what is below one unit.
pub proof fn product_is_part(a: Fixed, b: Fixed)
    requires
        a.product(b).defined,
    ensures
        a.defined,
        b.defined,
        is_part_of(a.product(b).units as int, a.units as int, b.units as int),
{
    floored(a.units * b.units, SCALE as int);
}

/// A whole number of times a decimal is exact.
pub proof fn multiple_is_exact(n: int, b: Fixed)
    requires
        Fixed::whole(n).defined,
        b.defined,
    ensures
        Fixed::whole(n).product(b) == of_units(n * b.units),
        b.product(Fixed::whole(n)) == of_units(n * b.units),
{
    let s = SCALE as int;
    let u = b.units as int;
    assert((n * s) * u == s * (n * u)) by (nonlinear_arith);
    assert(u * (n * s) == s * (n * u)) by (nonlinear_arith);
    vstd::arithmetic::div_mod::lemma_div_multiples_vanish(n * u, s);
}

/// A quotient by a decimal above zero, multiplied by it again, falls short of what was
/// divided by less than it.
pub proof fn quotient_is_ratio(a: Fixed, b: Fixed)
    requires
        a.quotient(b).defined,
        0 < b.units,
    ensures
        a.defined,
        b.defined,
        is_ratio_of(a.quotient(b).units as int, a.units * SCALE, b.units as int),
{
    floored(a.units * SCALE, b.units as int);
}

/// A decimal divided by a whole number is rounded down to the unit.
pub proof fn share_is_ratio(a: Fixed, n: int)
    requires
        a.defined,
        0 < n,
        Fixed::whole(n).defined,
    ensures
        a.quotient(Fixed::whole(n)).defined,
        is_ratio_of(a.quotient(Fixed::whole(n)).units as int, a.units as int, n),
{
    let s = SCALE as int;
    let u = a.units as int;
    let q = u * s / (n * s);
    floored(u * s, n * s);
    assert(q * n <= u < q * n + n) by (nonlinear_arith)
        requires
            q * (n * s) <= u * s < q * (n * s) + n * s,
            s == 1_000_000,
    ;
    assert(i64::MIN <= q <= i64::MAX) by (nonlinear_arith)
        requires
            q * n <= u < q * n + n,
            0 < n,
            i64::MIN <= u <= i64::MAX,
    ;
}

/// How often an amount holds another, cut to a whole number.
pub proof fn times_in(c: int, u: int)
    requires
        0 <= c,
        0 < u,
    ensures
        0 <= c * SCALE / u,
        0 <= c * SCALE / u / (SCALE as int),
        is_ratio_of(c * SCALE / u / (SCALE as int), c, u),
{
    let s = SCALE as int;
    let q = c * s / u;
    let k = q / s;
    floored(c * s, u);
    floored(q, s);
    assert(0 <= q) by (nonlinear_arith)
        requires
            0 <= c * s < q * u + u,
            0 < u,
    ;
    assert(k * u <= c) by (nonlinear_arith)
        requires
            k * s <= q,
            q * u <= c * s,
            0 < u,
            s == 1_000_000,
    ;
    assert(c < k * u + u) by (nonlinear_arith)
        requires
            q + 1 <= k * s + s,
            c * s < q * u + u,
            0 < u,
            s == 1_000_000,
    ;
}

/// A number that is not below zero has a square root, rounded down.
pub proof fn square_root_exists(n: int)
    requires
        0 <= n,
    ensures
        is_root(n, root_of(n)),
        root_of(n) <= n,
{
    assert(n < (n + 1) * (n + 1)) by (nonlinear_arith)
        requires
            0 <= n,
    ;
    let r = square_root_between(n, 0, n + 1);
    assert(is_root(n, r));
    let t = root_of(n);
    assert(t <= n) by (nonlinear_arith)
        requires
            t * t <= n,
            0 <= t,
            0 <= n,
    ;
}

proof fn square_root_between(n: int, low: int, high: int) -> (r: int)
    requires
        0 <= low < high,
        low * low <= n < high * high,
    ensures
        is_root(n, r),
    decreases high - low,
{
    if low + 1 == high || n < (low + 1) * (low + 1) {
        low
    } else {
        square_root_between(n, low + 1, high)
    }
}

/// A square root, multiplied by itself, falls short of the number by less than the square
/// of the next unit exceeds it.
pub proof fn root_is_closest(a: Fixed)
    requires
        a.defined,
        0 <= a.units,
    ensures
        a.root().defined,
        is_root(a.units * SCALE, a.root().units as int),
{
    let n = a.units * SCALE;
    square_root_exists(n);
    let r = root_of(n);
    assert(r <= i64::MAX) by (nonlinear_arith)
        requires
            r * r <= n,
            n <= 9_223_372_036_854_775_807 * 1_000_000,
            0 <= r,
            i64::MAX == 9_223_372_036_854_775_807,
    ;
}

// ---------------------------------------------------------------------------
// Sums
// ---------------------------------------------------------------------------
/// The units of decimals added up.
pub open spec fn units_in_all(s: Seq<Fixed>) -> int
    decreases s.len(),
{
    if s.len() == 0 {
        0
    } else {
        units_in_all(s.drop_last()) + s.last().units
    }
}

/// Decimals that add up are all defined, and their sum is exact.
pub proof fn total_is_exact(s: Seq<Fixed>)
    requires
        num::total(s).defined,
    ensures
        num::total(s).units == units_in_all(s),
        forall|i: int| 0 <= i < s.len() ==> (#[trigger] s[i]).defined,
    decreases s.len(),
{
    if s.len() > 0 {
        total_is_exact(s.drop_last());
        assert forall|i: int| 0 <= i < s.len() implies (#[trigger] s[i]).defined by {
            if i < s.len() - 1 {
                assert(s.drop_last()[i] == s[i]);
            }
        }
    }
}

// ---------------------------------------------------------------------------
// Whole numbers near a decimal
// ---------------------------------------------------------------------------
/// The nearest whole number is no more than half away, and is further from zero where two
/// are.
pub proof fn nearest_is_closest(a: Fixed)
    requires
        a.defined,
    ensures
        2 * (a.nearest() * SCALE - a.units) <= SCALE,
        2 * (a.units - a.nearest() * SCALE) <= SCALE,
        0 <= a.units ==> 2 * (a.units - a.nearest() * SCALE) < SCALE,
        a.units <= 0 ==> 2 * (a.nearest() * SCALE - a.units) < SCALE,
{
}

/// The whole part is towards zero, less than one away.
pub proof fn integral_is_toward_zero(a: Fixed)
    requires
        a.defined,
    ensures
        0 <= a.units ==> a.integral() * SCALE <= a.units < a.integral() * SCALE + SCALE,
        a.units < 0 ==> a.integral() * SCALE - SCALE < a.units <= a.integral() * SCALE,
{
}

/// Rounded up, a decimal is the smallest whole number that is not below it.
pub proof fn ceiling_is_the_next_whole(a: Fixed)
    requires
        a.ceiling().defined,
    ensures
        a.ceiling().units as int % (SCALE as int) == 0,
        a.units <= a.ceiling().units < a.units + SCALE,
{
}

/// A product of numbers that are not below zero does not fall where one of them grows, and
/// neither does a quotient where what is divided grows or what divides shrinks.
pub proof fn products_and_quotients_are_monotonic(a: Fixed, b: Fixed, c: Fixed)
    requires
        a.defined,
        b.defined,
        c.defined,
        0 <= a.units <= b.units,
        0 < c.units,
        b.product(c).defined,
        b.quotient(c).defined,
        c.quotient(b).defined,
        0 < a.units ==> c.quotient(a).defined,
    ensures
        a.product(c).units <= b.product(c).units,
        a.quotient(c).units <= b.quotient(c).units,
        0 < a.units ==> c.quotient(b).units <= c.quotient(a).units,
{
    let x = a.units as int;
    let y = b.units as int;
    let z = c.units as int;
    let s = SCALE as int;
    assert(0 <= x * z <= y * z) by (nonlinear_arith)
        requires
            0 <= x <= y,
            0 < z,
    ;
    floored(x * z, s);
    floored(y * z, s);
    floored(x * s, z);
    floored(y * s, z);
    assert(0 <= x * s / z <= y * s / z) by (nonlinear_arith)
        requires
            0 <= x <= y,
            0 < z,
            s == 1_000_000,
    ;
    if 0 < x {
        let p = z * s / y;
        let q = z * s / x;
        floored(z * s, y);
        floored(z * s, x);
        assert(0 <= p) by (nonlinear_arith)
            requires
                0 < z * s < p * y + y,
                0 < y,
        ;
        assert(p <= q) by (nonlinear_arith)
            requires
                0 <= p,
                0 < x <= y,
                p * y <= z * s,
                z * s < q * x + x,
        ;
    }
}

/// Told with some places, a decimal is rounded to the nearest number that has them, away
/// from zero where two are; the sign stands before it where it is below zero.
pub proof fn rounding_is_nearest(f: Fixed, places: nat) -> (n: nat)
    requires
        f.defined,
        places <= 6,
    ensures
        f.rounded(places) == (if f.units < 0 {
            seq!['-']
        } else {
            Seq::empty()
        }) + placed(n, places),
        f.signed(places) == seq![
            if f.units < 0 {
                '-'
            } else {
                '+'
            },
        ] + placed(n, places),
        2 * (n * tens((6 - places) as nat) - distance(f.units as int)) <= tens(
            (6 - places) as nat,
        ),
        2 * (distance(f.units as int) - n * tens((6 - places) as nat)) < tens(
            (6 - places) as nat,
        ) || places == 6,
{
    let d = distance(f.units as int);
    if places == 6 {
        assert(tens(0) == 1);
        assert(placed(d, 6) + Seq::new(0, |i: int| '0') =~= placed(d, 6));
        d
    } else {
        let step = tens((6 - places) as nat);
        reveal_with_fuel(tens, 7);
        assert(step % 2 == 0 && 0 < step);
        let n = (d + step / 2) / step;
        floored((d + step / 2) as int, step as int);
        n
    }
}

/// A decimal is written with digits, a dot and a minus alone.
pub proof fn notation_is_plain(f: Fixed, c: char)
    requires
        f.defined,
        !text::is_digit(c),
        c != '.',
        c != '-',
    ensures
        text::free_of(notation_of(f), c),
        0 < notation_of(f).len(),
{
    let m = distance(f.units as int);
    let d = text::left_padded(text::decimal(m), '0', 7);
    text::decimal_reads_back(m);
    text::padding_keeps_value(text::decimal(m), 7);
    let s = notation_of(f);
    assert forall|i: int| 0 <= i < s.len() implies #[trigger] s[i] != c by {
        let from: int = if f.units < 0 {
            1
        } else {
            0
        };
        let k = i - from;
        if 0 <= k < d.len() - 6 {
            assert(s[i] == d[k]);
            assert(text::is_digit(d[k]));
        } else if d.len() - 6 < k {
            assert(s[i] == d[k - 1]);
            assert(text::is_digit(d[k - 1]));
        }
    }
}

/// A power is the base multiplied by itself: the power of none is one, that of one is the
/// base, and each further one is the part of the power before it at the base, rounded down.
pub proof fn powers_multiply(r: int, n: nat)
    ensures
        raised(r, 0) == SCALE,
        raised(r, 1) == r,
        is_part_of(raised(r, n + 1), raised(r, n), r),
{
    reveal_with_fuel(raised, 2);
    assert(SCALE * r / (SCALE as int) == r);
    floored(raised(r, n) * r, SCALE as int);
}

} // verus!
