//! Numbers that prices, costs and returns are computed in.
//!
//! The engine, the indicators and the reports are written once for every type of number
//! that implements [`Scalar`]. Their contracts say which operations are applied to which
//! operands and in which order, so they pin the result down for a type that rounds, too.
//! [`Fixed`], a decimal with six places, is such a type.
use vstd::prelude::*;

verus! {

/// A function that a type leaves open: nothing is known of it but that it is a function of
/// the name of the operation and of the operands.
pub open spec fn left_open<A, R>(operation: Seq<char>, operands: A) -> R {
    arbitrary::<spec_fn(Seq<char>, A) -> R>()(operation, operands)
}

/// A type of numbers. Each operation returns what its specification function says; what
/// that function is, the type decides, and where the type leaves it open, nothing is known
/// of it but that the operation is a function of its operands. A number may be undefined,
/// as the quotient of two zeros is.
pub trait Scalar: Copy {
    /// The number equal, or nearest, to an integer.
    open spec fn whole(n: int) -> Self {
        left_open("whole"@, n)
    }

    /// The number that a decimal notation denotes, if it denotes one.
    open spec fn denoted(s: Seq<char>) -> Option<Self> {
        left_open("denoted"@, s)
    }

    /// The decimal notation of the number.
    open spec fn written(self) -> Seq<char> {
        left_open("written"@, self)
    }

    /// The notation of the number with so many decimal places.
    open spec fn rounded(self, places: nat) -> Seq<char> {
        left_open("rounded"@, (self, places))
    }

    /// The same with a sign, above zero too.
    open spec fn signed(self, places: nat) -> Seq<char> {
        left_open("signed"@, (self, places))
    }

    /// The undefined number.
    open spec fn undefined() -> Self {
        left_open("undefined"@, ())
    }

    /// A number that no defined number is smaller than.
    open spec fn bottom() -> Self {
        left_open("bottom"@, ())
    }

    /// A number that no defined number is larger than.
    open spec fn top() -> Self {
        left_open("top"@, ())
    }

    open spec fn sum(self, other: Self) -> Self {
        left_open("sum"@, (self, other))
    }

    open spec fn difference(self, other: Self) -> Self {
        left_open("difference"@, (self, other))
    }

    open spec fn product(self, other: Self) -> Self {
        left_open("product"@, (self, other))
    }

    open spec fn quotient(self, other: Self) -> Self {
        left_open("quotient"@, (self, other))
    }

    /// `self` is smaller than `other`; false where one of them is undefined.
    open spec fn below(self, other: Self) -> bool {
        left_open("below"@, (self, other))
    }

    /// The two stand for one value; false where one of them is undefined.
    open spec fn equals(self, other: Self) -> bool {
        left_open("equals"@, (self, other))
    }

    /// The number is defined and not infinite.
    open spec fn bounded(self) -> bool {
        left_open("bounded"@, self)
    }

    /// The square root.
    open spec fn root(self) -> Self {
        left_open("root"@, self)
    }

    /// The number raised to a power.
    open spec fn power(self, exponent: Self) -> Self {
        left_open("power"@, (self, exponent))
    }

    /// The smallest integral number that is not smaller.
    open spec fn ceiling(self) -> Self {
        left_open("ceiling"@, self)
    }

    /// The nearest integer, halves away from zero, within the range of `i64`.
    open spec fn nearest(self) -> i64 {
        left_open("nearest"@, self)
    }

    /// The integer part, within the range of `i64`.
    open spec fn integral(self) -> i64 {
        left_open("integral"@, self)
    }

    /// An integer by which numbers are ordered: a smaller number has a smaller one.
    open spec fn rank(self) -> i64 {
        left_open("rank"@, self)
    }

    fn from_int(n: i128) -> (r: Self)
        ensures
            r == Self::whole(n as int),
    ;

    fn parse(s: &str) -> (r: Option<Self>)
        ensures
            r == Self::denoted(s@),
    ;

    fn show(self) -> (r: String)
        ensures
            r@ == self.written(),
    ;

    fn show_rounded(self, places: usize) -> (r: String)
        ensures
            r@ == self.rounded(places as nat),
    ;

    fn show_signed(self, places: usize) -> (r: String)
        ensures
            r@ == self.signed(places as nat),
    ;

    fn nan() -> (r: Self)
        ensures
            r == Self::undefined(),
    ;

    fn lowest() -> (r: Self)
        ensures
            r == Self::bottom(),
    ;

    fn highest() -> (r: Self)
        ensures
            r == Self::top(),
    ;

    fn plus(self, other: Self) -> (r: Self)
        ensures
            r == self.sum(other),
    ;

    fn minus(self, other: Self) -> (r: Self)
        ensures
            r == self.difference(other),
    ;

    fn times(self, other: Self) -> (r: Self)
        ensures
            r == self.product(other),
    ;

    fn over(self, other: Self) -> (r: Self)
        ensures
            r == self.quotient(other),
    ;

    fn less(self, other: Self) -> (r: bool)
        ensures
            r == self.below(other),
    ;

    fn same(self, other: Self) -> (r: bool)
        ensures
            r == self.equals(other),
    ;

    fn is_finite(self) -> (r: bool)
        ensures
            r == self.bounded(),
    ;

    fn sqrt(self) -> (r: Self)
        ensures
            r == self.root(),
    ;

    fn powf(self, exponent: Self) -> (r: Self)
        ensures
            r == self.power(exponent),
    ;

    fn ceil(self) -> (r: Self)
        ensures
            r == self.ceiling(),
    ;

    fn round(self) -> (r: i64)
        ensures
            r == self.nearest(),
    ;

    fn trunc(self) -> (r: i64)
        ensures
            r == self.integral(),
    ;

    /// The integer by which the number is ordered. A smaller number has a smaller one.
    fn order_key(self) -> (r: i64)
        ensures
            r == self.rank(),
            forall|b: Self| #[trigger] self.below(b) ==> self.rank() < b.rank(),
            forall|b: Self| #[trigger] b.below(self) ==> b.rank() < self.rank(),
    ;

    /// Whether the two are one and the same number, the undefined one included.
    fn identical(self, other: Self) -> (r: bool)
        ensures
            r == (self == other),
    ;
}

// ---------------------------------------------------------------------------
// What follows from the operations
// ---------------------------------------------------------------------------
/// The number is ordered among all others as it compares with them.
pub open spec fn ranked<N: Scalar>(a: N) -> bool {
    &&& forall|b: N| #[trigger] a.below(b) ==> a.rank() < b.rank()
    &&& forall|b: N| #[trigger] b.below(a) ==> b.rank() < a.rank()
}

/// The number `a / b`.
pub open spec fn fraction<N: Scalar>(a: int, b: int) -> N {
    N::whole(a).quotient(N::whole(b))
}

pub fn ratio<N: Scalar>(a: i64, b: i64) -> (r: N)
    ensures
        r == fraction::<N>(a as int, b as int),
{
    N::from_int(a as i128).over(N::from_int(b as i128))
}

/// Zero.
pub open spec fn nil<N: Scalar>() -> N {
    N::whole(0)
}

/// One.
pub open spec fn unit<N: Scalar>() -> N {
    N::whole(1)
}

pub fn zero<N: Scalar>() -> (r: N)
    ensures
        r == nil::<N>(),
{
    N::from_int(0)
}

pub fn one<N: Scalar>() -> (r: N)
    ensures
        r == unit::<N>(),
{
    N::from_int(1)
}

/// The number is above zero.
pub open spec fn above_zero<N: Scalar>(a: N) -> bool {
    nil::<N>().below(a)
}

pub fn positive<N: Scalar>(a: N) -> (r: bool)
    ensures
        r == above_zero(a),
{
    zero::<N>().less(a)
}

/// The number is zero.
pub open spec fn zeroed<N: Scalar>(a: N) -> bool {
    a.equals(nil::<N>())
}

pub fn is_zero<N: Scalar>(a: N) -> (r: bool)
    ensures
        r == zeroed(a),
{
    a.same(zero::<N>())
}

/// The number is zero or above zero.
pub open spec fn not_below_zero<N: Scalar>(a: N) -> bool {
    above_zero(a) || zeroed(a)
}

pub fn non_negative<N: Scalar>(a: N) -> (r: bool)
    ensures
        r == not_below_zero(a),
{
    positive(a) || is_zero(a)
}

/// The number is defined and not above zero.
pub open spec fn not_above_zero<N: Scalar>(a: N) -> bool {
    a.below(nil::<N>()) || zeroed(a)
}

pub fn non_positive<N: Scalar>(a: N) -> (r: bool)
    ensures
        r == not_above_zero(a),
{
    a.less(zero::<N>()) || is_zero(a)
}

/// The number is undefined.
pub open spec fn is_undefined<N: Scalar>(a: N) -> bool {
    !a.equals(a)
}

pub fn is_nan<N: Scalar>(a: N) -> (r: bool)
    ensures
        r == is_undefined(a),
{
    !a.same(a)
}

/// The larger of two numbers; the defined one where only one is defined.
pub open spec fn larger<N: Scalar>(a: N, b: N) -> N {
    if is_undefined(a) || a.below(b) {
        b
    } else {
        a
    }
}

pub fn max<N: Scalar>(a: N, b: N) -> (r: N)
    ensures
        r == larger(a, b),
{
    if is_nan(a) || a.less(b) {
        b
    } else {
        a
    }
}

/// The smaller of two numbers; the defined one where only one is defined.
pub open spec fn smaller<N: Scalar>(a: N, b: N) -> N {
    if is_undefined(a) || b.below(a) {
        b
    } else {
        a
    }
}

pub fn min<N: Scalar>(a: N, b: N) -> (r: N)
    ensures
        r == smaller(a, b),
{
    if is_nan(a) || b.less(a) {
        b
    } else {
        a
    }
}

/// The distance from zero.
pub open spec fn magnitude<N: Scalar>(a: N) -> N {
    if a.below(nil::<N>()) {
        nil::<N>().difference(a)
    } else {
        a
    }
}

pub fn abs<N: Scalar>(a: N) -> (r: N)
    ensures
        r == magnitude(a),
{
    if a.less(zero::<N>()) {
        zero::<N>().minus(a)
    } else {
        a
    }
}

/// The square.
pub open spec fn squared<N: Scalar>(a: N) -> N {
    a.product(a)
}

/// The numbers added up from the first to the last, starting with zero.
pub open spec fn total<N: Scalar>(s: Seq<N>) -> N
    decreases s.len(),
{
    if s.len() == 0 {
        nil::<N>()
    } else {
        total(s.drop_last()).sum(s.last())
    }
}

/// The numbers from index `from` up to, not including, `to`, added up.
pub fn add_up<N: Scalar>(s: &[N], from: usize, to: usize) -> (r: N)
    requires
        from <= to <= s@.len(),
    ensures
        r == total(s@.subrange(from as int, to as int)),
{
    let mut acc = zero::<N>();
    let mut i: usize = from;
    while i < to
        invariant
            from <= i <= to <= s@.len(),
            acc == total(s@.subrange(from as int, i as int)),
        decreases to - i,
    {
        let ghost next = s@.subrange(from as int, i + 1);
        assert(next.drop_last() =~= s@.subrange(from as int, i as int));
        assert(next.last() == s@[i as int]);
        acc = acc.plus(s[i]);
        i += 1;
    }
    acc
}

/// The smallest of the numbers.
pub open spec fn smallest<N: Scalar>(s: Seq<N>) -> N
    decreases s.len(),
{
    if s.len() == 0 {
        N::top()
    } else {
        smaller(smallest(s.drop_last()), s.last())
    }
}

/// The largest of the numbers.
pub open spec fn largest<N: Scalar>(s: Seq<N>) -> N
    decreases s.len(),
{
    if s.len() == 0 {
        N::bottom()
    } else {
        larger(largest(s.drop_last()), s.last())
    }
}

/// The smallest of the numbers from index `from` up to, not including, `to`.
pub fn min_of<N: Scalar>(s: &[N], from: usize, to: usize) -> (r: N)
    requires
        from <= to <= s@.len(),
    ensures
        r == smallest(s@.subrange(from as int, to as int)),
{
    let mut acc = N::highest();
    let mut i: usize = from;
    while i < to
        invariant
            from <= i <= to <= s@.len(),
            acc == smallest(s@.subrange(from as int, i as int)),
        decreases to - i,
    {
        let ghost next = s@.subrange(from as int, i + 1);
        assert(next.drop_last() =~= s@.subrange(from as int, i as int));
        assert(next.last() == s@[i as int]);
        acc = min(acc, s[i]);
        i += 1;
    }
    acc
}

/// The largest of the numbers from index `from` up to, not including, `to`.
pub fn max_of<N: Scalar>(s: &[N], from: usize, to: usize) -> (r: N)
    requires
        from <= to <= s@.len(),
    ensures
        r == largest(s@.subrange(from as int, to as int)),
{
    let mut acc = N::lowest();
    let mut i: usize = from;
    while i < to
        invariant
            from <= i <= to <= s@.len(),
            acc == largest(s@.subrange(from as int, i as int)),
        decreases to - i,
    {
        let ghost next = s@.subrange(from as int, i + 1);
        assert(next.drop_last() =~= s@.subrange(from as int, i as int));
        assert(next.last() == s@[i as int]);
        acc = max(acc, s[i]);
        i += 1;
    }
    acc
}

/// A number that may be missing, with the undefined number in place of a missing one.
pub open spec fn or_undefined<N: Scalar>(v: Option<N>) -> N {
    match v {
        Some(x) => x,
        None => N::undefined(),
    }
}

pub fn or_nan<N: Scalar>(v: Option<N>) -> (r: N)
    ensures
        r == or_undefined(v),
{
    match v {
        Some(x) => x,
        None => N::nan(),
    }
}

/// As many copies of one value.
pub fn filled<T: Copy>(value: T, n: usize) -> (r: Vec<T>)
    ensures
        r@ == Seq::new(n as nat, |i: int| value),
{
    let mut out: Vec<T> = Vec::new();
    let mut i: usize = 0;
    while i < n
        invariant
            i <= n,
            out@ == Seq::new(i as nat, |j: int| value),
        decreases n - i,
    {
        out.push(value);
        i += 1;
        assert(out@ =~= Seq::new(i as nat, |j: int| value));
    }
    out
}

} // verus!
