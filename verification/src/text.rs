//! Text as sequences of characters: comparison, searching, splitting and the decimal
//! notation of integers.
use vstd::prelude::*;

verus! {

// ---------------------------------------------------------------------------
// Single characters
// ---------------------------------------------------------------------------
/// An ASCII decimal digit.
pub open spec fn is_digit(c: char) -> bool {
    '0' <= c && c <= '9'
}

/// The lower case of an ASCII capital; any other character is its own lower case.
pub open spec fn ascii_lower(c: char) -> char {
    if 'A' <= c && c <= 'Z' {
        ((c as u8) + 32) as char
    } else {
        c
    }
}

/// The capital of an ASCII small letter; any other character is its own capital.
pub open spec fn ascii_upper(c: char) -> char {
    if 'a' <= c && c <= 'z' {
        ((c as u8) - 32) as char
    } else {
        c
    }
}

/// The digit that stands for `n`.
pub open spec fn digit_char(n: int) -> char {
    (48 + n) as char
}

/// What a digit stands for.
pub open spec fn digit_value(c: char) -> int {
    c as int - 48
}

pub fn is_ascii_digit(c: char) -> (r: bool)
    ensures
        r == is_digit(c),
{
    '0' <= c && c <= '9'
}

pub fn to_ascii_lower(c: char) -> (r: char)
    ensures
        r == ascii_lower(c),
{
    if 'A' <= c && c <= 'Z' {
        (c as u8 + 32) as char
    } else {
        c
    }
}

fn digit_of(n: u64) -> (c: char)
    requires
        n < 10,
    ensures
        c == digit_char(n as int),
        is_digit(c),
        digit_value(c) == n,
{
    (48 + n as u8) as char
}

/// White space, the characters with the `White_Space` property of Unicode: the tab, the line
/// feed, the vertical tab, the form feed, the carriage return, the space, the next line, the
/// no-break space, and beyond them the spaces and separators of other scripts, such as the
/// ideographic space.
pub open spec fn white_space(c: char) -> bool {
    let n = c as u32;
    ||| 0x9 <= n <= 0xD
    ||| n == 0x20
    ||| n == 0x85
    ||| n == 0xA0
    ||| n == 0x1680
    ||| 0x2000 <= n <= 0x200A
    ||| n == 0x2028
    ||| n == 0x2029
    ||| n == 0x202F
    ||| n == 0x205F
    ||| n == 0x3000
}

/// `char::is_whitespace` of the standard library: the `White_Space` property of Unicode,
/// whose characters are listed.
pub assume_specification[ char::is_whitespace ](c: char) -> (r: bool)
    ensures
        r == white_space(c),
;

/// `String::push` of the standard library appends one character.
pub assume_specification[ String::push ](s: &mut String, c: char)
    ensures
        final(s)@ == old(s)@.push(c),
;

// ---------------------------------------------------------------------------
// Texts and vectors of characters
// ---------------------------------------------------------------------------
/// The characters of a text, as a vector.
pub fn chars_of(s: &str) -> (r: Vec<char>)
    ensures
        r@ == s@,
{
    broadcast use vstd::string::group_string_axioms;

    let mut out: Vec<char> = Vec::new();
    for c in it: s.chars()
        invariant
            it.seq() == s@,
            out@ == s@.take(it.index() as int),
    {
        out.push(c);
        assert(s@.take(it.index() + 1) =~= s@.take(it.index() as int).push(c));
    }
    assert(s@.take(s@.len() as int) =~= s@);
    out
}

/// The text made of the characters from index `from` up to, not including, `to`.
pub fn text_between(v: &Vec<char>, from: usize, to: usize) -> (r: String)
    requires
        from <= to <= v@.len(),
    ensures
        r@ == v@.subrange(from as int, to as int),
{
    let mut out = String::new();
    let mut i: usize = from;
    while i < to
        invariant
            from <= i <= to <= v@.len(),
            out@ == v@.subrange(from as int, i as int),
        decreases to - i,
    {
        out.push(v[i]);
        assert(v@.subrange(from as int, i + 1) =~= v@.subrange(from as int, i as int).push(v[i as int]));
        i += 1;
    }
    out
}

/// The text made of the characters of a vector.
pub fn text_of(v: &Vec<char>) -> (r: String)
    ensures
        r@ == v@,
{
    let r = text_between(v, 0, v.len());
    assert(v@.subrange(0, v@.len() as int) =~= v@);
    r
}

/// The characters of each of a sequence of texts.
pub open spec fn texts(v: Seq<String>) -> Seq<Seq<char>> {
    Seq::new(v.len(), |i: int| v[i]@)
}

/// The characters of a text that may be missing.
pub open spec fn text_option(v: Option<String>) -> Option<Seq<char>> {
    match v {
        Some(s) => Some(s@),
        None => None,
    }
}

/// Whether a text is among others.
pub fn is_among(list: &Vec<String>, item: &str) -> (r: bool)
    ensures
        r == texts(list@).contains(item@),
{
    let ghost ts = texts(list@);
    let mut i: usize = 0;
    while i < list.len()
        invariant
            ts == texts(list@),
            i <= list@.len(),
            forall|j: int| 0 <= j < i ==> #[trigger] ts[j] != item@,
        decreases list@.len() - i,
    {
        if same(list[i].as_str(), item) {
            assert(ts[i as int] == item@);
            return true;
        }
        i += 1;
    }
    false
}

/// A copy of a text that may be missing.
pub fn copy_option(v: &Option<String>) -> (r: Option<String>)
    ensures
        text_option(r) == text_option(*v),
{
    match v {
        Some(s) => Some(s.clone()),
        None => None,
    }
}

// ---------------------------------------------------------------------------
// Comparison
// ---------------------------------------------------------------------------
/// Whether two texts are the same.
pub fn same(a: &str, b: &str) -> (r: bool)
    ensures
        r == (a@ == b@),
{
    a.to_owned() == b.to_owned()
}

/// The order of a dictionary, by code points: `a` comes strictly before `b`.
pub open spec fn before(a: Seq<char>, b: Seq<char>) -> bool
    decreases a.len(),
{
    if b.len() == 0 {
        false
    } else if a.len() == 0 {
        true
    } else if a[0] != b[0] {
        a[0] < b[0]
    } else {
        before(a.drop_first(), b.drop_first())
    }
}

/// `a` comes before `b` or is the same.
pub open spec fn not_after(a: Seq<char>, b: Seq<char>) -> bool {
    !before(b, a)
}

/// The order of a dictionary, between texts of any length.
pub fn precedes(a: &str, b: &str) -> (r: bool)
    ensures
        r == before(a@, b@),
{
    let x = chars_of(a);
    let y = chars_of(b);
    let mut i: usize = 0;
    assert(x@.skip(0) =~= x@ && y@.skip(0) =~= y@);
    while i < x.len() && i < y.len() && x[i] == y[i]
        invariant
            x@ == a@,
            y@ == b@,
            i <= x@.len(),
            i <= y@.len(),
            before(a@, b@) == before(x@.skip(i as int), y@.skip(i as int)),
        decreases x@.len() - i,
    {
        assert(x@.skip(i as int).drop_first() =~= x@.skip(i + 1));
        assert(y@.skip(i as int).drop_first() =~= y@.skip(i + 1));
        i += 1;
    }
    if i >= y.len() {
        false
    } else if i >= x.len() {
        true
    } else {
        x[i] < y[i]
    }
}

/// No text comes before itself.
pub proof fn before_irreflexive(a: Seq<char>)
    ensures
        !before(a, a),
    decreases a.len(),
{
    if a.len() > 0 {
        before_irreflexive(a.drop_first());
    }
}

/// Of two texts that come one before the other, the second does not come before the first.
pub proof fn before_asymmetric(a: Seq<char>, b: Seq<char>)
    requires
        before(a, b),
    ensures
        !before(b, a),
        a != b,
    decreases a.len(),
{
    before_irreflexive(a);
    if a.len() > 0 && b.len() > 0 && a[0] == b[0] {
        before_asymmetric(a.drop_first(), b.drop_first());
    }
}

/// The order of a dictionary is transitive.
pub proof fn before_transitive(a: Seq<char>, b: Seq<char>, c: Seq<char>)
    requires
        before(a, b),
        before(b, c),
    ensures
        before(a, c),
    decreases a.len(),
{
    if a.len() > 0 && b.len() > 0 && c.len() > 0 && a[0] == b[0] && b[0] == c[0] {
        before_transitive(a.drop_first(), b.drop_first(), c.drop_first());
    }
}

/// What is not after another text is not after any that the other is not after.
pub proof fn not_after_transitive(a: Seq<char>, b: Seq<char>, c: Seq<char>)
    requires
        not_after(a, b),
        not_after(b, c),
    ensures
        not_after(a, c),
{
    before_total(a, b);
    before_total(b, c);
    if before(c, a) {
        if before(a, b) {
            before_transitive(c, a, b);
        }
    }
}

/// Two texts of which neither comes before the other are the same.
pub proof fn before_total(a: Seq<char>, b: Seq<char>)
    ensures
        a == b || before(a, b) || before(b, a),
    decreases a.len(),
{
    if a.len() == 0 && b.len() == 0 {
        assert(a =~= b);
    } else if a.len() > 0 && b.len() > 0 && a[0] == b[0] {
        before_total(a.drop_first(), b.drop_first());
        if a.drop_first() == b.drop_first() {
            assert(a =~= seq![a[0]] + a.drop_first());
            assert(b =~= seq![b[0]] + b.drop_first());
        }
    }
}

// ---------------------------------------------------------------------------
// Prefixes and suffixes
// ---------------------------------------------------------------------------
/// `p` stands in `s` from index `i` on.
pub open spec fn at(s: Seq<char>, i: int, p: Seq<char>) -> bool {
    0 <= i && i + p.len() <= s.len() && s.subrange(i, i + p.len()) == p
}

/// `s` begins with `p`.
pub open spec fn starts(s: Seq<char>, p: Seq<char>) -> bool {
    at(s, 0, p)
}

/// `s` ends with `p`.
pub open spec fn ends(s: Seq<char>, p: Seq<char>) -> bool {
    at(s, s.len() - p.len(), p)
}

pub fn stands_at(s: &Vec<char>, i: usize, p: &Vec<char>) -> (r: bool)
    ensures
        r == at(s@, i as int, p@),
{
    if i > s.len() || p.len() > s.len() - i {
        return false;
    }
    let mut k: usize = 0;
    let n = s.len();
    while k < p.len()
        invariant
            k <= p@.len(),
            n == s@.len(),
            i + p@.len() <= n,
            forall|j: int| 0 <= j < k ==> s@[i + j] == p@[j],
        decreases p@.len() - k,
    {
        if s[i + k] != p[k] {
            assert(s@.subrange(i as int, i + p@.len())[k as int] != p@[k as int]);
            return false;
        }
        k += 1;
    }
    assert(s@.subrange(i as int, i + p@.len()) =~= p@);
    true
}

pub fn starts_with(s: &str, p: &str) -> (r: bool)
    ensures
        r == starts(s@, p@),
{
    stands_at(&chars_of(s), 0, &chars_of(p))
}

pub fn ends_with(s: &str, p: &str) -> (r: bool)
    ensures
        r == ends(s@, p@),
{
    let x = chars_of(s);
    let y = chars_of(p);
    if y.len() > x.len() {
        false
    } else {
        stands_at(&x, x.len() - y.len(), &y)
    }
}

// ---------------------------------------------------------------------------
// White space at both ends
// ---------------------------------------------------------------------------
/// How many white space characters a text begins with.
pub open spec fn leading(s: Seq<char>) -> nat
    decreases s.len(),
{
    if s.len() > 0 && white_space(s[0]) {
        1 + leading(s.drop_first())
    } else {
        0
    }
}

/// How many white space characters a text ends with.
pub open spec fn trailing(s: Seq<char>) -> nat
    decreases s.len(),
{
    if s.len() > 0 && white_space(s.last()) {
        1 + trailing(s.drop_last())
    } else {
        0
    }
}

/// A text without the white space at its ends.
pub open spec fn trimmed(s: Seq<char>) -> Seq<char> {
    let t = s.skip(leading(s) as int);
    t.take(t.len() - trailing(t))
}

proof fn leading_bound(s: Seq<char>)
    ensures
        leading(s) <= s.len(),
    decreases s.len(),
{
    if s.len() > 0 && white_space(s[0]) {
        leading_bound(s.drop_first());
    }
}

/// A text that neither begins nor ends with white space is left as it is.
pub proof fn trimmed_identity(s: Seq<char>)
    requires
        s.len() == 0 || (!white_space(s[0]) && !white_space(s.last())),
    ensures
        trimmed(s) == s,
{
    assert(s.skip(0) =~= s);
    assert(s.take(s.len() as int) =~= s);
}

/// A text without the white space at its ends.
pub fn trim(s: &str) -> (r: String)
    ensures
        r@ == trimmed(s@),
{
    let v = chars_of(s);
    let n = v.len();
    let mut i: usize = 0;
    proof {
        leading_bound(s@);
        assert(v@.skip(0) =~= v@);
    }
    while i < n && v[i].is_whitespace()
        invariant
            v@ == s@,
            n == v@.len(),
            i <= n,
            leading(s@) == i + leading(v@.skip(i as int)),
        decreases n - i,
    {
        assert(v@.skip(i as int).drop_first() =~= v@.skip(i + 1));
        i += 1;
    }
    let ghost t = s@.skip(i as int);
    assert(leading(s@) == i);
    let mut k: usize = n;
    assert(t.take(t.len() as int) =~= t);
    while i < k && v[k - 1].is_whitespace()
        invariant
            v@ == s@,
            n == v@.len(),
            i <= k <= n,
            t == s@.skip(i as int),
            trailing(t) == (n - k) + trailing(t.take(k - i)),
        decreases k,
    {
        assert(t.take(k - i).drop_last() =~= t.take(k - 1 - i));
        k -= 1;
    }
    assert(trailing(t) == n - k) by {
        if k > i {
            assert(t.take(k - i).last() == v@[k - 1]);
        }
    }
    let r = text_between(&v, i, k);
    assert(r@ =~= t.take(t.len() - trailing(t)));
    r
}

// ---------------------------------------------------------------------------
// Searching and splitting
// ---------------------------------------------------------------------------
/// The index of the first `c` in a text, or the text's length where there is none.
pub open spec fn first_index(s: Seq<char>, c: char) -> nat
    decreases s.len(),
{
    if s.len() == 0 || s[0] == c {
        0
    } else {
        1 + first_index(s.drop_first(), c)
    }
}

pub proof fn first_index_bound(s: Seq<char>, c: char)
    ensures
        first_index(s, c) <= s.len(),
        first_index(s, c) < s.len() ==> s[first_index(s, c) as int] == c,
        forall|j: int| 0 <= j < first_index(s, c) ==> s[j] != c,
    decreases s.len(),
{
    if s.len() > 0 && s[0] != c {
        first_index_bound(s.drop_first(), c);
        assert forall|j: int| 0 <= j < first_index(s, c) implies s[j] != c by {
            if j > 0 {
                assert(s.drop_first()[j - 1] == s[j]);
            }
        }
    }
}

proof fn first_index_unique(s: Seq<char>, c: char, k: int)
    requires
        0 <= k <= s.len(),
        k < s.len() ==> s[k] == c,
        forall|j: int| 0 <= j < k ==> s[j] != c,
    ensures
        first_index(s, c) == k,
{
    first_index_bound(s, c);
    if first_index(s, c) < k {
        assert(s[first_index(s, c) as int] != c);
    }
}

/// The first separator of a text, a separator and a rest, where the text holds none.
pub proof fn first_index_of_joined(a: Seq<char>, sep: char, b: Seq<char>)
    requires
        forall|i: int| 0 <= i < a.len() ==> a[i] != sep,
    ensures
        first_index(a + seq![sep] + b, sep) == a.len(),
{
    first_index_unique(a + seq![sep] + b, sep, a.len() as int);
}

/// The index of the first `c` at or after `from`, or the length.
pub fn find(s: &Vec<char>, from: usize, c: char) -> (r: usize)
    requires
        from <= s@.len(),
    ensures
        r == from + first_index(s@.skip(from as int), c),
        from <= r <= s@.len(),
{
    let mut i: usize = from;
    while i < s.len() && s[i] != c
        invariant
            from <= i <= s@.len(),
            forall|j: int| from <= j < i ==> s@[j] != c,
        decreases s@.len() - i,
    {
        i += 1;
    }
    proof {
        first_index_unique(s@.skip(from as int), c, i - from);
    }
    i
}

/// The pieces of a text between the occurrences of a separator, in order.
pub open spec fn pieces(s: Seq<char>, sep: char) -> Seq<Seq<char>>
    decreases s.len(),
    via pieces_decreases
{
    let i = first_index(s, sep);
    if i >= s.len() {
        seq![s]
    } else {
        seq![s.take(i as int)] + pieces(s.skip(i as int + 1), sep)
    }
}

#[via_fn]
proof fn pieces_decreases(s: Seq<char>, sep: char) {
    first_index_bound(s, sep);
}

/// A text with no separator in it is its only piece.
pub proof fn pieces_of_plain(s: Seq<char>, sep: char)
    requires
        forall|i: int| 0 <= i < s.len() ==> s[i] != sep,
    ensures
        pieces(s, sep) == seq![s],
{
    first_index_unique(s, sep, s.len() as int);
}

/// The pieces of `a`, a separator and `b`, where `a` holds no separator.
pub proof fn pieces_of_joined(a: Seq<char>, sep: char, b: Seq<char>)
    requires
        forall|i: int| 0 <= i < a.len() ==> a[i] != sep,
    ensures
        pieces(a + seq![sep] + b, sep) == seq![a] + pieces(b, sep),
{
    let s = a + seq![sep] + b;
    first_index_unique(s, sep, a.len() as int);
    assert(s.take(a.len() as int) =~= a);
    assert(s.skip(a.len() as int + 1) =~= b);
}

/// The pieces of a text between the occurrences of a separator, in order. There is always
/// at least one.
pub fn split(s: &str, sep: char) -> (r: Vec<String>)
    ensures
        texts(r@) == pieces(s@, sep),
        r@.len() >= 1,
{
    let v = chars_of(s);
    let mut out: Vec<String> = Vec::new();
    let mut from: usize = 0;
    assert(v@.skip(0) =~= v@);
    assert(texts(out@) =~= Seq::<Seq<char>>::empty());
    assert(texts(out@) + pieces(v@, sep) =~= pieces(v@, sep));
    loop
        invariant
            v@ == s@,
            from <= v@.len(),
            texts(out@) + pieces(v@.skip(from as int), sep) == pieces(s@, sep),
        decreases v@.len() - from,
    {
        let i = find(&v, from, sep);
        let piece = text_between(&v, from, i);
        let ghost rest = v@.skip(from as int);
        let ghost seen = out@;
        assert(piece@ =~= rest.take(i - from));
        out.push(piece);
        assert(texts(out@) =~= texts(seen).push(piece@));
        if i >= v.len() {
            assert(rest.take(i - from) =~= rest);
            assert(texts(out@) =~= texts(seen) + seq![rest]);
            return out;
        }
        assert(rest.skip(i - from + 1) =~= v@.skip(i + 1));
        assert(texts(seen) + (seq![piece@] + pieces(v@.skip(i + 1), sep)) =~= texts(seen).push(
            piece@,
        ) + pieces(v@.skip(i + 1), sep));
        from = i + 1;
    }
}

/// How many bytes a character takes up in UTF-8.
pub open spec fn byte_width(c: char) -> nat {
    if (c as int) < 0x80 {
        1
    } else if (c as int) < 0x800 {
        2
    } else if (c as int) < 0x10000 {
        3
    } else {
        4
    }
}

/// How many characters take up the first `k` bytes of a text in UTF-8; none where the text
/// is shorter or the last of the bytes does not end a character.
pub open spec fn chars_in(s: Seq<char>, k: int) -> Option<int>
    decreases s.len(),
{
    if k == 0 {
        Some(0)
    } else if s.len() == 0 || byte_width(s[0]) > k {
        None
    } else {
        match chars_in(s.drop_first(), k - byte_width(s[0])) {
            Some(n) => Some(n + 1),
            None => None,
        }
    }
}

fn width_of(c: char) -> (r: usize)
    ensures
        r == byte_width(c),
{
    let u = c as u32;
    if u < 0x80 {
        1
    } else if u < 0x800 {
        2
    } else if u < 0x10000 {
        3
    } else {
        4
    }
}

/// How many characters take up the first `k` bytes of a text.
pub fn chars_within(s: &Vec<char>, k: usize) -> (r: Option<usize>)
    ensures
        match r {
            Some(n) => chars_in(s@, k as int) == Some(n as int) && n <= s@.len(),
            None => chars_in(s@, k as int) is None,
        },
{
    let mut left: usize = k;
    let mut i: usize = 0;
    assert(s@.skip(0) =~= s@);
    while left > 0
        invariant
            i <= s@.len(),
            chars_in(s@, k as int) == (match chars_in(s@.skip(i as int), left as int) {
                Some(n) => Some(n + i),
                None => None,
            }),
        decreases left,
    {
        let ghost rest = s@.skip(i as int);
        if i >= s.len() {
            return None;
        }
        assert(rest[0] == s@[i as int]);
        assert(rest.drop_first() =~= s@.skip(i + 1));
        let w: usize = width_of(s[i]);
        if w > left {
            return None;
        }
        left -= w;
        i += 1;
    }
    Some(i)
}

/// The index of the first place at which `p` stands in `s`, if it stands anywhere.
pub open spec fn text_index(s: Seq<char>, p: Seq<char>) -> Option<int>
    decreases s.len(),
{
    if starts(s, p) {
        Some(0)
    } else if s.len() == 0 {
        None
    } else {
        match text_index(s.drop_first(), p) {
            Some(k) => Some(k + 1),
            None => None,
        }
    }
}

/// The index of the first place at which `p` stands in `s`.
fn find_text(s: &Vec<char>, p: &Vec<char>) -> (r: Option<usize>)
    ensures
        match r {
            Some(i) => text_index(s@, p@) == Some(i as int) && i + p@.len() <= s@.len(),
            None => text_index(s@, p@) is None,
        },
{
    let n = s.len();
    let mut i: usize = 0;
    assert(s@.skip(0) =~= s@);
    loop
        invariant
            n == s@.len(),
            i <= n,
            text_index(s@, p@) == (match text_index(s@.skip(i as int), p@) {
                Some(k) => Some(k + i),
                None => None,
            }),
        decreases n - i,
    {
        let ghost rest = s@.skip(i as int);
        proof {
            assert(at(s@, i as int, p@) == starts(rest, p@)) by {
                if i + p@.len() <= n {
                    assert(s@.subrange(i as int, i + p@.len()) =~= rest.subrange(
                        0,
                        p@.len() as int,
                    ));
                }
            }
        }
        if stands_at(s, i, p) {
            return Some(i);
        }
        if i == n {
            return None;
        }
        assert(rest.drop_first() =~= s@.skip(i + 1));
        i += 1;
    }
}

/// Whether one text stands in another.
pub fn contains_text(s: &str, p: &str) -> (r: bool)
    ensures
        r == (text_index(s@, p@) is Some),
{
    find_text(&chars_of(s), &chars_of(p)).is_some()
}

/// What stands behind the first place of a text in another.
pub open spec fn behind_text(s: Seq<char>, p: Seq<char>) -> Option<Seq<char>> {
    match text_index(s, p) {
        Some(k) => Some(s.skip(k + p.len())),
        None => None,
    }
}

/// What stands behind the first place of a text in another.
pub fn after_text(s: &str, p: &str) -> (r: Option<String>)
    ensures
        text_option(r) == behind_text(s@, p@),
{
    let v = chars_of(s);
    let q = chars_of(p);
    match find_text(&v, &q) {
        Some(i) => {
            let n = v.len();
            let r = text_between(&v, i + q.len(), n);
            assert(r@ =~= s@.skip(i + p@.len()));
            Some(r)
        },
        None => None,
    }
}

/// What stands before the first of a character.
pub open spec fn up_to(s: Seq<char>, c: char) -> Option<Seq<char>> {
    if first_index(s, c) < s.len() {
        Some(s.take(first_index(s, c) as int))
    } else {
        None
    }
}

/// What stands before the first of a character.
pub fn before_char(s: &str, c: char) -> (r: Option<String>)
    ensures
        text_option(r) == up_to(s@, c),
{
    let v = chars_of(s);
    assert(v@.skip(0) =~= v@);
    let i = find(&v, 0, c);
    if i < v.len() {
        let r = text_between(&v, 0, i);
        assert(r@ =~= s@.take(i as int));
        Some(r)
    } else {
        None
    }
}

/// What stands behind the first of a character.
pub open spec fn behind(s: Seq<char>, c: char) -> Option<Seq<char>> {
    if first_index(s, c) < s.len() {
        Some(s.skip(first_index(s, c) as int + 1))
    } else {
        None
    }
}

/// What stands behind the first of a character.
pub fn after_char(s: &str, c: char) -> (r: Option<String>)
    ensures
        text_option(r) == behind(s@, c),
{
    let v = chars_of(s);
    assert(v@.skip(0) =~= v@);
    let i = find(&v, 0, c);
    if i < v.len() {
        let r = text_between(&v, i + 1, v.len());
        assert(r@ =~= s@.skip(i + 1));
        Some(r)
    } else {
        None
    }
}

/// What stands before the last of a character.
pub open spec fn up_to_last(s: Seq<char>, c: char) -> Option<Seq<char>>
    decreases s.len(),
{
    if s.len() == 0 {
        None
    } else if s.last() == c {
        Some(s.drop_last())
    } else {
        up_to_last(s.drop_last(), c)
    }
}

/// What stands before the last of a character.
pub fn before_last(s: &str, c: char) -> (r: Option<String>)
    ensures
        text_option(r) == up_to_last(s@, c),
{
    let v = chars_of(s);
    let mut i: usize = v.len();
    assert(s@.take(i as int) =~= s@);
    while i > 0
        invariant
            v@ == s@,
            i <= v@.len(),
            up_to_last(s@.take(i as int), c) == up_to_last(s@, c),
        decreases i,
    {
        i -= 1;
        assert(s@.take(i + 1).drop_last() =~= s@.take(i as int));
        if v[i] == c {
            let r = text_between(&v, 0, i);
            assert(r@ =~= s@.take(i as int));
            return Some(r);
        }
    }
    None
}

// ---------------------------------------------------------------------------
// Joining
// ---------------------------------------------------------------------------
/// The texts one after the other, with a separator between each two.
pub open spec fn joined(parts: Seq<Seq<char>>, sep: Seq<char>) -> Seq<char>
    decreases parts.len(),
{
    if parts.len() == 0 {
        Seq::empty()
    } else if parts.len() == 1 {
        parts[0]
    } else {
        joined(parts.drop_last(), sep) + sep + parts.last()
    }
}

/// The texts one after the other, with a separator between each two.
pub fn join(parts: &Vec<String>, sep: &str) -> (r: String)
    ensures
        r@ == joined(texts(parts@), sep@),
{
    let mut out = String::new();
    let mut i: usize = 0;
    assert(texts(parts@).take(0) =~= Seq::<Seq<char>>::empty());
    while i < parts.len()
        invariant
            i <= parts@.len(),
            out@ == joined(texts(parts@).take(i as int), sep@),
        decreases parts@.len() - i,
    {
        let ghost next = texts(parts@).take(i + 1);
        assert(next.drop_last() =~= texts(parts@).take(i as int));
        assert(next.last() == parts@[i as int]@);
        if i > 0 {
            out.append(sep);
        }
        out.append(parts[i].as_str());
        assert(i == 0 ==> out@ =~= next[0]);
        i += 1;
    }
    assert(texts(parts@).take(parts@.len() as int) =~= texts(parts@));
    out
}

/// A text without any occurrence of one character.
pub open spec fn without(s: Seq<char>, c: char) -> Seq<char>
    decreases s.len(),
{
    if s.len() == 0 {
        s
    } else if s.last() == c {
        without(s.drop_last(), c)
    } else {
        without(s.drop_last(), c).push(s.last())
    }
}

/// A text without any occurrence of one character.
pub fn remove_char(s: &str, c: char) -> (r: String)
    ensures
        r@ == without(s@, c),
{
    let v = chars_of(s);
    let mut out = String::new();
    let mut i: usize = 0;
    assert(v@.take(0) =~= Seq::<char>::empty());
    while i < v.len()
        invariant
            v@ == s@,
            i <= v@.len(),
            out@ == without(v@.take(i as int), c),
        decreases v@.len() - i,
    {
        assert(v@.take(i + 1).drop_last() =~= v@.take(i as int));
        assert(v@.take(i + 1).last() == v@[i as int]);
        if v[i] != c {
            out.push(v[i]);
        }
        i += 1;
    }
    assert(v@.take(v@.len() as int) =~= v@);
    out
}

/// Every character of a text is a digit.
pub open spec fn all_digits(s: Seq<char>) -> bool {
    forall|i: int| 0 <= i < s.len() ==> is_digit(#[trigger] s[i])
}

/// Whether every character of a text is a digit.
pub fn is_numeric(v: &Vec<char>, from: usize) -> (r: bool)
    requires
        from <= v@.len(),
    ensures
        r == all_digits(v@.skip(from as int)),
{
    let mut i: usize = from;
    while i < v.len()
        invariant
            from <= i <= v@.len(),
            forall|j: int| from <= j < i ==> is_digit(#[trigger] v@[j]),
        decreases v@.len() - i,
    {
        if !is_ascii_digit(v[i]) {
            assert(!is_digit(v@.skip(from as int)[i - from]));
            return false;
        }
        i += 1;
    }
    assert forall|k: int| 0 <= k < v@.skip(from as int).len() implies is_digit(
        #[trigger] v@.skip(from as int)[k],
    ) by {
        assert(is_digit(v@[from + k]));
    }
    true
}

// ---------------------------------------------------------------------------
// Decimal notation
// ---------------------------------------------------------------------------
/// The decimal notation of a natural number.
pub open spec fn decimal(n: nat) -> Seq<char>
    decreases n,
{
    if n < 10 {
        seq![digit_char(n as int)]
    } else {
        decimal(n / 10).push(digit_char((n % 10) as int))
    }
}

/// The decimal notation of an integer.
pub open spec fn decimal_int(n: int) -> Seq<char> {
    if n < 0 {
        seq!['-'] + decimal((-n) as nat)
    } else {
        decimal(n as nat)
    }
}

/// The decimal notation of a natural number.
pub fn show(n: u64) -> (r: String)
    ensures
        r@ == decimal(n as nat),
    decreases n,
{
    if n < 10 {
        let mut out = String::new();
        out.push(digit_of(n));
        assert(out@ =~= seq![digit_char(n as int)]);
        out
    } else {
        let mut out = show(n / 10);
        out.push(digit_of(n % 10));
        out
    }
}

/// The decimal notation of an integer.
pub fn show_int(n: i64) -> (r: String)
    ensures
        r@ == decimal_int(n as int),
{
    if n < 0 {
        let mut out = String::new();
        out.push('-');
        let mag: u64 = (-(n as i128)) as u64;
        let ghost m = out@;
        let rest = show(mag);
        out.append(rest.as_str());
        assert(out@ =~= seq!['-'] + decimal((-(n as int)) as nat));
        out
    } else {
        show(n as u64)
    }
}

/// The decimal notation of an integer.
pub fn show_wide(n: i128) -> (r: String)
    ensures
        r@ == decimal_int(n as int),
{
    let mut out = String::new();
    if n < 0 {
        out.push('-');
        let mag: u128 = if n == i128::MIN {
            170_141_183_460_469_231_731_687_303_715_884_105_728
        } else {
            (-n) as u128
        };
        out.append(show_huge(mag).as_str());
    } else {
        out.append(show_huge(n as u128).as_str());
    }
    assert(out@ =~= decimal_int(n as int));
    out
}

fn show_huge(n: u128) -> (r: String)
    ensures
        r@ == decimal(n as nat),
    decreases n,
{
    if n < 10 {
        let mut out = String::new();
        out.push(digit_of(n as u64));
        assert(out@ =~= seq![digit_char(n as int)]);
        out
    } else {
        let mut out = show_huge(n / 10);
        out.push(digit_of((n % 10) as u64));
        out
    }
}

/// One character, so many times.
pub open spec fn repeated(c: char, n: nat) -> Seq<char> {
    Seq::new(n, |i: int| c)
}

pub fn repeat(c: char, n: usize) -> (r: String)
    ensures
        r@ == repeated(c, n as nat),
{
    let mut out = String::new();
    let mut i: usize = 0;
    assert(out@ =~= repeated(c, 0));
    while i < n
        invariant
            i <= n,
            out@ == repeated(c, i as nat),
        decreases n - i,
    {
        out.push(c);
        i += 1;
        assert(out@ =~= repeated(c, i as nat));
    }
    out
}

/// A text with spaces behind it until it is `width` characters long.
pub open spec fn right_padded(s: Seq<char>, width: nat) -> Seq<char> {
    s + repeated(
        ' ',
        (if s.len() >= width {
            0
        } else {
            width - s.len()
        }) as nat,
    )
}

pub fn pad_right(s: &str, width: usize) -> (r: String)
    ensures
        r@ == right_padded(s@, width as nat),
{
    let n = chars_of(s).len();
    let mut out = s.to_owned();
    let fill: usize = if n >= width {
        0
    } else {
        width - n
    };
    out.append(repeat(' ', fill).as_str());
    out
}

/// The number that a run of digits stands for.
pub open spec fn digits_value(s: Seq<char>) -> int
    decreases s.len(),
{
    if s.len() == 0 {
        0
    } else {
        digits_value(s.drop_last()) * 10 + digit_value(s.last())
    }
}

/// The integer that a text denotes: digits, with at most one sign before them.
pub open spec fn integer(s: Seq<char>) -> Option<int> {
    let signed = s.len() > 0 && (s[0] == '-' || s[0] == '+');
    let body = if signed {
        s.drop_first()
    } else {
        s
    };
    if body.len() == 0 || !all_digits(body) {
        None
    } else if s[0] == '-' {
        Some(-digits_value(body))
    } else {
        Some(digits_value(body))
    }
}

/// The integer that a text denotes, where it lies between two bounds.
pub open spec fn integer_within(s: Seq<char>, low: int, high: int) -> Option<int> {
    match integer(s) {
        Some(n) => if low <= n <= high {
            Some(n)
        } else {
            None
        },
        None => None,
    }
}

/// More digits never make the number smaller.
pub proof fn digits_value_grows(s: Seq<char>, k: int)
    requires
        0 <= k <= s.len(),
        all_digits(s),
    ensures
        0 <= digits_value(s.take(k)) <= digits_value(s),
    decreases s.len(),
{
    if k == s.len() {
        assert(s.take(k) =~= s);
        if s.len() > 0 {
            assert(all_digits(s.drop_last()));
            assert(is_digit(s.last()));
            digits_value_grows(s.drop_last(), s.len() - 1);
            assert(s.drop_last().take(s.len() - 1) =~= s.drop_last());
        }
    } else {
        assert(all_digits(s.drop_last()));
        assert(is_digit(s.last()));
        digits_value_grows(s.drop_last(), k);
        assert(s.drop_last().take(k) =~= s.take(k));
    }
}

/// The integer that a text denotes, where its magnitude is at most two to the power of 64.
fn parse_wide(s: &str) -> (r: Option<i128>)
    ensures
        match r {
            Some(n) => integer(s@) == Some(n as int),
            None => match integer(s@) {
                Some(n) => n > 0x1_0000_0000_0000_0000 || n < -0x1_0000_0000_0000_0000,
                None => true,
            },
        },
{
    let v = chars_of(s);
    if v.len() == 0 {
        return None;
    }
    let negative = v[0] == '-';
    let start: usize = if v[0] == '-' || v[0] == '+' {
        1
    } else {
        0
    };
    let ghost body = s@.skip(start as int);
    assert(start == 1 ==> body =~= s@.drop_first());
    assert(start == 0 ==> body =~= s@);
    if start == v.len() || !is_numeric(&v, start) {
        return None;
    }
    let limit: i128 = 0x1_0000_0000_0000_0000;
    let mut acc: i128 = 0;
    let mut i: usize = start;
    assert(body.take(0) =~= Seq::<char>::empty());
    while i < v.len()
        invariant
            v@ == s@,
            start <= i <= v@.len(),
            body == s@.skip(start as int),
            body.len() > 0,
            all_digits(body),
            integer(s@) == Some(if negative { -digits_value(body) } else { digits_value(body) }),
            limit == 0x1_0000_0000_0000_0000,
            0 <= acc <= limit,
            acc == digits_value(body.take(i - start)),
        decreases v@.len() - i,
    {
        let ghost k = i - start;
        assert(body.take(k + 1).drop_last() =~= body.take(k));
        assert(body.take(k + 1).last() == v@[i as int]);
        assert(is_digit(body[k]));
        acc = acc * 10 + (v[i] as u32 as i128 - 48);
        if acc > limit {
            proof {
                digits_value_grows(body, k + 1);
            }
            return None;
        }
        i += 1;
    }
    assert(body.take(body.len() as int) =~= body);
    if negative {
        Some(-acc)
    } else {
        Some(acc)
    }
}

/// The integer that a text denotes, where it fits.
pub fn parse_int(s: &str) -> (r: Option<i64>)
    ensures
        match r {
            Some(n) => integer_within(s@, i64::MIN as int, i64::MAX as int) == Some(n as int),
            None => integer_within(s@, i64::MIN as int, i64::MAX as int) is None,
        },
{
    match parse_wide(s) {
        Some(n) => if n >= i64::MIN as i128 && n <= i64::MAX as i128 {
            Some(n as i64)
        } else {
            None
        },
        None => None,
    }
}

/// The integer that a text denotes, where it is not negative and fits.
pub fn parse_natural(s: &str) -> (r: Option<u64>)
    ensures
        match r {
            Some(n) => integer_within(s@, 0, u64::MAX as int) == Some(n as int),
            None => integer_within(s@, 0, u64::MAX as int) is None,
        },
{
    match parse_wide(s) {
        Some(n) => if n >= 0 && n <= u64::MAX as i128 {
            Some(n as u64)
        } else {
            None
        },
        None => None,
    }
}

/// A text with a character put before it until it is `width` long.
pub open spec fn left_padded(s: Seq<char>, c: char, width: nat) -> Seq<char> {
    if s.len() >= width {
        s
    } else {
        Seq::new((width - s.len()) as nat, |i: int| c) + s
    }
}

/// A text with a character put before it until it is `width` characters long.
pub fn pad_left(s: &Vec<char>, c: char, width: usize) -> (r: String)
    ensures
        r@ == left_padded(s@, c, width as nat),
{
    let mut out = String::new();
    let mut n: usize = s.len();
    while n < width
        invariant
            s@.len() <= n,
            s@.len() < width ==> n <= width,
            s@.len() >= width ==> n == s@.len(),
            out@ == Seq::new((n - s@.len()) as nat, |i: int| c),
        decreases width - n,
    {
        out.push(c);
        n += 1;
        assert(out@ =~= Seq::new((n - s@.len()) as nat, |i: int| c));
    }
    let rest = text_of(s);
    out.append(rest.as_str());
    assert(out@ =~= left_padded(s@, c, width as nat));
    out
}

/// The decimal notation of an integer, with zeros after the sign until it is `width` long.
pub open spec fn zero_padded(n: int, width: nat) -> Seq<char> {
    if n < 0 {
        seq!['-'] + left_padded(decimal((-n) as nat), '0', (if width == 0 {
            0
        } else {
            width - 1
        }) as nat)
    } else {
        left_padded(decimal(n as nat), '0', width)
    }
}

/// The decimal notation of an integer, with zeros after the sign until it is `width` long.
pub fn pad_zero(n: i64, width: usize) -> (r: String)
    ensures
        r@ == zero_padded(n as int, width as nat),
{
    if n < 0 {
        let mut out = String::new();
        out.push('-');
        let mag: u64 = (-(n as i128)) as u64;
        let rest = pad_left(&chars_of(show(mag).as_str()), '0', if width == 0 {
            0
        } else {
            width - 1
        });
        out.append(rest.as_str());
        assert(out@ =~= zero_padded(n as int, width as nat));
        out
    } else {
        pad_left(&chars_of(show(n as u64).as_str()), '0', width)
    }
}

/// The decimal notation of a number is made of digits that stand for it.
pub proof fn decimal_reads_back(n: nat)
    ensures
        decimal(n).len() > 0,
        all_digits(decimal(n)),
        digits_value(decimal(n)) == n,
    decreases n,
{
    reveal_with_fuel(digits_value, 2);
    if n < 10 {
        assert(decimal(n).drop_last() =~= Seq::<char>::empty());
    } else {
        decimal_reads_back(n / 10);
        assert(decimal(n).drop_last() =~= decimal(n / 10));
        assert(digit_value(decimal(n).last()) == n % 10);
    }
}

/// Zeros before digits do not change what they stand for.
pub proof fn padding_keeps_value(s: Seq<char>, width: nat)
    requires
        all_digits(s),
    ensures
        all_digits(left_padded(s, '0', width)),
        digits_value(left_padded(s, '0', width)) == digits_value(s),
    decreases width,
{
    let p = left_padded(s, '0', width);
    assert(all_digits(p));
    if s.len() >= width {
    } else if s.len() == 0 {
        let w = (width - 1) as nat;
        padding_keeps_value(s, w);
        assert(p.drop_last() =~= left_padded(s, '0', w));
    } else {
        let w = (width - 1) as nat;
        padding_keeps_value(s.drop_last(), w);
        assert(p.drop_last() =~= left_padded(s.drop_last(), '0', w));
        assert(p.last() == s.last());
    }
}

/// A text of digits denotes the number that they stand for.
pub proof fn digits_denote(s: Seq<char>)
    requires
        s.len() > 0,
        all_digits(s),
    ensures
        integer(s) == Some(digits_value(s)),
        trimmed(s) == s,
{
    assert(is_digit(s[0]));
    assert(is_digit(s.last()));
    trimmed_identity(s);
}

/// A number in decimal notation, zeros put before it or not, reads back as itself.
pub proof fn padded_reads_back(n: nat, width: nat)
    ensures
        all_digits(zero_padded(n as int, width)),
        trimmed(zero_padded(n as int, width)) == zero_padded(n as int, width),
        integer(zero_padded(n as int, width)) == Some(n as int),
{
    decimal_reads_back(n);
    padding_keeps_value(decimal(n), width);
    digits_denote(zero_padded(n as int, width));
}

/// Few digits stand for a small number.
pub proof fn digits_bound(s: Seq<char>)
    requires
        all_digits(s),
    ensures
        0 <= digits_value(s),
        s.len() <= 4 ==> digits_value(s) < 10_000,
        s.len() <= 3 ==> digits_value(s) < 1_000,
        s.len() <= 2 ==> digits_value(s) < 100,
        s.len() <= 1 ==> digits_value(s) < 10,
        s.len() <= 0 ==> digits_value(s) == 0,
    decreases s.len(),
{
    if s.len() > 0 {
        assert(all_digits(s.drop_last()));
        assert(is_digit(s.last()));
        digits_bound(s.drop_last());
    }
}

// ---------------------------------------------------------------------------
// Case
// ---------------------------------------------------------------------------
/// An ASCII character.
pub open spec fn is_ascii(c: char) -> bool {
    (c as u32) < 128
}

/// Every character is an ASCII character or a Chinese ideograph, which has no case.
pub open spec fn plain(s: Seq<char>) -> bool {
    forall|i: int|
        0 <= i < s.len() ==> is_ascii(#[trigger] s[i]) || 0x4E00 <= s[i] as u32 <= 0x9FFF
}

/// The text with each ASCII capital made small.
pub open spec fn ascii_lowered(s: Seq<char>) -> Seq<char> {
    Seq::new(s.len(), |i: int| ascii_lower(s[i]))
}

/// The text with each small ASCII letter made a capital.
pub open spec fn ascii_uppered(s: Seq<char>) -> Seq<char> {
    Seq::new(s.len(), |i: int| ascii_upper(s[i]))
}

/// The lower case of a text that is not [`plain`], as `str::to_lowercase` gives it.
pub uninterp spec fn unicode_lowercase(s: Seq<char>) -> Seq<char>;

/// The upper case of a text that is not [`plain`], as `str::to_uppercase` gives it.
pub uninterp spec fn unicode_uppercase(s: Seq<char>) -> Seq<char>;

/// The lower case of a text.
pub open spec fn lowercase(s: Seq<char>) -> Seq<char> {
    if plain(s) {
        ascii_lowered(s)
    } else {
        unicode_lowercase(s)
    }
}

/// The upper case of a text.
pub open spec fn uppercase(s: Seq<char>) -> Seq<char> {
    if plain(s) {
        ascii_uppered(s)
    } else {
        unicode_uppercase(s)
    }
}

/// `str::to_lowercase` of the standard library: ASCII capitals become small letters and
/// ideographs stay as they are. What it makes of other texts is only named.
pub assume_specification[ str::to_lowercase ](s: &str) -> (r: String)
    ensures
        plain(s@) ==> r@ == ascii_lowered(s@),
        !plain(s@) ==> r@ == unicode_lowercase(s@),
;

/// `str::to_uppercase` of the standard library: small ASCII letters become capitals and
/// ideographs stay as they are. What it makes of other texts is only named.
pub assume_specification[ str::to_uppercase ](s: &str) -> (r: String)
    ensures
        plain(s@) ==> r@ == ascii_uppered(s@),
        !plain(s@) ==> r@ == unicode_uppercase(s@),
;

/// The text with each ASCII capital made small.
pub fn lower_ascii(s: &str) -> (r: String)
    ensures
        r@ == ascii_lowered(s@),
{
    let v = chars_of(s);
    let mut out = String::new();
    let mut i: usize = 0;
    while i < v.len()
        invariant
            v@ == s@,
            i <= v@.len(),
            out@ == ascii_lowered(s@).take(i as int),
        decreases v@.len() - i,
    {
        out.push(to_ascii_lower(v[i]));
        i += 1;
        assert(out@ =~= ascii_lowered(s@).take(i as int));
    }
    assert(ascii_lowered(s@).take(s@.len() as int) =~= ascii_lowered(s@));
    out
}

/// A text of digits has no case, and no white space at its ends.
pub proof fn digits_have_no_case(s: Seq<char>)
    requires
        all_digits(s),
    ensures
        lowercase(s) == s,
        uppercase(s) == s,
        trimmed(s) == s,
{
    assert(plain(s)) by {
        assert forall|i: int| 0 <= i < s.len() implies is_ascii(#[trigger] s[i]) by {
            assert(is_digit(s[i]));
        }
    }
    assert(ascii_lowered(s) =~= s) by {
        assert forall|i: int| 0 <= i < s.len() implies ascii_lowered(s)[i] == s[i] by {
            assert(is_digit(s[i]));
        }
    }
    assert(ascii_uppered(s) =~= s) by {
        assert forall|i: int| 0 <= i < s.len() implies ascii_uppered(s)[i] == s[i] by {
            assert(is_digit(s[i]));
        }
    }
    if s.len() > 0 {
        digits_denote(s);
    } else {
        trimmed_identity(s);
    }
}

/// A digit, a small ASCII letter or a Chinese ideograph.
pub open spec fn has_no_capital(c: char) -> bool {
    is_digit(c) || 'a' <= c <= 'z' || 0x4E00 <= c as u32 <= 0x9FFF
}

/// A text of digits, small ASCII letters and Chinese ideographs is the same in lower case
/// and without white space at its ends.
pub proof fn caseless(s: Seq<char>)
    requires
        forall|i: int| 0 <= i < s.len() ==> has_no_capital(#[trigger] s[i]),
    ensures
        lowercase(s) == s,
        trimmed(s) == s,
{
    assert(plain(s)) by {
        assert forall|i: int| 0 <= i < s.len() implies is_ascii(#[trigger] s[i]) || 0x4E00
            <= s[i] as u32 <= 0x9FFF by {
            assert(has_no_capital(s[i]));
        }
    }
    assert(ascii_lowered(s) =~= s) by {
        assert forall|i: int| 0 <= i < s.len() implies ascii_lowered(s)[i] == s[i] by {
            assert(has_no_capital(s[i]));
        }
    }
    if s.len() > 0 {
        assert(has_no_capital(s[0]));
        assert(has_no_capital(s.last()));
    }
    trimmed_identity(s);
}

proof fn leading_end(s: Seq<char>)
    ensures
        leading(s) <= s.len(),
        leading(s) < s.len() ==> !white_space(s[leading(s) as int]),
    decreases s.len(),
{
    if s.len() > 0 && white_space(s[0]) {
        leading_end(s.drop_first());
    }
}

proof fn trailing_end(s: Seq<char>)
    ensures
        trailing(s) <= s.len(),
        trailing(s) < s.len() ==> !white_space(s[s.len() - 1 - trailing(s)]),
        s.len() > 0 && !white_space(s[0]) ==> trailing(s) < s.len(),
    decreases s.len(),
{
    if s.len() > 0 && white_space(s.last()) {
        trailing_end(s.drop_last());
    }
}

/// A trimmed text neither begins nor ends with white space.
pub proof fn trimmed_ends(s: Seq<char>)
    ensures
        ({
            let t = trimmed(s);
            t.len() > 0 ==> !white_space(t[0]) && !white_space(t.last())
        }),
{
    leading_end(s);
    trailing_end(s.skip(leading(s) as int));
}

/// A trimmed text of ASCII characters and Chinese ideographs in lower case stays as it is,
/// trimmed and put in lower case once more.
pub proof fn lowering_twice(t: Seq<char>)
    requires
        plain(t),
        t.len() > 0 ==> !white_space(t[0]) && !white_space(t.last()),
    ensures
        trimmed(lowercase(t)) == lowercase(t),
        lowercase(lowercase(t)) == lowercase(t),
{
    let u = ascii_lowered(t);
    assert forall|i: int| 0 <= i < u.len() implies (is_ascii(#[trigger] u[i]) || 0x4E00
        <= u[i] as u32 <= 0x9FFF) && ascii_lower(u[i]) == u[i] by {
        assert(is_ascii(t[i]) || 0x4E00 <= t[i] as u32 <= 0x9FFF);
    }
    assert(ascii_lowered(u) =~= u);
    if t.len() > 0 {
        assert(is_ascii(t[0]) || 0x4E00 <= t[0] as u32 <= 0x9FFF);
        assert(is_ascii(t.last()) || 0x4E00 <= t.last() as u32 <= 0x9FFF);
    }
    trimmed_identity(u);
}

// ---------------------------------------------------------------------------
// Joining and splitting
// ---------------------------------------------------------------------------
/// No character of a text is a given one.
pub open spec fn free_of(s: Seq<char>, c: char) -> bool {
    forall|i: int| 0 <= i < s.len() ==> #[trigger] s[i] != c
}

proof fn joined_from_the_front(parts: Seq<Seq<char>>, sep: Seq<char>)
    requires
        parts.len() >= 2,
    ensures
        joined(parts, sep) == parts[0] + sep + joined(parts.drop_first(), sep),
    decreases parts.len(),
{
    let rest = parts.drop_first();
    if parts.len() == 2 {
        assert(parts.drop_last()[0] == parts[0]);
        assert(joined(parts.drop_last(), sep) == parts[0]);
        assert(joined(rest, sep) == parts[1]);
    } else {
        joined_from_the_front(parts.drop_last(), sep);
        assert(parts.drop_last().drop_first() =~= rest.drop_last());
        assert(rest.last() == parts.last());
        assert(joined(parts, sep) =~= parts[0] + sep + joined(rest, sep));
    }
}

/// Texts that were joined with a separator that none of them holds are the pieces of what
/// came out.
pub proof fn joined_comes_apart(parts: Seq<Seq<char>>, sep: char)
    requires
        0 < parts.len(),
        forall|i: int| 0 <= i < parts.len() ==> free_of(#[trigger] parts[i], sep),
    ensures
        pieces(joined(parts, seq![sep]), sep) == parts,
    decreases parts.len(),
{
    assert(free_of(parts[0], sep));
    if parts.len() == 1 {
        pieces_of_plain(parts[0], sep);
        assert(pieces(joined(parts, seq![sep]), sep) =~= parts);
    } else {
        let rest = parts.drop_first();
        assert forall|i: int| 0 <= i < rest.len() implies free_of(#[trigger] rest[i], sep) by {
            assert(rest[i] == parts[i + 1]);
        }
        joined_comes_apart(rest, sep);
        joined_from_the_front(parts, seq![sep]);
        pieces_of_joined(parts[0], sep, joined(rest, seq![sep]));
        assert(seq![parts[0]] + rest =~= parts);
    }
}

} // verus!
