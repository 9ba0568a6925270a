//! Rows in the order of their keys, one for each key.
use crate::text;
use vstd::prelude::*;

verus! {

/// What a row is found by: up to three texts.
pub ghost struct Key {
    pub first: Seq<char>,
    pub second: Seq<char>,
    pub third: Seq<char>,
}

/// The order of keys: by the first text, then by the second, then by the third.
pub open spec fn key_before(a: Key, b: Key) -> bool {
    text::before(a.first, b.first) || (a.first == b.first && (text::before(a.second, b.second) || (
    a.second == b.second && text::before(a.third, b.third))))
}

/// Something that is kept under a key.
pub trait Row: Sized {
    /// What the row says.
    type Said;

    spec fn said(&self) -> Self::Said;

    /// The key of a row that says this.
    spec fn key(s: Self::Said) -> Key;

    fn key_texts(&self) -> (r: (&str, &str, &str))
        ensures
            Self::key(self.said()) == (Key { first: r.0@, second: r.1@, third: r.2@ }),
    ;
}

/// What the rows say, one after the other.
pub open spec fn said<R: Row>(rows: Seq<R>) -> Seq<R::Said> {
    Seq::new(rows.len(), |i: int| rows[i].said())
}

/// The keys ascend, and none occurs twice.
pub open spec fn ascending<R: Row>(s: Seq<R::Said>) -> bool {
    forall|i: int, j: int|
        0 <= i < j < s.len() ==> key_before(R::key(#[trigger] s[i]), R::key(#[trigger] s[j]))
}

/// There is a row under a key.
pub open spec fn holds<R: Row>(s: Seq<R::Said>, k: Key) -> bool {
    exists|i: int| 0 <= i < s.len() && R::key(#[trigger] s[i]) == k
}

/// What is said under each key.
pub open spec fn by_key<R: Row>(s: Seq<R::Said>) -> Map<Key, R::Said> {
    Map::new(
        |k: Key| holds::<R>(s, k),
        |k: Key| s[choose|i: int| 0 <= i < s.len() && R::key(#[trigger] s[i]) == k],
    )
}

/// Rows in the order of their keys, one for each key.
#[derive(Debug)]
pub struct Shelf<R: Row> {
    pub rows: Vec<R>,
}

proof fn key_before_irreflexive(a: Key)
    ensures
        !key_before(a, a),
{
    text::before_irreflexive(a.first);
    text::before_irreflexive(a.second);
    text::before_irreflexive(a.third);
}

proof fn key_before_transitive(a: Key, b: Key, c: Key)
    requires
        key_before(a, b),
        key_before(b, c),
    ensures
        key_before(a, c),
{
    if text::before(a.first, b.first) && text::before(b.first, c.first) {
        text::before_transitive(a.first, b.first, c.first);
    }
    if text::before(a.second, b.second) && text::before(b.second, c.second) {
        text::before_transitive(a.second, b.second, c.second);
    }
    if text::before(a.third, b.third) && text::before(b.third, c.third) {
        text::before_transitive(a.third, b.third, c.third);
    }
}

proof fn key_before_total(a: Key, b: Key)
    ensures
        a == b || key_before(a, b) || key_before(b, a),
{
    text::before_total(a.first, b.first);
    text::before_total(a.second, b.second);
    text::before_total(a.third, b.third);
}

/// What is said under a key is what the one row with that key says.
pub proof fn one_row_for_a_key<R: Row>(s: Seq<R::Said>, i: int)
    requires
        ascending::<R>(s),
        0 <= i < s.len(),
    ensures
        by_key::<R>(s).contains_key(R::key(s[i])),
        by_key::<R>(s)[R::key(s[i])] == s[i],
{
    let k = R::key(s[i]);
    let j = choose|j: int| 0 <= j < s.len() && R::key(#[trigger] s[j]) == k;
    key_before_irreflexive(k);
    assert(i == j);
}

/// Two lists in order that say the same under every key are one and the same list.
pub proof fn order_of_keys_is_unique<R: Row>(a: Seq<R::Said>, b: Seq<R::Said>)
    requires
        ascending::<R>(a),
        ascending::<R>(b),
        by_key::<R>(a) == by_key::<R>(b),
    ensures
        a == b,
    decreases a.len(),
{
    if a.len() > 0 && b.len() > 0 {
        let x = a.last();
        let y = b.last();
        one_row_for_a_key::<R>(a, a.len() - 1);
        one_row_for_a_key::<R>(b, b.len() - 1);
        let i = choose|i: int| 0 <= i < b.len() && R::key(#[trigger] b[i]) == R::key(x);
        let j = choose|j: int| 0 <= j < a.len() && R::key(#[trigger] a[j]) == R::key(y);
        assert(holds::<R>(b, R::key(x)) && holds::<R>(a, R::key(y)));
        assert(R::key(x) == R::key(y)) by {
            if R::key(x) != R::key(y) {
                assert(key_before(R::key(b[i]), R::key(b[b.len() - 1])));
                assert(key_before(R::key(a[j]), R::key(a[a.len() - 1])));
                key_before_transitive(R::key(x), R::key(y), R::key(x));
                key_before_irreflexive(R::key(x));
            }
        }
        assert(x == y);
        let a1 = a.drop_last();
        let b1 = b.drop_last();
        without_last::<R>(a);
        without_last::<R>(b);
        order_of_keys_is_unique::<R>(a1, b1);
        assert(a =~= a1.push(x));
        assert(b =~= b1.push(y));
    } else if a.len() > 0 {
        one_row_for_a_key::<R>(a, 0);
        assert(holds::<R>(b, R::key(a[0])));
    } else if b.len() > 0 {
        one_row_for_a_key::<R>(b, 0);
        assert(holds::<R>(a, R::key(b[0])));
    } else {
        assert(a =~= b);
    }
}

proof fn without_last<R: Row>(s: Seq<R::Said>)
    requires
        ascending::<R>(s),
        s.len() > 0,
    ensures
        ascending::<R>(s.drop_last()),
        by_key::<R>(s.drop_last()) == by_key::<R>(s).remove(R::key(s.last())),
{
    let t = s.drop_last();
    let last = R::key(s.last());
    let m = by_key::<R>(s).remove(last);
    assert forall|i: int, j: int| 0 <= i < j < t.len() implies key_before(
        R::key(#[trigger] t[i]),
        R::key(#[trigger] t[j]),
    ) by {
        assert(t[i] == s[i] && t[j] == s[j]);
    }
    assert forall|k: Key| by_key::<R>(t).contains_key(k) <==> m.contains_key(k) by {
        if holds::<R>(t, k) {
            let i = choose|i: int| 0 <= i < t.len() && R::key(#[trigger] t[i]) == k;
            assert(R::key(s[i]) == k);
            assert(key_before(R::key(s[i]), R::key(s[s.len() - 1])));
            key_before_irreflexive(last);
        }
        if m.contains_key(k) {
            let i = choose|i: int| 0 <= i < s.len() && R::key(#[trigger] s[i]) == k;
            assert(R::key(t[i]) == k);
        }
    }
    assert forall|k: Key| by_key::<R>(t).contains_key(k) implies by_key::<R>(t)[k] == m[k] by {
        let i = choose|i: int| 0 <= i < t.len() && R::key(#[trigger] t[i]) == k;
        one_row_for_a_key::<R>(t, i);
        one_row_for_a_key::<R>(s, i);
        assert(key_before(R::key(s[i]), R::key(s[s.len() - 1])));
        key_before_irreflexive(last);
        assert(s[i] == t[i]);
    }
    assert(by_key::<R>(t) =~= m);
}

/// What is left of a list in order is in order, and says under each key what was said there,
/// where it is left.
pub proof fn selection_keeps_order<R: Row>(s: Seq<R::Said>, p: spec_fn(R::Said) -> bool)
    requires
        ascending::<R>(s),
    ensures
        ascending::<R>(s.filter(p)),
        forall|k: Key|
            #![trigger by_key::<R>(s.filter(p)).contains_key(k)]
            by_key::<R>(s.filter(p)).contains_key(k) <==> by_key::<R>(s).contains_key(k) && p(
                by_key::<R>(s)[k],
            ),
        forall|k: Key|
            #![trigger by_key::<R>(s.filter(p))[k]]
            by_key::<R>(s.filter(p)).contains_key(k) ==> by_key::<R>(s.filter(p))[k] == by_key::<R>(
                s,
            )[k],
{
    let f = s.filter(p);
    let w = selection_places::<R>(s, p);
    assert forall|i: int, j: int| 0 <= i < j < f.len() implies key_before(
        R::key(#[trigger] f[i]),
        R::key(#[trigger] f[j]),
    ) by {
        assert(w[i] < w[j]);
        assert(f[i] == s[w[i]] && f[j] == s[w[j]]);
    }
    assert forall|k: Key|
        #![trigger by_key::<R>(f).contains_key(k)]
        by_key::<R>(f).contains_key(k) <==> by_key::<R>(s).contains_key(k) && p(
            by_key::<R>(s)[k],
        ) by {
        if holds::<R>(f, k) {
            let i = choose|i: int| 0 <= i < f.len() && R::key(#[trigger] f[i]) == k;
            assert(f[i] == s[w[i]]);
            one_row_for_a_key::<R>(s, w[i]);
        }
        if by_key::<R>(s).contains_key(k) && p(by_key::<R>(s)[k]) {
            let j = choose|j: int| 0 <= j < s.len() && R::key(#[trigger] s[j]) == k;
            one_row_for_a_key::<R>(s, j);
            s.lemma_filter_contains(p, j);
            let i = choose|i: int| 0 <= i < f.len() && f[i] == s[j];
            assert(R::key(f[i]) == k);
        }
    }
    assert forall|k: Key|
        #![trigger by_key::<R>(f)[k]]
        by_key::<R>(f).contains_key(k) implies by_key::<R>(f)[k] == by_key::<R>(s)[k] by {
        let i = choose|i: int| 0 <= i < f.len() && R::key(#[trigger] f[i]) == k;
        one_row_for_a_key::<R>(f, i);
        assert(f[i] == s[w[i]]);
        one_row_for_a_key::<R>(s, w[i]);
    }
}

/// Where each row that is left stood.
proof fn selection_places<R: Row>(s: Seq<R::Said>, p: spec_fn(R::Said) -> bool) -> (w: Seq<int>)
    ensures
        w.len() == s.filter(p).len(),
        forall|i: int|
            0 <= i < w.len() ==> 0 <= #[trigger] w[i] < s.len() && s.filter(p)[i] == s[w[i]] && p(
                s[w[i]],
            ),
        forall|i: int, j: int| 0 <= i < j < w.len() ==> #[trigger] w[i] < #[trigger] w[j],
    decreases s.len(),
{
    reveal(Seq::filter);
    if s.len() == 0 {
        Seq::empty()
    } else {
        let t = s.drop_last();
        let v = selection_places::<R>(t, p);
        let w = if p(s.last()) {
            v.push(s.len() - 1)
        } else {
            v
        };
        assert forall|i: int| 0 <= i < w.len() implies 0 <= #[trigger] w[i] < s.len() && s.filter(
            p,
        )[i] == s[w[i]] && p(s[w[i]]) by {
            if i < v.len() {
                assert(w[i] == v[i]);
                assert(t.filter(p)[i] == t[v[i]]);
            }
        }
        assert forall|i: int, j: int| 0 <= i < j < w.len() implies #[trigger] w[i]
            < #[trigger] w[j] by {
            if j < v.len() {
                assert(w[i] == v[i] && w[j] == v[j]);
            } else {
                assert(w[i] == v[i]);
            }
        }
        w
    }
}

/// Where two lists in order say the same under the keys of what is chosen, the same is
/// chosen from both.
pub proof fn same_selection<R: Row>(
    a: Seq<R::Said>,
    b: Seq<R::Said>,
    p: spec_fn(R::Said) -> bool,
)
    requires
        ascending::<R>(a),
        ascending::<R>(b),
        forall|k: Key|
            #![trigger by_key::<R>(a).contains_key(k)]
            by_key::<R>(a).contains_key(k) && p(by_key::<R>(a)[k]) ==> by_key::<R>(b).contains_key(
                k,
            ) && by_key::<R>(b)[k] == by_key::<R>(a)[k],
        forall|k: Key|
            #![trigger by_key::<R>(b).contains_key(k)]
            by_key::<R>(b).contains_key(k) && p(by_key::<R>(b)[k]) ==> by_key::<R>(a).contains_key(
                k,
            ) && by_key::<R>(a)[k] == by_key::<R>(b)[k],
    ensures
        a.filter(p) == b.filter(p),
{
    selection_keeps_order::<R>(a, p);
    selection_keeps_order::<R>(b, p);
    assert(by_key::<R>(a.filter(p)) =~= by_key::<R>(b.filter(p)));
    order_of_keys_is_unique::<R>(a.filter(p), b.filter(p));
}

/// How a row that comes stands to one that is there.
enum Place {
    Before,
    There,
    Behind,
}

fn compare<R: Row>(a: &R, b: &R) -> (r: Place)
    ensures
        match r {
            Place::Before => key_before(R::key(a.said()), R::key(b.said())),
            Place::There => R::key(a.said()) == R::key(b.said()),
            Place::Behind => key_before(R::key(b.said()), R::key(a.said())),
        },
{
    let x = a.key_texts();
    let y = b.key_texts();
    proof {
        key_before_total(R::key(a.said()), R::key(b.said()));
        key_before_irreflexive(R::key(a.said()));
    }
    if text::same(x.0, y.0) && text::same(x.1, y.1) && text::same(x.2, y.2) {
        Place::There
    } else if text::precedes(x.0, y.0) || (text::same(x.0, y.0) && (text::precedes(x.1, y.1) || (
    text::same(x.1, y.1) && text::precedes(x.2, y.2)))) {
        Place::Before
    } else {
        Place::Behind
    }
}

impl<R: Row> Shelf<R> {
    /// What the rows say, in the order of their keys.
    pub open spec fn list(&self) -> Seq<R::Said> {
        said(self.rows@)
    }

    /// The keys ascend.
    pub open spec fn wf(&self) -> bool {
        ascending::<R>(self.list())
    }

    pub fn new() -> (r: Self)
        ensures
            r.wf(),
            r.list() == Seq::<R::Said>::empty(),
    {
        let r = Shelf { rows: Vec::new() };
        assert(r.list() =~= Seq::<R::Said>::empty());
        r
    }

    /// Puts a row in its place, in place of the one that has its key.
    pub fn put(&mut self, row: R)
        requires
            old(self).wf(),
        ensures
            final(self).wf(),
            by_key::<R>(final(self).list()) == by_key::<R>(old(self).list()).insert(
                R::key(row.said()),
                row.said(),
            ),
    {
        let ghost s = self.list();
        let ghost v = row.said();
        let mut k: usize = self.rows.len();
        while k > 0
            invariant
                self.list() == s,
                *self == *old(self),
                ascending::<R>(s),
                v == row.said(),
                k <= self.rows@.len(),
                forall|j: int| k <= j < s.len() ==> key_before(R::key(v), R::key(#[trigger] s[j])),
            decreases k,
        {
            assert(s[k - 1] == self.rows@[k - 1].said());
            match compare(&row, &self.rows[k - 1]) {
                Place::Before => {
                    k -= 1;
                },
                Place::There => {
                    self.rows.set(k - 1, row);
                    proof {
                        assert(self.list() =~= s.update(k - 1, v));
                        replaced::<R>(s, k - 1, v);
                    }
                    return;
                },
                Place::Behind => {
                    self.rows.insert(k, row);
                    proof {
                        assert(self.list() =~= s.insert(k as int, v));
                        inserted::<R>(s, k as int, v);
                    }
                    return;
                },
            }
        }
        self.rows.insert(0, row);
        proof {
            assert(self.list() =~= s.insert(0, v));
            inserted::<R>(s, 0, v);
        }
    }
}

proof fn replaced<R: Row>(s: Seq<R::Said>, at: int, v: R::Said)
    requires
        ascending::<R>(s),
        0 <= at < s.len(),
        R::key(s[at]) == R::key(v),
    ensures
        ascending::<R>(s.update(at, v)),
        by_key::<R>(s.update(at, v)) == by_key::<R>(s).insert(R::key(v), v),
{
    let t = s.update(at, v);
    assert forall|i: int, j: int| 0 <= i < j < t.len() implies key_before(
        R::key(#[trigger] t[i]),
        R::key(#[trigger] t[j]),
    ) by {
        assert(R::key(t[i]) == R::key(s[i]) && R::key(t[j]) == R::key(s[j]));
    }
    let m = by_key::<R>(s).insert(R::key(v), v);
    assert forall|k: Key| by_key::<R>(t).contains_key(k) <==> m.contains_key(k) by {
        if holds::<R>(t, k) {
            let i = choose|i: int| 0 <= i < t.len() && R::key(#[trigger] t[i]) == k;
            assert(R::key(s[i]) == k);
        }
        if m.contains_key(k) {
            if k == R::key(v) {
                assert(R::key(t[at]) == k);
            } else {
                let i = choose|i: int| 0 <= i < s.len() && R::key(#[trigger] s[i]) == k;
                assert(R::key(t[i]) == k);
            }
        }
    }
    assert forall|k: Key| by_key::<R>(t).contains_key(k) implies by_key::<R>(t)[k] == m[k] by {
        let i = choose|i: int| 0 <= i < t.len() && R::key(#[trigger] t[i]) == k;
        one_row_for_a_key::<R>(t, i);
        if i != at {
            assert(key_before(R::key(s[i]), R::key(s[at])) || key_before(
                R::key(s[at]),
                R::key(s[i]),
            ));
            key_before_irreflexive(k);
            one_row_for_a_key::<R>(s, i);
        }
    }
    assert(by_key::<R>(t) =~= m);
}

proof fn inserted<R: Row>(s: Seq<R::Said>, at: int, v: R::Said)
    requires
        ascending::<R>(s),
        0 <= at <= s.len(),
        at > 0 ==> key_before(R::key(s[at - 1]), R::key(v)),
        forall|j: int| at <= j < s.len() ==> key_before(R::key(v), R::key(#[trigger] s[j])),
    ensures
        ascending::<R>(s.insert(at, v)),
        by_key::<R>(s.insert(at, v)) == by_key::<R>(s).insert(R::key(v), v),
{
    let t = s.insert(at, v);
    assert forall|j: int| 0 <= j < at implies key_before(R::key(#[trigger] s[j]), R::key(v)) by {
        if j < at - 1 {
            key_before_transitive(R::key(s[j]), R::key(s[at - 1]), R::key(v));
        }
    }
    assert forall|i: int, j: int| 0 <= i < j < t.len() implies key_before(
        R::key(#[trigger] t[i]),
        R::key(#[trigger] t[j]),
    ) by {
        if j < at {
            assert(t[i] == s[i] && t[j] == s[j]);
        } else if j == at {
            assert(t[i] == s[i]);
        } else if i < at {
            assert(t[i] == s[i] && t[j] == s[j - 1]);
        } else if i == at {
            assert(t[j] == s[j - 1]);
        } else {
            assert(t[i] == s[i - 1] && t[j] == s[j - 1]);
        }
    }
    let m = by_key::<R>(s).insert(R::key(v), v);
    assert forall|k: Key| by_key::<R>(t).contains_key(k) <==> m.contains_key(k) by {
        if holds::<R>(t, k) {
            let i = choose|i: int| 0 <= i < t.len() && R::key(#[trigger] t[i]) == k;
            if i < at {
                assert(R::key(s[i]) == k);
            } else if i > at {
                assert(R::key(s[i - 1]) == k);
            }
        }
        if m.contains_key(k) {
            if k == R::key(v) {
                assert(R::key(t[at]) == k);
            } else {
                let i = choose|i: int| 0 <= i < s.len() && R::key(#[trigger] s[i]) == k;
                if i < at {
                    assert(R::key(t[i]) == k);
                } else {
                    assert(R::key(t[i + 1]) == k);
                }
            }
        }
    }
    assert forall|k: Key| by_key::<R>(t).contains_key(k) implies by_key::<R>(t)[k] == m[k] by {
        let i = choose|i: int| 0 <= i < t.len() && R::key(#[trigger] t[i]) == k;
        one_row_for_a_key::<R>(t, i);
        if i < at {
            key_before_irreflexive(k);
            one_row_for_a_key::<R>(s, i);
        } else if i > at {
            key_before_irreflexive(k);
            one_row_for_a_key::<R>(s, i - 1);
        }
    }
    assert(by_key::<R>(t) =~= m);
}

} // verus!
