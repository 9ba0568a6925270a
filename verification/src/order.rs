//! Lists in order.
use crate::text;
use vstd::prelude::*;

verus! {

// ---------------------------------------------------------------------------
// Texts, each once
// ---------------------------------------------------------------------------
/// The texts ascend, and none occurs twice.
pub open spec fn strictly_ascending(s: Seq<Seq<char>>) -> bool {
    forall|i: int, j: int| 0 <= i < j < s.len() ==> text::before(s[i], s[j])
}

/// The place of a text among ascending ones: how many come before it, and whether it is
/// there.
pub fn place(list: &Vec<String>, item: &str) -> (r: (usize, bool))
    requires
        strictly_ascending(text::texts(list@)),
    ensures
        r.0 <= list@.len(),
        forall|k: int| 0 <= k < r.0 ==> text::before(#[trigger] list@[k]@, item@),
        forall|k: int| r.0 <= k < list@.len() ==> !text::before(#[trigger] list@[k]@, item@),
        r.1 == (r.0 < list@.len() && list@[r.0 as int]@ == item@),
        r.1 == text::texts(list@).contains(item@),
{
    let ghost ts = text::texts(list@);
    let mut lo: usize = 0;
    let mut hi: usize = list.len();
    while lo < hi
        invariant
            ts == text::texts(list@),
            strictly_ascending(ts),
            lo <= hi <= list@.len(),
            forall|k: int| 0 <= k < lo ==> text::before(#[trigger] list@[k]@, item@),
            forall|k: int| hi <= k < list@.len() ==> !text::before(#[trigger] list@[k]@, item@),
        decreases hi - lo,
    {
        let mid: usize = lo + (hi - lo) / 2;
        if text::precedes(list[mid].as_str(), item) {
            assert forall|k: int| 0 <= k < mid + 1 implies text::before(
                #[trigger] list@[k]@,
                item@,
            ) by {
                if k < mid {
                    assert(text::before(ts[k], ts[mid as int]));
                    text::before_transitive(ts[k], ts[mid as int], item@);
                }
            }
            lo = mid + 1;
        } else {
            assert forall|k: int| mid <= k < list@.len() implies !text::before(
                #[trigger] list@[k]@,
                item@,
            ) by {
                if k > mid && text::before(ts[k], item@) {
                    assert(text::before(ts[mid as int], ts[k]));
                    text::before_transitive(ts[mid as int], ts[k], item@);
                }
            }
            hi = mid;
        }
    }
    let found = lo < list.len() && text::same(list[lo].as_str(), item);
    proof {
        if found {
            assert(ts[lo as int] == item@);
        } else if ts.contains(item@) {
            let k = choose|k: int| 0 <= k < ts.len() && ts[k] == item@;
            text::before_irreflexive(item@);
            assert(list@[k]@ == item@);
            assert(k > lo);
            assert(text::before(ts[lo as int], ts[k]));
            assert(!text::before(list@[lo as int]@, item@));
        }
    }
    (lo, found)
}

/// Puts a text into its place among ascending ones, unless it is there.
pub fn insert_once(list: &mut Vec<String>, item: &str)
    requires
        strictly_ascending(text::texts(old(list)@)),
    ensures
        strictly_ascending(text::texts(final(list)@)),
        forall|t: Seq<char>| #[trigger]
            text::texts(final(list)@).contains(t) <==> (text::texts(old(list)@).contains(t) || t
                == item@),
{
    let (p, found) = place(list, item);
    let ghost a = text::texts(list@);
    if found {
        return;
    }
    list.insert(p, item.to_owned());
    let ghost b = text::texts(list@);
    proof {
        assert(b =~= a.insert(p as int, item@));
        assert forall|i: int, j: int| 0 <= i < j < b.len() implies text::before(b[i], b[j]) by {
            if i < p && j < p {
                assert(b[i] == a[i] && b[j] == a[j]);
            } else if i < p && j == p {
                assert(b[i] == a[i]);
            } else if i < p {
                assert(b[i] == a[i] && b[j] == a[j - 1]);
            } else if i == p {
                assert(b[j] == a[j - 1]);
                text::before_total(item@, a[j - 1]);
                assert(a[j - 1] != item@) by {
                    if a[j - 1] == item@ {
                        assert(a.contains(item@));
                    }
                }
            } else {
                assert(b[i] == a[i - 1] && b[j] == a[j - 1]);
            }
        }
        assert forall|t: Seq<char>| #[trigger] b.contains(t) <==> (a.contains(t) || t == item@) by {
            if a.contains(t) {
                let k = choose|k: int| 0 <= k < a.len() && a[k] == t;
                if k < p {
                    assert(b[k] == t);
                } else {
                    assert(b[k + 1] == t);
                }
            }
            if t == item@ {
                assert(b[p as int] == t);
            }
            if b.contains(t) && t != item@ {
                let k = choose|k: int| 0 <= k < b.len() && b[k] == t;
                if k < p {
                    assert(a[k] == t);
                } else {
                    assert(k != p);
                    assert(a[k - 1] == t);
                }
            }
        }
    }
}

// ---------------------------------------------------------------------------
// Things with a key and a name
// ---------------------------------------------------------------------------
/// A thing with a key, a name and a number by which it is told from others.
#[derive(Debug)]
pub struct Entry {
    pub key: i64,
    pub name: String,
    pub tag: usize,
}

/// An entry with its name as a sequence of characters.
pub ghost struct EntryView {
    pub key: i64,
    pub name: Seq<char>,
    pub tag: usize,
}

impl View for Entry {
    type V = EntryView;

    open spec fn view(&self) -> EntryView {
        EntryView { key: self.key, name: self.name@, tag: self.tag }
    }
}

/// Several entries.
pub open spec fn entry_views(v: Seq<Entry>) -> Seq<EntryView> {
    Seq::new(v.len(), |i: int| v[i]@)
}

/// The larger key goes first, then the earlier name, then the smaller number.
pub open spec fn ahead(a: EntryView, b: EntryView) -> bool {
    a.key > b.key || (a.key == b.key && (text::before(a.name, b.name) || (a.name == b.name && a.tag
        < b.tag)))
}

/// No entry stands behind one that it goes before.
pub open spec fn in_order(s: Seq<EntryView>) -> bool {
    forall|i: int, j: int| 0 <= i < j < s.len() ==> !ahead(s[j], s[i])
}

/// One list is the other put in order.
pub open spec fn ordered(s: Seq<EntryView>, r: Seq<EntryView>) -> bool {
    in_order(r) && r.to_multiset() == s.to_multiset()
}

/// What stands in a list that was put in order stood in it before.
pub proof fn ordered_keeps(s: Seq<EntryView>, r: Seq<EntryView>, i: int)
    requires
        ordered(s, r),
        0 <= i < r.len(),
    ensures
        s.contains(r[i]),
{
    r.to_multiset_ensures();
    s.to_multiset_ensures();
    assert(r.contains(r[i]));
    assert(r.to_multiset().count(r[i]) > 0);
}

fn goes_before(a: &Entry, b: &Entry) -> (r: bool)
    ensures
        r == ahead(a@, b@),
{
    if a.key != b.key {
        a.key > b.key
    } else if text::same(a.name.as_str(), b.name.as_str()) {
        proof {
            text::before_irreflexive(a.name@);
        }
        a.tag < b.tag
    } else {
        text::precedes(a.name.as_str(), b.name.as_str())
    }
}

proof fn ahead_transitive(a: EntryView, b: EntryView, c: EntryView)
    requires
        ahead(a, b),
        ahead(b, c),
    ensures
        ahead(a, c),
{
    if text::before(a.name, b.name) && text::before(b.name, c.name) {
        text::before_transitive(a.name, b.name, c.name);
    }
}

proof fn ahead_asymmetric(a: EntryView, b: EntryView)
    requires
        ahead(a, b),
    ensures
        !ahead(b, a),
{
    text::before_irreflexive(a.name);
    if text::before(a.name, b.name) {
        text::before_asymmetric(a.name, b.name);
    }
}

proof fn ahead_total(a: EntryView, b: EntryView)
    ensures
        a == b || ahead(a, b) || ahead(b, a),
{
    text::before_total(a.name, b.name);
}

/// Puts entries in order.
pub fn sort(items: Vec<Entry>) -> (r: Vec<Entry>)
    ensures
        ordered(entry_views(items@), entry_views(r@)),
{
    let ghost all = entry_views(items@);
    let n = items.len();
    let mut rest = items;
    let mut out: Vec<Entry> = Vec::new();
    assert(entry_views(out@) =~= Seq::<EntryView>::empty());
    assert(all.take(n as int) =~= all);
    assert(all.skip(n as int) =~= Seq::<EntryView>::empty());
    while rest.len() > 0
        invariant
            rest@.len() <= n == all.len(),
            entry_views(rest@) == all.take(rest@.len() as int),
            in_order(entry_views(out@)),
            entry_views(out@).to_multiset() == all.skip(rest@.len() as int).to_multiset(),
        decreases rest@.len(),
    {
        let ghost k = rest@.len() as int;
        let ghost before_pop = rest@;
        match rest.pop() {
            Some(e) => {
                let ghost s = entry_views(out@);
                let ghost x = e@;
                assert(x == entry_views(before_pop)[k - 1]);
                assert(all.take(k)[k - 1] == all[k - 1]);
                assert(entry_views(rest@) =~= all.take(k - 1));
                let mut p: usize = 0;
                while p < out.len() && !goes_before(&e, &out[p])
                    invariant
                        s == entry_views(out@),
                        x == e@,
                        p <= out@.len(),
                        forall|j: int| 0 <= j < p ==> !ahead(x, #[trigger] s[j]),
                    decreases out@.len() - p,
                {
                    assert(s[p as int] == out@[p as int]@);
                    p += 1;
                }
                proof {
                    if p < s.len() {
                        assert(s[p as int] == out@[p as int]@);
                    }
                    put_in_place(s, p as int, x);
                    assert(all.skip(k - 1) =~= all.skip(k).insert(0, x));
                    vstd::seq_lib::to_multiset_insert(all.skip(k), 0, x);
                    vstd::seq_lib::to_multiset_insert(s, p as int, x);
                }
                out.insert(p, e);
                assert(entry_views(out@) =~= s.insert(p as int, x));
            },
            None => {},
        }
    }
    assert(all.skip(0) =~= all);
    out
}

proof fn put_in_place(s: Seq<EntryView>, p: int, x: EntryView)
    requires
        in_order(s),
        0 <= p <= s.len(),
        forall|j: int| 0 <= j < p ==> !ahead(x, #[trigger] s[j]),
        p < s.len() ==> ahead(x, s[p]),
    ensures
        in_order(s.insert(p, x)),
{
    let t = s.insert(p, x);
    assert forall|i: int, j: int| 0 <= i < j < t.len() implies !ahead(t[j], t[i]) by {
        if j < p {
            assert(t[i] == s[i] && t[j] == s[j]);
        } else if j == p {
            assert(t[i] == s[i]);
        } else if i < p {
            assert(t[i] == s[i] && t[j] == s[j - 1]);
        } else if i == p {
            assert(t[j] == s[j - 1]);
            if ahead(s[j - 1], x) {
                ahead_transitive(s[j - 1], x, s[p]);
                if j - 1 == p {
                    ahead_asymmetric(s[p], x);
                }
            }
        } else {
            assert(t[i] == s[i - 1] && t[j] == s[j - 1]);
        }
    }
}

/// Two lists in order that hold the same entries are the same list.
pub proof fn order_is_unique(a: Seq<EntryView>, b: Seq<EntryView>)
    requires
        in_order(a),
        in_order(b),
        a.to_multiset() == b.to_multiset(),
    ensures
        a == b,
    decreases a.len(),
{
    broadcast use vstd::seq_lib::group_to_multiset_ensures;

    assert(a.len() == a.to_multiset().len() && b.len() == b.to_multiset().len());
    if a.len() > 0 {
        let x = a[0];
        let y = b[0];
        assert(a.contains(x) && b.contains(y));
        assert(a.to_multiset().count(x) > 0 && b.to_multiset().count(y) > 0);
        assert(b.contains(x) && a.contains(y));
        let i = choose|i: int| 0 <= i < b.len() && b[i] == x;
        let j = choose|j: int| 0 <= j < a.len() && a[j] == y;
        ahead_total(x, y);
        assert(x == y);
        let a1 = a.remove(0);
        let b1 = b.remove(0);
        assert forall|i: int, j: int| 0 <= i < j < a1.len() implies !ahead(a1[j], a1[i]) by {
            assert(a1[i] == a[i + 1] && a1[j] == a[j + 1]);
        }
        assert forall|i: int, j: int| 0 <= i < j < b1.len() implies !ahead(b1[j], b1[i]) by {
            assert(b1[i] == b[i + 1] && b1[j] == b[j + 1]);
        }
        order_is_unique(a1, b1);
        assert(a =~= a1.insert(0, x));
        assert(b =~= b1.insert(0, y));
    } else {
        assert(a =~= b);
    }
}

} // verus!
