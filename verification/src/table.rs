//! Values by name.
use crate::text;
use vstd::prelude::*;

verus! {

/// A table of values by name. A later value of a name takes the place of an earlier one.
#[derive(Debug)]
pub struct Table<V: Copy> {
    pub entries: Vec<(String, V)>,
}

/// The values of a list of entries, the later before the earlier.
pub open spec fn entry_map<V>(s: Seq<(String, V)>) -> Map<Seq<char>, V>
    decreases s.len(),
{
    if s.len() == 0 {
        Map::empty()
    } else {
        entry_map(s.drop_last()).insert(s.last().0@, s.last().1)
    }
}

impl<V: Copy> View for Table<V> {
    type V = Map<Seq<char>, V>;

    open spec fn view(&self) -> Map<Seq<char>, V> {
        entry_map(self.entries@)
    }
}

proof fn entry_present<V>(s: Seq<(String, V)>, name: Seq<char>, k: int)
    requires
        0 <= k < s.len(),
        s[k].0@ == name,
        forall|j: int| k < j < s.len() ==> (#[trigger] s[j]).0@ != name,
    ensures
        entry_map(s).contains_key(name),
        entry_map(s)[name] == s[k].1,
    decreases s.len(),
{
    if k < s.len() - 1 {
        let t = s.drop_last();
        assert forall|j: int| k < j < t.len() implies (#[trigger] t[j]).0@ != name by {
            assert(t[j] == s[j]);
        }
        entry_present(t, name, k);
        assert(s[s.len() - 1].0@ != name);
    }
}

proof fn entry_absent<V>(s: Seq<(String, V)>, name: Seq<char>)
    requires
        forall|j: int| 0 <= j < s.len() ==> (#[trigger] s[j]).0@ != name,
    ensures
        !entry_map(s).contains_key(name),
    decreases s.len(),
{
    if s.len() > 0 {
        let t = s.drop_last();
        assert forall|j: int| 0 <= j < t.len() implies (#[trigger] t[j]).0@ != name by {
            assert(t[j] == s[j]);
        }
        entry_absent(t, name);
        assert(s[s.len() - 1].0@ != name);
    }
}

proof fn entry_replaced<V>(s: Seq<(String, V)>, name: String, k: int, v: V)
    requires
        0 <= k < s.len(),
        s[k].0@ == name@,
        forall|j: int| k < j < s.len() ==> (#[trigger] s[j]).0@ != name@,
    ensures
        entry_map(s.update(k, (name, v))) == entry_map(s).insert(name@, v),
    decreases s.len(),
{
    let u = s.update(k, (name, v));
    let t = s.drop_last();
    if k == s.len() - 1 {
        assert(u.drop_last() =~= t);
        assert(entry_map(u) =~= entry_map(s).insert(name@, v));
    } else {
        assert forall|j: int| k < j < t.len() implies (#[trigger] t[j]).0@ != name@ by {
            assert(t[j] == s[j]);
        }
        entry_replaced(t, name, k, v);
        assert(u.drop_last() =~= t.update(k, (name, v)));
        assert(s[s.len() - 1].0@ != name@);
        assert(entry_map(u) =~= entry_map(s).insert(name@, v));
    }
}

impl<V: Copy> Table<V> {
    pub fn new() -> (r: Self)
        ensures
            r@ == Map::<Seq<char>, V>::empty(),
    {
        Table { entries: Vec::new() }
    }

    /// The place of the last entry of a name.
    fn find(&self, name: &str) -> (r: Option<usize>)
        ensures
            match r {
                Some(k) => k < self.entries@.len() && self.entries@[k as int].0@ == name@
                    && forall|j: int|
                    k < j < self.entries@.len() ==> (#[trigger] self.entries@[j]).0@ != name@,
                None => forall|j: int|
                    0 <= j < self.entries@.len() ==> (#[trigger] self.entries@[j]).0@ != name@,
            },
    {
        let mut i: usize = self.entries.len();
        while i > 0
            invariant
                i <= self.entries@.len(),
                forall|j: int|
                    i <= j < self.entries@.len() ==> (#[trigger] self.entries@[j]).0@ != name@,
            decreases i,
        {
            i -= 1;
            if text::same(self.entries[i].0.as_str(), name) {
                return Some(i);
            }
        }
        None
    }

    /// The value of a name, if it has one.
    pub fn get(&self, name: &str) -> (r: Option<V>)
        ensures
            r == (if self@.contains_key(name@) {
                Some(self@[name@])
            } else {
                None
            }),
    {
        match self.find(name) {
            Some(k) => {
                proof {
                    entry_present(self.entries@, name@, k as int);
                }
                Some(self.entries[k].1)
            },
            None => {
                proof {
                    entry_absent(self.entries@, name@);
                }
                None
            },
        }
    }

    /// Gives a name a value, in place of the one it had.
    pub fn set(&mut self, name: String, value: V)
        ensures
            final(self)@ == old(self)@.insert(name@, value),
    {
        match self.find(name.as_str()) {
            Some(k) => {
                proof {
                    entry_replaced(self.entries@, name, k as int, value);
                }
                self.entries.set(k, (name, value));
            },
            None => {
                let ghost before = self.entries@;
                self.entries.push((name, value));
                assert(self.entries@.drop_last() =~= before);
            },
        }
    }
}

} // verus!
