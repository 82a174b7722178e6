//! Values by name, each name once.

use crate::text::same_text;
use vstd::prelude::*;

verus! {

/// A table of named values, in no particular order.
#[derive(Debug)]
pub struct Table<V> {
    pub entries: Vec<(String, V)>,
}

/// The values of the entries of a table.
pub open spec fn rows<V: View>(v: Seq<(String, V)>) -> Seq<(Seq<char>, V::V)> {
    Seq::new(v.len(), |i: int| (v[i].0@, v[i].1@))
}

/// The map that holds, for each name, what its last row says.
pub open spec fn rows_map<T>(s: Seq<(Seq<char>, T)>) -> Map<Seq<char>, T>
    decreases s.len(),
{
    if s.len() == 0 {
        Map::empty()
    } else {
        rows_map(s.drop_last()).insert(s.last().0, s.last().1)
    }
}

/// No name stands in two rows.
pub open spec fn distinct<T>(s: Seq<(Seq<char>, T)>) -> bool {
    forall|i: int, j: int| 0 <= i < j < s.len() ==> (#[trigger] s[i]).0 != (#[trigger] s[j]).0
}

impl<V: View> Table<V> {
    /// No name stands in two entries.
    pub open spec fn wf(&self) -> bool {
        distinct(rows(self.entries@))
    }
}

impl<V: View> View for Table<V> {
    type V = Map<Seq<char>, V::V>;

    /// The value of each name.
    open spec fn view(&self) -> Map<Seq<char>, V::V> {
        rows_map(rows(self.entries@))
    }
}

/// Of a table without repeated names, every row is what the map says.
pub proof fn lemma_rows_map<T>(s: Seq<(Seq<char>, T)>)
    ensures
        forall|k: Seq<char>|
            rows_map(s).dom().contains(k) <==> exists|i: int| 0 <= i < s.len() && #[trigger] s[i].0 == k,
        distinct(s) ==> forall|i: int|
            0 <= i < s.len() ==> rows_map(s)[(#[trigger] s[i]).0] == s[i].1,
    decreases s.len(),
{
    if s.len() > 0 {
        let d = s.drop_last();
        lemma_rows_map(d);
        assert forall|k: Seq<char>|
            rows_map(s).dom().contains(k) <==> exists|i: int|
                0 <= i < s.len() && #[trigger] s[i].0 == k by {
            if rows_map(d).dom().contains(k) {
                let i = choose|i: int| 0 <= i < d.len() && #[trigger] d[i].0 == k;
                assert(s[i].0 == k);
            }
            if k == s.last().0 {
                assert(s[s.len() - 1].0 == k);
            }
            if exists|i: int| 0 <= i < s.len() && #[trigger] s[i].0 == k {
                let i = choose|i: int| 0 <= i < s.len() && #[trigger] s[i].0 == k;
                if i < s.len() - 1 {
                    assert(d[i].0 == k);
                }
            }
        }
        if distinct(s) {
            assert forall|i: int, j: int| 0 <= i < j < d.len() implies (#[trigger] d[i]).0 != (
            #[trigger] d[j]).0 by {
                assert(s[i].0 != s[j].0);
            }
            assert forall|i: int| 0 <= i < s.len() implies rows_map(s)[(#[trigger] s[i]).0] == s[i].1 by {
                if i < s.len() - 1 {
                    assert(d[i] == s[i]);
                    assert(s[i].0 != s[s.len() - 1].0);
                }
            }
        }
    }
}

proof fn lemma_rows_update<T>(s: Seq<(Seq<char>, T)>, at: int, v: T)
    requires
        distinct(s),
        0 <= at < s.len(),
    ensures
        distinct(s.update(at, (s[at].0, v))),
        rows_map(s.update(at, (s[at].0, v))) == rows_map(s).insert(s[at].0, v),
{
    let key = s[at].0;
    let t = s.update(at, (key, v));
    assert forall|i: int, j: int| 0 <= i < j < t.len() implies (#[trigger] t[i]).0 != (
    #[trigger] t[j]).0 by {
        assert(t[i].0 == s[i].0 && t[j].0 == s[j].0);
    }
    lemma_rows_map(s);
    lemma_rows_map(t);
    let m = rows_map(s).insert(key, v);
    assert forall|k: Seq<char>| rows_map(t).dom().contains(k) == m.dom().contains(k) by {
        if rows_map(t).dom().contains(k) {
            let i = choose|i: int| 0 <= i < t.len() && #[trigger] t[i].0 == k;
            assert(s[i].0 == k);
        }
        if m.dom().contains(k) {
            if k == key {
                assert(t[at].0 == k);
            } else {
                let i = choose|i: int| 0 <= i < s.len() && #[trigger] s[i].0 == k;
                assert(t[i].0 == k);
            }
        }
    }
    assert forall|k: Seq<char>| rows_map(t).dom().contains(k) implies #[trigger] rows_map(t)[k] == m[k] by {
        let i = choose|i: int| 0 <= i < t.len() && #[trigger] t[i].0 == k;
        assert(t[i].0 == s[i].0);
        if i != at {
            assert(t[i] == s[i]);
            if k == key {
                if i < at {
                    assert(s[i].0 != s[at].0);
                } else {
                    assert(s[at].0 != s[i].0);
                }
            }
        }
    }
    assert(rows_map(t) =~= m);
}

impl<V: View> Table<V> {
    /// An empty table.
    pub fn new() -> (r: Table<V>)
        ensures
            r.wf(),
            r@ == Map::<Seq<char>, V::V>::empty(),
    {
        let r: Table<V> = Table { entries: Vec::new() };
        assert(rows(r.entries@) =~= seq![]);
        r
    }

    /// The position of the entry for `key`.
    fn index_of(&self, key: &str) -> (r: Option<usize>)
        ensures
            match r {
                Some(i) => i < self.entries@.len() && self.entries@[i as int].0@ == key@,
                None => !self@.dom().contains(key@),
            },
    {
        let ghost all = rows(self.entries@);
        let mut i: usize = 0;
        while i < self.entries.len()
            invariant
                i <= self.entries.len(),
                all == rows(self.entries@),
                forall|j: int| 0 <= j < i ==> #[trigger] all[j].0 != key@,
            decreases self.entries.len() - i,
        {
            if same_text(self.entries[i].0.as_str(), key) {
                return Some(i);
            }
            i = i + 1;
        }
        proof {
            lemma_rows_map(all);
        }
        None
    }

    /// Whether there is a value for `key`.
    pub fn contains_key(&self, key: &str) -> (r: bool)
        ensures
            r == self@.dom().contains(key@),
    {
        match self.index_of(key) {
            Some(i) => {
                proof {
                    lemma_rows_map(rows(self.entries@));
                    assert(rows(self.entries@)[i as int].0 == key@);
                }
                true
            },
            None => false,
        }
    }

    /// The value of `key`.
    pub fn get(&self, key: &str) -> (r: Option<&V>)
        requires
            self.wf(),
        ensures
            match r {
                Some(v) => self@.dom().contains(key@) && self@[key@] == v@,
                None => !self@.dom().contains(key@),
            },
    {
        match self.index_of(key) {
            Some(i) => {
                proof {
                    lemma_rows_map(rows(self.entries@));
                    assert(rows(self.entries@)[i as int].0 == key@);
                }
                Some(&self.entries[i].1)
            },
            None => None,
        }
    }

    /// Set the value of `key`, in place of an earlier one.
    pub fn insert(&mut self, key: &str, value: V)
        requires
            old(self).wf(),
        ensures
            final(self).wf(),
            final(self)@ == old(self)@.insert(key@, value@),
    {
        let ghost before = rows(self.entries@);
        match self.index_of(key) {
            Some(i) => {
                self.entries.set(i, (key.to_owned(), value));
                proof {
                    assert(before[i as int].0 == key@);
                    assert(rows(self.entries@) =~= before.update(i as int, (key@, value@)));
                    lemma_rows_update(before, i as int, value@);
                }
            },
            None => {
                self.entries.push((key.to_owned(), value));
                proof {
                    let after = rows(self.entries@);
                    assert(after =~= before.push((key@, value@)));
                    assert(after.drop_last() =~= before);
                    lemma_rows_map(before);
                    assert(distinct(after)) by {
                        assert forall|i: int, j: int| 0 <= i < j < after.len() implies (
                        #[trigger] after[i]).0 != (#[trigger] after[j]).0 by {
                            assert(before[i].0 == after[i].0);
                            if j < before.len() {
                                assert(before[j].0 == after[j].0);
                            }
                        }
                    }
                }
            },
        }
    }
}

/// A table without repeated names is the map of its rows.
pub proof fn lemma_entry<V: View>(t: Table<V>, i: int)
    requires
        t.wf(),
        0 <= i < t.entries@.len(),
    ensures
        t@.dom().contains(t.entries@[i].0@),
        t@[t.entries@[i].0@] == t.entries@[i].1@,
{
    lemma_rows_map(rows(t.entries@));
    assert(rows(t.entries@)[i].0 == t.entries@[i].0@);
}

/// Every name of a table stands in some entry.
pub proof fn lemma_some_entry<V: View>(t: Table<V>, key: Seq<char>) -> (i: int)
    requires
        t@.dom().contains(key),
    ensures
        0 <= i < t.entries@.len(),
        t.entries@[i].0@ == key,
{
    let s = rows(t.entries@);
    lemma_rows_map(s);
    let i = choose|i: int| 0 <= i < s.len() && #[trigger] s[i].0 == key;
    i
}

} // verus!
