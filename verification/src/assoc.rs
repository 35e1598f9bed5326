//! A small verified map from string keys to values, kept as an
//! association vector with unique keys.  Lookups are linear; the maps in
//! this crate hold a handful of watched paths, sources and windows, so
//! ordering (insertion order) and simplicity matter more than speed.

use vstd::prelude::*;
use vstd::string::StringExecFns;
use crate::text::str_eq;

verus! {

/// First value bound to `k`, if any.
pub open spec fn spec_get<V>(s: Seq<(Seq<char>, V)>, k: Seq<char>) -> Option<V>
    decreases s.len(),
{
    if s.len() == 0 {
        None
    } else if s[0].0 == k {
        Some(s[0].1)
    } else {
        spec_get(s.drop_first(), k)
    }
}

/// Index of the first entry bound to `k`, or -1.
pub open spec fn key_idx<V>(s: Seq<(Seq<char>, V)>, k: Seq<char>) -> int
    decreases s.len(),
{
    if s.len() == 0 {
        -1
    } else if s[0].0 == k {
        0
    } else if key_idx(s.drop_first(), k) == -1 {
        -1
    } else {
        1 + key_idx(s.drop_first(), k)
    }
}

/// All keys distinct.
pub open spec fn unique_keys<V>(s: Seq<(Seq<char>, V)>) -> bool {
    forall|i: int, j: int| 0 <= i < j < s.len() ==> s[i].0 != s[j].0
}

pub proof fn lemma_key_idx<V>(s: Seq<(Seq<char>, V)>, k: Seq<char>)
    ensures
        spec_get(s, k) is Some <==> 0 <= key_idx(s, k) < s.len(),
        spec_get(s, k) is Some ==> s[key_idx(s, k)].0 == k && spec_get(s, k) == Some(
            s[key_idx(s, k)].1,
        ),
        spec_get(s, k) is None <==> key_idx(s, k) == -1,
        spec_get(s, k) is None ==> forall|i: int| 0 <= i < s.len() ==> s[i].0 != k,
        forall|i: int| 0 <= i < key_idx(s, k) ==> s[i].0 != k,
    decreases s.len(),
{
    if s.len() > 0 && s[0].0 != k {
        lemma_key_idx(s.drop_first(), k);
        if spec_get(s, k) is None {
            assert forall|i: int| 0 <= i < s.len() implies s[i].0 != k by {
                if i > 0 {
                    assert(s.drop_first()[i - 1] == s[i]);
                }
            }
        }
        assert forall|i: int| 0 <= i < key_idx(s, k) implies s[i].0 != k by {
            if i > 0 {
                assert(s.drop_first()[i - 1] == s[i]);
            }
        }
    }
}

/// A map from string keys to values of type `V`, insertion-ordered.
pub struct Assoc<V> {
    items: Vec<(String, V)>,
}

impl<V> Assoc<V> {
    /// The entries, as pairs of key view and value.
    pub closed spec fn entries(&self) -> Seq<(Seq<char>, V)> {
        self.items@.map_values(|p: (String, V)| (p.0@, p.1))
    }

    /// Well-formed: all keys distinct.
    pub open spec fn wf(&self) -> bool {
        unique_keys(self.entries())
    }

    /// The value bound to `k`, if any.
    pub open spec fn spec_index(&self, k: Seq<char>) -> Option<V> {
        spec_get(self.entries(), k)
    }

    /// Creates an empty map.
    pub fn new() -> (r: Self)
        ensures
            r.wf(),
            r.entries() == Seq::<(Seq<char>, V)>::empty(),
    {
        let r = Assoc { items: Vec::new() };
        proof {
            assert(r.entries() =~= Seq::<(Seq<char>, V)>::empty());
        }
        r
    }

    /// The number of entries.
    pub fn len(&self) -> (r: usize)
        ensures
            r == self.entries().len(),
    {
        self.items.len()
    }

    /// The key of the entry at position `i`.
    pub fn key_at(&self, i: usize) -> (r: &String)
        requires
            i < self.entries().len(),
        ensures
            r@ == self.entries()[i as int].0,
    {
        &self.items[i].0
    }

    /// The value of the entry at position `i`.
    pub fn val_at(&self, i: usize) -> (r: &V)
        requires
            i < self.entries().len(),
        ensures
            *r == self.entries()[i as int].1,
    {
        &self.items[i].1
    }

    /// Looks a key up.
    pub fn get(&self, k: &str) -> (r: Option<&V>)
        ensures
            match r {
                Some(v) => self.spec_index(k@) == Some(*v),
                None => self.spec_index(k@) is None,
            },
    {
        let n = self.items.len();
        let mut i: usize = 0;
        while i < n
            invariant
                0 <= i <= n,
                n == self.entries().len(),
                forall|j: int| 0 <= j < i ==> self.entries()[j].0 != k@,
            decreases n - i,
        {
            if str_eq(self.items[i].0.as_str(), k) {
                proof {
                    lemma_key_idx(self.entries(), k@);
                    lemma_get_at(self.entries(), k@, i as int);
                }
                return Some(&self.items[i].1);
            }
            i = i + 1;
        }
        proof {
            lemma_get_none(self.entries(), k@);
        }
        None
    }

    /// Whether a key is present.
    pub fn contains(&self, k: &str) -> (r: bool)
        ensures
            r == (self.spec_index(k@) is Some),
    {
        match self.get(k) {
            Some(_) => true,
            None => false,
        }
    }

    /// Binds a fresh key; the entry goes to the end.
    pub fn insert(&mut self, k: String, v: V)
        requires
            old(self).wf(),
            old(self).spec_index(k@) is None,
        ensures
            final(self).wf(),
            final(self).entries() == old(self).entries().push((k@, v)),
    {
        proof {
            lemma_key_idx(old(self).entries(), k@);
        }
        let ghost pre = self.entries();
        self.items.push((k, v));
        proof {
            assert(self.entries() =~= pre.push((k@, v)));
        }
    }

    /// Rebinds an existing key in place.
    pub fn update_value(&mut self, k: &str, v: V)
        requires
            old(self).wf(),
            old(self).spec_index(k@) is Some,
        ensures
            final(self).wf(),
            final(self).entries() == old(self).entries().update(
                key_idx(old(self).entries(), k@),
                (k@, v),
            ),
    {
        proof {
            lemma_key_idx(old(self).entries(), k@);
        }
        let ghost pre = self.entries();
        let n = self.items.len();
        let mut i: usize = 0;
        while i < n
            invariant
                0 <= i <= n,
                n == self.entries().len(),
                self.entries() == pre,
                pre == old(self).entries(),
                unique_keys(pre),
                forall|j: int| 0 <= j < i ==> self.entries()[j].0 != k@,
            decreases n - i,
        {
            if str_eq(self.items[i].0.as_str(), k) {
                proof {
                    lemma_key_idx_pin(pre, k@, i as int);
                }
                let ks = String::from_str(k);
                self.items.set(i, (ks, v));
                proof {
                    assert(self.entries() =~= pre.update(i as int, (k@, v)));
                    assert(forall|j: int|
                        0 <= j < pre.len() ==> self.entries()[j].0 == pre[j].0);
                }
                return;
            }
            i = i + 1;
        }
        proof {
            lemma_get_none(pre, k@);
            assert(false);
        }
    }

    /// Binds a key, replacing an existing binding in place or appending
    /// a fresh one.
    pub fn upsert(&mut self, k: &str, v: V)
        requires
            old(self).wf(),
        ensures
            final(self).wf(),
            final(self).entries() == spec_upsert(old(self).entries(), k@, v),
    {
        if self.contains(k) {
            self.update_value(k, v);
        } else {
            let ks = String::from_str(k);
            self.insert(ks, v);
        }
    }

    /// Removes a key, returning its value.
    pub fn remove(&mut self, k: &str) -> (r: Option<V>)
        requires
            old(self).wf(),
        ensures
            final(self).wf(),
            match r {
                Some(v) => {
                    &&& old(self).spec_index(k@) == Some(v)
                    &&& final(self).entries() == old(self).entries().remove(
                        key_idx(old(self).entries(), k@),
                    )
                },
                None => {
                    &&& old(self).spec_index(k@) is None
                    &&& final(self).entries() == old(self).entries()
                },
            },
            forall|k2: Seq<char>|
                k2 != k@ ==> #[trigger] final(self).spec_index(k2) == old(self).spec_index(k2),
    {
        proof {
            lemma_key_idx(old(self).entries(), k@);
        }
        let ghost pre = self.entries();
        let n = self.items.len();
        let mut i: usize = 0;
        while i < n
            invariant
                0 <= i <= n,
                n == self.entries().len(),
                self.entries() == pre,
                pre == old(self).entries(),
                unique_keys(pre),
                forall|j: int| 0 <= j < i ==> self.entries()[j].0 != k@,
            decreases n - i,
        {
            if str_eq(self.items[i].0.as_str(), k) {
                proof {
                    lemma_key_idx_pin(pre, k@, i as int);
                }
                let (_, v) = self.items.remove(i);
                proof {
                    assert(self.entries() =~= pre.remove(i as int));
                    assert forall|a: int, b: int|
                        0 <= a < b < self.entries().len() implies self.entries()[a].0
                        != self.entries()[b].0 by {
                        let pa = if a < i { a } else { a + 1 };
                        let pb = if b < i { b } else { b + 1 };
                        assert(pre[pa].0 != pre[pb].0);
                    }
                    lemma_get_at(pre, k@, i as int);
                    lemma_remove_others(pre, k@, i as int);
                }
                return Some(v);
            }
            i = i + 1;
        }
        proof {
            lemma_get_none(pre, k@);
        }
        None
    }

    /// Removes every entry.
    pub fn clear(&mut self)
        ensures
            final(self).wf(),
            final(self).entries() == Seq::<(Seq<char>, V)>::empty(),
    {
        self.items = Vec::new();
        proof {
            assert(self.entries() =~= Seq::<(Seq<char>, V)>::empty());
        }
    }
}

/// The entries after binding `k` to `v`: an update in place when `k` is
/// present, a push otherwise.
pub open spec fn spec_upsert<V>(s: Seq<(Seq<char>, V)>, k: Seq<char>, v: V) -> Seq<
    (Seq<char>, V),
> {
    if spec_get(s, k) is Some {
        s.update(key_idx(s, k), (k, v))
    } else {
        s.push((k, v))
    }
}

/// If position `i` holds key `k` and nothing before it does, the lookup
/// lands on `i`.
pub proof fn lemma_key_idx_pin<V>(s: Seq<(Seq<char>, V)>, k: Seq<char>, i: int)
    requires
        0 <= i < s.len(),
        s[i].0 == k,
        forall|j: int| 0 <= j < i ==> s[j].0 != k,
    ensures
        key_idx(s, k) == i,
        spec_get(s, k) == Some(s[i].1),
    decreases i,
{
    if i > 0 {
        lemma_key_idx_pin(s.drop_first(), k, i - 1);
    }
}

/// A hit at `i` with a clean prefix determines the lookup result.
pub proof fn lemma_get_at<V>(s: Seq<(Seq<char>, V)>, k: Seq<char>, i: int)
    requires
        0 <= i < s.len(),
        s[i].0 == k,
        forall|j: int| 0 <= j < i ==> s[j].0 != k,
    ensures
        spec_get(s, k) == Some(s[i].1),
        key_idx(s, k) == i,
{
    lemma_key_idx_pin(s, k, i);
}

/// No entry holds `k`: the lookup misses.
pub proof fn lemma_get_none<V>(s: Seq<(Seq<char>, V)>, k: Seq<char>)
    requires
        forall|j: int| 0 <= j < s.len() ==> s[j].0 != k,
    ensures
        spec_get(s, k) is None,
    decreases s.len(),
{
    if s.len() > 0 {
        lemma_get_none(s.drop_first(), k);
    }
}

/// Mapping the values of an association list commutes with lookup.
pub proof fn lemma_map_get<V, W>(s: Seq<(Seq<char>, V)>, f: spec_fn(V) -> W, k: Seq<char>)
    ensures
        spec_get(s.map_values(|p: (Seq<char>, V)| (p.0, f(p.1))), k) == (match spec_get(s, k) {
            Some(v) => Some(f(v)),
            None => None,
        }),
        key_idx(s.map_values(|p: (Seq<char>, V)| (p.0, f(p.1))), k) == key_idx(s, k),
    decreases s.len(),
{
    let t = s.map_values(|p: (Seq<char>, V)| (p.0, f(p.1)));
    if s.len() > 0 {
        lemma_map_get(s.drop_first(), f, k);
        assert(t.drop_first() =~= s.drop_first().map_values(
            |p: (Seq<char>, V)| (p.0, f(p.1)),
        ));
        assert(t[0].0 == s[0].0);
    }
}

/// Mapping the values of an association list commutes with upsert.
pub proof fn lemma_map_upsert<V, W>(s: Seq<(Seq<char>, V)>, f: spec_fn(V) -> W, k: Seq<char>, v: V)
    ensures
        spec_upsert(s, k, v).map_values(|p: (Seq<char>, V)| (p.0, f(p.1))) == spec_upsert(
            s.map_values(|p: (Seq<char>, V)| (p.0, f(p.1))),
            k,
            f(v),
        ),
{
    lemma_map_get(s, f, k);
    lemma_key_idx(s, k);
    let g = |p: (Seq<char>, V)| (p.0, f(p.1));
    let ms = s.map_values(g);
    if spec_get(s, k) is Some {
        let i = key_idx(s, k);
        let a = spec_upsert(s, k, v).map_values(g);
        let b = spec_upsert(ms, k, f(v));
        assert(a.len() == b.len());
        assert forall|j: int| 0 <= j < a.len() implies a[j] == b[j] by {
            if j == i {
                assert(spec_upsert(s, k, v)[j] == (k, v));
            } else {
                assert(spec_upsert(s, k, v)[j] == s[j]);
            }
        }
        assert(a =~= b);
    } else {
        assert(spec_upsert(s, k, v).map_values(g) =~= spec_upsert(ms, k, f(v)));
    }
}

/// After removing `k`'s entry, `k` has no binding left.
pub proof fn lemma_remove_key_gone<V>(s: Seq<(Seq<char>, V)>, k: Seq<char>)
    requires
        unique_keys(s),
        spec_get(s, k) is Some,
    ensures
        spec_get(s.remove(key_idx(s, k)), k) is None,
{
    lemma_key_idx(s, k);
    let i = key_idx(s, k);
    let t = s.remove(i);
    assert forall|a: int| 0 <= a < t.len() implies t[a].0 != k by {
        let pa = if a < i {
            a
        } else {
            a + 1
        };
        assert(s[pa].0 == t[a].0);
        if pa != i {
            assert(s[pa].0 != s[i].0);
        }
    }
    lemma_get_none(t, k);
}

/// Removing the entry of `k` leaves every other key's binding unchanged.
pub proof fn lemma_remove_others<V>(s: Seq<(Seq<char>, V)>, k: Seq<char>, i: int)
    requires
        unique_keys(s),
        0 <= i < s.len(),
        s[i].0 == k,
    ensures
        forall|k2: Seq<char>|
            k2 != k ==> #[trigger] spec_get(s.remove(i), k2) == spec_get(s, k2),
{
    assert forall|k2: Seq<char>| k2 != k implies #[trigger] spec_get(s.remove(i), k2) == spec_get(
        s,
        k2,
    ) by {
        lemma_key_idx(s, k2);
        lemma_key_idx(s.remove(i), k2);
        let t = s.remove(i);
        if spec_get(s, k2) is Some {
            let j = key_idx(s, k2);
            assert(s[j].0 == k2);
            let tj = if j < i { j } else { j - 1 };
            assert(t[tj].0 == k2);
            assert forall|a: int| 0 <= a < tj implies t[a].0 != k2 by {
                let pa = if a < i { a } else { a + 1 };
                assert(s[pa].0 == t[a].0);
            }
            lemma_key_idx_pin(t, k2, tj);
            assert(t[tj].1 == s[j].1);
        } else {
            assert forall|a: int| 0 <= a < t.len() implies t[a].0 != k2 by {
                let pa = if a < i { a } else { a + 1 };
                assert(s[pa].0 == t[a].0);
            }
            lemma_get_none(t, k2);
        }
    }
}

} // verus!
