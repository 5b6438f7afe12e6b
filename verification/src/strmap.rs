//! A map from string keys to values that keeps its entries in insertion order.
//!
//! The view is the sequence of `(key, value)` entries; no key occurs twice in it.
use vstd::prelude::*;
use crate::text::str_equal;

verus! {

/// No key occurs twice among the entries.
pub open spec fn keys_unique<V>(s: Seq<(Seq<char>, V)>) -> bool {
    forall|i: int, j: int|
        0 <= i < s.len() && 0 <= j < s.len() && i != j ==> #[trigger] s[i].0 != #[trigger] s[j].0
}

/// Whether some entry has the key `k`.
pub open spec fn has_key<V>(s: Seq<(Seq<char>, V)>, k: Seq<char>) -> bool {
    exists|i: int| 0 <= i < s.len() && #[trigger] s[i].0 == k
}

/// The position of the entry with key `k` (meaningful when `has_key(s, k)`).
pub open spec fn key_index<V>(s: Seq<(Seq<char>, V)>, k: Seq<char>) -> int {
    choose|i: int| 0 <= i < s.len() && #[trigger] s[i].0 == k
}

/// The value stored under `k`, if any.
pub open spec fn lookup<V>(s: Seq<(Seq<char>, V)>, k: Seq<char>) -> Option<V> {
    if has_key(s, k) {
        Some(s[key_index(s, k)].1)
    } else {
        None
    }
}

/// Stores `v` under `k`: an existing entry keeps its place, a new one goes at the end.
pub open spec fn insert_entry<V>(s: Seq<(Seq<char>, V)>, k: Seq<char>, v: V) -> Seq<(Seq<char>, V)> {
    if has_key(s, k) {
        s.update(key_index(s, k), (k, v))
    } else {
        s.push((k, v))
    }
}

/// Drops the entry with key `k`, if any; the other entries keep their order.
pub open spec fn remove_entry<V>(s: Seq<(Seq<char>, V)>, k: Seq<char>) -> Seq<(Seq<char>, V)> {
    if has_key(s, k) {
        s.remove(key_index(s, k))
    } else {
        s
    }
}

/// The entries whose flag in `keep` is set, in their order.
pub open spec fn select<V>(s: Seq<(Seq<char>, V)>, keep: Seq<bool>) -> Seq<(Seq<char>, V)>
    decreases s.len(),
{
    if s.len() == 0 {
        Seq::empty()
    } else if keep[s.len() - 1] {
        select(s.drop_last(), keep).push(s.last())
    } else {
        select(s.drop_last(), keep)
    }
}

/// In a map without repeated keys, the entry at position `i` is the one found under its key.
pub proof fn lemma_entry_at<V>(s: Seq<(Seq<char>, V)>, i: int)
    requires
        keys_unique(s),
        0 <= i < s.len(),
    ensures
        has_key(s, s[i].0),
        key_index(s, s[i].0) == i,
        lookup(s, s[i].0) == Some(s[i].1),
{
    assert(has_key(s, s[i].0));
}

/// Every entry that `select` keeps comes from the original entries.
proof fn lemma_select_from<V>(s: Seq<(Seq<char>, V)>, keep: Seq<bool>, j: int)
    requires
        0 <= j < select(s, keep).len(),
    ensures
        exists|i: int| 0 <= i < s.len() && keep[i] && s[i] == #[trigger] select(s, keep)[j],
    decreases s.len(),
{
    let r = select(s, keep);
    let prev = select(s.drop_last(), keep);
    if keep[s.len() - 1] && j == prev.len() {
        assert(s[s.len() - 1] == r[j]);
    } else {
        lemma_select_from(s.drop_last(), keep, j);
        let i = choose|i: int| 0 <= i < s.drop_last().len() && keep[i] && s.drop_last()[i] == prev[j];
        assert(s[i] == r[j]);
    }
}

/// `select` keeps the keys unique.
proof fn lemma_select_unique<V>(s: Seq<(Seq<char>, V)>, keep: Seq<bool>)
    requires
        keys_unique(s),
    ensures
        keys_unique(select(s, keep)),
    decreases s.len(),
{
    if s.len() > 0 {
        let prev = select(s.drop_last(), keep);
        lemma_select_unique(s.drop_last(), keep);
        if keep[s.len() - 1] {
            let r = select(s, keep);
            assert forall|a: int, b: int|
                0 <= a < r.len() && 0 <= b < r.len() && a != b implies #[trigger] r[a].0
                != #[trigger] r[b].0 by {
                if a == prev.len() || b == prev.len() {
                    let other = if a == prev.len() { b } else { a };
                    lemma_select_from(s.drop_last(), keep, other);
                    let i = choose|i: int|
                        0 <= i < s.drop_last().len() && keep[i] && s.drop_last()[i] == #[trigger] prev[other];
                    assert(s[i] == r[other]);
                    assert(s[s.len() - 1] == r[prev.len() as int]);
                }
            }
        }
    }
}

/// The value found under a key after `select` is the original one, when its flag is set.
pub proof fn lemma_select_lookup<V>(s: Seq<(Seq<char>, V)>, keep: Seq<bool>, k: Seq<char>)
    requires
        keys_unique(s),
        keep.len() == s.len(),
    ensures
        lookup(select(s, keep), k) == (if has_key(s, k) && keep[key_index(s, k)] {
            lookup(s, k)
        } else {
            None::<V>
        }),
    decreases s.len(),
{
    lemma_select_unique(s, keep);
    if s.len() > 0 {
        let d = s.drop_last();
        let prev = select(d, keep);
        let r = select(s, keep);
        lemma_select_lookup(d, keep.drop_last(), k);
        assert(select(d, keep.drop_last()) == select(d, keep)) by {
            lemma_select_prefix_flags(d, keep.drop_last(), keep);
        }
        lemma_select_unique(d, keep);
        let last = s.len() - 1;
        if s[last].0 == k {
            lemma_entry_at(s, last);
            if !has_key(d, k) {
            } else {
                let i = key_index(d, k);
                assert(s[i].0 == s[last].0);
            }
            if keep[last] {
                lemma_entry_at(r, prev.len() as int);
            } else {
                if has_key(r, k) {
                    let j = key_index(r, k);
                    lemma_select_from(d, keep, j);
                    let i = choose|i: int| 0 <= i < d.len() && keep[i] && d[i] == #[trigger] prev[j];
                    assert(s[i].0 == s[last].0);
                }
            }
        } else {
            if has_key(s, k) {
                let i = key_index(s, k);
                assert(d[i].0 == k);
                lemma_entry_at(s, i);
                lemma_entry_at(d, i);
            } else {
                assert(!has_key(d, k)) by {
                    if has_key(d, k) {
                        let i = key_index(d, k);
                        assert(s[i].0 == k);
                    }
                }
            }
            if has_key(r, k) {
                let j = key_index(r, k);
                if keep[last] {
                    assert(j < prev.len());
                    assert(prev[j] == r[j]);
                }
                assert(has_key(prev, k));
                lemma_entry_at(prev, key_index(prev, k));
                lemma_entry_at(r, j);
            } else if has_key(prev, k) {
                let j = key_index(prev, k);
                assert(r[j] == prev[j]);
            }
        }
    }
}

/// `select` reads only the flags of the positions it visits.
proof fn lemma_select_prefix_flags<V>(s: Seq<(Seq<char>, V)>, a: Seq<bool>, b: Seq<bool>)
    requires
        a.len() >= s.len(),
        b.len() >= s.len(),
        forall|i: int| 0 <= i < s.len() ==> a[i] == b[i],
    ensures
        select(s, a) == select(s, b),
    decreases s.len(),
{
    if s.len() > 0 {
        lemma_select_prefix_flags(s.drop_last(), a, b);
    }
}

/// Keeping every entry keeps the map as it is.
pub proof fn lemma_select_all<V>(s: Seq<(Seq<char>, V)>, keep: Seq<bool>)
    requires
        keep.len() >= s.len(),
        forall|i: int| 0 <= i < s.len() ==> keep[i],
    ensures
        select(s, keep) == s,
    decreases s.len(),
{
    if s.len() > 0 {
        lemma_select_all(s.drop_last(), keep);
        assert(s.drop_last().push(s.last()) =~= s);
    }
}

/// Storing keeps the keys unique; afterwards `k` gives back `v`, and every other key gives
/// what it gave before.
pub proof fn lemma_insert_lookup<V>(s: Seq<(Seq<char>, V)>, k: Seq<char>, v: V, other: Seq<char>)
    requires
        keys_unique(s),
    ensures
        keys_unique(insert_entry(s, k, v)),
        lookup(insert_entry(s, k, v), k) == Some(v),
        other != k ==> lookup(insert_entry(s, k, v), other) == lookup(s, other),
{
    let r = insert_entry(s, k, v);
    if has_key(s, k) {
        let i = key_index(s, k);
        assert forall|a: int, b: int|
            0 <= a < r.len() && 0 <= b < r.len() && a != b implies #[trigger] r[a].0
            != #[trigger] r[b].0 by {
            if a != i && b != i {
                assert(r[a] == s[a] && r[b] == s[b]);
            }
        }
        lemma_entry_at(r, i);
    } else {
        assert forall|a: int, b: int|
            0 <= a < r.len() && 0 <= b < r.len() && a != b implies #[trigger] r[a].0
            != #[trigger] r[b].0 by {
            if a < s.len() && b < s.len() {
                assert(r[a] == s[a] && r[b] == s[b]);
            } else if a < s.len() {
                assert(r[a] == s[a]);
            } else {
                assert(r[b] == s[b]);
            }
        }
        lemma_entry_at(r, s.len() as int);
    }
    if other != k {
        if has_key(s, other) {
            let j = key_index(s, other);
            assert(r[j] == s[j]);
            lemma_entry_at(r, j);
        } else if has_key(r, other) {
            let j = key_index(r, other);
            assert(j < s.len() && r[j] == s[j]);
        }
    }
}

/// Removing keeps the keys unique; afterwards `k` gives nothing, and every other key gives
/// what it gave before.
pub proof fn lemma_remove_lookup<V>(s: Seq<(Seq<char>, V)>, k: Seq<char>, other: Seq<char>)
    requires
        keys_unique(s),
    ensures
        keys_unique(remove_entry(s, k)),
        lookup(remove_entry(s, k), k) is None,
        other != k ==> lookup(remove_entry(s, k), other) == lookup(s, other),
{
    let r = remove_entry(s, k);
    if has_key(s, k) {
        let i = key_index(s, k);
        assert forall|a: int, b: int|
            0 <= a < r.len() && 0 <= b < r.len() && a != b implies #[trigger] r[a].0
            != #[trigger] r[b].0 by {
            let sa = if a < i { a } else { a + 1 };
            let sb = if b < i { b } else { b + 1 };
            assert(r[a] == s[sa] && r[b] == s[sb]);
        }
        if has_key(r, k) {
            let j = key_index(r, k);
            let sj = if j < i { j } else { j + 1 };
            assert(r[j] == s[sj]);
        }
        if other != k {
            if has_key(s, other) {
                let j = key_index(s, other);
                let rj = if j < i { j } else { j - 1 };
                assert(r[rj] == s[j]);
                lemma_entry_at(r, rj);
            } else if has_key(r, other) {
                let j = key_index(r, other);
                let sj = if j < i { j } else { j + 1 };
                assert(r[j] == s[sj]);
            }
        }
    }
}

/// Removing a key right after storing it under that key leaves what removing it alone leaves.
pub proof fn lemma_remove_after_insert<V>(s: Seq<(Seq<char>, V)>, k: Seq<char>, v: V)
    requires
        keys_unique(s),
    ensures
        remove_entry(insert_entry(s, k, v), k) == remove_entry(s, k),
{
    let r = insert_entry(s, k, v);
    lemma_insert_lookup(s, k, v, k);
    if has_key(s, k) {
        let i = key_index(s, k);
        lemma_entry_at(r, i);
        assert(r.remove(i) =~= s.remove(i));
    } else {
        lemma_entry_at(r, s.len() as int);
        assert(r.remove(s.len() as int) =~= s);
    }
}

/// A map from string keys to values, in insertion order, with no key twice.
#[derive(Debug)]
pub struct StrMap<V> {
    entries: Vec<(String, V)>,
}

impl<V> StrMap<V> {
    #[verifier::type_invariant]
    spec fn distinct_keys(&self) -> bool {
        forall|i: int, j: int|
            0 <= i < self.entries@.len() && 0 <= j < self.entries@.len() && i != j
                ==> #[trigger] self.entries@[i].0@ != #[trigger] self.entries@[j].0@
    }
}

impl<V: View> View for StrMap<V> {
    type V = Seq<(Seq<char>, V::V)>;

    closed spec fn view(&self) -> Seq<(Seq<char>, V::V)> {
        self.entries@.map_values(|e: (String, V)| (e.0@, e.1@))
    }
}

impl<V: View> StrMap<V> {
    proof fn lemma_unique(&self)
        requires
            self.distinct_keys(),
        ensures
            keys_unique(self@),
    {
        assert forall|i: int, j: int|
            0 <= i < self@.len() && 0 <= j < self@.len() && i != j implies #[trigger] self@[i].0
            != #[trigger] self@[j].0 by {
            assert(self.entries@[i].0@ != self.entries@[j].0@);
        }
    }

    /// An empty map.
    pub fn new() -> (m: Self)
        ensures
            m@ == Seq::<(Seq<char>, V::V)>::empty(),
    {
        let m = StrMap { entries: Vec::new() };
        assert(m@ =~= Seq::<(Seq<char>, V::V)>::empty());
        m
    }

    /// The number of entries.
    pub fn len(&self) -> (n: usize)
        ensures
            n == self@.len(),
    {
        self.entries.len()
    }

    /// Whether the map has no entry.
    pub fn is_empty(&self) -> (r: bool)
        ensures
            r == (self@.len() == 0),
    {
        self.entries.len() == 0
    }

    /// The position of the entry with key `key`, if there is one.
    pub fn find(&self, key: &str) -> (r: Option<usize>)
        ensures
            keys_unique(self@),
            r is Some == has_key(self@, key@),
            r matches Some(i) ==> i < self@.len() && self@[i as int].0 == key@ && i == key_index(
                self@,
                key@,
            ),
    {
        proof {
            use_type_invariant(self);
            self.lemma_unique();
        }
        let mut i: usize = 0;
        while i < self.entries.len()
            invariant
                i <= self@.len(),
                self@.len() == self.entries@.len(),
                keys_unique(self@),
                forall|j: int| 0 <= j < i ==> self@[j].0 != key@,
            decreases self@.len() - i,
        {
            assert(self@[i as int].0 == self.entries@[i as int].0@);
            if str_equal(self.entries[i].0.as_str(), key) {
                proof {
                    lemma_entry_at(self@, i as int);
                }
                return Some(i);
            }
            i = i + 1;
        }
        None
    }

    /// The key of the entry at position `i`.
    pub fn key_at(&self, i: usize) -> (k: &String)
        requires
            i < self@.len(),
        ensures
            k@ == self@[i as int].0,
    {
        &self.entries[i].0
    }

    /// The value of the entry at position `i`.
    pub fn value_at(&self, i: usize) -> (v: &V)
        requires
            i < self@.len(),
        ensures
            v@ == self@[i as int].1,
    {
        &self.entries[i].1
    }

    /// The value stored under `key`, if any.
    pub fn get(&self, key: &str) -> (r: Option<&V>)
        ensures
            r is Some == has_key(self@, key@),
            r matches Some(v) ==> lookup(self@, key@) == Some(v@),
            r is None ==> lookup(self@, key@) is None,
    {
        match self.find(key) {
            Some(i) => Some(&self.entries[i].1),
            None => None,
        }
    }

    /// Whether some entry has the key `key`.
    pub fn contains_key(&self, key: &str) -> (r: bool)
        ensures
            r == has_key(self@, key@),
    {
        self.find(key).is_some()
    }

    /// Puts `value` in place of the value at position `i`, and hands back the old one.
    pub fn replace_value_at(&mut self, i: usize, value: V) -> (old_value: V)
        requires
            i < old(self)@.len(),
        ensures
            old_value@ == old(self)@[i as int].1,
            final(self)@ == old(self)@.update(i as int, (old(self)@[i as int].0, value@)),
    {
        proof {
            use_type_invariant(&*self);
        }
        let mut entries: Vec<(String, V)> = Vec::new();
        std::mem::swap(&mut entries, &mut self.entries);
        let ghost before = entries@;
        let (k, old_value) = entries.remove(i);
        entries.insert(i, (k, value));
        assert(entries@ =~= before.update(i as int, (before[i as int].0, value)));
        self.entries = entries;
        assert(self@ =~= old(self)@.update(i as int, (old(self)@[i as int].0, value@)));
        old_value
    }

    /// Stores `value` under `key`: an existing entry keeps its place, a new one goes at the end.
    pub fn insert(&mut self, key: String, value: V)
        ensures
            final(self)@ == insert_entry(old(self)@, key@, value@),
    {
        proof {
            use_type_invariant(&*self);
            self.lemma_unique();
        }
        match self.find(key.as_str()) {
            Some(i) => {
                let mut entries: Vec<(String, V)> = Vec::new();
                std::mem::swap(&mut entries, &mut self.entries);
                let ghost before = entries@;
                let _ = entries.remove(i);
                entries.insert(i, (key, value));
                assert(entries@ =~= before.update(i as int, (key, value)));
                self.entries = entries;
                assert(self@ =~= insert_entry(old(self)@, key@, value@));
            },
            None => {
                let mut entries: Vec<(String, V)> = Vec::new();
                std::mem::swap(&mut entries, &mut self.entries);
                let ghost before = entries@;
                entries.push((key, value));
                proof {
                    assert forall|j: int| 0 <= j < before.len() implies before[j].0@ != key@ by {
                        assert(old(self)@[j].0 == before[j].0@);
                    }
                }
                self.entries = entries;
                assert(self@ =~= insert_entry(old(self)@, key@, value@));
            },
        }
    }

    /// Drops the entry with key `key`, if any.
    pub fn remove(&mut self, key: &str)
        ensures
            final(self)@ == remove_entry(old(self)@, key@),
    {
        proof {
            use_type_invariant(&*self);
        }
        match self.find(key) {
            Some(i) => {
                let mut entries: Vec<(String, V)> = Vec::new();
                std::mem::swap(&mut entries, &mut self.entries);
                let ghost before = entries@;
                let _ = entries.remove(i);
                assert(entries@ =~= before.remove(i as int));
                self.entries = entries;
                assert(self@ =~= remove_entry(old(self)@, key@));
            },
            None => {},
        }
    }

    /// The entries whose flag in `keep` is set, in their order; the others are dropped.
    pub fn keep_flagged(self, keep: &Vec<bool>) -> (r: Self)
        requires
            keep@.len() == self@.len(),
        ensures
            r@ == select(self@, keep@),
    {
        proof {
            use_type_invariant(&self);
            self.lemma_unique();
            lemma_select_unique(self@, keep@);
        }
        let ghost whole = self@;
        let mut rest = self.entries;
        let mut out: Vec<(String, V)> = Vec::new();
        let n = rest.len();
        let mut i: usize = 0;
        assert(whole.take(0) =~= Seq::<(Seq<char>, V::V)>::empty());
        while i < n
            invariant
                n == whole.len(),
                keep@.len() == n,
                i <= n,
                rest@.len() == n - i,
                forall|j: int| 0 <= j < n - i ==> (#[trigger] rest@[j]).0@ == whole[i + j].0 && rest@[j].1@ == whole[i + j].1,
                out@.map_values(|e: (String, V)| (e.0@, e.1@)) == select(whole.take(i as int), keep@),
            decreases n - i,
        {
            let e = rest.remove(0);
            let ghost before = out@;
            assert(whole.take(i + 1).drop_last() =~= whole.take(i as int));
            if keep[i] {
                out.push(e);
                assert(out@.map_values(|e: (String, V)| (e.0@, e.1@)) =~= before.map_values(|e: (String, V)| (e.0@, e.1@)).push(whole[i as int]));
            }
            i = i + 1;
        }
        assert(whole.take(n as int) =~= whole);
        let ghost sel = select(whole, keep@);
        assert forall|a: int, b: int|
            0 <= a < out@.len() && 0 <= b < out@.len() && a != b implies #[trigger] out@[a].0@
            != #[trigger] out@[b].0@ by {
            assert(sel[a].0 == out@[a].0@);
            assert(sel[b].0 == out@[b].0@);
        }
        StrMap { entries: out }
    }
}

} // verus!
