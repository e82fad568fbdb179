//! A map from strings to values, kept sorted by key as the API
//! description's maps are: what it holds is a `Map` from the keys' text to
//! the values, and its entries come in the order of their keys.
use vstd::prelude::*;

use crate::text::chars_of;

verus! {

/// A value that can be copied into an equal one.
pub trait Duplicate: Sized {
    fn duplicate(&self) -> (r: Self)
        ensures
            r == *self,
    ;
}

impl Duplicate for String {
    fn duplicate(&self) -> (r: String) {
        self.clone()
    }
}

impl<T: Duplicate> Duplicate for Option<T> {
    fn duplicate(&self) -> (r: Option<T>) {
        match self {
            Some(x) => Some(x.duplicate()),
            None => None,
        }
    }
}

/// A copy of a vector, element by element.
pub fn duplicate_vec<T: Duplicate>(v: &Vec<T>) -> (r: Vec<T>)
    ensures
        r@ == v@,
{
    let mut r: Vec<T> = Vec::new();
    let mut i: usize = 0;
    while i < v.len()
        invariant
            i <= v@.len(),
            r@ == v@.take(i as int),
        decreases v@.len() - i,
    {
        r.push(v[i].duplicate());
        proof {
            assert(v@.take(i + 1) =~= v@.take(i as int).push(v@[i as int]));
        }
        i = i + 1;
    }
    assert(v@.take(v@.len() as int) =~= v@);
    r
}

/// Whether `a` comes before `b` in the order of `str`: character by
/// character by code point, a proper prefix first.
pub open spec fn key_lt(a: Seq<char>, b: Seq<char>) -> bool
    decreases a.len(),
{
    if a.len() == 0 {
        b.len() > 0
    } else if b.len() == 0 {
        false
    } else if a[0] != b[0] {
        a[0] < b[0]
    } else {
        key_lt(a.drop_first(), b.drop_first())
    }
}

/// Whether the keys are in strictly increasing order.
pub open spec fn sorted_keys(ks: Seq<Seq<char>>) -> bool {
    forall|i: int, j: int| 0 <= i < j < ks.len() ==> key_lt(#[trigger] ks[i], #[trigger] ks[j])
}

/// No key comes before itself.
pub proof fn lemma_key_lt_irreflexive(a: Seq<char>)
    ensures
        !key_lt(a, a),
    decreases a.len(),
{
    if a.len() > 0 {
        lemma_key_lt_irreflexive(a.drop_first());
    }
}

/// The order of keys is transitive.
pub proof fn lemma_key_lt_transitive(a: Seq<char>, b: Seq<char>, c: Seq<char>)
    requires
        key_lt(a, b),
        key_lt(b, c),
    ensures
        key_lt(a, c),
    decreases a.len(),
{
    if a.len() > 0 && b.len() > 0 && c.len() > 0 && a[0] == b[0] && b[0] == c[0] {
        lemma_key_lt_transitive(a.drop_first(), b.drop_first(), c.drop_first());
    }
}

/// Of two different keys, one comes before the other.
pub proof fn lemma_key_lt_total(a: Seq<char>, b: Seq<char>)
    requires
        a != b,
    ensures
        key_lt(a, b) || key_lt(b, a),
    decreases a.len(),
{
    if a.len() > 0 && b.len() > 0 && a[0] == b[0] {
        if a.drop_first() == b.drop_first() {
            assert(a =~= seq![a[0]] + a.drop_first());
            assert(b =~= seq![b[0]] + b.drop_first());
        }
        lemma_key_lt_total(a.drop_first(), b.drop_first());
    } else if a.len() == 0 && b.len() == 0 {
        assert(a =~= b);
    } else if a.len() > 0 && b.len() > 0 {

    }
}

proof fn lemma_sorted_distinct(ks: Seq<Seq<char>>)
    requires
        sorted_keys(ks),
    ensures
        ks.no_duplicates(),
{
    assert forall|i: int, j: int| 0 <= i < ks.len() && 0 <= j < ks.len() && i != j implies ks[i]
        != ks[j] by {
        lemma_key_lt_irreflexive(ks[i]);
        if i < j {
            assert(key_lt(ks[i], ks[j]));
        } else {
            assert(key_lt(ks[j], ks[i]));
        }
    }
}

proof fn lemma_sorted_remove(ks: Seq<Seq<char>>, p: int)
    requires
        sorted_keys(ks),
        0 <= p < ks.len(),
    ensures
        sorted_keys(ks.remove(p)),
{
    ks.remove_ensures(p);
    let r = ks.remove(p);
    assert forall|i: int, j: int| 0 <= i < j < r.len() implies key_lt(#[trigger] r[i], #[trigger] r[j]) by {
        let a = if i < p { i } else { i + 1 };
        let b = if j < p { j } else { j + 1 };
        assert(r[i] == ks[a] && r[j] == ks[b]);
        assert(key_lt(ks[a], ks[b]));
    }
}

proof fn lemma_sorted_insert(ks: Seq<Seq<char>>, p: int, k: Seq<char>)
    requires
        sorted_keys(ks),
        0 <= p <= ks.len(),
        forall|j: int| 0 <= j < p ==> key_lt(#[trigger] ks[j], k),
        forall|j: int| p <= j < ks.len() ==> key_lt(k, #[trigger] ks[j]),
    ensures
        sorted_keys(ks.insert(p, k)),
{
    ks.insert_ensures(p, k);
    let r = ks.insert(p, k);
    assert forall|i: int, j: int| 0 <= i < j < r.len() implies key_lt(#[trigger] r[i], #[trigger] r[j]) by {
        if j < p {
            assert(r[i] == ks[i] && r[j] == ks[j]);
        } else if j == p {
            assert(r[i] == ks[i]);
        } else if i < p {
            assert(r[i] == ks[i] && r[j] == ks[j - 1]);
            assert(key_lt(ks[i], k));
            assert(key_lt(k, ks[j - 1]));
            lemma_key_lt_transitive(ks[i], k, ks[j - 1]);
        } else if i == p {
            assert(r[j] == ks[j - 1]);
        } else {
            assert(r[i] == ks[i - 1] && r[j] == ks[j - 1]);
        }
    }
}

/// Whether `a` comes before `b` in the order of `str` (see `key_lt`).
pub fn key_less(a: &str, b: &str) -> (r: bool)
    ensures
        r == key_lt(a@, b@),
{
    let x = chars_of(a);
    let y = chars_of(b);
    let mut i: usize = 0;
    assert(x@.skip(0) =~= x@ && y@.skip(0) =~= y@);
    while i < x.len() && i < y.len()
        invariant
            i <= x@.len(),
            i <= y@.len(),
            key_lt(a@, b@) == key_lt(x@.skip(i as int), y@.skip(i as int)),
            x@ == a@,
            y@ == b@,
        decreases x@.len() - i,
    {
        assert(x@.skip(i as int)[0] == x@[i as int]);
        assert(y@.skip(i as int)[0] == y@[i as int]);
        if x[i] != y[i] {
            return x[i] < y[i];
        }
        assert(x@.skip(i as int).drop_first() =~= x@.skip(i + 1));
        assert(y@.skip(i as int).drop_first() =~= y@.skip(i + 1));
        i = i + 1;
    }
    i == x.len() && i < y.len()
}

/// A string-keyed map. Its entries are sorted by key, each key once.
pub struct StrMap<V> {
    entries: Vec<(String, V)>,
}

/// The keys of the entries, in order.
pub open spec fn entry_keys<V>(es: Seq<(String, V)>) -> Seq<Seq<char>> {
    es.map_values(|e: (String, V)| e.0@)
}

/// The map that inserting the entries one after the other gives: a later
/// entry wins over an earlier one with the same key.
pub open spec fn map_of<V>(es: Seq<(String, V)>) -> Map<Seq<char>, V>
    decreases es.len(),
{
    if es.len() == 0 {
        Map::empty()
    } else {
        map_of(es.drop_last()).insert(es.last().0@, es.last().1)
    }
}

/// The index of the last entry with key `k`.
pub open spec fn index_of<V>(es: Seq<(String, V)>, k: Seq<char>) -> Option<int>
    decreases es.len(),
{
    if es.len() == 0 {
        None
    } else if es.last().0@ == k {
        Some(es.len() - 1)
    } else {
        index_of(es.drop_last(), k)
    }
}

proof fn lemma_index_of<V>(es: Seq<(String, V)>, k: Seq<char>)
    ensures
        index_of(es, k) matches Some(i) ==> 0 <= i < es.len() && es[i].0@ == k,
        index_of(es, k) is None ==> forall|j: int| 0 <= j < es.len() ==> (#[trigger] es[j]).0@ != k,
        map_of(es).dom().contains(k) == (index_of(es, k) is Some),
        index_of(es, k) matches Some(i) ==> map_of(es)[k] == es[i].1,
    decreases es.len(),
{
    if es.len() > 0 {
        lemma_index_of(es.drop_last(), k);
        assert forall|j: int| 0 <= j < es.len() - 1 implies #[trigger] es[j] == es.drop_last()[j] by {}
    }
}

proof fn lemma_index_of_unique<V>(es: Seq<(String, V)>, k: Seq<char>, i: int)
    requires
        entry_keys(es).no_duplicates(),
        0 <= i < es.len(),
        es[i].0@ == k,
    ensures
        index_of(es, k) == Some(i),
    decreases es.len(),
{
    if i < es.len() - 1 {
        assert(entry_keys(es)[i] == entry_keys(es)[es.len() - 1] ==> i == es.len() - 1);
        assert(entry_keys(es.drop_last()) =~= entry_keys(es).drop_last());
        lemma_index_of_unique(es.drop_last(), k, i);
    }
}

proof fn lemma_remove_at<V>(es: Seq<(String, V)>, i: int)
    requires
        entry_keys(es).no_duplicates(),
        0 <= i < es.len(),
    ensures
        map_of(es.remove(i)) =~= map_of(es).remove(es[i].0@),
        entry_keys(es.remove(i)).no_duplicates(),
    decreases es.len(),
{
    let k = es[i].0@;
    let init = es.drop_last();
    assert(entry_keys(init) =~= entry_keys(es).drop_last());
    assert(entry_keys(es.remove(i)) =~= entry_keys(es).remove(i));
    if i == es.len() - 1 {
        assert(es.remove(i) =~= init);
        lemma_index_of(init, k);
        if let Some(j) = index_of(init, k) {
            assert(entry_keys(es)[j] == entry_keys(es)[i]);
        }
        assert(map_of(es).remove(k) =~= map_of(init));
    } else {
        lemma_remove_at(init, i);
        let lk = es.last().0@;
        let lv = es.last().1;
        assert(es.remove(i).drop_last() =~= init.remove(i));
        assert(es.remove(i).last() == es.last());
        assert(entry_keys(es)[i] != entry_keys(es)[es.len() - 1]);
        assert(lk != k);
        assert(map_of(es.remove(i)) == map_of(init.remove(i)).insert(lk, lv));
        assert(map_of(init).remove(k).insert(lk, lv) =~= map_of(init).insert(lk, lv).remove(k));
    }
}

proof fn lemma_map_of_insert_fresh<V>(es: Seq<(String, V)>, p: int, k: String, v: V)
    requires
        0 <= p <= es.len(),
        !map_of(es).dom().contains(k@),
    ensures
        map_of(es.insert(p, (k, v))) =~= map_of(es).insert(k@, v),
    decreases es.len(),
{
    if p == es.len() {
        assert(es.insert(p, (k, v)) =~= es.push((k, v)));
        assert(es.push((k, v)).drop_last() =~= es);
    } else {
        let init = es.drop_last();
        let last = es.last();
        lemma_index_of(es, k@);
        lemma_index_of(init, k@);
        assert(es[es.len() - 1] == last);
        assert(!map_of(init).dom().contains(k@)) by {
            if let Some(j) = index_of(init, k@) {
                assert(es[j] == init[j]);
            }
        }
        lemma_map_of_insert_fresh(init, p, k, v);
        assert(es.insert(p, (k, v)).drop_last() =~= init.insert(p, (k, v)));
        assert(es.insert(p, (k, v)).last() == last);
        assert(last.0@ != k@);
        assert(map_of(init).insert(k@, v).insert(last.0@, last.1) =~= map_of(init).insert(
            last.0@,
            last.1,
        ).insert(k@, v));
    }
}

impl<V> StrMap<V> {
    #[verifier::type_invariant]
    closed spec fn keys_sorted(self) -> bool {
        sorted_keys(entry_keys(self.entries@))
    }

    /// What the map holds.
    pub closed spec fn as_map(self) -> Map<Seq<char>, V> {
        map_of(self.entries@)
    }

    /// An empty map.
    pub fn new() -> (m: StrMap<V>)
        ensures
            m.as_map() == Map::<Seq<char>, V>::empty(),
    {
        let entries: Vec<(String, V)> = Vec::new();
        assert(entry_keys(entries@) =~= Seq::<Seq<char>>::empty());
        StrMap { entries }
    }

    /// Whether the map holds nothing.
    pub fn is_empty(&self) -> (b: bool)
        ensures
            b == (self.as_map() == Map::<Seq<char>, V>::empty()),
    {
        let n = self.entries.len();
        proof {
            if n > 0 {
                let es = self.entries@;
                assert(map_of(es).dom().contains(es.last().0@));
            } else {
                assert(self.entries@ =~= Seq::<(String, V)>::empty());
            }
        }
        n == 0
    }

    fn find(&self, k: &str) -> (r: Option<usize>)
        ensures
            r matches Some(i) ==> i < self.entries@.len() && index_of(self.entries@, k@) == Some(
                i as int,
            ),
            r is None ==> index_of(self.entries@, k@) is None,
    {
        proof {
            use_type_invariant(self);
            lemma_sorted_distinct(entry_keys(self.entries@));
        }
        let key = k.to_owned();
        let mut i: usize = 0;
        while i < self.entries.len()
            invariant
                i <= self.entries@.len(),
                entry_keys(self.entries@).no_duplicates(),
                key@ == k@,
                forall|j: int| 0 <= j < i ==> (#[trigger] self.entries@[j]).0@ != k@,
            decreases self.entries@.len() - i,
        {
            if self.entries[i].0 == key {
                proof {
                    lemma_index_of_unique(self.entries@, k@, i as int);
                }
                return Some(i);
            }
            i = i + 1;
        }
        proof {
            lemma_index_of(self.entries@, k@);
            if let Some(j) = index_of(self.entries@, k@) {
                assert(self.entries@[j].0@ == k@);
            }
        }
        None
    }

    /// Whether some value is stored under `k`.
    pub fn contains_key(&self, k: &str) -> (b: bool)
        ensures
            b == self.as_map().dom().contains(k@),
    {
        proof {
            lemma_index_of(self.entries@, k@);
        }
        self.find(k).is_some()
    }

    /// The value stored under `k`.
    pub fn get(&self, k: &str) -> (r: Option<&V>)
        ensures
            match r {
                Some(v) => self.as_map().dom().contains(k@) && self.as_map()[k@] == *v,
                None => !self.as_map().dom().contains(k@),
            },
    {
        proof {
            lemma_index_of(self.entries@, k@);
        }
        match self.find(k) {
            Some(i) => Some(&self.entries[i].1),
            None => None,
        }
    }

    /// Takes the value stored under `k` out of the map.
    pub fn take(&mut self, k: &str) -> (r: Option<V>)
        ensures
            final(self).as_map() == old(self).as_map().remove(k@),
            match r {
                Some(v) => old(self).as_map().dom().contains(k@) && old(self).as_map()[k@] == v,
                None => !old(self).as_map().dom().contains(k@),
            },
    {
        proof {
            use_type_invariant(&*self);
            lemma_index_of(self.entries@, k@);
        }
        match self.find(k) {
            Some(i) => {
                let mut es: Vec<(String, V)> = Vec::new();
                std::mem::swap(&mut es, &mut self.entries);
                proof {
                    lemma_sorted_distinct(entry_keys(es@));
                    lemma_remove_at(es@, i as int);
                    lemma_sorted_remove(entry_keys(es@), i as int);
                    assert(entry_keys(es@.remove(i as int)) =~= entry_keys(es@).remove(i as int));
                }
                let (_, v) = es.remove(i);
                self.entries = es;
                Some(v)
            },
            None => {
                proof {
                    assert(old(self).as_map().remove(k@) =~= old(self).as_map());
                }
                None
            },
        }
    }

    /// Stores `v` under `k`, in place of the value stored there before,
    /// which is returned.
    pub fn insert(&mut self, k: String, v: V) -> (r: Option<V>)
        ensures
            final(self).as_map() == old(self).as_map().insert(k@, v),
            match r {
                Some(x) => old(self).as_map().dom().contains(k@) && old(self).as_map()[k@] == x,
                None => !old(self).as_map().dom().contains(k@),
            },
    {
        let r = self.take(k.as_str());
        proof {
            assert(old(self).as_map().remove(k@).insert(k@, v) =~= old(self).as_map().insert(
                k@,
                v,
            ));
        }
        self.insert_fresh(k, v);
        r
    }

    /// Stores `v` under `k` unless a value is stored there already.
    pub fn insert_if_absent(&mut self, k: String, v: V)
        ensures
            final(self).as_map() == (if old(self).as_map().dom().contains(k@) {
                old(self).as_map()
            } else {
                old(self).as_map().insert(k@, v)
            }),
    {
        if !self.contains_key(k.as_str()) {
            self.insert_fresh(k, v);
        }
    }

    /// The position where the key `k`, which is not in the map, goes:
    /// after the smaller keys and before the greater ones.
    fn position(&self, k: &str) -> (p: usize)
        requires
            !self.as_map().dom().contains(k@),
        ensures
            p <= self.entries@.len(),
            forall|j: int| 0 <= j < p ==> key_lt(#[trigger] entry_keys(self.entries@)[j], k@),
            forall|j: int|
                p <= j < self.entries@.len() ==> key_lt(k@, #[trigger] entry_keys(self.entries@)[j]),
    {
        proof {
            use_type_invariant(self);
            lemma_index_of(self.entries@, k@);
        }
        let ghost ks = entry_keys(self.entries@);
        let mut p: usize = 0;
        while p < self.entries.len() && !key_less(k, self.entries[p].0.as_str())
            invariant
                p <= self.entries@.len(),
                ks == entry_keys(self.entries@),
                sorted_keys(ks),
                forall|j: int| 0 <= j < self.entries@.len() ==> (#[trigger] self.entries@[j]).0@ != k@,
                forall|j: int| 0 <= j < p ==> key_lt(#[trigger] ks[j], k@),
            decreases self.entries@.len() - p,
        {
            proof {
                assert(ks[p as int] == self.entries@[p as int].0@);
                lemma_key_lt_total(ks[p as int], k@);
            }
            p = p + 1;
        }
        proof {
            if p < self.entries@.len() {
                assert(ks[p as int] == self.entries@[p as int].0@);
                assert forall|j: int| p <= j < self.entries@.len() implies key_lt(k@, #[trigger] ks[j]) by {
                    if j > p {
                        lemma_key_lt_transitive(k@, ks[p as int], ks[j]);
                    }
                }
            }
        }
        p
    }

    /// Stores `v` under `k`, which is not in the map, at its place in the
    /// order.
    fn insert_fresh(&mut self, k: String, v: V)
        requires
            !old(self).as_map().dom().contains(k@),
        ensures
            final(self).as_map() == old(self).as_map().insert(k@, v),
    {
        let p = self.position(k.as_str());
        proof {
            use_type_invariant(&*self);
        }
        let ghost ks = entry_keys(self.entries@);
        let mut es: Vec<(String, V)> = Vec::new();
        std::mem::swap(&mut es, &mut self.entries);
        proof {
            lemma_map_of_insert_fresh(es@, p as int, k, v);
            lemma_sorted_insert(ks, p as int, k@);
            assert(entry_keys(es@.insert(p as int, (k, v))) =~= ks.insert(p as int, k@));
        }
        es.insert(p, (k, v));
        self.entries = es;
    }

    /// The map of the pairs, inserted in order: a later pair wins over an
    /// earlier one with the same key.
    pub fn from_pairs(pairs: Vec<(String, V)>) -> (m: StrMap<V>)
        ensures
            m.as_map() == map_of(pairs@),
    {
        let ghost ps = pairs@;
        let mut rest = pairs;
        let mut m = StrMap::new();
        let n = rest.len();
        let mut i: usize = 0;
        while i < n
            invariant
                n == ps.len(),
                i <= n,
                rest@ == ps.skip(i as int),
                m.as_map() == map_of(ps.take(i as int)),
            decreases n - i,
        {
            let (k, v) = rest.remove(0);
            proof {
                assert(ps.take(i + 1).drop_last() =~= ps.take(i as int));
                assert(ps.skip(i as int)[0] == ps[i as int]);
                assert(rest@ =~= ps.skip(i + 1));
            }
            m.insert(k, v);
            i = i + 1;
        }
        assert(ps.take(n as int) =~= ps);
        m
    }

    /// The entries, sorted by key: the map that inserting them in order
    /// gives is this one, and no key occurs twice among them.
    pub fn entries(&self) -> (es: &Vec<(String, V)>)
        ensures
            map_of(es@) == self.as_map(),
            sorted_keys(entry_keys(es@)),
            entry_keys(es@).no_duplicates(),
    {
        proof {
            use_type_invariant(self);
            lemma_sorted_distinct(entry_keys(self.entries@));
        }
        &self.entries
    }

    /// A copy of the map.
    pub fn duplicate(&self) -> (r: StrMap<V>)
        where V: Duplicate
        ensures
            r.as_map() == self.as_map(),
    {
        proof {
            use_type_invariant(self);
        }
        let mut es: Vec<(String, V)> = Vec::new();
        let mut i: usize = 0;
        while i < self.entries.len()
            invariant
                i <= self.entries@.len(),
                es@ == self.entries@.take(i as int),
            decreases self.entries@.len() - i,
        {
            let e = &self.entries[i];
            es.push((e.0.clone(), e.1.duplicate()));
            proof {
                assert(self.entries@.take(i + 1) =~= self.entries@.take(i as int).push(self.entries@[i as int]));
            }
            i = i + 1;
        }
        assert(self.entries@.take(self.entries@.len() as int) =~= self.entries@);
        StrMap { entries: es }
    }

    /// Gives up the map for its entries.
    pub fn into_entries(self) -> (es: Vec<(String, V)>)
        ensures
            map_of(es@) == self.as_map(),
            sorted_keys(entry_keys(es@)),
            entry_keys(es@).no_duplicates(),
    {
        proof {
            use_type_invariant(&self);
            lemma_sorted_distinct(entry_keys(self.entries@));
        }
        self.entries
    }
}

} // verus!
