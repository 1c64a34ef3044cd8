//! Name-keyed collections kept in the order of `str`: a set of names and a
//! map from names to values. Each holds its entries in a vector sorted by
//! name without repeats, so that lookups are binary searches and iteration
//! visits names in order.

use vstd::prelude::*;
use crate::order::{str_lt, str_less, str_equal, views, lemma_str_lt_irreflexive, lemma_str_lt_transitive,
    lemma_str_lt_total};

verus! {

/// Strictly increasing in the order of `str` (so without repeats).
pub open spec fn strictly_sorted(s: Seq<Seq<char>>) -> bool {
    forall|i: int, j: int| 0 <= i < j < s.len() ==> str_lt(#[trigger] s[i], #[trigger] s[j])
}

pub proof fn lemma_strictly_sorted_no_duplicates(s: Seq<Seq<char>>)
    requires
        strictly_sorted(s),
    ensures
        s.no_duplicates(),
{
    assert forall|i: int, j: int| 0 <= i < s.len() && 0 <= j < s.len() && i != j implies s[i]
        != s[j] by {
        if i < j {
            assert(str_lt(s[i], s[j]));
        } else {
            assert(str_lt(s[j], s[i]));
        }
        lemma_str_lt_irreflexive(s[i]);
    }
}

/// The names of a set in increasing order.
pub open spec fn in_order(s: Set<Seq<char>>) -> Seq<Seq<char>> {
    choose|t: Seq<Seq<char>>| strictly_sorted(t) && t.to_set() == s
}

/// Without its first element, a strictly sorted sequence holds the others.
proof fn lemma_drop_first_set(a: Seq<Seq<char>>)
    requires
        strictly_sorted(a),
        a.len() > 0,
    ensures
        a.drop_first().to_set() == a.to_set().remove(a[0]),
        strictly_sorted(a.drop_first()),
{
    lemma_str_lt_irreflexive(a[0]);
    assert forall|z: Seq<char>| #[trigger] a.drop_first().to_set().contains(z) <==> a.to_set().remove(a[0]).contains(z) by {
        if a.drop_first().contains(z) {
            let i = choose|i: int| 0 <= i < a.drop_first().len() && a.drop_first()[i] == z;
            assert(a[i + 1] == z);
            assert(str_lt(a[0], a[i + 1]));
        }
        if a.contains(z) && z != a[0] {
            let i = choose|i: int| 0 <= i < a.len() && a[i] == z;
            assert(i != 0);
            assert(a.drop_first()[i - 1] == z);
        }
    }
    assert(a.drop_first().to_set() =~= a.to_set().remove(a[0]));
    assert forall|i: int, j: int| 0 <= i < j < a.drop_first().len() implies str_lt(
        #[trigger] a.drop_first()[i],
        #[trigger] a.drop_first()[j],
    ) by {
        assert(str_lt(a[i + 1], a[j + 1]));
    }
}

/// A set has one strictly increasing listing.
proof fn lemma_strictly_sorted_set_unique(a: Seq<Seq<char>>, b: Seq<Seq<char>>)
    requires
        strictly_sorted(a),
        strictly_sorted(b),
        a.to_set() == b.to_set(),
    ensures
        a == b,
    decreases a.len(),
{
    if a.len() == 0 {
        if b.len() > 0 {
            assert(b.to_set().contains(b[0]));
        }
        assert(a =~= b);
    } else {
        assert(a.to_set().contains(a[0]));
        assert(b.contains(a[0]));
        assert(b.len() > 0);
        assert(b.to_set().contains(b[0]));
        assert(a.contains(b[0]));
        let x = a[0];
        let y = b[0];
        if x != y {
            let k = choose|k: int| 0 <= k < a.len() && a[k] == y;
            let m = choose|m: int| 0 <= m < b.len() && b[m] == x;
            assert(str_lt(a[0], a[k]));
            assert(str_lt(b[0], b[m]));
            lemma_str_lt_transitive(x, y, x);
            lemma_str_lt_irreflexive(x);
        }
        lemma_drop_first_set(a);
        lemma_drop_first_set(b);
        lemma_strictly_sorted_set_unique(a.drop_first(), b.drop_first());
        assert(a =~= b) by {
            assert forall|i: int| 0 <= i < a.len() implies a[i] == b[i] by {
                if i > 0 {
                    assert(a[i] == a.drop_first()[i - 1]);
                    assert(b[i] == b.drop_first()[i - 1]);
                }
            }
        }
    }
}

/// A strictly increasing sequence is the listing of its set.
pub proof fn lemma_in_order(t: Seq<Seq<char>>)
    requires
        strictly_sorted(t),
    ensures
        in_order(t.to_set()) == t,
{
    let c = in_order(t.to_set());
    assert(strictly_sorted(t) && t.to_set() == t.to_set());
    lemma_strictly_sorted_set_unique(c, t);
}

/// In a sequence without repeats, the index of an element is its position.
pub proof fn lemma_index_of_unique(s: Seq<Seq<char>>, i: int)
    requires
        s.no_duplicates(),
        0 <= i < s.len(),
    ensures
        s.index_of(s[i]) == i,
{
    assert(s.contains(s[i]));
}

/// Where `k` is or would go in strictly sorted `keys`: the first position
/// whose key is not below `k`.
pub open spec fn is_position(keys: Seq<Seq<char>>, k: Seq<char>, pos: int) -> bool {
    &&& 0 <= pos <= keys.len()
    &&& forall|i: int| 0 <= i < pos ==> str_lt(#[trigger] keys[i], k)
    &&& forall|i: int| pos <= i < keys.len() ==> !str_lt(#[trigger] keys[i], k)
}

pub proof fn lemma_position_contains(keys: Seq<Seq<char>>, k: Seq<char>, pos: int)
    requires
        strictly_sorted(keys),
        is_position(keys, k, pos),
    ensures
        keys.contains(k) <==> (pos < keys.len() && keys[pos] == k),
{
    if keys.contains(k) {
        let j = choose|j: int| 0 <= j < keys.len() && keys[j] == k;
        lemma_str_lt_irreflexive(k);
        if j < pos {
            assert(str_lt(keys[j], k));
        } else if j > pos {
            assert(str_lt(keys[pos], keys[j]));
            if keys[pos] != k {
                lemma_str_lt_total(keys[pos], k);
            }
        }
    }
}

/// Inserting `k` at its position keeps the keys strictly sorted.
pub proof fn lemma_insert_sorted(keys: Seq<Seq<char>>, k: Seq<char>, pos: int)
    requires
        strictly_sorted(keys),
        is_position(keys, k, pos),
        !keys.contains(k),
    ensures
        strictly_sorted(keys.insert(pos, k)),
{
    lemma_position_contains(keys, k, pos);
    let after = keys.insert(pos, k);
    assert forall|a: int, b: int| 0 <= a < b < after.len() implies str_lt(
        #[trigger] after[a],
        #[trigger] after[b],
    ) by {
        if b < pos {
        } else if b == pos {
            assert(str_lt(keys[a], k));
        } else if a < pos {
            assert(after[b] == keys[b - 1]);
            assert(str_lt(keys[a], k));
            assert(!str_lt(keys[b - 1], k));
            assert(keys[b - 1] != k);
            lemma_str_lt_total(keys[b - 1], k);
            lemma_str_lt_transitive(keys[a], k, keys[b - 1]);
        } else if a == pos {
            assert(after[b] == keys[b - 1]);
            assert(!str_lt(keys[b - 1], k));
            assert(keys[b - 1] != k);
            lemma_str_lt_total(keys[b - 1], k);
        } else {
            assert(after[a] == keys[a - 1]);
            assert(after[b] == keys[b - 1]);
        }
    }
}

/// The characters of each borrowed string.
pub open spec fn strs(v: Seq<&str>) -> Seq<Seq<char>> {
    v.map_values(|s: &str| s@)
}

/// Finds the position of `k` among strictly sorted `names` by binary search.
fn search(names: &Vec<&str>, k: &str) -> (pos: usize)
    requires
        strictly_sorted(strs(names@)),
    ensures
        is_position(strs(names@), k@, pos as int),
{
    let ghost keys = strs(names@);
    let mut lo: usize = 0;
    let mut hi: usize = names.len();
    while lo < hi
        invariant
            keys == strs(names@),
            strictly_sorted(keys),
            0 <= lo <= hi <= keys.len(),
            forall|i: int| 0 <= i < lo ==> str_lt(#[trigger] keys[i], k@),
            forall|i: int| hi <= i < keys.len() ==> !str_lt(#[trigger] keys[i], k@),
        decreases hi - lo,
    {
        let mid = lo + (hi - lo) / 2;
        assert(names@[mid as int]@ == keys[mid as int]);
        if str_less(names[mid], k) {
            assert forall|i: int| 0 <= i < mid + 1 implies str_lt(#[trigger] keys[i], k@) by {
                if i < mid {
                    lemma_str_lt_transitive(keys[i], keys[mid as int], k@);
                }
            }
            lo = mid + 1;
        } else {
            assert forall|i: int| mid <= i < keys.len() implies !str_lt(#[trigger] keys[i], k@) by {
                if i > mid && str_lt(keys[i], k@) {
                    lemma_str_lt_transitive(keys[mid as int], keys[i], k@);
                }
            }
            hi = mid;
        }
    }
    lo
}

/// A set of names, iterated in the order of `str`.
#[derive(Debug)]
pub struct NameSet {
    names: Vec<String>,
}

impl View for NameSet {
    type V = Set<Seq<char>>;

    closed spec fn view(&self) -> Set<Seq<char>> {
        views(self.names@).to_set()
    }
}

impl DeepView for NameSet {
    type V = Set<Seq<char>>;

    open spec fn deep_view(&self) -> Set<Seq<char>> {
        self@
    }
}

/// The names of a vector of strings as borrowed slices.
fn borrow_all(v: &Vec<String>) -> (r: Vec<&str>)
    ensures
        r@.len() == v@.len(),
        forall|i: int| 0 <= i < v@.len() ==> #[trigger] r@[i]@ == v@[i]@,
{
    let mut r: Vec<&str> = Vec::new();
    let mut i: usize = 0;
    while i < v.len()
        invariant
            i <= v@.len(),
            r@.len() == i,
            forall|j: int| 0 <= j < i ==> #[trigger] r@[j]@ == v@[j]@,
        decreases v@.len() - i,
    {
        r.push(v[i].as_str());
        i = i + 1;
    }
    r
}

impl NameSet {
    #[verifier::type_invariant]
    spec fn well_formed(&self) -> bool {
        strictly_sorted(views(self.names@))
    }

    pub fn new() -> (r: Self)
        ensures
            r@ == Set::<Seq<char>>::empty(),
    {
        let r = NameSet { names: Vec::new() };
        assert(views(r.names@) =~= Seq::<Seq<char>>::empty());
        r
    }

    /// Position of `name` among the names (binary search).
    fn position(&self, name: &str) -> (pos: usize)
        ensures
            is_position(views(self.names@), name@, pos as int),
            strictly_sorted(views(self.names@)),
    {
        proof {
            use_type_invariant(self);
        }
        let borrowed = borrow_all(&self.names);
        assert(strs(borrowed@) =~= views(self.names@));
        search(&borrowed, name)
    }

    pub fn contains(&self, name: &str) -> (r: bool)
        ensures
            r == self@.contains(name@),
    {
        let pos = self.position(name);
        proof {
            lemma_position_contains(views(self.names@), name@, pos as int);
        }
        pos < self.names.len() && str_equal(self.names[pos].as_str(), name)
    }

    /// Adds `name`; true when it was not there before.
    pub fn insert(&mut self, name: String) -> (r: bool)
        ensures
            final(self)@ == old(self)@.insert(name@),
            r == !old(self)@.contains(name@),
    {
        let pos = self.position(name.as_str());
        proof {
            lemma_position_contains(views(self.names@), name@, pos as int);
        }
        if pos < self.names.len() && str_equal(self.names[pos].as_str(), name.as_str()) {
            assert(self@.contains(name@));
            assert(self@.insert(name@) =~= self@);
            return false;
        }
        let ghost before = views(self.names@);
        proof {
            lemma_insert_sorted(before, name@, pos as int);
        }
        let ghost nv = name@;
        let mut names: Vec<String> = Vec::new();
        std::mem::swap(&mut names, &mut self.names);
        names.insert(pos, name);
        assert(views(names@) =~= before.insert(pos as int, nv));
        self.names = names;
        assert(views(self.names@).to_set() =~= before.to_set().insert(nv)) by {
            assert forall|x: Seq<char>| #[trigger] views(self.names@).contains(x) <==> before.contains(x)
                || x == nv by {
                let a = views(self.names@);
                if a.contains(x) {
                    let j = choose|j: int| 0 <= j < a.len() && a[j] == x;
                    if j < pos {
                        assert(before[j] == x);
                    } else if j > pos {
                        assert(before[j - 1] == x);
                    }
                }
                if before.contains(x) {
                    let j = choose|j: int| 0 <= j < before.len() && before[j] == x;
                    if j < pos {
                        assert(a[j] == x);
                    } else {
                        assert(a[j + 1] == x);
                    }
                }
                if x == nv {
                    assert(a[pos as int] == x);
                }
            }
        }
        true
    }

    pub fn len(&self) -> (n: usize)
        ensures
            n == self@.len(),
    {
        proof {
            use_type_invariant(self);
            lemma_strictly_sorted_no_duplicates(views(self.names@));
            views(self.names@).unique_seq_to_set();
        }
        self.names.len()
    }

    pub fn is_empty(&self) -> (r: bool)
        ensures
            r == (self@.len() == 0),
    {
        self.len() == 0
    }

    /// The names, in increasing order.
    pub fn names(&self) -> (r: &Vec<String>)
        ensures
            views(r@).to_set() == self@,
            strictly_sorted(views(r@)),
            views(r@) == in_order(self@),
    {
        proof {
            use_type_invariant(self);
            lemma_in_order(views(self.names@));
        }
        &self.names
    }
}

impl Default for NameSet {
    fn default() -> (r: Self)
        ensures
            r@ == Set::<Seq<char>>::empty(),
    {
        NameSet::new()
    }
}

/// A map from names to values, iterated in the order of `str`.
#[derive(Debug)]
pub struct NameMap<V> {
    entries: Vec<(String, V)>,
}

impl<V> NameMap<V> {
    /// The keys, in order.
    pub closed spec fn keys(&self) -> Seq<Seq<char>> {
        self.entries@.map_values(|e: (String, V)| e.0@)
    }

    #[verifier::type_invariant]
    spec fn well_formed(&self) -> bool {
        strictly_sorted(self.keys())
    }
}

impl<V: DeepView> View for NameMap<V> {
    type V = Map<Seq<char>, V::V>;

    closed spec fn view(&self) -> Map<Seq<char>, V::V> {
        Map::new(
            |k: Seq<char>| self.keys().contains(k),
            |k: Seq<char>| self.entries@[self.keys().index_of(k)].1.deep_view(),
        )
    }
}

impl<V: DeepView> DeepView for NameMap<V> {
    type V = Map<Seq<char>, V::V>;

    open spec fn deep_view(&self) -> Map<Seq<char>, V::V> {
        self@
    }
}

/// The keys of the entries as borrowed slices.
fn borrow_keys<V>(v: &Vec<(String, V)>) -> (r: Vec<&str>)
    ensures
        r@.len() == v@.len(),
        forall|i: int| 0 <= i < v@.len() ==> #[trigger] r@[i]@ == v@[i].0@,
{
    let mut r: Vec<&str> = Vec::new();
    let mut i: usize = 0;
    while i < v.len()
        invariant
            i <= v@.len(),
            r@.len() == i,
            forall|j: int| 0 <= j < i ==> #[trigger] r@[j]@ == v@[j].0@,
        decreases v@.len() - i,
    {
        r.push(v[i].0.as_str());
        i = i + 1;
    }
    r
}

impl<V: DeepView> NameMap<V> {
    pub fn new() -> (r: Self)
        ensures
            r@ == Map::<Seq<char>, V::V>::empty(),
    {
        let r = NameMap { entries: Vec::new() };
        assert(r.keys() =~= Seq::<Seq<char>>::empty());
        assert(r@ =~= Map::<Seq<char>, V::V>::empty());
        r
    }

    /// The value at position `i` is the one the map gives its key.
    proof fn lemma_entry(&self, i: int)
        requires
            strictly_sorted(self.keys()),
            0 <= i < self.entries@.len(),
        ensures
            self@.contains_key(self.entries@[i].0@),
            self@[self.entries@[i].0@] == self.entries@[i].1.deep_view(),
    {
        lemma_strictly_sorted_no_duplicates(self.keys());
        assert(self.keys()[i] == self.entries@[i].0@);
        lemma_index_of_unique(self.keys(), i);
    }

    fn position(&self, key: &str) -> (pos: usize)
        ensures
            is_position(self.keys(), key@, pos as int),
            strictly_sorted(self.keys()),
    {
        proof {
            use_type_invariant(self);
        }
        let borrowed = borrow_keys(&self.entries);
        assert(strs(borrowed@) =~= self.keys());
        search(&borrowed, key)
    }

    pub fn contains_key(&self, key: &str) -> (r: bool)
        ensures
            r == self@.contains_key(key@),
    {
        let pos = self.position(key);
        proof {
            lemma_position_contains(self.keys(), key@, pos as int);
        }
        pos < self.entries.len() && str_equal(self.entries[pos].0.as_str(), key)
    }

    pub fn get(&self, key: &str) -> (r: Option<&V>)
        ensures
            match r {
                Some(v) => self@.contains_key(key@) && self@[key@] == v.deep_view(),
                None => !self@.contains_key(key@),
            },
    {
        let pos = self.position(key);
        proof {
            lemma_position_contains(self.keys(), key@, pos as int);
        }
        if pos < self.entries.len() && str_equal(self.entries[pos].0.as_str(), key) {
            proof {
                self.lemma_entry(pos as int);
            }
            Some(&self.entries[pos].1)
        } else {
            None
        }
    }

    /// Sets the value of `key`, replacing any earlier one.
    pub fn insert(&mut self, key: String, value: V)
        ensures
            final(self)@ == old(self)@.insert(key@, value.deep_view()),
    {
        let pos = self.position(key.as_str());
        let ghost before = self.keys();
        let ghost old_map = self@;
        let ghost kv = key@;
        let ghost vv = value.deep_view();
        proof {
            lemma_position_contains(before, kv, pos as int);
            lemma_strictly_sorted_no_duplicates(before);
        }
        if pos < self.entries.len() && str_equal(self.entries[pos].0.as_str(), key.as_str()) {
            let mut entries: Vec<(String, V)> = Vec::new();
            std::mem::swap(&mut entries, &mut self.entries);
            entries.set(pos, (key, value));
            assert(entries@.map_values(|e: (String, V)| e.0@) =~= before);
            self.entries = entries;
            assert(self.keys() =~= before);
            proof {
                lemma_strictly_sorted_no_duplicates(self.keys());
                assert forall|k: Seq<char>| #[trigger] self@.contains_key(k) == old_map.insert(
                    kv,
                    vv,
                ).contains_key(k) by {}
                assert forall|k: Seq<char>| #[trigger] self@.contains_key(k) implies self@[k]
                    == old_map.insert(kv, vv)[k] by {
                    let j = self.keys().index_of(k);
                    assert(self.keys().contains(k));
                    if k != kv {
                        assert(j != pos);
                        lemma_index_of_unique(before, j);
                    } else {
                        lemma_index_of_unique(self.keys(), pos as int);
                    }
                }
                assert(self@ =~= old_map.insert(kv, vv));
            }
        } else {
            proof {
                lemma_insert_sorted(before, kv, pos as int);
            }
            let mut entries: Vec<(String, V)> = Vec::new();
            std::mem::swap(&mut entries, &mut self.entries);
            entries.insert(pos, (key, value));
            assert(entries@.map_values(|e: (String, V)| e.0@) =~= before.insert(pos as int, kv));
            self.entries = entries;
            assert(self.keys() =~= before.insert(pos as int, kv));
            proof {
                let after = self.keys();
                lemma_strictly_sorted_no_duplicates(after);
                assert forall|k: Seq<char>| #[trigger] after.contains(k) <==> before.contains(k)
                    || k == kv by {
                    if after.contains(k) {
                        let j = choose|j: int| 0 <= j < after.len() && after[j] == k;
                        if j < pos {
                            assert(before[j] == k);
                        } else if j > pos {
                            assert(before[j - 1] == k);
                        }
                    }
                    if before.contains(k) {
                        let j = choose|j: int| 0 <= j < before.len() && before[j] == k;
                        if j < pos {
                            assert(after[j] == k);
                        } else {
                            assert(after[j + 1] == k);
                        }
                    }
                    if k == kv {
                        assert(after[pos as int] == k);
                    }
                }
                assert forall|k: Seq<char>| #[trigger] self@.contains_key(k) implies self@[k]
                    == old_map.insert(kv, vv)[k] by {
                    let j = after.index_of(k);
                    assert(after.contains(k));
                    if k == kv {
                        lemma_index_of_unique(after, pos as int);
                    } else if j < pos {
                        lemma_index_of_unique(before, j);
                    } else {
                        assert(j != pos);
                        lemma_index_of_unique(before, j - 1);
                    }
                }
                assert(self@ =~= old_map.insert(kv, vv));
            }
        }
    }

    /// Takes the value of `key` out of the map.
    pub fn remove(&mut self, key: &str) -> (r: Option<V>)
        ensures
            final(self)@ == old(self)@.remove(key@),
            match r {
                Some(v) => old(self)@.contains_key(key@) && old(self)@[key@] == v.deep_view(),
                None => !old(self)@.contains_key(key@),
            },
    {
        let pos = self.position(key);
        let ghost before = self.keys();
        let ghost old_map = self@;
        proof {
            lemma_position_contains(before, key@, pos as int);
            lemma_strictly_sorted_no_duplicates(before);
        }
        if pos < self.entries.len() && str_equal(self.entries[pos].0.as_str(), key) {
            proof {
                self.lemma_entry(pos as int);
            }
            let mut entries: Vec<(String, V)> = Vec::new();
            std::mem::swap(&mut entries, &mut self.entries);
            let (_k, v) = entries.remove(pos);
            assert(entries@.map_values(|e: (String, V)| e.0@) =~= before.remove(pos as int));
            proof {
                let after = entries@.map_values(|e: (String, V)| e.0@);
                assert forall|a: int, b: int| 0 <= a < b < after.len() implies str_lt(
                    #[trigger] after[a],
                    #[trigger] after[b],
                ) by {
                    if a < pos && b >= pos {
                        assert(after[b] == before[b + 1]);
                    } else if a >= pos {
                        assert(after[a] == before[a + 1]);
                        assert(after[b] == before[b + 1]);
                    }
                }
            }
            self.entries = entries;
            assert(self.keys() =~= before.remove(pos as int));
            proof {
                let after = self.keys();
                assert(strictly_sorted(after)) by {
                    assert forall|a: int, b: int| 0 <= a < b < after.len() implies str_lt(
                        #[trigger] after[a],
                        #[trigger] after[b],
                    ) by {
                        if a < pos && b >= pos {
                            assert(after[b] == before[b + 1]);
                        } else if a >= pos {
                            assert(after[a] == before[a + 1]);
                            assert(after[b] == before[b + 1]);
                        }
                    }
                }
                lemma_strictly_sorted_no_duplicates(after);
                assert forall|k: Seq<char>| #[trigger] after.contains(k) <==> before.contains(k)
                    && k != key@ by {
                    if after.contains(k) {
                        let j = choose|j: int| 0 <= j < after.len() && after[j] == k;
                        if j < pos {
                            assert(before[j] == k);
                        } else {
                            assert(before[j + 1] == k);
                        }
                    }
                    if before.contains(k) && k != key@ {
                        let j = choose|j: int| 0 <= j < before.len() && before[j] == k;
                        if j < pos {
                            assert(after[j] == k);
                        } else {
                            assert(j != pos);
                            assert(after[j - 1] == k);
                        }
                    }
                }
                assert forall|k: Seq<char>| #[trigger] self@.contains_key(k) implies self@[k]
                    == old_map.remove(key@)[k] by {
                    let j = after.index_of(k);
                    assert(after.contains(k));
                    if j < pos {
                        lemma_index_of_unique(before, j);
                    } else {
                        lemma_index_of_unique(before, j + 1);
                    }
                }
                assert(self@ =~= old_map.remove(key@));
            }
            Some(v)
        } else {
            assert(old_map.remove(key@) =~= old_map);
            None
        }
    }

    pub fn len(&self) -> (n: usize)
        ensures
            n == self@.len(),
    {
        proof {
            use_type_invariant(self);
            lemma_strictly_sorted_no_duplicates(self.keys());
            self.keys().unique_seq_to_set();
            assert(self@.dom() =~= self.keys().to_set());
        }
        self.entries.len()
    }

    pub fn is_empty(&self) -> (r: bool)
        ensures
            r == (self@.len() == 0),
    {
        self.len() == 0
    }

    /// The entries, in increasing order of key.
    pub fn entries(&self) -> (r: &Vec<(String, V)>)
        ensures
            r@.map_values(|e: (String, V)| e.0@).to_set() == self@.dom(),
            strictly_sorted(r@.map_values(|e: (String, V)| e.0@)),
            r@.map_values(|e: (String, V)| e.0@) == in_order(self@.dom()),
            forall|i: int| 0 <= i < r@.len() ==> self@[#[trigger] r@[i].0@] == r@[i].1.deep_view(),
    {
        proof {
            use_type_invariant(self);
            assert(self@.dom() =~= self.keys().to_set());
            assert(self.entries@.map_values(|e: (String, V)| e.0@) =~= self.keys());
            lemma_in_order(self.keys());
            assert forall|i: int| 0 <= i < self.entries@.len() implies self@[
                #[trigger] self.entries@[i].0@] == self.entries@[i].1.deep_view() by {
                self.lemma_entry(i);
            }
        }
        &self.entries
    }
}

impl<V: DeepView> Default for NameMap<V> {
    fn default() -> (r: Self)
        ensures
            r@ == Map::<Seq<char>, V::V>::empty(),
    {
        NameMap::new()
    }
}

} // verus!
