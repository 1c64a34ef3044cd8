//! Classes with their full permission sets: the permissions of the common a
//! class inherits, then its own, indexed by 0-based bit position.

use vstd::prelude::*;
use std::collections::HashMap;
use crate::collections::NameMap;
use crate::order::views;
use crate::symtab::{Perm, SpecPerm, ClassDatum, SpecClassDatum, perm_views};

verus! {

/// Strictly increasing.
pub open spec fn increasing(s: Seq<u32>) -> bool {
    forall|i: int, j: int| 0 <= i < j < s.len() ==> #[trigger] s[i] < #[trigger] s[j]
}

proof fn lemma_increasing_drop_first_set(s: Seq<u32>)
    requires
        increasing(s),
        s.len() > 0,
    ensures
        s.drop_first().to_set() == s.to_set().remove(s[0]),
{
    assert forall|x: u32| #[trigger] s.drop_first().to_set().contains(x) <==> s.to_set().remove(
        s[0],
    ).contains(x) by {
        if s.drop_first().contains(x) {
            let j = choose|j: int| 0 <= j < s.drop_first().len() && s.drop_first()[j] == x;
            assert(s[j + 1] == x);
        }
        if s.contains(x) && x != s[0] {
            let j = choose|j: int| 0 <= j < s.len() && s[j] == x;
            assert(s.drop_first()[j - 1] == x);
        }
    }
    assert(s.drop_first().to_set() =~= s.to_set().remove(s[0]));
}

/// Two strictly increasing sequences with the same elements are equal.
pub proof fn lemma_increasing_unique(a: Seq<u32>, b: Seq<u32>)
    requires
        increasing(a),
        increasing(b),
        a.to_set() == b.to_set(),
    ensures
        a == b,
    decreases a.len(),
{
    if a.len() == 0 {
        if b.len() > 0 {
            assert(b.to_set().contains(b[0]));
        }
        assert(a =~= b);
    } else {
        assert(a.to_set().contains(a[0]));
        assert(b.to_set().contains(a[0]));
        assert(b.len() > 0);
        assert(b.to_set().contains(b[0]));
        assert(a.to_set().contains(b[0]));
        let i = choose|i: int| 0 <= i < b.len() && b[i] == a[0];
        let j = choose|j: int| 0 <= j < a.len() && a[j] == b[0];
        assert(a[0] == b[0]) by {
            if i > 0 {
                assert(b[0] < b[i]);
            }
            if j > 0 {
                assert(a[0] < a[j]);
            }
        }
        lemma_increasing_drop_first_set(a);
        lemma_increasing_drop_first_set(b);
        lemma_increasing_unique(a.drop_first(), b.drop_first());
        assert(a =~= seq![a[0]] + a.drop_first());
        assert(b =~= seq![b[0]] + b.drop_first());
    }
}

/// The elements of a finite set of `u32`s in increasing order.
pub open spec fn sorted_elements(s: Set<u32>) -> Seq<u32> {
    choose|q: Seq<u32>| increasing(q) && q.to_set() == s
}

/// A strictly increasing sequence is the sorted elements of its set.
pub proof fn lemma_sorted_elements(q: Seq<u32>)
    requires
        increasing(q),
    ensures
        sorted_elements(q.to_set()) == q,
{
    let s = q.to_set();
    assert(increasing(q) && q.to_set() == s);
    let c = sorted_elements(s);
    lemma_increasing_unique(c, q);
}

/// The names of a bit-indexed map in increasing bit order.
pub open spec fn ordered_names(m: Map<u32, Seq<char>>) -> Seq<Seq<char>> {
    sorted_elements(m.dom()).map_values(|k: u32| m[k])
}

/// The greatest bit of a map, or zero when it has none.
pub open spec fn max_bit(m: Map<u32, Seq<char>>) -> u32 {
    if m.dom().is_empty() {
        0
    } else {
        choose|k: u32| m.contains_key(k) && forall|j: u32| #[trigger] m.contains_key(j) ==> j <= k
    }
}

/// Permission names by bit position, kept in increasing bit order.
pub struct BitNames {
    entries: Vec<(u32, String)>,
}

impl BitNames {
    /// The bits, in order.
    pub closed spec fn bits(&self) -> Seq<u32> {
        self.entries@.map_values(|e: (u32, String)| e.0)
    }

    #[verifier::type_invariant]
    spec fn well_formed(&self) -> bool {
        increasing(self.bits())
    }

    /// Where bit `k` is held.
    closed spec fn slot(&self, k: u32) -> int {
        choose|i: int| 0 <= i < self.entries@.len() && self.entries@[i].0 == k
    }

    proof fn lemma_entry(&self, i: int)
        requires
            increasing(self.bits()),
            0 <= i < self.entries@.len(),
        ensures
            self@.contains_key(self.entries@[i].0),
            self@[self.entries@[i].0] == self.entries@[i].1@,
    {
        let k = self.entries@[i].0;
        assert(self.bits()[i] == k);
        let j = self.slot(k);
        assert(0 <= j < self.entries@.len() && self.entries@[j].0 == k);
        assert(self.bits()[j] == k);
        if j != i {
            if j < i {
                assert(self.bits()[j] < self.bits()[i]);
            } else {
                assert(self.bits()[i] < self.bits()[j]);
            }
        }
    }
}

impl View for BitNames {
    type V = Map<u32, Seq<char>>;

    closed spec fn view(&self) -> Map<u32, Seq<char>> {
        Map::new(
            |k: u32| exists|i: int| 0 <= i < self.entries@.len() && self.entries@[i].0 == k,
            |k: u32| self.entries@[self.slot(k)].1@,
        )
    }
}

impl BitNames {
    pub fn new() -> (r: Self)
        ensures
            r@ == Map::<u32, Seq<char>>::empty(),
    {
        let r = BitNames { entries: Vec::new() };
        assert(r.bits() =~= Seq::<u32>::empty());
        assert(r@ =~= Map::<u32, Seq<char>>::empty());
        r
    }

    /// The first position whose bit is not below `k`.
    fn position(&self, k: u32) -> (pos: usize)
        ensures
            pos <= self.entries@.len(),
            forall|i: int| 0 <= i < pos ==> #[trigger] self.bits()[i] < k,
            forall|i: int| pos <= i < self.entries@.len() ==> #[trigger] self.bits()[i] >= k,
            increasing(self.bits()),
    {
        proof {
            use_type_invariant(self);
        }
        let mut pos: usize = self.entries.len();
        while pos > 0 && self.entries[pos - 1].0 >= k
            invariant
                pos <= self.entries@.len(),
                increasing(self.bits()),
                forall|i: int| pos <= i < self.entries@.len() ==> #[trigger] self.bits()[i] >= k,
            decreases pos,
        {
            assert(self.bits()[pos - 1] == self.entries@[pos - 1].0);
            pos = pos - 1;
        }
        proof {
            if pos > 0 {
                assert(self.bits()[pos - 1] == self.entries@[pos - 1].0);
                assert forall|i: int| 0 <= i < pos implies #[trigger] self.bits()[i] < k by {
                    if i < pos - 1 {
                        assert(self.bits()[i] < self.bits()[pos - 1]);
                    }
                }
            }
        }
        pos
    }

    pub fn get(&self, k: u32) -> (r: Option<&String>)
        ensures
            match r {
                Some(s) => self@.contains_key(k) && self@[k] == s@,
                None => !self@.contains_key(k),
            },
    {
        let pos = self.position(k);
        if pos < self.entries.len() && self.entries[pos].0 == k {
            proof {
                self.lemma_entry(pos as int);
            }
            Some(&self.entries[pos].1)
        } else {
            proof {
                if self@.contains_key(k) {
                    let j = choose|j: int| 0 <= j < self.entries@.len() && self.entries@[j].0 == k;
                    assert(self.bits()[j] == k);
                    if j > pos {
                        assert(self.bits()[pos as int] < self.bits()[j]);
                    }
                }
            }
            None
        }
    }

    /// Sets the name of bit `k`, replacing any earlier one.
    pub fn insert(&mut self, k: u32, name: String)
        ensures
            final(self)@ == old(self)@.insert(k, name@),
    {
        let pos = self.position(k);
        let ghost old_map = self@;
        let ghost old_entries = self.entries@;
        let ghost bits = self.bits();
        let ghost nv = name@;
        let mut entries: Vec<(u32, String)> = Vec::new();
        std::mem::swap(&mut entries, &mut self.entries);
        if pos < entries.len() && entries[pos].0 == k {
            entries.set(pos, (k, name));
            assert(entries@.map_values(|e: (u32, String)| e.0) =~= bits);
            self.entries = entries;
        } else {
            entries.insert(pos, (k, name));
            assert(entries@.map_values(|e: (u32, String)| e.0) =~= bits.insert(pos as int, k));
            assert(increasing(bits.insert(pos as int, k))) by {
                let nb = bits.insert(pos as int, k);
                assert forall|a: int, b: int| 0 <= a < b < nb.len() implies #[trigger] nb[a] < #[trigger] nb[b] by {
                    if b < pos {
                    } else if b == pos {
                    } else if a < pos {
                        assert(nb[b] == bits[b - 1]);
                        if b - 1 > pos {
                            assert(bits[pos as int] < bits[b - 1]);
                        }
                    } else if a == pos {
                        assert(nb[b] == bits[b - 1]);
                        if b - 1 > pos {
                            assert(bits[pos as int] < bits[b - 1]);
                        }
                    } else {
                        assert(nb[a] == bits[a - 1]);
                        assert(nb[b] == bits[b - 1]);
                    }
                }
            }
            self.entries = entries;
        }
        proof {
            use_type_invariant(&*self);
            assert forall|x: u32| #[trigger] self@.contains_key(x) <==> old_map.insert(k, nv).contains_key(x) by {
                if self@.contains_key(x) {
                    let j = choose|j: int| 0 <= j < self.entries@.len() && self.entries@[j].0 == x;
                    if x != k {
                        if self.entries@.len() == old_entries.len() {
                            assert(old_entries[j].0 == x);
                        } else if j < pos {
                            assert(old_entries[j].0 == x);
                        } else {
                            assert(old_entries[j - 1].0 == x);
                        }
                    }
                }
                if old_map.contains_key(x) && x != k {
                    let j = choose|j: int| 0 <= j < old_entries.len() && old_entries[j].0 == x;
                    if self.entries@.len() == old_entries.len() {
                        assert(self.entries@[j].0 == x);
                    } else if j < pos {
                        assert(self.entries@[j].0 == x);
                    } else {
                        assert(self.entries@[j + 1].0 == x);
                    }
                }
                if x == k {
                    assert(self.entries@[pos as int].0 == k);
                }
            }
            assert forall|x: u32| #[trigger] self@.contains_key(x) implies self@[x] == old_map.insert(k, nv)[x] by {
                let j = choose|j: int| 0 <= j < self.entries@.len() && self.entries@[j].0 == x;
                self.lemma_entry(j);
                if x == k {
                    self.lemma_entry(pos as int);
                    assert(self.entries@[pos as int].0 == k);
                } else {
                    let oj = if self.entries@.len() == old_entries.len() || j < pos { j } else { j - 1 };
                    assert(old_entries[oj] == self.entries@[j]);
                    assert(increasing(old_entries.map_values(|e: (u32, String)| e.0)));
                    let ob = old_entries.map_values(|e: (u32, String)| e.0);
                    let oi = choose|i: int| 0 <= i < old_entries.len() && old_entries[i].0 == x;
                    if oi != oj {
                        if oi < oj {
                            assert(ob[oi] < ob[oj]);
                        } else {
                            assert(ob[oj] < ob[oi]);
                        }
                    }
                }
            }
            assert(self@ =~= old_map.insert(k, nv));
        }
    }

    /// The names in increasing bit order.
    pub fn ordered(&self) -> (r: Vec<String>)
        ensures
            views(r@) == ordered_names(self@),
    {
        proof {
            use_type_invariant(self);
        }
        let mut r: Vec<String> = Vec::new();
        let mut i: usize = 0;
        while i < self.entries.len()
            invariant
                i <= self.entries@.len(),
                increasing(self.bits()),
                r@.len() == i,
                forall|j: int| 0 <= j < i ==> #[trigger] r@[j]@ == self.entries@[j].1@,
            decreases self.entries@.len() - i,
        {
            r.push(self.entries[i].1.clone());
            i = i + 1;
        }
        proof {
            assert(self.bits().to_set() =~= self@.dom()) by {
                assert forall|x: u32| #[trigger] self.bits().to_set().contains(x) <==> self@.dom().contains(x) by {
                    if self.bits().contains(x) {
                        let j = choose|j: int| 0 <= j < self.bits().len() && self.bits()[j] == x;
                        assert(self.entries@[j].0 == x);
                    }
                    if self@.contains_key(x) {
                        let j = choose|j: int| 0 <= j < self.entries@.len() && self.entries@[j].0 == x;
                        assert(self.bits()[j] == x);
                    }
                }
            }
            lemma_sorted_elements(self.bits());
            assert forall|j: int| 0 <= j < r@.len() implies #[trigger] views(r@)[j] == ordered_names(self@)[j] by {
                self.lemma_entry(j);
            }
            assert(views(r@) =~= ordered_names(self@));
        }
        r
    }

    /// The greatest bit, or zero when there are none.
    pub fn max_bit(&self) -> (m: u32)
        ensures
            m == max_bit(self@),
    {
        proof {
            use_type_invariant(self);
        }
        if self.entries.len() == 0 {
            assert(self@.dom() =~= Set::<u32>::empty());
            0
        } else {
            let n = self.entries.len();
            let m = self.entries[n - 1].0;
            proof {
                self.lemma_entry(n - 1);
                assert(self@.contains_key(m));
                assert forall|j: u32| #[trigger] self@.contains_key(j) implies j <= m by {
                    let i = choose|i: int| 0 <= i < self.entries@.len() && self.entries@[i].0 == j;
                    assert(self.bits()[i] == j);
                    assert(self.bits()[n - 1] == m);
                    if i < n - 1 {
                        assert(self.bits()[i] < self.bits()[n - 1]);
                    }
                }
                assert(!self@.dom().is_empty()) by {
                    assert(self@.dom().contains(m));
                }
                let c = choose|k: u32| self@.contains_key(k) && forall|j: u32| #[trigger] self@.contains_key(j) ==> j <= k;
                assert(c <= m && m <= c);
            }
            m
        }
    }
}

} // verus!

verus! {

/// A class with its full permission set, indexed by 0-based bit position.
pub struct ResolvedClass {
    pub name: String,
    pub perms: BitNames,
}

pub struct SpecResolvedClass {
    pub name: Seq<char>,
    pub perms: Map<u32, Seq<char>>,
}

impl View for ResolvedClass {
    type V = SpecResolvedClass;

    open spec fn view(&self) -> SpecResolvedClass {
        SpecResolvedClass { name: self.name@, perms: self.perms@ }
    }
}

pub open spec fn class_views(m: Map<u32, ResolvedClass>) -> Map<u32, SpecResolvedClass> {
    m.map_values(|c: ResolvedClass| c@)
}

/// Each permission added at its value minus one (wrapping), later ones
/// replacing earlier ones at the same bit.
pub open spec fn add_perms(m: Map<u32, Seq<char>>, perms: Seq<SpecPerm>) -> Map<u32, Seq<char>>
    decreases perms.len(),
{
    if perms.len() == 0 {
        m
    } else {
        add_perms(m, perms.drop_last()).insert(
            vstd::wrapping::u32_specs::wrapping_sub(perms.last().value, 1),
            perms.last().name,
        )
    }
}

/// A class's permissions: those of its common (when it names one that
/// exists), then its own.
pub open spec fn class_perms(cd: SpecClassDatum, commons: Map<Seq<char>, Seq<SpecPerm>>) -> Map<u32, Seq<char>> {
    let base = match cd.common_name {
        Some(cn) => if commons.contains_key(cn) {
            add_perms(Map::empty(), commons[cn])
        } else {
            Map::empty()
        },
        None => Map::empty(),
    };
    add_perms(base, cd.perms)
}

/// Resolving classes in order: each class's ordered permission names under
/// its name, and the resolved class under its value.
pub open spec fn resolve_all(
    classes: Seq<SpecClassDatum>,
    commons: Map<Seq<char>, Seq<SpecPerm>>,
    named: Map<Seq<char>, Seq<Seq<char>>>,
    by_value: Map<u32, SpecResolvedClass>,
) -> (Map<Seq<char>, Seq<Seq<char>>>, Map<u32, SpecResolvedClass>)
    decreases classes.len(),
{
    if classes.len() == 0 {
        (named, by_value)
    } else {
        let (n, v) = resolve_all(classes.drop_last(), commons, named, by_value);
        let cd = classes.last();
        let perms = class_perms(cd, commons);
        (
            n.insert(cd.name, ordered_names(perms)),
            v.insert(cd.value, SpecResolvedClass { name: cd.name, perms }),
        )
    }
}

fn add_perms_to(m: &mut BitNames, perms: &Vec<Perm>)
    ensures
        final(m)@ == add_perms(old(m)@, perm_views(perms@)),
{
    let ghost start = m@;
    let mut i: usize = 0;
    while i < perms.len()
        invariant
            i <= perms@.len(),
            m@ == add_perms(start, perm_views(perms@).subrange(0, i as int)),
        decreases perms@.len() - i,
    {
        let p = &perms[i];
        m.insert(p.value.wrapping_sub(1), p.name.clone());
        assert(perm_views(perms@).subrange(0, i + 1).drop_last() =~= perm_views(perms@).subrange(0, i as int));
        i = i + 1;
    }
    assert(perm_views(perms@).subrange(0, perms@.len() as int) =~= perm_views(perms@));
}

/// Merges common and class-specific permissions of every class.
pub fn resolve_classes(
    classes: &Vec<ClassDatum>,
    commons: &NameMap<Vec<Perm>>,
    named: &mut NameMap<Vec<String>>,
    by_value: &mut HashMap<u32, ResolvedClass>,
)
    ensures
        (final(named)@, class_views(final(by_value)@)) == resolve_all(
            classes@.map_values(|c: ClassDatum| c@),
            commons@,
            old(named)@,
            class_views(old(by_value)@),
        ),
{
    let ghost cvs = classes@.map_values(|c: ClassDatum| c@);
    let mut i: usize = 0;
    assert(cvs.subrange(0, 0) =~= Seq::<SpecClassDatum>::empty());
    while i < classes.len()
        invariant
            i <= classes@.len(),
            cvs == classes@.map_values(|c: ClassDatum| c@),
            (named@, class_views(by_value@)) == resolve_all(
                cvs.subrange(0, i as int),
                commons@,
                old(named)@,
                class_views(old(by_value)@),
            ),
        decreases classes@.len() - i,
    {
        let cd = &classes[i];
        let mut perms = BitNames::new();
        match &cd.common_name {
            Some(cn) => {
                match commons.get(cn.as_str()) {
                    Some(common_perms) => {
                        assert(common_perms.deep_view() =~= perm_views(common_perms@));
                        add_perms_to(&mut perms, common_perms);
                    },
                    None => {},
                }
            },
            None => {},
        }
        add_perms_to(&mut perms, &cd.perms);
        assert(perms@ == class_perms(cd@, commons@));
        let ordered = perms.ordered();
        assert(ordered.deep_view() =~= views(ordered@));
        named.insert(cd.name.clone(), ordered);
        let ghost pv = perms@;
        let ghost before_bv = class_views(by_value@);
        by_value.insert(cd.value, ResolvedClass { name: cd.name.clone(), perms });
        proof {
            let now = cvs.subrange(0, i + 1);
            assert(now.drop_last() =~= cvs.subrange(0, i as int));
            assert(now.last() == cd@);
            assert(class_views(by_value@) =~= before_bv.insert(cd.value, SpecResolvedClass { name: cd.name@, perms: pv }));
        }
        i = i + 1;
    }
    assert(cvs.subrange(0, classes@.len() as int) =~= cvs);
}

} // verus!
