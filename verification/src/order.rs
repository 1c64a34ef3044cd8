//! The order of strings (byte-wise lexicographic on their UTF-8 encodings,
//! which is the order of `str`), and sorting a vector of strings by it.

use vstd::prelude::*;
use vstd::utf8::{encode_utf8, encode_utf8_decode_utf8};

verus! {

/// Strict lexicographic order on byte sequences.
pub open spec fn bytes_lt(a: Seq<u8>, b: Seq<u8>) -> bool
    decreases a.len(),
{
    if a.len() == 0 {
        b.len() > 0
    } else if b.len() == 0 {
        false
    } else if a[0] != b[0] {
        a[0] < b[0]
    } else {
        bytes_lt(a.drop_first(), b.drop_first())
    }
}

/// Strict order on strings: that of their UTF-8 encodings.
pub open spec fn str_lt(a: Seq<char>, b: Seq<char>) -> bool {
    bytes_lt(encode_utf8(a), encode_utf8(b))
}

/// Non-strict order on strings.
pub open spec fn str_le(a: Seq<char>, b: Seq<char>) -> bool {
    a == b || str_lt(a, b)
}

/// In non-decreasing order.
pub open spec fn sorted(s: Seq<Seq<char>>) -> bool {
    forall|i: int, j: int| 0 <= i < j < s.len() ==> str_le(#[trigger] s[i], #[trigger] s[j])
}

/// The characters of each string.
pub open spec fn views(v: Seq<String>) -> Seq<Seq<char>> {
    v.map_values(|s: String| s@)
}

pub proof fn lemma_bytes_lt_irreflexive(a: Seq<u8>)
    ensures
        !bytes_lt(a, a),
    decreases a.len(),
{
    if a.len() > 0 {
        lemma_bytes_lt_irreflexive(a.drop_first());
    }
}

pub proof fn lemma_bytes_lt_transitive(a: Seq<u8>, b: Seq<u8>, c: Seq<u8>)
    requires
        bytes_lt(a, b),
        bytes_lt(b, c),
    ensures
        bytes_lt(a, c),
    decreases a.len(),
{
    if a.len() > 0 && b.len() > 0 && c.len() > 0 && a[0] == b[0] && b[0] == c[0] {
        lemma_bytes_lt_transitive(a.drop_first(), b.drop_first(), c.drop_first());
    }
}

pub proof fn lemma_bytes_lt_total(a: Seq<u8>, b: Seq<u8>)
    requires
        a != b,
    ensures
        bytes_lt(a, b) || bytes_lt(b, a),
    decreases a.len(),
{
    if a.len() == 0 && b.len() == 0 {
        assert(a =~= b);
    }
    if a.len() > 0 && b.len() > 0 && a[0] == b[0] {
        if a.drop_first() == b.drop_first() {
            assert(a =~= seq![a[0]] + a.drop_first());
            assert(b =~= seq![b[0]] + b.drop_first());
        }
        lemma_bytes_lt_total(a.drop_first(), b.drop_first());
    }
}

pub proof fn lemma_str_lt_irreflexive(a: Seq<char>)
    ensures
        !str_lt(a, a),
{
    lemma_bytes_lt_irreflexive(encode_utf8(a));
}

pub proof fn lemma_str_lt_transitive(a: Seq<char>, b: Seq<char>, c: Seq<char>)
    requires
        str_lt(a, b),
        str_lt(b, c),
    ensures
        str_lt(a, c),
{
    lemma_bytes_lt_transitive(encode_utf8(a), encode_utf8(b), encode_utf8(c));
}

pub proof fn lemma_str_lt_total(a: Seq<char>, b: Seq<char>)
    requires
        a != b,
    ensures
        str_lt(a, b) || str_lt(b, a),
{
    encode_utf8_decode_utf8(a);
    encode_utf8_decode_utf8(b);
    lemma_bytes_lt_total(encode_utf8(a), encode_utf8(b));
}

/// Whether `a` comes strictly before `b` in the order of `str`.
pub fn str_less(a: &str, b: &str) -> (r: bool)
    ensures
        r == str_lt(a@, b@),
{
    let x = a.as_bytes();
    let y = b.as_bytes();
    let ghost ex = x@;
    let ghost ey = y@;
    let mut i: usize = 0;
    assert(ex.skip(0) =~= ex);
    assert(ey.skip(0) =~= ey);
    while i < x.len() && i < y.len() && x[i] == y[i]
        invariant
            ex == x@,
            ey == y@,
            i <= x@.len(),
            i <= y@.len(),
            x@ == encode_utf8(a@),
            y@ == encode_utf8(b@),
            bytes_lt(ex, ey) == bytes_lt(ex.skip(i as int), ey.skip(i as int)),
        decreases x@.len() - i,
    {
        assert(ex.skip(i as int).drop_first() =~= ex.skip(i + 1));
        assert(ey.skip(i as int).drop_first() =~= ey.skip(i + 1));
        i = i + 1;
    }
    if i == x.len() {
        i < y.len()
    } else if i == y.len() {
        false
    } else {
        x[i] < y[i]
    }
}

/// Whether two strings have the same characters.
pub fn str_equal(a: &str, b: &str) -> (r: bool)
    ensures
        r == (a@ == b@),
{
    let r = !str_less(a, b) && !str_less(b, a);
    proof {
        if a@ != b@ {
            lemma_str_lt_total(a@, b@);
        } else {
            lemma_str_lt_irreflexive(a@);
        }
    }
    r
}

/// `str_le` is transitive.
proof fn lemma_str_le_transitive(a: Seq<char>, b: Seq<char>, c: Seq<char>)
    requires
        str_le(a, b),
        str_le(b, c),
    ensures
        str_le(a, c),
{
    if a != b && b != c {
        lemma_str_lt_transitive(a, b, c);
    }
}

/// Merges two sorted vectors into one.
fn merge(a: &Vec<String>, b: &Vec<String>) -> (r: Vec<String>)
    requires
        sorted(views(a@)),
        sorted(views(b@)),
    ensures
        sorted(views(r@)),
        views(r@).to_multiset() == views(a@).to_multiset().add(views(b@).to_multiset()),
{
    let ghost va = views(a@);
    let ghost vb = views(b@);
    let mut out: Vec<String> = Vec::new();
    let mut i: usize = 0;
    let mut j: usize = 0;
    assert(va.subrange(0, 0) =~= Seq::<Seq<char>>::empty());
    assert(vb.subrange(0, 0) =~= Seq::<Seq<char>>::empty());
    assert(views(out@) =~= Seq::<Seq<char>>::empty());
    proof {
        let e = Seq::<Seq<char>>::empty();
        vstd::seq_lib::lemma_multiset_commutative(e, e);
        assert(e + e =~= e);
    }
    while i < a.len() || j < b.len()
        invariant
            va == views(a@),
            vb == views(b@),
            sorted(va),
            sorted(vb),
            i <= a@.len(),
            j <= b@.len(),
            sorted(views(out@)),
            views(out@).to_multiset() == va.subrange(0, i as int).to_multiset().add(
                vb.subrange(0, j as int).to_multiset(),
            ),
            views(out@).len() > 0 && i < a@.len() ==> str_le(views(out@).last(), va[i as int]),
            views(out@).len() > 0 && j < b@.len() ==> str_le(views(out@).last(), vb[j as int]),
        decreases a@.len() + b@.len() - i - j,
    {
        let ghost before = views(out@);
        let take_a = if i == a.len() {
            false
        } else if j == b.len() {
            true
        } else {
            !str_less(b[j].as_str(), a[i].as_str())
        };
        let ghost x: Seq<char>;
        if take_a {
            proof {
                x = va[i as int];
                if j < b@.len() {
                    if vb[j as int] != va[i as int] {
                        lemma_str_lt_total(vb[j as int], va[i as int]);
                    }
                }
                assert(va.subrange(0, i + 1) =~= va.subrange(0, i as int).push(x));
                vstd::seq_lib::to_multiset_build(va.subrange(0, i as int), x);
            }
            out.push(a[i].clone());
            i = i + 1;
        } else {
            proof {
                x = vb[j as int];
                assert(vb.subrange(0, j + 1) =~= vb.subrange(0, j as int).push(x));
                vstd::seq_lib::to_multiset_build(vb.subrange(0, j as int), x);
            }
            out.push(b[j].clone());
            j = j + 1;
        }
        proof {
            let after = views(out@);
            assert(after =~= before.push(x));
            vstd::seq_lib::to_multiset_build(before, x);
            assert forall|p: int, q: int| 0 <= p < q < after.len() implies str_le(
                #[trigger] after[p],
                #[trigger] after[q],
            ) by {
                if q == after.len() - 1 && p < q {
                    assert(str_le(before[p], before.last()));
                    lemma_str_le_transitive(before[p], before.last(), x);
                }
            }
            if i < a@.len() {
                assert(str_le(x, va[i as int])) by {
                    if take_a {
                        assert(str_le(va[i - 1], va[i as int]));
                    } else {
                        if vb[j - 1] != va[i as int] {
                            lemma_str_lt_total(vb[j - 1], va[i as int]);
                        }
                    }
                }
            }
            if j < b@.len() {
                assert(str_le(x, vb[j as int])) by {
                    if !take_a {
                        assert(str_le(vb[j - 1], vb[j as int]));
                    }
                }
            }
            assert(after.to_multiset() =~= va.subrange(0, i as int).to_multiset().add(
                vb.subrange(0, j as int).to_multiset(),
            ));
        }
    }
    assert(va.subrange(0, a@.len() as int) =~= va);
    assert(vb.subrange(0, b@.len() as int) =~= vb);
    out
}

/// Sorts the strings `v[lo..hi]`.
fn merge_sort(v: &Vec<String>, lo: usize, hi: usize) -> (r: Vec<String>)
    requires
        lo <= hi <= v@.len(),
    ensures
        sorted(views(r@)),
        views(r@).to_multiset() == views(v@.subrange(lo as int, hi as int)).to_multiset(),
    decreases hi - lo,
{
    if hi - lo == 0 {
        let r: Vec<String> = Vec::new();
        assert(views(r@) =~= views(v@.subrange(lo as int, hi as int)));
        r
    } else if hi - lo == 1 {
        let mut r: Vec<String> = Vec::new();
        r.push(v[lo].clone());
        assert(views(r@) =~= views(v@.subrange(lo as int, hi as int)));
        r
    } else {
        let mid = lo + (hi - lo) / 2;
        let left = merge_sort(v, lo, mid);
        let right = merge_sort(v, mid, hi);
        let r = merge(&left, &right);
        proof {
            let whole = views(v@.subrange(lo as int, hi as int));
            let l = views(v@.subrange(lo as int, mid as int));
            let h = views(v@.subrange(mid as int, hi as int));
            assert(whole =~= l + h);
            vstd::seq_lib::lemma_multiset_commutative(l, h);
        }
        r
    }
}

/// Sorts a vector of strings into the order of `str`.
pub fn sort_strings(v: Vec<String>) -> (r: Vec<String>)
    ensures
        views(r@).to_multiset() == views(v@).to_multiset(),
        sorted(views(r@)),
{
    let r = merge_sort(&v, 0, v.len());
    assert(v@.subrange(0, v@.len() as int) =~= v@);
    r
}

} // verus!

verus! {

/// The strings of `s` in the order of `str`.
pub open spec fn sort_spec(s: Seq<Seq<char>>) -> Seq<Seq<char>> {
    choose|t: Seq<Seq<char>>| sorted(t) && t.to_multiset() == s.to_multiset()
}

proof fn lemma_sorted_drop_first(a: Seq<Seq<char>>)
    requires
        sorted(a),
        a.len() > 0,
    ensures
        sorted(a.drop_first()),
{
    assert forall|i: int, j: int| 0 <= i < j < a.drop_first().len() implies str_le(
        #[trigger] a.drop_first()[i],
        #[trigger] a.drop_first()[j],
    ) by {
        assert(a.drop_first()[i] == a[i + 1]);
        assert(a.drop_first()[j] == a[j + 1]);
    }
}

/// Two sorted sequences holding the same strings are equal.
pub proof fn lemma_sorted_unique(a: Seq<Seq<char>>, b: Seq<Seq<char>>)
    requires
        sorted(a),
        sorted(b),
        a.to_multiset() == b.to_multiset(),
    ensures
        a == b,
    decreases a.len(),
{
    broadcast use vstd::seq_lib::group_to_multiset_ensures;

    assert(a.len() == b.to_multiset().len());
    if a.len() == 0 {
        assert(a =~= b);
    } else {
        assert(a.contains(a[0]));
        assert(b.to_multiset().count(a[0]) > 0);
        assert(b.contains(a[0]));
        assert(b.contains(b[0]));
        assert(a.to_multiset().count(b[0]) > 0);
        assert(a.contains(b[0]));
        let i = choose|i: int| 0 <= i < a.len() && a[i] == b[0];
        let j = choose|j: int| 0 <= j < b.len() && b[j] == a[0];
        assert(a[0] == b[0]) by {
            if i > 0 {
                assert(str_le(a[0], a[i]));
            }
            if j > 0 {
                assert(str_le(b[0], b[j]));
            }
            if a[0] != b[0] {
                lemma_str_lt_transitive(a[0], b[0], a[0]);
                lemma_str_lt_irreflexive(a[0]);
            }
        }
        vstd::seq_lib::to_multiset_remove(a, 0);
        vstd::seq_lib::to_multiset_remove(b, 0);
        assert(a.remove(0) =~= a.drop_first());
        assert(b.remove(0) =~= b.drop_first());
        lemma_sorted_drop_first(a);
        lemma_sorted_drop_first(b);
        lemma_sorted_unique(a.drop_first(), b.drop_first());
        assert(a =~= seq![a[0]] + a.drop_first());
        assert(b =~= seq![b[0]] + b.drop_first());
    }
}

/// A sorted rearrangement of `s` is `sort_spec(s)`.
pub proof fn lemma_sort_spec(t: Seq<Seq<char>>, s: Seq<Seq<char>>)
    requires
        sorted(t),
        t.to_multiset() == s.to_multiset(),
    ensures
        sort_spec(s) == t,
{
    let c = sort_spec(s);
    assert(sorted(t) && t.to_multiset() == s.to_multiset());
    lemma_sorted_unique(c, t);
}

} // verus!
