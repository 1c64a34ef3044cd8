//! Access-vector table entries: allow / auditallow / dontaudit rules,
//! type rules, and extended-permission (ioctl) rules whose command bitmaps
//! are decoded into coalesced ranges.

use vstd::prelude::*;
use crate::order::{views, sort_strings, sort_spec, lemma_sort_spec, sorted};
use crate::resolve::{ResolvedClass, SpecResolvedClass, increasing, sorted_elements,
    lemma_sorted_elements, max_bit, class_views};
use crate::policy::{Policy, SpecPolicy, AvKind, AvRule, SpecAvRule, XpermKind, XpermRule,
    SpecXpermRule, TeKind, TeRule, SpecTeRule};
use crate::reader::{Reader, SpecResult, sp_u8, sp_u16, sp_u32, sp_bytes, le32, follows_state,
    outcome};
use crate::text::{dec, push_str, push_dec, owned};
use crate::tables::name_map;
use std::collections::HashMap;

verus! {

// ---------------------------------------------------------------------------
// Permission masks
// ---------------------------------------------------------------------------

/// The names of the bits below `k` that are set in `mask` and named in `m`,
/// in bit order.
pub open spec fn mask_names(mask: u32, m: Map<u32, Seq<char>>, k: nat) -> Seq<Seq<char>>
    decreases k,
{
    if k == 0 {
        Seq::empty()
    } else {
        let bit = (k - 1) as u32;
        mask_names(mask, m, (k - 1) as nat) + if mask & (1u32 << bit) != 0 && m.contains_key(bit) {
            seq![m[bit]]
        } else {
            Seq::empty()
        }
    }
}

/// The permissions a 32-bit access vector grants on a class, in the order of
/// `str`.
pub open spec fn decoded_perms(mask: u32, m: Map<u32, Seq<char>>) -> Seq<Seq<char>> {
    sort_spec(mask_names(mask, m, 32))
}

/// The names of the permissions set in `mask`, sorted.
pub fn decode_perms(mask: u32, class: &ResolvedClass) -> (r: Vec<String>)
    ensures
        views(r@) == decoded_perms(mask, class.perms@),
        sorted(views(r@)),
        views(r@).to_multiset() == mask_names(mask, class.perms@, 32).to_multiset(),
{
    let mut perms: Vec<String> = Vec::new();
    let mut bit: u32 = 0;
    while bit < 32
        invariant
            bit <= 32,
            views(perms@) == mask_names(mask, class.perms@, bit as nat),
        decreases 32 - bit,
    {
        if mask & (1u32 << bit) != 0 {
            match class.perms.get(bit) {
                Some(name) => {
                    perms.push(name.clone());
                },
                None => {},
            }
        }
        assert(views(perms@) =~= mask_names(mask, class.perms@, (bit + 1) as nat));
        bit = bit + 1;
    }
    let sorted = sort_strings(perms);
    proof {
        lemma_sort_spec(views(sorted@), views(perms@));
    }
    sorted
}

// ---------------------------------------------------------------------------
// Command ranges
// ---------------------------------------------------------------------------

/// Ranges of consecutive values, in order, built from a strictly increasing
/// sequence: each value extends the last range when it follows it directly,
/// and starts a new one otherwise.
pub open spec fn ranges_of(s: Seq<u32>) -> Seq<(u32, u32)>
    decreases s.len(),
{
    if s.len() == 0 {
        Seq::empty()
    } else {
        let rs = ranges_of(s.drop_last());
        let c = s.last();
        if rs.len() > 0 && c == rs.last().1 + 1 {
            rs.update(rs.len() - 1, (rs.last().0, c))
        } else {
            rs.push((c, c))
        }
    }
}

/// The command numbers as inclusive ranges of consecutive values.
pub open spec fn coalesced(cmds: Seq<u32>) -> Seq<(u32, u32)> {
    ranges_of(sorted_elements(cmds.to_set()))
}

/// Ranges that are each non-empty, in increasing order, and separated by at
/// least one missing value.
pub open spec fn canonical_ranges(rs: Seq<(u32, u32)>) -> bool {
    &&& forall|i: int| 0 <= i < rs.len() ==> (#[trigger] rs[i]).0 <= rs[i].1
    &&& forall|i: int, j: int| 0 <= i < j < rs.len() ==> #[trigger] rs[i].1 + 1 < #[trigger] rs[j].0
}

/// Whether some range holds `x`.
pub open spec fn covered(rs: Seq<(u32, u32)>, x: u32) -> bool {
    exists|i: int| 0 <= i < rs.len() && (#[trigger] rs[i]).0 <= x <= rs[i].1
}

/// The ranges of a strictly increasing sequence are canonical, end at its
/// last value, and cover exactly its values.
pub proof fn lemma_ranges_of(s: Seq<u32>)
    requires
        increasing(s),
    ensures
        canonical_ranges(ranges_of(s)),
        s.len() > 0 ==> ranges_of(s).len() > 0 && ranges_of(s).last().1 == s.last(),
        s.len() == 0 ==> ranges_of(s).len() == 0,
        forall|x: u32| s.contains(x) <==> covered(ranges_of(s), x),
    decreases s.len(),
{
    if s.len() > 0 {
        let t = s.drop_last();
        assert(increasing(t)) by {
            assert forall|i: int, j: int| 0 <= i < j < t.len() implies #[trigger] t[i] < #[trigger] t[j] by {
                assert(t[i] == s[i] && t[j] == s[j]);
            }
        }
        lemma_ranges_of(t);
        let rs = ranges_of(t);
        let c = s.last();
        let out = ranges_of(s);
        if t.len() > 0 {
            assert(t.last() == s[s.len() - 2]);
            assert(s[s.len() - 2] < c);
        }
        assert forall|x: u32| s.contains(x) <==> covered(out, x) by {
            if s.contains(x) {
                let k = choose|k: int| 0 <= k < s.len() && s[k] == x;
                if k < s.len() - 1 {
                    assert(t[k] == x);
                    assert(t.contains(x));
                    let i = choose|i: int| 0 <= i < rs.len() && (#[trigger] rs[i]).0 <= x <= rs[i].1;
                    assert(out[i].0 <= x <= out[i].1);
                } else {
                    assert(out[out.len() - 1].0 <= x <= out[out.len() - 1].1);
                }
            }
            if covered(out, x) {
                let i = choose|i: int| 0 <= i < out.len() && (#[trigger] out[i]).0 <= x <= out[i].1;
                if i < rs.len() && out[i] == rs[i] {
                    assert(covered(rs, x));
                    assert(t.contains(x));
                    let k = choose|k: int| 0 <= k < t.len() && t[k] == x;
                    assert(s[k] == x);
                } else if x == c {
                    assert(s[s.len() - 1] == x);
                } else {
                    // x lies in the last range of `t`, extended by `c`.
                    assert(i == rs.len() - 1);
                    assert(rs[i].0 <= x <= rs[i].1);
                    assert(covered(rs, x));
                    assert(t.contains(x));
                    let k = choose|k: int| 0 <= k < t.len() && t[k] == x;
                    assert(s[k] == x);
                }
            }
        }
    }
}

/// Sorts `cmds` into a strictly increasing sequence without repeats.
/// Already sorted input takes linear time.
fn sort_dedup(cmds: &Vec<u32>) -> (r: Vec<u32>)
    ensures
        increasing(r@),
        r@.to_set() == cmds@.to_set(),
{
    let mut out: Vec<u32> = Vec::new();
    let mut i: usize = 0;
    assert(out@.to_set() =~= cmds@.subrange(0, 0).to_set());
    while i < cmds.len()
        invariant
            i <= cmds@.len(),
            increasing(out@),
            out@.to_set() == cmds@.subrange(0, i as int).to_set(),
        decreases cmds@.len() - i,
    {
        let c = cmds[i];
        let mut k: usize = out.len();
        while k > 0 && out[k - 1] > c
            invariant
                k <= out@.len(),
                increasing(out@),
                forall|j: int| k <= j < out@.len() ==> #[trigger] out@[j] > c,
            decreases k,
        {
            k = k - 1;
        }
        let ghost before = out@;
        proof {
            assert forall|j: int| 0 <= j < k implies #[trigger] before[j] <= c by {
                if j < k - 1 {
                    assert(before[j] < before[k - 1]);
                }
            }
        }
        if k > 0 && out[k - 1] == c {
            assert(cmds@.subrange(0, i + 1).to_set() =~= cmds@.subrange(0, i as int).to_set().insert(c)) by {
                assert(cmds@.subrange(0, i + 1) =~= cmds@.subrange(0, i as int).push(c));
                cmds@.subrange(0, i as int).lemma_push_to_set_commute(c);
            }
            assert(before.to_set().contains(c)) by {
                assert(before[k - 1] == c);
            }
            assert(before.to_set().insert(c) =~= before.to_set());
        } else {
            out.insert(k, c);
            proof {
                assert(out@ =~= before.insert(k as int, c));
                assert forall|a: int, b: int| 0 <= a < b < out@.len() implies #[trigger] out@[a] < #[trigger] out@[b] by {
                    if b < k {
                    } else if b == k {
                        assert(before[a] <= c);
                        assert(before[a] != c || a < k - 1);
                        if a == k - 1 {
                        } else {
                            assert(before[a] < before[k - 1]);
                        }
                    } else if a < k {
                        assert(out@[b] == before[b - 1]);
                        assert(before[b - 1] > c);
                    } else if a == k {
                        assert(out@[b] == before[b - 1]);
                    } else {
                        assert(out@[a] == before[a - 1]);
                        assert(out@[b] == before[b - 1]);
                    }
                }
                assert(cmds@.subrange(0, i + 1) =~= cmds@.subrange(0, i as int).push(c));
                assert forall|x: u32| #[trigger] out@.to_set().contains(x) <==> before.to_set().insert(c).contains(x) by {
                    if out@.contains(x) {
                        let j = choose|j: int| 0 <= j < out@.len() && out@[j] == x;
                        if j < k {
                            assert(before[j] == x);
                        } else if j > k {
                            assert(before[j - 1] == x);
                        }
                    }
                    if before.contains(x) {
                        let j = choose|j: int| 0 <= j < before.len() && before[j] == x;
                        if j < k {
                            assert(out@[j] == x);
                        } else {
                            assert(out@[j + 1] == x);
                        }
                    }
                    if x == c {
                        assert(out@[k as int] == c);
                    }
                }
                assert(out@.to_set() =~= before.to_set().insert(c));
                cmds@.subrange(0, i as int).lemma_push_to_set_commute(c);
                assert(cmds@.subrange(0, i + 1).to_set() =~= cmds@.subrange(0, i as int).to_set().insert(c));
            }
        }
        i = i + 1;
    }
    assert(cmds@.subrange(0, cmds@.len() as int) =~= cmds@);
    out
}

/// Coalesce a list of command numbers into inclusive ranges.
pub fn coalesce(cmds: Vec<u32>) -> (r: Vec<(u32, u32)>)
    ensures
        r@ == coalesced(cmds@),
        canonical_ranges(r@),
        forall|x: u32| cmds@.contains(x) <==> covered(r@, x),
{
    let sorted = sort_dedup(&cmds);
    proof {
        lemma_sorted_elements(sorted@);
        lemma_ranges_of(sorted@);
    }
    let mut ranges: Vec<(u32, u32)> = Vec::new();
    let mut i: usize = 0;
    while i < sorted.len()
        invariant
            i <= sorted@.len(),
            increasing(sorted@),
            ranges@ == ranges_of(sorted@.subrange(0, i as int)),
            i > 0 ==> ranges@.len() > 0 && ranges@.last().1 == sorted@[i - 1],
        decreases sorted@.len() - i,
    {
        let c = sorted[i];
        let ghost prefix = sorted@.subrange(0, i + 1);
        assert(prefix.drop_last() =~= sorted@.subrange(0, i as int));
        let n = ranges.len();
        if n > 0 && c - 1 == ranges[n - 1].1 {
            let lo = ranges[n - 1].0;
            ranges.set(n - 1, (lo, c));
        } else {
            proof {
                if n > 0 {
                    assert(sorted@[i - 1] < c);
                }
            }
            ranges.push((c, c));
        }
        i = i + 1;
    }
    assert(sorted@.subrange(0, sorted@.len() as int) =~= sorted@);
    proof {
        assert(sorted@.to_set() == cmds@.to_set());
        assert forall|x: u32| cmds@.contains(x) <==> covered(ranges@, x) by {
            assert(sorted@.contains(x) <==> sorted@.to_set().contains(x));
            assert(cmds@.contains(x) <==> cmds@.to_set().contains(x));
        }
    }
    ranges
}

} // verus!

verus! {

// ---------------------------------------------------------------------------
// Entries
// ---------------------------------------------------------------------------

/// The name of a type value, or `type#N` when it has none.
pub open spec fn type_label(tn: Map<u32, Seq<char>>, v: u32) -> Seq<char> {
    if tn.contains_key(v) {
        tn[v]
    } else {
        "type#"@ + dec(v as nat)
    }
}

/// The name of a class value, or `class#N` when there is no such class.
pub open spec fn class_label(cm: Map<u32, SpecResolvedClass>, v: u32) -> Seq<char> {
    if cm.contains_key(v) {
        cm[v].name
    } else {
        "class#"@ + dec(v as nat)
    }
}

/// The set bits below `k` of a 32-bit word, each offset by `base`.
pub open spec fn word_bits(word: u32, base: nat, k: nat) -> Seq<u32>
    decreases k,
{
    if k == 0 {
        Seq::empty()
    } else {
        word_bits(word, base, (k - 1) as nat) + if word & (1u32 << ((k - 1) as u32)) != 0 {
            seq![(base + k - 1) as u32]
        } else {
            Seq::empty()
        }
    }
}

/// The set bits of the first `w` little-endian words of a bitmap.
pub open spec fn map_set_bits(map: Seq<u8>, w: nat) -> Seq<u32>
    decreases w,
{
    if w == 0 {
        Seq::empty()
    } else {
        map_set_bits(map, (w - 1) as nat) + word_bits(
            le32(map.subrange(4 * (w - 1), (4 * w) as int)),
            32 * (w - 1) as nat,
            32,
        )
    }
}

/// Every command of each whole driver in `drivers`.
pub open spec fn driver_cmds(drivers: Seq<u32>) -> Seq<u32>
    decreases drivers.len(),
{
    if drivers.len() == 0 {
        Seq::empty()
    } else {
        driver_cmds(drivers.drop_last()) + Seq::new(256, |f: int| (drivers.last() * 256 + f) as u32)
    }
}

/// The ioctl commands an extended-permission bitmap allows: functions of one
/// driver, whole drivers, or the raw bits for other kinds.
pub open spec fn xperm_cmds(xspec: u8, driver: u8, bits: Seq<u32>) -> Seq<u32> {
    if xspec == 1 {
        bits.map_values(|b: u32| (driver * 256 + b) as u32)
    } else if xspec == 2 {
        driver_cmds(bits)
    } else {
        bits
    }
}

pub open spec fn xperm_kind(specified: u16) -> XpermKind {
    if specified & 0x0100 != 0 {
        XpermKind::AllowXperm
    } else if specified & 0x0200 != 0 {
        XpermKind::AuditAllowXperm
    } else {
        XpermKind::DontAuditXperm
    }
}

pub open spec fn te_kind(specified: u16) -> TeKind {
    if specified & 0x0010 != 0 {
        TeKind::Transition
    } else if specified & 0x0020 != 0 {
        TeKind::Member
    } else {
        TeKind::Change
    }
}

/// All bits of a class's permissions up to its greatest bit.
pub open spec fn full_mask(max: u32) -> u32 {
    if max < 31 {
        ((1u32 << ((max + 1) as u32)) - 1) as u32
    } else {
        u32::MAX
    }
}

/// A rule of one kind for the permissions in `mask`, unless it grants none.
pub open spec fn av_one(
    av: Seq<SpecAvRule>,
    kind: AvKind,
    src: Seq<char>,
    tgt: Seq<char>,
    class: SpecResolvedClass,
    mask: u32,
    conditional: bool,
) -> Seq<SpecAvRule> {
    let perms = decoded_perms(mask, class.perms);
    if perms.len() == 0 {
        av
    } else {
        av.push(SpecAvRule { kind, source: src, target: tgt, class: class.name, perms, conditional })
    }
}

/// The allow, auditallow and dontaudit rules of an entry; dontaudit is the
/// complement of the stored auditdeny vector within the class's permissions.
pub open spec fn av_emitted(
    av: Seq<SpecAvRule>,
    specified: u16,
    src: Seq<char>,
    tgt: Seq<char>,
    class: SpecResolvedClass,
    datum: u32,
    conditional: bool,
) -> Seq<SpecAvRule> {
    let a1 = if specified & 0x0001 != 0 {
        av_one(av, AvKind::Allow, src, tgt, class, datum, conditional)
    } else {
        av
    };
    let a2 = if specified & 0x0002 != 0 {
        av_one(a1, AvKind::AuditAllow, src, tgt, class, datum, conditional)
    } else {
        a1
    };
    if specified & 0x0004 != 0 {
        av_one(a2, AvKind::DontAudit, src, tgt, class, !datum & full_mask(max_bit(class.perms)), conditional)
    } else {
        a2
    }
}

/// The effect of an extended-permission entry.
pub open spec fn xperm_apply(
    pol: SpecPolicy,
    tn: Map<u32, Seq<char>>,
    cm: Map<u32, SpecResolvedClass>,
    s: u32,
    t: u32,
    c: u32,
    specified: u16,
    xspec: u8,
    driver: u8,
    map: Seq<u8>,
) -> SpecPolicy {
    if tn.contains_key(s) && tn.contains_key(t) && cm.contains_key(c) {
        let cmds = xperm_cmds(xspec, driver, map_set_bits(map, 8));
        if cmds.len() == 0 {
            pol
        } else {
            SpecPolicy {
                xperm_rules: pol.xperm_rules.push(
                    SpecXpermRule {
                        kind: xperm_kind(specified),
                        source: tn[s],
                        target: tn[t],
                        class: cm[c].name,
                        op: "ioctl"@,
                        ranges: coalesced(cmds),
                    },
                ),
                ..pol
            }
        }
    } else {
        pol
    }
}

/// The effect of an access-vector or type-rule entry.
pub open spec fn plain_apply(
    pol: SpecPolicy,
    tn: Map<u32, Seq<char>>,
    cm: Map<u32, SpecResolvedClass>,
    s: u32,
    t: u32,
    c: u32,
    specified: u16,
    datum: u32,
    conditional: bool,
) -> SpecPolicy {
    if tn.contains_key(s) && tn.contains_key(t) && cm.contains_key(c) {
        if specified & 0x0070 != 0 {
            SpecPolicy {
                te_rules: pol.te_rules.push(
                    SpecTeRule {
                        kind: te_kind(specified),
                        source: tn[s],
                        target: tn[t],
                        class: cm[c].name,
                        default: type_label(tn, datum),
                        object_name: None,
                    },
                ),
                ..pol
            }
        } else {
            SpecPolicy {
                av_rules: av_emitted(pol.av_rules, specified, tn[s], tn[t], cm[c], datum, conditional),
                ..pol
            }
        }
    } else {
        pol
    }
}

/// The rest of an extended-permission entry: kind byte, driver byte,
/// 32-byte bitmap.
pub open spec fn sp_xperm_tail(
    d: Seq<u8>,
    p: nat,
    tn: Map<u32, Seq<char>>,
    cm: Map<u32, SpecResolvedClass>,
    s: u32,
    t: u32,
    c: u32,
    specified: u16,
    pol: SpecPolicy,
) -> SpecResult<SpecPolicy> {
    match sp_u8(d, p) {
        Err(e) => Err(e),
        Ok((xspec, p5)) => match sp_u8(d, p5) {
            Err(e) => Err(e),
            Ok((driver, p6)) => match sp_bytes(d, p6, 32) {
                Err(e) => Err(e),
                Ok((map, p7)) => Ok((xperm_apply(pol, tn, cm, s, t, c, specified, xspec, driver, map), p7)),
            },
        },
    }
}

/// The rest of any other entry: the `u32` datum.
pub open spec fn sp_plain_tail(
    d: Seq<u8>,
    p: nat,
    tn: Map<u32, Seq<char>>,
    cm: Map<u32, SpecResolvedClass>,
    s: u32,
    t: u32,
    c: u32,
    specified: u16,
    conditional: bool,
    pol: SpecPolicy,
) -> SpecResult<SpecPolicy> {
    match sp_u32(d, p) {
        Err(e) => Err(e),
        Ok((datum, p5)) => Ok((plain_apply(pol, tn, cm, s, t, c, specified, datum, conditional), p5)),
    }
}

/// An access-vector table entry: source, target, class and `specified`
/// (four `u16`s), then for extended permissions a kind byte, a driver byte
/// and a 32-byte bitmap, or otherwise a `u32` datum. Entries naming an
/// unknown type or class add nothing.
pub open spec fn sp_avtab_entry(
    d: Seq<u8>,
    p: nat,
    tn: Map<u32, Seq<char>>,
    cm: Map<u32, SpecResolvedClass>,
    conditional: bool,
    pol: SpecPolicy,
) -> SpecResult<SpecPolicy> {
    match sp_u16(d, p) {
        Err(e) => Err(e),
        Ok((source, p1)) => match sp_u16(d, p1) {
        Err(e) => Err(e),
        Ok((target, p2)) => match sp_u16(d, p2) {
        Err(e) => Err(e),
        Ok((tclass, p3)) => match sp_u16(d, p3) {
        Err(e) => Err(e),
        Ok((specified, p4)) => if specified & 0x0700 != 0 {
            sp_xperm_tail(d, p4, tn, cm, source as u32, target as u32, tclass as u32, specified, pol)
        } else {
            sp_plain_tail(d, p4, tn, cm, source as u32, target as u32, tclass as u32, specified, conditional, pol)
        },
        }}},
    }
}

} // verus!

verus! {

/// The set bits of a 32-byte bitmap of eight little-endian words.
fn set_bits_of(map: &[u8]) -> (bits: Vec<u32>)
    requires
        map@.len() == 32,
    ensures
        bits@ == map_set_bits(map@, 8),
        forall|i: int| 0 <= i < bits@.len() ==> #[trigger] bits@[i] < 256,
{
    let mut bits: Vec<u32> = Vec::new();
    let mut w: usize = 0;
    while w < 8
        invariant
            w <= 8,
            map@.len() == 32,
            bits@ == map_set_bits(map@, w as nat),
            forall|i: int| 0 <= i < bits@.len() ==> #[trigger] bits@[i] < 32 * w,
        decreases 8 - w,
    {
        let word = map[4 * w] as u32 + 256 * (map[4 * w + 1] as u32) + 65536 * (map[4 * w + 2] as u32)
            + 16777216 * (map[4 * w + 3] as u32);
        assert(word == le32(map@.subrange(4 * w as int, (4 * (w + 1)) as int)));
        let ghost before = bits@;
        let mut bit: u32 = 0;
        while bit < 32
            invariant
                w < 8,
                bit <= 32,
                bits@ == before + word_bits(word, (32 * w) as nat, bit as nat),
                forall|i: int| 0 <= i < bits@.len() ==> #[trigger] bits@[i] < 32 * w + bit,
            decreases 32 - bit,
        {
            if word & (1u32 << bit) != 0 {
                bits.push(32 * (w as u32) + bit);
            }
            assert(bits@ =~= before + word_bits(word, (32 * w) as nat, (bit + 1) as nat));
            bit = bit + 1;
        }
        w = w + 1;
    }
    bits
}

/// The commands an extended-permission entry allows.
fn xperm_cmds_of(xspec: u8, driver: u8, bits: &Vec<u32>) -> (cmds: Vec<u32>)
    requires
        forall|i: int| 0 <= i < bits@.len() ==> #[trigger] bits@[i] < 256,
    ensures
        cmds@ == xperm_cmds(xspec, driver, bits@),
{
    let mut cmds: Vec<u32> = Vec::new();
    if xspec == 1 {
        let mut i: usize = 0;
        while i < bits.len()
            invariant
                i <= bits@.len(),
                forall|j: int| 0 <= j < bits@.len() ==> #[trigger] bits@[j] < 256,
                cmds@ == bits@.subrange(0, i as int).map_values(|b: u32| (driver * 256 + b) as u32),
            decreases bits@.len() - i,
        {
            cmds.push((driver as u32) * 256 + bits[i]);
            assert(cmds@ =~= bits@.subrange(0, i + 1).map_values(|b: u32| (driver * 256 + b) as u32));
            i = i + 1;
        }
        assert(bits@.subrange(0, bits@.len() as int) =~= bits@);
        cmds
    } else if xspec == 2 {
        let mut i: usize = 0;
        while i < bits.len()
            invariant
                i <= bits@.len(),
                forall|j: int| 0 <= j < bits@.len() ==> #[trigger] bits@[j] < 256,
                cmds@ == driver_cmds(bits@.subrange(0, i as int)),
            decreases bits@.len() - i,
        {
            let b = bits[i];
            let ghost before = cmds@;
            let mut f: u32 = 0;
            while f < 256
                invariant
                    b < 256,
                    f <= 256,
                    cmds@ == before + Seq::new(f as nat, |g: int| (b * 256 + g) as u32),
                decreases 256 - f,
            {
                cmds.push(b * 256 + f);
                assert(cmds@ =~= before + Seq::new((f + 1) as nat, |g: int| (b * 256 + g) as u32));
                f = f + 1;
            }
            assert(bits@.subrange(0, i + 1).drop_last() =~= bits@.subrange(0, i as int));
            i = i + 1;
        }
        assert(bits@.subrange(0, bits@.len() as int) =~= bits@);
        cmds
    } else {
        let mut i: usize = 0;
        while i < bits.len()
            invariant
                i <= bits@.len(),
                cmds@ == bits@.subrange(0, i as int),
            decreases bits@.len() - i,
        {
            cmds.push(bits[i]);
            assert(cmds@ =~= bits@.subrange(0, i + 1));
            i = i + 1;
        }
        assert(bits@.subrange(0, bits@.len() as int) =~= bits@);
        cmds
    }
}

/// Adds a rule of one kind for the permissions in `mask`, unless it grants
/// none.
fn push_av(
    policy: &mut Policy,
    kind: AvKind,
    src: &String,
    tgt: &String,
    class: &ResolvedClass,
    mask: u32,
    conditional: bool,
)
    ensures
        final(policy)@ == (SpecPolicy {
            av_rules: av_one(old(policy)@.av_rules, kind, src@, tgt@, class@, mask, conditional),
            ..old(policy)@
        }),
{
    let perms = decode_perms(mask, class);
    if perms.len() == 0 {
        assert(final(policy)@ =~= (SpecPolicy {
            av_rules: av_one(old(policy)@.av_rules, kind, src@, tgt@, class@, mask, conditional),
            ..old(policy)@
        }));
        return;
    }
    let ghost before = policy@;
    policy.av_rules.push(
        AvRule {
            kind,
            source: src.clone(),
            target: tgt.clone(),
            class: class.name.clone(),
            perms,
            conditional,
        },
    );
    assert(policy@.av_rules =~= av_one(before.av_rules, kind, src@, tgt@, class@, mask, conditional));
    assert(policy@ =~= (SpecPolicy {
        av_rules: av_one(before.av_rules, kind, src@, tgt@, class@, mask, conditional),
        ..before
    }));
}

/// `1 << k` is at least one for `k` below 32.
proof fn lemma_shift_positive(k: u32)
    requires
        k < 32,
    ensures
        (1u32 << k) >= 1,
{
    assert(k < 32 ==> (1u32 << k) >= 1) by (bit_vector);
}

} // verus!

verus! {

fn read_xperm_tail(
    r: &mut Reader,
    tn: &HashMap<u32, String>,
    cm: &HashMap<u32, ResolvedClass>,
    policy: &mut Policy,
    s: u32,
    t: u32,
    c: u32,
    specified: u16,
) -> (res: Result<(), String>)
    ensures
        final(r).bytes() == old(r).bytes(),
        follows_state(
            sp_xperm_tail(old(r).bytes(), old(r).at(), name_map(tn@), class_views(cm@), s, t, c, specified, old(policy)@),
            outcome(res),
            final(policy)@,
            final(r).at(),
        ),
{
    let xspec = r.read_u8()?;
    let driver = r.read_u8()?;
    let map_bytes = r.read_bytes(32)?;
    let (src, tgt, class) = match (tn.get(&s), tn.get(&t), cm.get(&c)) {
        (Some(src), Some(tgt), Some(class)) => (src, tgt, class),
        _ => {
            return Ok(());
        },
    };
    let bits = set_bits_of(map_bytes);
    let cmds = xperm_cmds_of(xspec, driver, &bits);
    if cmds.len() == 0 {
        return Ok(());
    }
    let kind = if specified & 0x0100 != 0 {
        XpermKind::AllowXperm
    } else if specified & 0x0200 != 0 {
        XpermKind::AuditAllowXperm
    } else {
        XpermKind::DontAuditXperm
    };
    let ghost before = policy@;
    let ranges = coalesce(cmds);
    policy.xperm_rules.push(
        XpermRule {
            kind,
            source: src.clone(),
            target: tgt.clone(),
            class: class.name.clone(),
            op: owned("ioctl"),
            ranges,
        },
    );
    assert(policy@ =~= xperm_apply(before, name_map(tn@), class_views(cm@), s, t, c, specified, xspec, driver, map_bytes@));
    Ok(())
}

fn read_plain_tail(
    r: &mut Reader,
    tn: &HashMap<u32, String>,
    cm: &HashMap<u32, ResolvedClass>,
    policy: &mut Policy,
    s: u32,
    t: u32,
    c: u32,
    specified: u16,
    conditional: bool,
) -> (res: Result<(), String>)
    ensures
        final(r).bytes() == old(r).bytes(),
        follows_state(
            sp_plain_tail(old(r).bytes(), old(r).at(), name_map(tn@), class_views(cm@), s, t, c, specified, conditional, old(policy)@),
            outcome(res),
            final(policy)@,
            final(r).at(),
        ),
{
    let datum = r.read_u32()?;
    let (src, tgt, class) = match (tn.get(&s), tn.get(&t), cm.get(&c)) {
        (Some(src), Some(tgt), Some(class)) => (src, tgt, class),
        _ => {
            return Ok(());
        },
    };
    let ghost before = policy@;
    let ghost tnv = name_map(tn@);
    let ghost cmv = class_views(cm@);
    // type_transition / type_member / type_change: datum is a type value.
    if specified & 0x0070u16 != 0 {
        let kind = if specified & 0x0010 != 0 {
            TeKind::Transition
        } else if specified & 0x0020 != 0 {
            TeKind::Member
        } else {
            TeKind::Change
        };
        let default = label_of_type(tn, datum);
        policy.te_rules.push(
            TeRule {
                kind,
                source: src.clone(),
                target: tgt.clone(),
                class: class.name.clone(),
                default,
                object_name: None,
            },
        );
        assert(policy@ =~= plain_apply(before, tnv, cmv, s, t, c, specified, datum, conditional));
        return Ok(());
    }
    if specified & 0x0001 != 0 {
        push_av(policy, AvKind::Allow, src, tgt, class, datum, conditional);
    }
    if specified & 0x0002 != 0 {
        push_av(policy, AvKind::AuditAllow, src, tgt, class, datum, conditional);
    }
    if specified & 0x0004 != 0 {
        // auditdeny stores the perms that ARE audited on denial; dontaudit is
        // the complement against the class's full permission set.
        let max = class.perms.max_bit();
        let full = if max < 31 {
            proof {
                lemma_shift_positive((max + 1) as u32);
            }
            (1u32 << (max + 1)) - 1
        } else {
            u32::MAX
        };
        let dontaudit_mask = !datum & full;
        push_av(policy, AvKind::DontAudit, src, tgt, class, dontaudit_mask, conditional);
    }
    assert(policy@ =~= plain_apply(before, tnv, cmv, s, t, c, specified, datum, conditional));
    Ok(())
}

/// The name of a type value, or `type#N` when it has none.
pub fn label_of_type(tn: &HashMap<u32, String>, v: u32) -> (s: String)
    ensures
        s@ == type_label(name_map(tn@), v),
{
    match tn.get(&v) {
        Some(name) => name.clone(),
        None => {
            let mut s = String::new();
            push_str(&mut s, "type#");
            push_dec(&mut s, v as u64);
            s
        },
    }
}

/// The name of a class value, or `class#N` when there is no such class.
pub fn label_of_class(cm: &HashMap<u32, ResolvedClass>, v: u32) -> (s: String)
    ensures
        s@ == class_label(class_views(cm@), v),
{
    match cm.get(&v) {
        Some(class) => class.name.clone(),
        None => {
            let mut s = String::new();
            push_str(&mut s, "class#");
            push_dec(&mut s, v as u64);
            s
        },
    }
}

pub fn read_avtab_entry(
    r: &mut Reader,
    tn: &HashMap<u32, String>,
    cm: &HashMap<u32, ResolvedClass>,
    policy: &mut Policy,
    conditional: bool,
) -> (res: Result<(), String>)
    ensures
        final(r).bytes() == old(r).bytes(),
        follows_state(
            sp_avtab_entry(old(r).bytes(), old(r).at(), name_map(tn@), class_views(cm@), conditional, old(policy)@),
            outcome(res),
            final(policy)@,
            final(r).at(),
        ),
{
    let source = r.read_u16()? as u32;
    let target = r.read_u16()? as u32;
    let tclass = r.read_u16()? as u32;
    let specified = r.read_u16()?;
    // Extended permissions (ioctl / nlmsg whitelists).
    if specified & 0x0700 != 0 {
        read_xperm_tail(r, tn, cm, policy, source, target, tclass, specified)
    } else {
        read_plain_tail(r, tn, cm, policy, source, target, tclass, specified, conditional)
    }
}

} // verus!

verus! {

/// An extended-permission entry on a known source, target and class that
/// names at least one command appends exactly one rule, for those names,
/// and leaves the other rules alone. Its kind follows the specified word:
/// with ALLOWED (0x0100) it is `allowxperm`; with AUDITALLOW (0x0200) and
/// without ALLOWED it is `auditallowxperm`; with neither (DONTAUDIT, 0x0400)
/// it is `dontauditxperm`.
pub proof fn law_xperm_entry_kind(
    pol: SpecPolicy,
    tn: Map<u32, Seq<char>>,
    cm: Map<u32, SpecResolvedClass>,
    s: u32,
    t: u32,
    c: u32,
    specified: u16,
    xspec: u8,
    driver: u8,
    map: Seq<u8>,
)
    requires
        tn.contains_key(s),
        tn.contains_key(t),
        cm.contains_key(c),
        xperm_cmds(xspec, driver, map_set_bits(map, 8)).len() > 0,
    ensures
        ({
            let after = xperm_apply(pol, tn, cm, s, t, c, specified, xspec, driver, map);
            let r = after.xperm_rules.last();
            &&& after.xperm_rules.len() == pol.xperm_rules.len() + 1
            &&& after.xperm_rules.drop_last() == pol.xperm_rules
            &&& after.av_rules == pol.av_rules
            &&& after.te_rules == pol.te_rules
            &&& r.source == tn[s] && r.target == tn[t] && r.class == cm[c].name
            &&& (specified & 0x0100 != 0 ==> r.kind == XpermKind::AllowXperm)
            &&& (specified & 0x0100 == 0 && specified & 0x0200 != 0 ==> r.kind == XpermKind::AuditAllowXperm)
            &&& (specified & 0x0100 == 0 && specified & 0x0200 == 0 ==> r.kind == XpermKind::DontAuditXperm)
        }),
{
    let after = xperm_apply(pol, tn, cm, s, t, c, specified, xspec, driver, map);
    assert(after.xperm_rules.drop_last() =~= pol.xperm_rules);
}

/// A type-rule entry (one of TRANSITION 0x0010, MEMBER 0x0020, CHANGE
/// 0x0040 set) on a known source, target and class appends exactly one type
/// rule, with the entry's names and its datum's type as the default, and
/// leaves the access-vector rules alone. Its kind follows the specified
/// word: TRANSITION gives `type_transition`; MEMBER without TRANSITION gives
/// `type_member`; CHANGE alone gives `type_change`.
pub proof fn law_type_entry_kind(
    pol: SpecPolicy,
    tn: Map<u32, Seq<char>>,
    cm: Map<u32, SpecResolvedClass>,
    s: u32,
    t: u32,
    c: u32,
    specified: u16,
    datum: u32,
    conditional: bool,
)
    requires
        tn.contains_key(s),
        tn.contains_key(t),
        cm.contains_key(c),
        specified & 0x0010 != 0 || specified & 0x0020 != 0 || specified & 0x0040 != 0,
    ensures
        ({
            let after = plain_apply(pol, tn, cm, s, t, c, specified, datum, conditional);
            let r = after.te_rules.last();
            &&& after.te_rules.len() == pol.te_rules.len() + 1
            &&& after.te_rules.drop_last() == pol.te_rules
            &&& after.av_rules == pol.av_rules
            &&& after.xperm_rules == pol.xperm_rules
            &&& r.source == tn[s] && r.target == tn[t] && r.class == cm[c].name
            &&& r.default == type_label(tn, datum)
            &&& r.object_name is None
            &&& (specified & 0x0010 != 0 ==> r.kind == TeKind::Transition)
            &&& (specified & 0x0010 == 0 && specified & 0x0020 != 0 ==> r.kind == TeKind::Member)
            &&& (specified & 0x0010 == 0 && specified & 0x0020 == 0 ==> r.kind == TeKind::Change)
        }),
{
    assert(specified & 0x0070 != 0) by (bit_vector)
        requires
            specified & 0x0010 != 0 || specified & 0x0020 != 0 || specified & 0x0040 != 0,
    ;
    let after = plain_apply(pol, tn, cm, s, t, c, specified, datum, conditional);
    assert(after.te_rules.drop_last() =~= pol.te_rules);
}

/// The rules an access-vector entry on a known source, target and class
/// adds, in order: with ALLOWED (0x0001) an `allow` rule for the
/// permissions of its datum, with AUDITALLOW (0x0002) an `auditallow` rule
/// for them, with AUDITDENY (0x0004) a `dontaudit` rule for the class's
/// permissions its datum leaves out; each only when it names some
/// permission. The other rules are left alone.
pub proof fn law_av_entry_rules(
    pol: SpecPolicy,
    tn: Map<u32, Seq<char>>,
    cm: Map<u32, SpecResolvedClass>,
    s: u32,
    t: u32,
    c: u32,
    specified: u16,
    datum: u32,
    conditional: bool,
)
    requires
        tn.contains_key(s),
        tn.contains_key(t),
        cm.contains_key(c),
        specified & 0x0070 == 0,
    ensures
        ({
            let after = plain_apply(pol, tn, cm, s, t, c, specified, datum, conditional);
            let class = cm[c];
            let granted = decoded_perms(datum, class.perms);
            let denied = decoded_perms(!datum & full_mask(max_bit(class.perms)), class.perms);
            let rule = |kind: AvKind, perms: Seq<Seq<char>>|
                SpecAvRule { kind, source: tn[s], target: tn[t], class: class.name, perms, conditional };
            &&& after.av_rules == pol.av_rules
                + (if specified & 0x0001 != 0 && granted.len() > 0 { seq![rule(AvKind::Allow, granted)] } else { Seq::empty() })
                + (if specified & 0x0002 != 0 && granted.len() > 0 { seq![rule(AvKind::AuditAllow, granted)] } else { Seq::empty() })
                + (if specified & 0x0004 != 0 && denied.len() > 0 { seq![rule(AvKind::DontAudit, denied)] } else { Seq::empty() })
            &&& after.te_rules == pol.te_rules
            &&& after.xperm_rules == pol.xperm_rules
        }),
{
    let after = plain_apply(pol, tn, cm, s, t, c, specified, datum, conditional);
    let class = cm[c];
    let granted = decoded_perms(datum, class.perms);
    let denied = decoded_perms(!datum & full_mask(max_bit(class.perms)), class.perms);
    let rule = |kind: AvKind, perms: Seq<Seq<char>>|
        SpecAvRule { kind, source: tn[s], target: tn[t], class: class.name, perms, conditional };
    let a1 = if specified & 0x0001 != 0 && granted.len() > 0 { seq![rule(AvKind::Allow, granted)] } else { Seq::empty() };
    let a2 = if specified & 0x0002 != 0 && granted.len() > 0 { seq![rule(AvKind::AuditAllow, granted)] } else { Seq::empty() };
    let a3 = if specified & 0x0004 != 0 && denied.len() > 0 { seq![rule(AvKind::DontAudit, denied)] } else { Seq::empty() };
    let v1 = if specified & 0x0001 != 0 {
        av_one(pol.av_rules, AvKind::Allow, tn[s], tn[t], class, datum, conditional)
    } else {
        pol.av_rules
    };
    assert(v1 =~= pol.av_rules + a1);
    let v2 = if specified & 0x0002 != 0 {
        av_one(v1, AvKind::AuditAllow, tn[s], tn[t], class, datum, conditional)
    } else {
        v1
    };
    assert(v2 =~= pol.av_rules + a1 + a2);
    assert(after.av_rules =~= pol.av_rules + a1 + a2 + a3);
}

} // verus!
