//! Parser for the SELinux kernel binary policy (`policydb`) format.
//!
//! Targets the format used by Android's `sepolicy` / `precompiled_sepolicy`
//! blobs and by `/sys/fs/selinux/policy` on a live system. The layout follows
//! the kernel's `policydb_read`: header, leading policy-capability /
//! permissive / never-audit ebitmaps, the symbol tables (each preceded by its
//! own `(nprim, nel)` counts), the access-vector table, conditional rules,
//! role and filename transitions, object and genfs contexts, MLS range
//! transitions, and finally the type-attribute map.
//!
//! `sp_parse` states the whole format as a function of the bytes; `parse`
//! computes it.

use vstd::prelude::*;
use vstd::utf8::{valid_utf8, decode_utf8};
use std::collections::HashMap;
use crate::policy::{Policy, SpecPolicy, empty_policy};
use crate::reader::{Reader, SpecResult, sp_u32, sp_bytes, sp_ebitmap, sp_skip_ebitmap, follows};
use crate::resolve::{ResolvedClass, SpecResolvedClass, resolve_all, resolve_classes, class_views};
use crate::tables::{SymState, Symbols, sym_state, empty_symbols, sp_tables, read_tables,
    name_map};
use crate::constraint::{constraints_of, add_constraints};
use crate::sections::{sp_avtab, read_avtab, sp_cond_list, read_cond_list, sp_roles_rules,
    skip_roles_rules, sp_filename_trans, read_filename_trans, sp_ocons, skip_ocons, sp_genfs,
    read_genfs, sp_range_trans, skip_range_trans, sp_type_attr_map, read_type_attr_map};
use crate::text::{dec, hex_padded, push_str, push_dec, push_hex_padded};

verus! {

pub const SELINUX_MAGIC: u32 = 0xF97C_FF8C;

// policydb version gates (kernel policy).
pub const V_AVTAB: u32 = 20;
pub const V_POLCAP: u32 = 22;
pub const V_PERMISSIVE: u32 = 23;
pub const V_FILENAME_TRANS: u32 = 25;
pub const V_NEVERAUDIT: u32 = 34;

// ---------------------------------------------------------------------------
// Header
// ---------------------------------------------------------------------------

/// The message for a blob that does not start with the policy magic.
pub open spec fn bad_magic_msg(magic: u32) -> Seq<char> {
    "not a SELinux kernel policy (magic "@ + hex_padded(magic as nat, 10) + ", expected "@
        + hex_padded(SELINUX_MAGIC as nat, 10) + ")"@
}

/// The message for a version outside 15..=35.
pub open spec fn bad_version_msg(version: u32) -> Seq<char> {
    "unsupported policy version "@ + dec(version as nat)
}

/// The name of a known policy capability.
pub open spec fn known_cap_text(bit: u32) -> Seq<char> {
    if bit == 0 {
        "network_peer_controls"@
    } else if bit == 1 {
        "open_perms"@
    } else if bit == 2 {
        "extended_socket_class"@
    } else if bit == 3 {
        "always_check_network"@
    } else if bit == 4 {
        "cgroup_seclabel"@
    } else if bit == 5 {
        "nnp_nosuid_transition"@
    } else if bit == 6 {
        "genfs_seclabel_symlinks"@
    } else if bit == 7 {
        "ioctl_skip_cloexec"@
    } else if bit == 8 {
        "userspace_initial_context"@
    } else if bit == 9 {
        "netlink_xperm"@
    } else if bit == 10 {
        "netif_wildcard"@
    } else {
        "genfs_seclabel_wildcard"@
    }
}

/// The name of policy capability `bit`: one of the twelve known names, else
/// `policycap_N`.
pub open spec fn policycap_text(bit: u32) -> Seq<char> {
    if bit < 12 {
        known_cap_text(bit)
    } else {
        "policycap_"@ + dec(bit as nat)
    }
}

/// The capability names of the set bits.
pub open spec fn cap_names(bits: Seq<u32>) -> Set<Seq<char>> {
    bits.map_values(|b: u32| policycap_text(b)).to_set()
}

/// The leading ebitmaps: policy capabilities (version 22 on), then the
/// permissive map (23 on) and the never-audit map (34 on), both skipped.
pub open spec fn sp_leading_maps(d: Seq<u8>, p: nat, version: u32, pol: SpecPolicy) -> SpecResult<SpecPolicy> {
    let r1: SpecResult<SpecPolicy> = if version >= V_POLCAP {
        match sp_ebitmap(d, p) {
            Err(e) => Err(e),
            Ok((bits, q)) => Ok((SpecPolicy { policycaps: pol.policycaps + cap_names(bits), ..pol }, q)),
        }
    } else {
        Ok((pol, p))
    };
    match r1 {
        Err(e) => Err(e),
        Ok((pol1, p1)) => {
            let r2: SpecResult<()> = if version >= V_PERMISSIVE { sp_skip_ebitmap(d, p1) } else { Ok(((), p1)) };
            match r2 {
                Err(e) => Err(e),
                Ok((_, p2)) => if version >= V_NEVERAUDIT {
                    match sp_skip_ebitmap(d, p2) {
                        Err(e) => Err(e),
                        Ok((_, p3)) => Ok((pol1, p3)),
                    }
                } else {
                    Ok((pol1, p2))
                },
            }
        },
    }
}

/// The header: magic, policy kind string, version, config (bit 0: MLS),
/// symbol-table and object-context counts, then the leading ebitmaps. It
/// yields the policy so far and the two counts.
pub open spec fn sp_header(d: Seq<u8>, pol: SpecPolicy) -> SpecResult<(SpecPolicy, u32, u32)> {
    match sp_u32(d, 0) {
        Err(e) => Err(e),
        Ok((magic, p1)) => if magic != SELINUX_MAGIC {
            Err((bad_magic_msg(magic), p1))
        } else {
            match sp_u32(d, p1) {
                Err(e) => Err(e),
                Ok((str_len, p2)) => match sp_bytes(d, p2, str_len as nat) {
                    Err(e) => Err(e),
                    Ok((kind, p3)) => match sp_u32(d, p3) {
                        Err(e) => Err(e),
                        Ok((version, p4)) => if !(15 <= version && version <= 35) {
                            Err((bad_version_msg(version), p4))
                        } else {
                            match sp_u32(d, p4) {
                                Err(e) => Err(e),
                                Ok((config, p5)) => match sp_u32(d, p5) {
                                    Err(e) => Err(e),
                                    Ok((sym_num, p6)) => match sp_u32(d, p6) {
                                        Err(e) => Err(e),
                                        Ok((oclass_num, p7)) => {
                                            let pol1 = SpecPolicy {
                                                policy_kind: lossy_text(kind),
                                                version,
                                                mls: config & 1 != 0,
                                                ..pol
                                            };
                                            match sp_leading_maps(d, p7, version, pol1) {
                                                Err(e) => Err(e),
                                                Ok((pol2, p8)) => Ok(((pol2, sym_num, oclass_num), p8)),
                                            }
                                        },
                                    },
                                },
                            }
                        },
                    },
                },
            }
        },
    }
}

/// What `String::from_utf8_lossy` makes of a byte sequence.
pub uninterp spec fn lossy_text(bytes: Seq<u8>) -> Seq<char>;

#[verifier::external_body]
/// `String::from_utf8_lossy`, made owned. The contract names its result and
/// claims what its documentation promises: valid UTF-8 comes back decoded
/// unchanged. What replaces invalid sequences is left unsaid.
fn utf8_lossy(bytes: &[u8]) -> (s: String)
    ensures
        s@ == lossy_text(bytes@),
        valid_utf8(bytes@) ==> s@ == decode_utf8(bytes@),
{
    String::from_utf8_lossy(bytes).into_owned()
}

fn known_cap(bit: u32) -> (s: &'static str)
    requires
        bit < 12,
    ensures
        s@ == known_cap_text(bit),
{
    if bit == 0 {
        "network_peer_controls"
    } else if bit == 1 {
        "open_perms"
    } else if bit == 2 {
        "extended_socket_class"
    } else if bit == 3 {
        "always_check_network"
    } else if bit == 4 {
        "cgroup_seclabel"
    } else if bit == 5 {
        "nnp_nosuid_transition"
    } else if bit == 6 {
        "genfs_seclabel_symlinks"
    } else if bit == 7 {
        "ioctl_skip_cloexec"
    } else if bit == 8 {
        "userspace_initial_context"
    } else if bit == 9 {
        "netlink_xperm"
    } else if bit == 10 {
        "netif_wildcard"
    } else {
        "genfs_seclabel_wildcard"
    }
}

/// The name of policy capability `bit`.
pub fn policycap_name(bit: u32) -> (s: String)
    ensures
        s@ == policycap_text(bit),
{
    let mut s = String::new();
    if bit < 12 {
        push_str(&mut s, known_cap(bit));
    } else {
        push_str(&mut s, "policycap_");
        push_dec(&mut s, bit as u64);
    }
    assert(s@ =~= policycap_text(bit));
    s
}

fn add_caps(bits: &Vec<u32>, policy: &mut Policy)
    ensures
        final(policy)@ == (SpecPolicy { policycaps: old(policy)@.policycaps + cap_names(bits@), ..old(policy)@ }),
{
    let ghost before = policy@;
    let ghost names = bits@.map_values(|b: u32| policycap_text(b));
    let mut i: usize = 0;
    assert(names.subrange(0, 0).to_set() =~= Set::<Seq<char>>::empty());
    assert(policy@ =~= (SpecPolicy { policycaps: before.policycaps + names.subrange(0, 0).to_set(), ..before }));
    while i < bits.len()
        invariant
            i <= bits@.len(),
            names == bits@.map_values(|b: u32| policycap_text(b)),
            policy@ == (SpecPolicy { policycaps: before.policycaps + names.subrange(0, i as int).to_set(), ..before }),
        decreases bits@.len() - i,
    {
        let name = policycap_name(bits[i]);
        let ghost prev = policy@;
        policy.policycaps.insert(name);
        proof {
            let pre = names.subrange(0, i as int);
            assert(names.subrange(0, i + 1) =~= pre.push(names[i as int]));
            pre.lemma_push_to_set_commute(names[i as int]);
            assert(policy@.policycaps =~= before.policycaps + names.subrange(0, i + 1).to_set());
            assert(policy@ =~= (SpecPolicy { policycaps: before.policycaps + names.subrange(0, i + 1).to_set(), ..before }));
        }
        i = i + 1;
    }
    assert(names.subrange(0, bits@.len() as int) =~= names);
}

fn read_leading_maps(r: &mut Reader, version: u32, policy: &mut Policy) -> (res: Result<(), String>)
    ensures
        final(r).bytes() == old(r).bytes(),
        match sp_leading_maps(old(r).bytes(), old(r).at(), version, old(policy)@) {
            Ok((pol, q)) => res is Ok && final(policy)@ == pol && final(r).at() == q,
            Err((m, _)) => res is Err && res->Err_0@ == m,
        },
{
    if version >= V_POLCAP {
        let bits = r.read_ebitmap()?;
        add_caps(&bits, policy);
    }
    if version >= V_PERMISSIVE {
        r.skip_ebitmap()?;  // permissive map (per-type permissive flags)
    }
    if version >= V_NEVERAUDIT {
        r.skip_ebitmap()?;  // never-audit map
    }
    Ok(())
}

fn read_header(r: &mut Reader, policy: &mut Policy) -> (res: Result<(u32, u32), String>)
    requires
        old(r).at() == 0,
    ensures
        final(r).bytes() == old(r).bytes(),
        match sp_header(old(r).bytes(), old(policy)@) {
            Ok(((pol, sym_num, oclass_num), q)) => res == Ok::<(u32, u32), String>((sym_num, oclass_num))
                && final(policy)@ == pol && final(r).at() == q,
            Err((m, _)) => res is Err && res->Err_0@ == m,
        },
{
    let magic = r.read_u32()?;
    if magic != SELINUX_MAGIC {
        let mut e = String::new();
        push_str(&mut e, "not a SELinux kernel policy (magic ");
        push_hex_padded(&mut e, magic as u64, 10);
        push_str(&mut e, ", expected ");
        push_hex_padded(&mut e, SELINUX_MAGIC as u64, 10);
        push_str(&mut e, ")");
        assert(e@ =~= bad_magic_msg(magic));
        return Err(e);
    }
    let str_len = r.read_u32()?;
    let kind = r.read_bytes(str_len as usize)?;
    let policy_kind = utf8_lossy(kind);

    let version = r.read_u32()?;
    if !(15 <= version && version <= 35) {
        let mut e = String::new();
        push_str(&mut e, "unsupported policy version ");
        push_dec(&mut e, version as u64);
        assert(e@ =~= bad_version_msg(version));
        return Err(e);
    }
    let config = r.read_u32()?;
    let sym_num = r.read_u32()?;
    let oclass_num = r.read_u32()?;
    policy.policy_kind = policy_kind;
    policy.version = version;
    policy.mls = config & 1 != 0;
    read_leading_maps(r, version, policy)?;
    Ok((sym_num, oclass_num))
}

// ---------------------------------------------------------------------------
// Rule sections
// ---------------------------------------------------------------------------

/// Everything after the symbol tables, given the type names, the resolved
/// classes, the attribute names and the number of type values: the
/// access-vector table, conditional lists, role rules, filename transitions
/// (version 25 on), object contexts, genfs contexts, MLS range transitions
/// and the type-attribute map (version 20 on).
pub open spec fn sp_rules_at(
    d: Seq<u8>,
    p: nat,
    pol: SpecPolicy,
    oclass_num: u32,
    tn: Map<u32, Seq<char>>,
    cm: Map<u32, SpecResolvedClass>,
    attr_names: Set<Seq<char>>,
    nprim: u32,
) -> SpecResult<SpecPolicy> {
    let version = pol.version;
    let mls = pol.mls;
    match sp_avtab(d, p, tn, cm, pol) {
        Err(e) => Err(e),
        Ok((pol1, p1)) => match sp_cond_list(d, p1, tn, cm, pol1) {
            Err(e) => Err(e),
            Ok((pol2, p2)) => match sp_roles_rules(d, p2, version) {
                Err(e) => Err(e),
                Ok((_, p3)) => {
                    let r4: SpecResult<SpecPolicy> = if version >= V_FILENAME_TRANS {
                        sp_filename_trans(d, p3, version, tn, cm, pol2)
                    } else {
                        Ok((pol2, p3))
                    };
                    match r4 {
                        Err(e) => Err(e),
                        Ok((pol3, p4)) => match sp_ocons(d, p4, oclass_num as nat, mls) {
                            Err(e) => Err(e),
                            Ok((_, p5)) => match sp_genfs(d, p5, tn, mls, pol3) {
                                Err(e) => Err(e),
                                Ok((pol4, p6)) => match sp_range_trans(d, p6, version, mls) {
                                    Err(e) => Err(e),
                                    Ok((_, p7)) => if version >= V_AVTAB {
                                        match sp_type_attr_map(d, p7, nprim as nat, tn, attr_names, pol4) {
                                            Err(e) => Err(e),
                                            Ok((pol5, p8)) => Ok((pol5, p8)),
                                        }
                                    } else {
                                        Ok((pol4, p7))
                                    },
                                },
                            },
                        },
                    }
                },
            },
        },
    }
}

/// The rules part of the blob (see `sp_rules_at`): the policy, or the
/// message of what stopped it.
pub open spec fn sp_rules(
    d: Seq<u8>,
    p: nat,
    pol: SpecPolicy,
    oclass_num: u32,
    tn: Map<u32, Seq<char>>,
    cm: Map<u32, SpecResolvedClass>,
    attr_names: Set<Seq<char>>,
    nprim: u32,
) -> Result<SpecPolicy, Seq<char>> {
    match sp_rules_at(d, p, pol, oclass_num, tn, cm, attr_names, nprim) {
        Err((m, _)) => Err(m),
        Ok((pol1, _)) => Ok(pol1),
    }
}

/// The result of a parse, by view.
pub open spec fn parse_outcome(r: Result<Policy, String>) -> Result<SpecPolicy, Seq<char>> {
    match r {
        Ok(p) => Ok(p@),
        Err(e) => Err(e@),
    }
}

fn read_rules(
    r: &mut Reader,
    oclass_num: u32,
    tn: &HashMap<u32, String>,
    cm: &HashMap<u32, ResolvedClass>,
    attr_names: &crate::collections::NameSet,
    nprim: u32,
    policy: &mut Policy,
) -> (res: Result<(), String>)
    ensures
        match sp_rules(old(r).bytes(), old(r).at(), old(policy)@, oclass_num, name_map(tn@), class_views(cm@), attr_names@, nprim) {
            Ok(pol) => res is Ok && final(policy)@ == pol,
            Err(m) => res is Err && res->Err_0@ == m,
        },
{
    let version = policy.version;
    let mls = policy.mls;

    // ---- Access-vector table ----
    read_avtab(r, tn, cm, policy)?;

    // ---- Conditional rules ----
    read_cond_list(r, tn, cm, policy)?;

    // ---- Role transitions and role allows ----
    skip_roles_rules(r, version)?;

    // ---- Filename transitions ----
    if version >= V_FILENAME_TRANS {
        read_filename_trans(r, version, tn, cm, policy)?;
    }

    // ---- Object contexts ----
    skip_ocons(r, oclass_num, mls)?;

    // ---- genfs contexts ----
    read_genfs(r, tn, mls, policy)?;

    // ---- MLS range transitions ----
    skip_range_trans(r, version, mls)?;

    // ---- Type-attribute map: type value -> set of its attributes ----
    if version >= V_AVTAB {
        read_type_attr_map(r, nprim, tn, attr_names, policy)?;
    }
    Ok(())
}

// ---------------------------------------------------------------------------
// The whole blob
// ---------------------------------------------------------------------------

/// The policy after the symbol tables: classes resolved against their
/// commons, constraints rendered.
pub open spec fn after_tables(s: SymState) -> (SpecPolicy, Map<u32, SpecResolvedClass>) {
    let (named, cm) = resolve_all(s.classes, s.commons, s.pol.classes, Map::empty());
    (
        SpecPolicy {
            classes: named,
            constraints: s.pol.constraints + constraints_of(s.raw, cm, s.type_names, s.role_names, s.user_names),
            ..s.pol
        },
        cm,
    )
}

/// A kernel binary policy blob, parsed: the policy and the position after
/// the last byte read, or the message of the first thing that stopped the
/// parse and where.
pub open spec fn sp_parse_at(d: Seq<u8>) -> SpecResult<SpecPolicy> {
    match sp_header(d, empty_policy()) {
        Err(e) => Err(e),
        Ok(((pol, sym_num, oclass_num), p)) => match sp_tables(d, p, sym_num as nat, pol.version, pol.mls, empty_symbols(pol)) {
            Err(e) => Err(e),
            Ok((s, p1)) => {
                let (pol1, cm) = after_tables(s);
                sp_rules_at(d, p1, pol1, oclass_num, s.type_names, cm, s.attr_names, s.types_nprim)
            },
        },
    }
}

/// A kernel binary policy blob, parsed: the policy, or the message of the
/// first thing that stopped the parse.
pub open spec fn sp_parse(d: Seq<u8>) -> Result<SpecPolicy, Seq<char>> {
    match sp_parse_at(d) {
        Err((m, _)) => Err(m),
        Ok((pol, _)) => Ok(pol),
    }
}

/// Parse a kernel binary policy blob into a queryable [`Policy`].
pub fn parse(data: &[u8]) -> (r: Result<Policy, String>)
    ensures
        parse_outcome(r) == sp_parse(data@),
{
    let mut r = Reader::new(data);
    let mut policy = Policy::default();

    // ---- Header and leading ebitmaps ----
    let (sym_num, oclass_num) = read_header(&mut r, &mut policy)?;
    let version = policy.version;
    let mls = policy.mls;

    // ---- Symbol tables (each preceded by its own nprim/nel) ----
    let mut sym = Symbols::new();
    assert(sym_state(&policy, &sym) =~= empty_symbols(policy@));
    read_tables(&mut r, sym_num, version, mls, &mut policy, &mut sym)?;
    let ghost s = sym_state(&policy, &sym);

    // ---- Resolve classes (merge common + class-specific perms) ----
    let mut class_map: HashMap<u32, ResolvedClass> = HashMap::new();
    assert(class_views(class_map@) =~= Map::<u32, SpecResolvedClass>::empty());
    resolve_classes(&sym.classes, &sym.commons, &mut policy.classes, &mut class_map);

    // ---- Render constraints (now that name maps exist) ----
    add_constraints(&sym.raw, &class_map, &sym.type_names, &sym.role_names, &sym.user_names, &mut policy);
    assert(policy@ =~= after_tables(s).0);

    // ---- The rule sections ----
    read_rules(&mut r, oclass_num, &sym.type_names, &class_map, &sym.attr_names, sym.types_nprim, &mut policy)?;
    Ok(policy)
}

} // verus!

verus! {

/// A blob that does not begin with the policy magic is refused, and the
/// message names the value found and the value expected.
pub proof fn law_bad_magic_refused(d: Seq<u8>)
    requires
        d.len() >= 4,
        crate::reader::le32(d.subrange(0, 4)) != SELINUX_MAGIC,
    ensures
        sp_parse(d) == Err::<SpecPolicy, Seq<char>>(bad_magic_msg(crate::reader::le32(d.subrange(0, 4)))),
{
}

/// A blob too short to hold the magic is refused with the end-of-input
/// message for the first read.
pub proof fn law_short_blob_refused(d: Seq<u8>)
    requires
        d.len() < 4,
    ensures
        sp_parse(d) == Err::<SpecPolicy, Seq<char>>(crate::reader::eof_msg(0, 4, d.len())),
{
}

} // verus!
