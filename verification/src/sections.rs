//! The rule sections of a policydb after its symbol tables: the
//! access-vector table, conditional rule lists, role transitions and
//! allows, filename transitions, object contexts, genfs contexts, MLS range
//! transitions and the type-attribute map.

use vstd::prelude::*;
use std::collections::HashMap;
use crate::collections::NameSet;
use crate::policy::{Policy, SpecPolicy, TeKind, TeRule, SpecTeRule, Genfs, SpecGenfs};
use crate::reader::{Reader, SpecResult, sp_u32, sp_skip, sp_string, sp_ebitmap, sp_context_type, follows,
    sp_skip_context, sp_skip_mls_range, sp_iterate, follows_state, outcome, lemma_iterate_err,
    lemma_iterate_next, lemma_iterate_zero};
use crate::resolve::{ResolvedClass, SpecResolvedClass, class_views};
use crate::tables::name_map;
use crate::avtab::{sp_avtab_entry, read_avtab_entry, type_label, class_label, label_of_type,
    label_of_class};
use crate::text::{dec, push_str, push_dec};

verus! {

// ---------------------------------------------------------------------------
// Access-vector table and conditional lists
// ---------------------------------------------------------------------------

pub open spec fn avtab_step(
    d: Seq<u8>,
    tn: Map<u32, Seq<char>>,
    cm: Map<u32, SpecResolvedClass>,
    conditional: bool,
) -> spec_fn(SpecPolicy, nat) -> SpecResult<SpecPolicy> {
    |pol: SpecPolicy, q: nat| sp_avtab_entry(d, q, tn, cm, conditional, pol)
}

/// `n` access-vector table entries.
fn read_entries(r: &mut Reader, n: u32, tn: &HashMap<u32, String>, cm: &HashMap<u32, ResolvedClass>, policy: &mut Policy, conditional: bool) -> (res: Result<(), String>)
    ensures
        final(r).bytes() == old(r).bytes(),
        follows_state(
            sp_iterate(old(r).at(), n as nat, old(policy)@, avtab_step(old(r).bytes(), name_map(tn@), class_views(cm@), conditional)),
            outcome(res),
            final(policy)@,
            final(r).at(),
        ),
{
    let ghost d = r.bytes();
    let ghost p0 = r.at();
    let ghost s0 = policy@;
    let ghost step = avtab_step(d, name_map(tn@), class_views(cm@), conditional);
    proof {
        lemma_iterate_zero(p0, s0, step);
    }
    let mut i: u32 = 0;
    while i < n
        invariant
            i <= n,
            r.bytes() == d,
            d == old(r).bytes(),
            p0 == old(r).at(),
            s0 == old(policy)@,
            step == avtab_step(d, name_map(tn@), class_views(cm@), conditional),
            sp_iterate(p0, i as nat, s0, step) == Ok::<(SpecPolicy, nat), (Seq<char>, nat)>(
                (policy@, r.at()),
            ),
        decreases n - i,
    {
        let ghost q = r.at();
        let ghost before = policy@;
        proof {
            lemma_iterate_next(p0, i as nat, s0, step, before, q);
        }
        match read_avtab_entry(r, tn, cm, policy, conditional) {
            Ok(_) => {},
            Err(e) => {
                proof {
                    lemma_iterate_err(p0, (i + 1) as nat, n as nat, s0, step);
                }
                return Err(e);
            },
        }
        i = i + 1;
    }
    Ok(())
}

/// The access-vector table: a count, then that many unconditional entries.
pub open spec fn sp_avtab(d: Seq<u8>, p: nat, tn: Map<u32, Seq<char>>, cm: Map<u32, SpecResolvedClass>, pol: SpecPolicy) -> SpecResult<SpecPolicy> {
    match sp_u32(d, p) {
        Err(e) => Err(e),
        Ok((nel, p1)) => sp_iterate(p1, nel as nat, pol, avtab_step(d, tn, cm, false)),
    }
}

pub fn read_avtab(r: &mut Reader, tn: &HashMap<u32, String>, cm: &HashMap<u32, ResolvedClass>, policy: &mut Policy) -> (res: Result<(), String>)
    ensures
        final(r).bytes() == old(r).bytes(),
        follows_state(
            sp_avtab(old(r).bytes(), old(r).at(), name_map(tn@), class_views(cm@), old(policy)@),
            outcome(res),
            final(policy)@,
            final(r).at(),
        ),
{
    let nel = r.read_u32()?;
    read_entries(r, nel, tn, cm, policy, false)
}

/// A conditional block: current state, an expression of `expr_len`
/// eight-byte nodes (skipped), then its true-list and false-list entries,
/// all marked conditional.
pub open spec fn sp_cond_node(d: Seq<u8>, p: nat, tn: Map<u32, Seq<char>>, cm: Map<u32, SpecResolvedClass>, pol: SpecPolicy) -> SpecResult<SpecPolicy> {
    match sp_u32(d, p) {
        Err(e) => Err(e),
        Ok((_cur_state, p1)) => match sp_u32(d, p1) {
            Err(e) => Err(e),
            Ok((expr_len, p2)) => match sp_skip(d, p2, expr_len as nat * 8) {
                Err(e) => Err(e),
                Ok((_, p3)) => match sp_u32(d, p3) {
                    Err(e) => Err(e),
                    Ok((true_nel, p4)) => match sp_iterate(p4, true_nel as nat, pol, avtab_step(d, tn, cm, true)) {
                        Err(e) => Err(e),
                        Ok((pol1, p5)) => match sp_u32(d, p5) {
                            Err(e) => Err(e),
                            Ok((false_nel, p6)) => sp_iterate(p6, false_nel as nat, pol1, avtab_step(d, tn, cm, true)),
                        },
                    },
                },
            },
        },
    }
}

pub open spec fn cond_step(d: Seq<u8>, tn: Map<u32, Seq<char>>, cm: Map<u32, SpecResolvedClass>) -> spec_fn(SpecPolicy, nat) -> SpecResult<SpecPolicy> {
    |pol: SpecPolicy, q: nat| sp_cond_node(d, q, tn, cm, pol)
}

fn read_cond_node(r: &mut Reader, tn: &HashMap<u32, String>, cm: &HashMap<u32, ResolvedClass>, policy: &mut Policy) -> (res: Result<(), String>)
    ensures
        final(r).bytes() == old(r).bytes(),
        follows_state(
            sp_cond_node(old(r).bytes(), old(r).at(), name_map(tn@), class_views(cm@), old(policy)@),
            outcome(res),
            final(policy)@,
            final(r).at(),
        ),
{
    let _cur_state = r.read_u32()?;
    let expr_len = r.read_u32()?;
    r.skip_wide(expr_len as u64 * 8)?;  // expr_type + bool_val per node
    let true_nel = r.read_u32()?;
    read_entries(r, true_nel, tn, cm, policy, true)?;
    let false_nel = r.read_u32()?;
    read_entries(r, false_nel, tn, cm, policy, true)
}

fn read_cond_nodes(r: &mut Reader, n: u32, tn: &HashMap<u32, String>, cm: &HashMap<u32, ResolvedClass>, policy: &mut Policy) -> (res: Result<(), String>)
    ensures
        final(r).bytes() == old(r).bytes(),
        follows_state(
            sp_iterate(old(r).at(), n as nat, old(policy)@, cond_step(old(r).bytes(), name_map(tn@), class_views(cm@))),
            outcome(res),
            final(policy)@,
            final(r).at(),
        ),
{
    let ghost d = r.bytes();
    let ghost p0 = r.at();
    let ghost s0 = policy@;
    let ghost step = cond_step(d, name_map(tn@), class_views(cm@));
    proof {
        lemma_iterate_zero(p0, s0, step);
    }
    let mut i: u32 = 0;
    while i < n
        invariant
            i <= n,
            r.bytes() == d,
            d == old(r).bytes(),
            p0 == old(r).at(),
            s0 == old(policy)@,
            step == cond_step(d, name_map(tn@), class_views(cm@)),
            sp_iterate(p0, i as nat, s0, step) == Ok::<(SpecPolicy, nat), (Seq<char>, nat)>(
                (policy@, r.at()),
            ),
        decreases n - i,
    {
        let ghost q = r.at();
        let ghost before = policy@;
        proof {
            lemma_iterate_next(p0, i as nat, s0, step, before, q);
        }
        match read_cond_node(r, tn, cm, policy) {
            Ok(_) => {},
            Err(e) => {
                proof {
                    lemma_iterate_err(p0, (i + 1) as nat, n as nat, s0, step);
                }
                return Err(e);
            },
        }
        i = i + 1;
    }
    Ok(())
}

/// The conditional rule lists: a count, then that many blocks.
pub open spec fn sp_cond_list(d: Seq<u8>, p: nat, tn: Map<u32, Seq<char>>, cm: Map<u32, SpecResolvedClass>, pol: SpecPolicy) -> SpecResult<SpecPolicy> {
    match sp_u32(d, p) {
        Err(e) => Err(e),
        Ok((nel, p1)) => sp_iterate(p1, nel as nat, pol, cond_step(d, tn, cm)),
    }
}

pub fn read_cond_list(r: &mut Reader, tn: &HashMap<u32, String>, cm: &HashMap<u32, ResolvedClass>, policy: &mut Policy) -> (res: Result<(), String>)
    ensures
        final(r).bytes() == old(r).bytes(),
        follows_state(
            sp_cond_list(old(r).bytes(), old(r).at(), name_map(tn@), class_views(cm@), old(policy)@),
            outcome(res),
            final(policy)@,
            final(r).at(),
        ),
{
    let nel = r.read_u32()?;
    read_cond_nodes(r, nel, tn, cm, policy)
}

} // verus!

verus! {

// ---------------------------------------------------------------------------
// Role transitions and role allows (skipped)
// ---------------------------------------------------------------------------

pub open spec fn role_tr_step(d: Seq<u8>, version: u32) -> spec_fn((), nat) -> SpecResult<()> {
    |s: (), q: nat|
        match sp_skip(d, q, 12) {
            Err(e) => Err(e),
            Ok((_, q1)) => if version >= 26 {
                sp_skip(d, q1, 4)
            } else {
                Ok(((), q1))
            },
        }
}

fn skip_role_tr(r: &mut Reader, version: u32) -> (res: Result<(), String>)
    ensures
        final(r).bytes() == old(r).bytes(),
        follows_state(role_tr_step(old(r).bytes(), version)((), old(r).at()), outcome(res), (), final(r).at()),
{
    r.skip(12)?;  // role + type + new_role
    if version >= 26 {
        r.skip(4)?;  // tclass
    }
    Ok(())
}

fn skip_role_trs(r: &mut Reader, n: u32, version: u32) -> (res: Result<(), String>)
    ensures
        final(r).bytes() == old(r).bytes(),
        follows_state(
            sp_iterate(old(r).at(), n as nat, (), role_tr_step(old(r).bytes(), version)),
            outcome(res),
            (),
            final(r).at(),
        ),
{
    let ghost d = r.bytes();
    let ghost p0 = r.at();
    let ghost s0 = ();
    let ghost step = role_tr_step(d, version);
    proof {
        lemma_iterate_zero(p0, s0, step);
    }
    let mut i: u32 = 0;
    while i < n
        invariant
            i <= n,
            r.bytes() == d,
            d == old(r).bytes(),
            p0 == old(r).at(),
            s0 == (),
            step == role_tr_step(d, version),
            sp_iterate(p0, i as nat, s0, step) == Ok::<((), nat), (Seq<char>, nat)>(
                ((), r.at()),
            ),
        decreases n - i,
    {
        let ghost q = r.at();
        let ghost before = ();
        proof {
            lemma_iterate_next(p0, i as nat, s0, step, before, q);
        }
        match skip_role_tr(r, version) {
            Ok(_) => {},
            Err(e) => {
                proof {
                    lemma_iterate_err(p0, (i + 1) as nat, n as nat, s0, step);
                }
                return Err(e);
            },
        }
        i = i + 1;
    }
    Ok(())
}

/// Role transitions (each skipped), then role allows (eight bytes each,
/// skipped).
pub open spec fn sp_roles_rules(d: Seq<u8>, p: nat, version: u32) -> SpecResult<()> {
    match sp_u32(d, p) {
        Err(e) => Err(e),
        Ok((nel, p1)) => match sp_iterate(p1, nel as nat, (), role_tr_step(d, version)) {
            Err(e) => Err(e),
            Ok((_, p2)) => match sp_u32(d, p2) {
                Err(e) => Err(e),
                Ok((allow_nel, p3)) => sp_skip(d, p3, allow_nel as nat * 8),
            },
        },
    }
}

pub fn skip_roles_rules(r: &mut Reader, version: u32) -> (res: Result<(), String>)
    ensures
        final(r).bytes() == old(r).bytes(),
        follows_state(sp_roles_rules(old(r).bytes(), old(r).at(), version), outcome(res), (), final(r).at()),
{
    let role_tr_nel = r.read_u32()?;
    skip_role_trs(r, role_tr_nel, version)?;
    let role_allow_nel = r.read_u32()?;
    r.skip_wide(role_allow_nel as u64 * 8)
}

// ---------------------------------------------------------------------------
// Filename transitions
// ---------------------------------------------------------------------------

/// A filename transition rule.
pub open spec fn ftrans_rule(
    tn: Map<u32, Seq<char>>,
    cm: Map<u32, SpecResolvedClass>,
    name: Seq<char>,
    stype: u32,
    ttype: u32,
    tclass: u32,
    otype: u32,
) -> SpecTeRule {
    SpecTeRule {
        kind: TeKind::Transition,
        source: type_label(tn, stype),
        target: type_label(tn, ttype),
        class: class_label(cm, tclass),
        default: type_label(tn, otype),
        object_name: Some(name),
    }
}

/// One rule for each source type in a compressed datum's set (bit `b`
/// standing for type `b + 1`).
pub open spec fn ftrans_rules(
    tn: Map<u32, Seq<char>>,
    cm: Map<u32, SpecResolvedClass>,
    name: Seq<char>,
    stypes: Seq<u32>,
    ttype: u32,
    tclass: u32,
    otype: u32,
) -> Seq<SpecTeRule> {
    stypes.map_values(|b: u32| ftrans_rule(tn, cm, name, vstd::wrapping::u32_specs::wrapping_add(b, 1), ttype, tclass, otype))
}

pub open spec fn ftrans_datum_step(
    d: Seq<u8>,
    tn: Map<u32, Seq<char>>,
    cm: Map<u32, SpecResolvedClass>,
    name: Seq<char>,
    ttype: u32,
    tclass: u32,
) -> spec_fn(SpecPolicy, nat) -> SpecResult<SpecPolicy> {
    |pol: SpecPolicy, q: nat|
        match sp_ebitmap(d, q) {
            Err(e) => Err(e),
            Ok((stypes, q1)) => match sp_u32(d, q1) {
                Err(e) => Err(e),
                Ok((otype, q2)) => Ok((
                    SpecPolicy {
                        te_rules: pol.te_rules + ftrans_rules(tn, cm, name, stypes, ttype, tclass, otype),
                        ..pol
                    },
                    q2,
                )),
            },
        }
}

fn read_ftrans_datum(
    r: &mut Reader,
    tn: &HashMap<u32, String>,
    cm: &HashMap<u32, ResolvedClass>,
    name: &String,
    ttype: u32,
    tclass: u32,
    policy: &mut Policy,
) -> (res: Result<(), String>)
    ensures
        final(r).bytes() == old(r).bytes(),
        follows_state(
            ftrans_datum_step(old(r).bytes(), name_map(tn@), class_views(cm@), name@, ttype, tclass)(old(policy)@, old(r).at()),
            outcome(res),
            final(policy)@,
            final(r).at(),
        ),
{
    let stypes = r.read_ebitmap()?;
    let otype = r.read_u32()?;
    let ghost tnv = name_map(tn@);
    let ghost cmv = class_views(cm@);
    let ghost before = policy@;
    let ghost rules = ftrans_rules(tnv, cmv, name@, stypes@, ttype, tclass, otype);
    let mut i: usize = 0;
    assert(policy@ =~= (SpecPolicy { te_rules: before.te_rules + rules.subrange(0, 0), ..before }));
    while i < stypes.len()
        invariant
            i <= stypes@.len(),
            tnv == name_map(tn@),
            cmv == class_views(cm@),
            rules == ftrans_rules(tnv, cmv, name@, stypes@, ttype, tclass, otype),
            policy@ == (SpecPolicy { te_rules: before.te_rules + rules.subrange(0, i as int), ..before }),
        decreases stypes@.len() - i,
    {
        let rule = TeRule {
            kind: TeKind::Transition,
            source: label_of_type(tn, stypes[i].wrapping_add(1)),
            target: label_of_type(tn, ttype),
            class: label_of_class(cm, tclass),
            default: label_of_type(tn, otype),
            object_name: Some(name.clone()),
        };
        assert(rule@ == rules[i as int]);
        let ghost prev = policy@;
        policy.te_rules.push(rule);
        assert(policy@.te_rules =~= prev.te_rules.push(rules[i as int]));
        assert(rules.subrange(0, i + 1) =~= rules.subrange(0, i as int).push(rules[i as int]));
        assert(policy@.te_rules =~= before.te_rules + rules.subrange(0, i + 1));
        assert(policy@ =~= (SpecPolicy { te_rules: before.te_rules + rules.subrange(0, i + 1), ..before }));
        i = i + 1;
    }
    assert(rules.subrange(0, stypes@.len() as int) =~= rules);
    Ok(())
}

fn read_ftrans_data(r: &mut Reader, n: u32, tn: &HashMap<u32, String>, cm: &HashMap<u32, ResolvedClass>, name: &String, ttype: u32, tclass: u32, policy: &mut Policy) -> (res: Result<(), String>)
    ensures
        final(r).bytes() == old(r).bytes(),
        follows_state(
            sp_iterate(old(r).at(), n as nat, old(policy)@, ftrans_datum_step(old(r).bytes(), name_map(tn@), class_views(cm@), name@, ttype, tclass)),
            outcome(res),
            final(policy)@,
            final(r).at(),
        ),
{
    let ghost d = r.bytes();
    let ghost p0 = r.at();
    let ghost s0 = policy@;
    let ghost step = ftrans_datum_step(d, name_map(tn@), class_views(cm@), name@, ttype, tclass);
    proof {
        lemma_iterate_zero(p0, s0, step);
    }
    let mut i: u32 = 0;
    while i < n
        invariant
            i <= n,
            r.bytes() == d,
            d == old(r).bytes(),
            p0 == old(r).at(),
            s0 == old(policy)@,
            step == ftrans_datum_step(d, name_map(tn@), class_views(cm@), name@, ttype, tclass),
            sp_iterate(p0, i as nat, s0, step) == Ok::<(SpecPolicy, nat), (Seq<char>, nat)>(
                (policy@, r.at()),
            ),
        decreases n - i,
    {
        let ghost q = r.at();
        let ghost before = policy@;
        proof {
            lemma_iterate_next(p0, i as nat, s0, step, before, q);
        }
        match read_ftrans_datum(r, tn, cm, name, ttype, tclass, policy) {
            Ok(_) => {},
            Err(e) => {
                proof {
                    lemma_iterate_err(p0, (i + 1) as nat, n as nat, s0, step);
                }
                return Err(e);
            },
        }
        i = i + 1;
    }
    Ok(())
}

/// A compressed filename-transition record: name, target type, class, and
/// a list of (source-type set, new type) data.
pub open spec fn ftrans_comp_step(d: Seq<u8>, tn: Map<u32, Seq<char>>, cm: Map<u32, SpecResolvedClass>) -> spec_fn(SpecPolicy, nat) -> SpecResult<SpecPolicy> {
    |pol: SpecPolicy, q: nat|
        match sp_string(d, q) {
            Err(e) => Err(e),
            Ok((name, q1)) => match sp_u32(d, q1) {
                Err(e) => Err(e),
                Ok((ttype, q2)) => match sp_u32(d, q2) {
                    Err(e) => Err(e),
                    Ok((tclass, q3)) => match sp_u32(d, q3) {
                        Err(e) => Err(e),
                        Ok((ndatum, q4)) => sp_iterate(q4, ndatum as nat, pol, ftrans_datum_step(d, tn, cm, name, ttype, tclass)),
                    },
                },
            },
        }
}

fn read_ftrans_comp(r: &mut Reader, tn: &HashMap<u32, String>, cm: &HashMap<u32, ResolvedClass>, policy: &mut Policy) -> (res: Result<(), String>)
    ensures
        final(r).bytes() == old(r).bytes(),
        follows_state(
            ftrans_comp_step(old(r).bytes(), name_map(tn@), class_views(cm@))(old(policy)@, old(r).at()),
            outcome(res),
            final(policy)@,
            final(r).at(),
        ),
{
    let name = r.read_string()?;
    let ttype = r.read_u32()?;
    let tclass = r.read_u32()?;
    let ndatum = r.read_u32()?;
    read_ftrans_data(r, ndatum, tn, cm, &name, ttype, tclass, policy)
}

/// A legacy filename-transition record: name, source type, target type,
/// class, new type.
pub open spec fn ftrans_legacy_step(d: Seq<u8>, tn: Map<u32, Seq<char>>, cm: Map<u32, SpecResolvedClass>) -> spec_fn(SpecPolicy, nat) -> SpecResult<SpecPolicy> {
    |pol: SpecPolicy, q: nat|
        match sp_string(d, q) {
            Err(e) => Err(e),
            Ok((name, q1)) => match sp_u32(d, q1) {
                Err(e) => Err(e),
                Ok((stype, q2)) => match sp_u32(d, q2) {
                    Err(e) => Err(e),
                    Ok((ttype, q3)) => match sp_u32(d, q3) {
                        Err(e) => Err(e),
                        Ok((tclass, q4)) => match sp_u32(d, q4) {
                            Err(e) => Err(e),
                            Ok((otype, q5)) => Ok((
                                SpecPolicy {
                                    te_rules: pol.te_rules.push(ftrans_rule(tn, cm, name, stype, ttype, tclass, otype)),
                                    ..pol
                                },
                                q5,
                            )),
                        },
                    },
                },
            },
        }
}

fn read_ftrans_legacy(r: &mut Reader, tn: &HashMap<u32, String>, cm: &HashMap<u32, ResolvedClass>, policy: &mut Policy) -> (res: Result<(), String>)
    ensures
        final(r).bytes() == old(r).bytes(),
        follows_state(
            ftrans_legacy_step(old(r).bytes(), name_map(tn@), class_views(cm@))(old(policy)@, old(r).at()),
            outcome(res),
            final(policy)@,
            final(r).at(),
        ),
{
    let name = r.read_string()?;
    let stype = r.read_u32()?;
    let ttype = r.read_u32()?;
    let tclass = r.read_u32()?;
    let otype = r.read_u32()?;
    let ghost before = policy@;
    policy.te_rules.push(
        TeRule {
            kind: TeKind::Transition,
            source: label_of_type(tn, stype),
            target: label_of_type(tn, ttype),
            class: label_of_class(cm, tclass),
            default: label_of_type(tn, otype),
            object_name: Some(name),
        },
    );
    assert(policy@ =~= (SpecPolicy {
        te_rules: before.te_rules.push(ftrans_rule(name_map(tn@), class_views(cm@), name@, stype, ttype, tclass, otype)),
        ..before
    }));
    Ok(())
}

fn read_ftrans_comps(r: &mut Reader, n: u32, tn: &HashMap<u32, String>, cm: &HashMap<u32, ResolvedClass>, policy: &mut Policy) -> (res: Result<(), String>)
    ensures
        final(r).bytes() == old(r).bytes(),
        follows_state(
            sp_iterate(old(r).at(), n as nat, old(policy)@, ftrans_comp_step(old(r).bytes(), name_map(tn@), class_views(cm@))),
            outcome(res),
            final(policy)@,
            final(r).at(),
        ),
{
    let ghost d = r.bytes();
    let ghost p0 = r.at();
    let ghost s0 = policy@;
    let ghost step = ftrans_comp_step(d, name_map(tn@), class_views(cm@));
    proof {
        lemma_iterate_zero(p0, s0, step);
    }
    let mut i: u32 = 0;
    while i < n
        invariant
            i <= n,
            r.bytes() == d,
            d == old(r).bytes(),
            p0 == old(r).at(),
            s0 == old(policy)@,
            step == ftrans_comp_step(d, name_map(tn@), class_views(cm@)),
            sp_iterate(p0, i as nat, s0, step) == Ok::<(SpecPolicy, nat), (Seq<char>, nat)>(
                (policy@, r.at()),
            ),
        decreases n - i,
    {
        let ghost q = r.at();
        let ghost before = policy@;
        proof {
            lemma_iterate_next(p0, i as nat, s0, step, before, q);
        }
        match read_ftrans_comp(r, tn, cm, policy) {
            Ok(_) => {},
            Err(e) => {
                proof {
                    lemma_iterate_err(p0, (i + 1) as nat, n as nat, s0, step);
                }
                return Err(e);
            },
        }
        i = i + 1;
    }
    Ok(())
}

fn read_ftrans_legacies(r: &mut Reader, n: u32, tn: &HashMap<u32, String>, cm: &HashMap<u32, ResolvedClass>, policy: &mut Policy) -> (res: Result<(), String>)
    ensures
        final(r).bytes() == old(r).bytes(),
        follows_state(
            sp_iterate(old(r).at(), n as nat, old(policy)@, ftrans_legacy_step(old(r).bytes(), name_map(tn@), class_views(cm@))),
            outcome(res),
            final(policy)@,
            final(r).at(),
        ),
{
    let ghost d = r.bytes();
    let ghost p0 = r.at();
    let ghost s0 = policy@;
    let ghost step = ftrans_legacy_step(d, name_map(tn@), class_views(cm@));
    proof {
        lemma_iterate_zero(p0, s0, step);
    }
    let mut i: u32 = 0;
    while i < n
        invariant
            i <= n,
            r.bytes() == d,
            d == old(r).bytes(),
            p0 == old(r).at(),
            s0 == old(policy)@,
            step == ftrans_legacy_step(d, name_map(tn@), class_views(cm@)),
            sp_iterate(p0, i as nat, s0, step) == Ok::<(SpecPolicy, nat), (Seq<char>, nat)>(
                (policy@, r.at()),
            ),
        decreases n - i,
    {
        let ghost q = r.at();
        let ghost before = policy@;
        proof {
            lemma_iterate_next(p0, i as nat, s0, step, before, q);
        }
        match read_ftrans_legacy(r, tn, cm, policy) {
            Ok(_) => {},
            Err(e) => {
                proof {
                    lemma_iterate_err(p0, (i + 1) as nat, n as nat, s0, step);
                }
                return Err(e);
            },
        }
        i = i + 1;
    }
    Ok(())
}

/// Filename transitions: a count, then records in the compressed layout
/// (version 33 and later) or the legacy one.
pub open spec fn sp_filename_trans(d: Seq<u8>, p: nat, version: u32, tn: Map<u32, Seq<char>>, cm: Map<u32, SpecResolvedClass>, pol: SpecPolicy) -> SpecResult<SpecPolicy> {
    match sp_u32(d, p) {
        Err(e) => Err(e),
        Ok((nel, p1)) => if version >= 33 {
            sp_iterate(p1, nel as nat, pol, ftrans_comp_step(d, tn, cm))
        } else {
            sp_iterate(p1, nel as nat, pol, ftrans_legacy_step(d, tn, cm))
        },
    }
}

pub fn read_filename_trans(r: &mut Reader, version: u32, tn: &HashMap<u32, String>, cm: &HashMap<u32, ResolvedClass>, policy: &mut Policy) -> (res: Result<(), String>)
    ensures
        final(r).bytes() == old(r).bytes(),
        follows_state(
            sp_filename_trans(old(r).bytes(), old(r).at(), version, name_map(tn@), class_views(cm@), old(policy)@),
            outcome(res),
            final(policy)@,
            final(r).at(),
        ),
{
    let nel = r.read_u32()?;
    if version >= 33 {
        // Compressed: one record per (ttype, tclass, name), with a list of
        // (source-type set, otype) data.
        read_ftrans_comps(r, nel, tn, cm, policy)
    } else {
        // Legacy: one record per (stype, ttype, tclass, name).
        read_ftrans_legacies(r, nel, tn, cm, policy)
    }
}

} // verus!

verus! {

// ---------------------------------------------------------------------------
// Object contexts (skipped)
// ---------------------------------------------------------------------------

/// The message for an object-context table past the ninth.
pub open spec fn unknown_ocon_msg(idx: nat) -> Seq<char> {
    "unknown object-context index "@ + dec(idx)
}

/// Skipping `n` bytes and then a context.
pub open spec fn sp_skip_then_context(d: Seq<u8>, p: nat, n: nat, mls: bool) -> SpecResult<()> {
    match sp_skip(d, p, n) {
        Err(e) => Err(e),
        Ok((_, p1)) => sp_skip_context(d, p1, mls),
    }
}

/// One entry of the object-context table with index `idx`: initial SIDs
/// (0), file systems and network interfaces (1, 3: a name and two
/// contexts), ports (2), IPv4 nodes (4), fs_use (5), IPv6 nodes (6),
/// InfiniBand pkeys (7) and end ports (8). Any other index is an error.
pub open spec fn sp_ocon_entry(d: Seq<u8>, p: nat, idx: nat, mls: bool) -> SpecResult<()> {
    if idx == 0 {
        sp_skip_then_context(d, p, 4, mls)
    } else if idx == 1 || idx == 3 {
        match sp_string(d, p) {
            Err(e) => Err(e),
            Ok((_name, p1)) => match sp_skip_context(d, p1, mls) {
                Err(e) => Err(e),
                Ok((_, p2)) => sp_skip_context(d, p2, mls),
            },
        }
    } else if idx == 2 {
        sp_skip_then_context(d, p, 12, mls)
    } else if idx == 4 {
        sp_skip_then_context(d, p, 8, mls)
    } else if idx == 5 {
        match sp_u32(d, p) {
            Err(e) => Err(e),
            Ok((_behavior, p1)) => match sp_string(d, p1) {
                Err(e) => Err(e),
                Ok((_name, p2)) => sp_skip_context(d, p2, mls),
            },
        }
    } else if idx == 6 {
        sp_skip_then_context(d, p, 32, mls)
    } else if idx == 7 {
        sp_skip_then_context(d, p, 16, mls)
    } else if idx == 8 {
        match sp_string(d, p) {
            Err(e) => Err(e),
            Ok((_name, p1)) => match sp_u32(d, p1) {
                Err(e) => Err(e),
                Ok((_port, p2)) => sp_skip_context(d, p2, mls),
            },
        }
    } else {
        Err((unknown_ocon_msg(idx), p))
    }
}

fn skip_then_context(r: &mut Reader, n: usize, mls: bool) -> (res: Result<(), String>)
    ensures
        final(r).bytes() == old(r).bytes(),
        follows(sp_skip_then_context(old(r).bytes(), old(r).at(), n as nat, mls), outcome(res), final(r).at()),
{
    r.skip(n)?;
    r.skip_context(mls)
}

fn skip_ocon_entry(r: &mut Reader, idx: u32, mls: bool) -> (res: Result<(), String>)
    ensures
        final(r).bytes() == old(r).bytes(),
        follows(sp_ocon_entry(old(r).bytes(), old(r).at(), idx as nat, mls), outcome(res), final(r).at()),
{
    if idx == 0 {
        // ISID: sid + context
        skip_then_context(r, 4, mls)
    } else if idx == 1 || idx == 3 {
        // FS / NETIF: name + context + context
        let _name = r.read_string()?;
        r.skip_context(mls)?;
        r.skip_context(mls)
    } else if idx == 2 {
        // PORT: protocol + low + high + context
        skip_then_context(r, 12, mls)
    } else if idx == 4 {
        // NODE: addr + mask + context
        skip_then_context(r, 8, mls)
    } else if idx == 5 {
        // FSUSE: behavior + name + context
        let _behavior = r.read_u32()?;
        let _name = r.read_string()?;
        r.skip_context(mls)
    } else if idx == 6 {
        // NODE6: addr (four words) + mask (four words) + context
        skip_then_context(r, 32, mls)
    } else if idx == 7 {
        // IBPKEY: subnet prefix (u64) + low + high + context
        skip_then_context(r, 16, mls)
    } else if idx == 8 {
        // IBENDPORT: name + port + context
        let _name = r.read_string()?;
        let _port = r.read_u32()?;
        r.skip_context(mls)
    } else {
        let mut msg = String::new();
        push_str(&mut msg, "unknown object-context index ");
        push_dec(&mut msg, idx as u64);
        Err(msg)
    }
}

pub open spec fn ocon_entry_step(d: Seq<u8>, idx: nat, mls: bool) -> spec_fn((), nat) -> SpecResult<()> {
    |s: (), q: nat| sp_ocon_entry(d, q, idx, mls)
}

fn skip_ocon_entries(r: &mut Reader, n: u32, idx: u32, mls: bool) -> (res: Result<(), String>)
    ensures
        final(r).bytes() == old(r).bytes(),
        follows_state(
            sp_iterate(old(r).at(), n as nat, (), ocon_entry_step(old(r).bytes(), idx as nat, mls)),
            outcome(res),
            (),
            final(r).at(),
        ),
{
    let ghost d = r.bytes();
    let ghost p0 = r.at();
    let ghost s0 = ();
    let ghost step = ocon_entry_step(d, idx as nat, mls);
    proof {
        lemma_iterate_zero(p0, s0, step);
    }
    let mut i: u32 = 0;
    while i < n
        invariant
            i <= n,
            r.bytes() == d,
            d == old(r).bytes(),
            p0 == old(r).at(),
            s0 == (),
            step == ocon_entry_step(d, idx as nat, mls),
            sp_iterate(p0, i as nat, s0, step) == Ok::<((), nat), (Seq<char>, nat)>(
                ((), r.at()),
            ),
        decreases n - i,
    {
        let ghost q = r.at();
        let ghost before = ();
        proof {
            lemma_iterate_next(p0, i as nat, s0, step, before, q);
        }
        match skip_ocon_entry(r, idx, mls) {
            Ok(_) => {},
            Err(e) => {
                proof {
                    lemma_iterate_err(p0, (i + 1) as nat, n as nat, s0, step);
                }
                return Err(e);
            },
        }
        i = i + 1;
    }
    Ok(())
}

/// The object-context table with index `st`: a count, then its entries;
/// the state counts the tables read.
pub open spec fn ocon_table_step(d: Seq<u8>, mls: bool) -> spec_fn(nat, nat) -> SpecResult<nat> {
    |idx: nat, q: nat|
        match sp_u32(d, q) {
            Err(e) => Err(e),
            Ok((nel, q1)) => match sp_iterate(q1, nel as nat, (), ocon_entry_step(d, idx, mls)) {
                Err(e) => Err(e),
                Ok((_, q2)) => Ok((idx + 1, q2)),
            },
        }
}

fn skip_ocon_table(r: &mut Reader, idx: u32, mls: bool) -> (res: Result<(), String>)
    ensures
        final(r).bytes() == old(r).bytes(),
        follows_state(ocon_table_step(old(r).bytes(), mls)(idx as nat, old(r).at()), outcome(res), (idx + 1) as nat, final(r).at()),
{
    let nel = r.read_u32()?;
    skip_ocon_entries(r, nel, idx, mls)
}

/// The object contexts: `oclass_num` tables, all skipped.
pub open spec fn sp_ocons(d: Seq<u8>, p: nat, oclass_num: nat, mls: bool) -> SpecResult<()> {
    match sp_iterate(p, oclass_num, 0nat, ocon_table_step(d, mls)) {
        Err(e) => Err(e),
        Ok((_, q)) => Ok(((), q)),
    }
}

pub fn skip_ocons(r: &mut Reader, oclass_num: u32, mls: bool) -> (res: Result<(), String>)
    ensures
        final(r).bytes() == old(r).bytes(),
        follows_state(sp_ocons(old(r).bytes(), old(r).at(), oclass_num as nat, mls), outcome(res), (), final(r).at()),
{
    let ghost d = r.bytes();
    let ghost p0 = r.at();
    let ghost step = ocon_table_step(d, mls);
    proof {
        lemma_iterate_zero(p0, 0nat, step);
    }
    let mut i: u32 = 0;
    while i < oclass_num
        invariant
            i <= oclass_num,
            r.bytes() == d,
            d == old(r).bytes(),
            p0 == old(r).at(),
            step == ocon_table_step(d, mls),
            sp_iterate(p0, i as nat, 0nat, step) == Ok::<(nat, nat), (Seq<char>, nat)>((i as nat, r.at())),
        decreases oclass_num - i,
    {
        let ghost q = r.at();
        proof {
            lemma_iterate_next(p0, i as nat, 0nat, step, i as nat, q);
        }
        match skip_ocon_table(r, i, mls) {
            Ok(_) => {},
            Err(e) => {
                proof {
                    lemma_iterate_err(p0, (i + 1) as nat, oclass_num as nat, 0nat, step);
                }
                return Err(e);
            },
        }
        i = i + 1;
    }
    Ok(())
}

// ---------------------------------------------------------------------------
// genfs contexts
// ---------------------------------------------------------------------------

/// One genfs entry of file system `fstype`: a path, a class (ignored) and a
/// context, whose type is recorded by name.
pub open spec fn genfs_entry_step(d: Seq<u8>, tn: Map<u32, Seq<char>>, mls: bool, fstype: Seq<char>) -> spec_fn(SpecPolicy, nat) -> SpecResult<SpecPolicy> {
    |pol: SpecPolicy, q: nat|
        match sp_string(d, q) {
            Err(e) => Err(e),
            Ok((path, q1)) => match sp_u32(d, q1) {
                Err(e) => Err(e),
                Ok((_sclass, q2)) => match sp_context_type(d, q2, mls) {
                    Err(e) => Err(e),
                    Ok((t, q3)) => Ok((
                        SpecPolicy {
                            genfs: pol.genfs.push(SpecGenfs { fstype, path, context_type: type_label(tn, t) }),
                            ..pol
                        },
                        q3,
                    )),
                },
            },
        }
}

fn read_genfs_entry(r: &mut Reader, tn: &HashMap<u32, String>, mls: bool, fstype: &String, policy: &mut Policy) -> (res: Result<(), String>)
    ensures
        final(r).bytes() == old(r).bytes(),
        follows_state(
            genfs_entry_step(old(r).bytes(), name_map(tn@), mls, fstype@)(old(policy)@, old(r).at()),
            outcome(res),
            final(policy)@,
            final(r).at(),
        ),
{
    let path = r.read_string()?;
    let _sclass = r.read_u32()?;
    let ctx_type = r.read_context_type(mls)?;
    let ghost before = policy@;
    let g = Genfs { fstype: fstype.clone(), path, context_type: label_of_type(tn, ctx_type) };
    policy.genfs.push(g);
    assert(policy@ =~= (SpecPolicy {
        genfs: before.genfs.push(SpecGenfs { fstype: fstype@, path: path@, context_type: type_label(name_map(tn@), ctx_type) }),
        ..before
    }));
    Ok(())
}

fn read_genfs_entries(r: &mut Reader, n: u32, tn: &HashMap<u32, String>, mls: bool, fstype: &String, policy: &mut Policy) -> (res: Result<(), String>)
    ensures
        final(r).bytes() == old(r).bytes(),
        follows_state(
            sp_iterate(old(r).at(), n as nat, old(policy)@, genfs_entry_step(old(r).bytes(), name_map(tn@), mls, fstype@)),
            outcome(res),
            final(policy)@,
            final(r).at(),
        ),
{
    let ghost d = r.bytes();
    let ghost p0 = r.at();
    let ghost s0 = policy@;
    let ghost step = genfs_entry_step(d, name_map(tn@), mls, fstype@);
    proof {
        lemma_iterate_zero(p0, s0, step);
    }
    let mut i: u32 = 0;
    while i < n
        invariant
            i <= n,
            r.bytes() == d,
            d == old(r).bytes(),
            p0 == old(r).at(),
            s0 == old(policy)@,
            step == genfs_entry_step(d, name_map(tn@), mls, fstype@),
            sp_iterate(p0, i as nat, s0, step) == Ok::<(SpecPolicy, nat), (Seq<char>, nat)>(
                (policy@, r.at()),
            ),
        decreases n - i,
    {
        let ghost q = r.at();
        let ghost before = policy@;
        proof {
            lemma_iterate_next(p0, i as nat, s0, step, before, q);
        }
        match read_genfs_entry(r, tn, mls, fstype, policy) {
            Ok(_) => {},
            Err(e) => {
                proof {
                    lemma_iterate_err(p0, (i + 1) as nat, n as nat, s0, step);
                }
                return Err(e);
            },
        }
        i = i + 1;
    }
    Ok(())
}

/// One genfs file system: its name, a count, then its entries.
pub open spec fn genfs_step(d: Seq<u8>, tn: Map<u32, Seq<char>>, mls: bool) -> spec_fn(SpecPolicy, nat) -> SpecResult<SpecPolicy> {
    |pol: SpecPolicy, q: nat|
        match sp_string(d, q) {
            Err(e) => Err(e),
            Ok((fstype, q1)) => match sp_u32(d, q1) {
                Err(e) => Err(e),
                Ok((ncon, q2)) => sp_iterate(q2, ncon as nat, pol, genfs_entry_step(d, tn, mls, fstype)),
            },
        }
}

fn read_genfs_fs(r: &mut Reader, tn: &HashMap<u32, String>, mls: bool, policy: &mut Policy) -> (res: Result<(), String>)
    ensures
        final(r).bytes() == old(r).bytes(),
        follows_state(
            genfs_step(old(r).bytes(), name_map(tn@), mls)(old(policy)@, old(r).at()),
            outcome(res),
            final(policy)@,
            final(r).at(),
        ),
{
    let fstype = r.read_string()?;
    let ncon = r.read_u32()?;
    read_genfs_entries(r, ncon, tn, mls, &fstype, policy)
}

fn read_genfs_list(r: &mut Reader, n: u32, tn: &HashMap<u32, String>, mls: bool, policy: &mut Policy) -> (res: Result<(), String>)
    ensures
        final(r).bytes() == old(r).bytes(),
        follows_state(
            sp_iterate(old(r).at(), n as nat, old(policy)@, genfs_step(old(r).bytes(), name_map(tn@), mls)),
            outcome(res),
            final(policy)@,
            final(r).at(),
        ),
{
    let ghost d = r.bytes();
    let ghost p0 = r.at();
    let ghost s0 = policy@;
    let ghost step = genfs_step(d, name_map(tn@), mls);
    proof {
        lemma_iterate_zero(p0, s0, step);
    }
    let mut i: u32 = 0;
    while i < n
        invariant
            i <= n,
            r.bytes() == d,
            d == old(r).bytes(),
            p0 == old(r).at(),
            s0 == old(policy)@,
            step == genfs_step(d, name_map(tn@), mls),
            sp_iterate(p0, i as nat, s0, step) == Ok::<(SpecPolicy, nat), (Seq<char>, nat)>(
                (policy@, r.at()),
            ),
        decreases n - i,
    {
        let ghost q = r.at();
        let ghost before = policy@;
        proof {
            lemma_iterate_next(p0, i as nat, s0, step, before, q);
        }
        match read_genfs_fs(r, tn, mls, policy) {
            Ok(_) => {},
            Err(e) => {
                proof {
                    lemma_iterate_err(p0, (i + 1) as nat, n as nat, s0, step);
                }
                return Err(e);
            },
        }
        i = i + 1;
    }
    Ok(())
}

/// The genfs contexts: a count, then that many file systems.
pub open spec fn sp_genfs(d: Seq<u8>, p: nat, tn: Map<u32, Seq<char>>, mls: bool, pol: SpecPolicy) -> SpecResult<SpecPolicy> {
    match sp_u32(d, p) {
        Err(e) => Err(e),
        Ok((nel, p1)) => sp_iterate(p1, nel as nat, pol, genfs_step(d, tn, mls)),
    }
}

pub fn read_genfs(r: &mut Reader, tn: &HashMap<u32, String>, mls: bool, policy: &mut Policy) -> (res: Result<(), String>)
    ensures
        final(r).bytes() == old(r).bytes(),
        follows_state(
            sp_genfs(old(r).bytes(), old(r).at(), name_map(tn@), mls, old(policy)@),
            outcome(res),
            final(policy)@,
            final(r).at(),
        ),
{
    let nel = r.read_u32()?;
    read_genfs_list(r, nel, tn, mls, policy)
}

// ---------------------------------------------------------------------------
// MLS range transitions (skipped)
// ---------------------------------------------------------------------------

/// One range transition: source and target types, the target class from
/// version 21 on, then an MLS range.
pub open spec fn range_tr_step(d: Seq<u8>, version: u32) -> spec_fn((), nat) -> SpecResult<()> {
    |s: (), q: nat|
        match sp_skip(d, q, 8) {
            Err(e) => Err(e),
            Ok((_, q1)) => {
                let r2: SpecResult<()> = if version >= 21 { sp_skip(d, q1, 4) } else { Ok(((), q1)) };
                match r2 {
                    Err(e) => Err(e),
                    Ok((_, q2)) => sp_skip_mls_range(d, q2),
                }
            },
        }
}

fn skip_range_tr(r: &mut Reader, version: u32) -> (res: Result<(), String>)
    ensures
        final(r).bytes() == old(r).bytes(),
        follows_state(range_tr_step(old(r).bytes(), version)((), old(r).at()), outcome(res), (), final(r).at()),
{
    r.skip(8)?;  // source_type + target_type
    if version >= 21 {
        r.skip(4)?;  // target_class
    }
    r.skip_mls_range()
}

fn skip_range_trs(r: &mut Reader, n: u32, version: u32) -> (res: Result<(), String>)
    ensures
        final(r).bytes() == old(r).bytes(),
        follows_state(
            sp_iterate(old(r).at(), n as nat, (), range_tr_step(old(r).bytes(), version)),
            outcome(res),
            (),
            final(r).at(),
        ),
{
    let ghost d = r.bytes();
    let ghost p0 = r.at();
    let ghost s0 = ();
    let ghost step = range_tr_step(d, version);
    proof {
        lemma_iterate_zero(p0, s0, step);
    }
    let mut i: u32 = 0;
    while i < n
        invariant
            i <= n,
            r.bytes() == d,
            d == old(r).bytes(),
            p0 == old(r).at(),
            s0 == (),
            step == range_tr_step(d, version),
            sp_iterate(p0, i as nat, s0, step) == Ok::<((), nat), (Seq<char>, nat)>(
                ((), r.at()),
            ),
        decreases n - i,
    {
        let ghost q = r.at();
        let ghost before = ();
        proof {
            lemma_iterate_next(p0, i as nat, s0, step, before, q);
        }
        match skip_range_tr(r, version) {
            Ok(_) => {},
            Err(e) => {
                proof {
                    lemma_iterate_err(p0, (i + 1) as nat, n as nat, s0, step);
                }
                return Err(e);
            },
        }
        i = i + 1;
    }
    Ok(())
}

/// The MLS range transitions, present only in an MLS policy: a count, then
/// that many transitions.
pub open spec fn sp_range_trans(d: Seq<u8>, p: nat, version: u32, mls: bool) -> SpecResult<()> {
    if mls {
        match sp_u32(d, p) {
            Err(e) => Err(e),
            Ok((nel, p1)) => sp_iterate(p1, nel as nat, (), range_tr_step(d, version)),
        }
    } else {
        Ok(((), p))
    }
}

pub fn skip_range_trans(r: &mut Reader, version: u32, mls: bool) -> (res: Result<(), String>)
    ensures
        final(r).bytes() == old(r).bytes(),
        follows_state(sp_range_trans(old(r).bytes(), old(r).at(), version, mls), outcome(res), (), final(r).at()),
{
    if mls {
        let nel = r.read_u32()?;
        skip_range_trs(r, nel, version)
    } else {
        Ok(())
    }
}

} // verus!

verus! {

// ---------------------------------------------------------------------------
// Type-attribute map
// ---------------------------------------------------------------------------

/// The name of the type that ebitmap bit `b` stands for (value `b + 1`).
pub open spec fn bit_name(tn: Map<u32, Seq<char>>, b: u32) -> Option<Seq<char>> {
    let v = vstd::wrapping::u32_specs::wrapping_add(b, 1);
    if tn.contains_key(v) {
        Some(tn[v])
    } else {
        None
    }
}

/// Whether one of `bits` stands for the type named `k`.
pub open spec fn names_attr(tn: Map<u32, Seq<char>>, bits: Seq<u32>, k: Seq<char>) -> bool {
    exists|j: int| 0 <= j < bits.len() && #[trigger] bit_name(tn, bits[j]) == Some(k)
}

/// The attribute map after type `t` joins every attribute among `bits`
/// that the map already has.
pub open spec fn attr_apply(
    attrs: Map<Seq<char>, Set<Seq<char>>>,
    tn: Map<u32, Seq<char>>,
    t: Seq<char>,
    bits: Seq<u32>,
) -> Map<Seq<char>, Set<Seq<char>>> {
    Map::new(
        |k: Seq<char>| attrs.contains_key(k),
        |k: Seq<char>| if names_attr(tn, bits, k) { attrs[k].insert(t) } else { attrs[k] },
    )
}

proof fn lemma_attr_apply_empty(attrs: Map<Seq<char>, Set<Seq<char>>>, tn: Map<u32, Seq<char>>, t: Seq<char>)
    ensures
        attr_apply(attrs, tn, t, Seq::empty()) == attrs,
{
    assert(attr_apply(attrs, tn, t, Seq::empty()) =~= attrs);
}

/// One more bit: the attribute it names, when the map has it, gains `t`.
proof fn lemma_attr_apply_push(
    attrs: Map<Seq<char>, Set<Seq<char>>>,
    tn: Map<u32, Seq<char>>,
    t: Seq<char>,
    bits: Seq<u32>,
    b: u32,
)
    ensures
        attr_apply(attrs, tn, t, bits.push(b)) == (match bit_name(tn, b) {
            Some(k) => if attrs.contains_key(k) {
                attr_apply(attrs, tn, t, bits).insert(k, attrs[k].insert(t))
            } else {
                attr_apply(attrs, tn, t, bits)
            },
            None => attr_apply(attrs, tn, t, bits),
        }),
{
    let bits2 = bits.push(b);
    let prev = attr_apply(attrs, tn, t, bits);
    let next = attr_apply(attrs, tn, t, bits2);
    assert forall|k: Seq<char>| #[trigger] names_attr(tn, bits2, k) <==> (names_attr(tn, bits, k) || bit_name(tn, b) == Some(k)) by {
        if names_attr(tn, bits2, k) {
            let j = choose|j: int| 0 <= j < bits2.len() && #[trigger] bit_name(tn, bits2[j]) == Some(k);
            if j < bits.len() {
                assert(bits2[j] == bits[j]);
            }
        }
        if names_attr(tn, bits, k) {
            let j = choose|j: int| 0 <= j < bits.len() && #[trigger] bit_name(tn, bits[j]) == Some(k);
            assert(bits2[j] == bits[j]);
        }
        if bit_name(tn, b) == Some(k) {
            assert(bits2[bits.len() as int] == b);
        }
    }
    match bit_name(tn, b) {
        Some(k0) => {
            if attrs.contains_key(k0) {
                assert(attrs[k0].insert(t).insert(t) =~= attrs[k0].insert(t));
                assert(next =~= prev.insert(k0, attrs[k0].insert(t)));
            } else {
                assert(next =~= prev);
            }
        },
        None => {
            assert(next =~= prev);
        },
    }
}

/// Adds type `t` to every attribute among `bits` that the policy has.
fn add_memberships(tn: &HashMap<u32, String>, t: &String, bits: &Vec<u32>, policy: &mut Policy)
    ensures
        final(policy)@ == (SpecPolicy {
            attributes: attr_apply(old(policy)@.attributes, name_map(tn@), t@, bits@),
            ..old(policy)@
        }),
{
    let ghost before = policy@;
    let ghost tnv = name_map(tn@);
    proof {
        lemma_attr_apply_empty(before.attributes, tnv, t@);
        assert(bits@.subrange(0, 0) =~= Seq::<u32>::empty());
        assert(policy@ =~= (SpecPolicy { attributes: attr_apply(before.attributes, tnv, t@, bits@.subrange(0, 0)), ..before }));
    }
    let mut j: usize = 0;
    while j < bits.len()
        invariant
            j <= bits@.len(),
            tnv == name_map(tn@),
            policy@ == (SpecPolicy { attributes: attr_apply(before.attributes, tnv, t@, bits@.subrange(0, j as int)), ..before }),
        decreases bits@.len() - j,
    {
        let b = bits[j];
        let ghost prev = policy@;
        proof {
            lemma_attr_apply_push(before.attributes, tnv, t@, bits@.subrange(0, j as int), b);
            assert(bits@.subrange(0, j + 1) =~= bits@.subrange(0, j as int).push(b));
        }
        let v = b.wrapping_add(1);
        match tn.get(&v) {
            Some(attr_name) => {
                match policy.attributes.remove(attr_name.as_str()) {
                    Some(mut members) => {
                        let ghost k0 = attr_name@;
                        assert(bit_name(tnv, b) == Some(k0));
                        assert(before.attributes.contains_key(k0));
                        assert(members@.insert(t@) =~= before.attributes[k0].insert(t@));
                        members.insert(t.clone());
                        policy.attributes.insert(attr_name.clone(), members);
                        assert(policy@.attributes =~= prev.attributes.insert(k0, before.attributes[k0].insert(t@)));
                        assert(policy@ =~= (SpecPolicy {
                            attributes: attr_apply(before.attributes, tnv, t@, bits@.subrange(0, j + 1)),
                            ..before
                        }));
                    },
                    None => {
                        assert(policy@.attributes =~= prev.attributes);
                        assert(policy@ =~= (SpecPolicy {
                            attributes: attr_apply(before.attributes, tnv, t@, bits@.subrange(0, j + 1)),
                            ..before
                        }));
                    },
                }
            },
            None => {},
        }
        j = j + 1;
    }
    assert(bits@.subrange(0, bits@.len() as int) =~= bits@);
}

/// The type-attribute map entry of type value `idx + 1`: an ebitmap of the
/// attributes it belongs to. A type (not an attribute) that has a name
/// joins each of them; the state counts the entries read.
pub open spec fn type_attr_step(
    d: Seq<u8>,
    tn: Map<u32, Seq<char>>,
    attr_names: Set<Seq<char>>,
) -> spec_fn((nat, SpecPolicy), nat) -> SpecResult<(nat, SpecPolicy)> {
    |st: (nat, SpecPolicy), q: nat|
        match sp_ebitmap(d, q) {
            Err(e) => Err(e),
            Ok((bits, q1)) => {
                let tv = (st.0 + 1) as u32;
                let pol = if tn.contains_key(tv) && !attr_names.contains(tn[tv]) {
                    SpecPolicy { attributes: attr_apply(st.1.attributes, tn, tn[tv], bits), ..st.1 }
                } else {
                    st.1
                };
                Ok(((st.0 + 1, pol), q1))
            },
        }
}

fn read_type_attr_entry(r: &mut Reader, idx: u32, tn: &HashMap<u32, String>, attr_names: &NameSet, policy: &mut Policy) -> (res: Result<(), String>)
    requires
        idx < u32::MAX,
    ensures
        final(r).bytes() == old(r).bytes(),
        follows_state(
            type_attr_step(old(r).bytes(), name_map(tn@), attr_names@)((idx as nat, old(policy)@), old(r).at()),
            outcome(res),
            ((idx + 1) as nat, final(policy)@),
            final(r).at(),
        ),
{
    let bits = r.read_ebitmap()?;
    let type_val = idx + 1;
    match tn.get(&type_val) {
        Some(tname) => {
            // A real type's map lists the attributes it belongs to; invert it
            // into attribute -> member types.
            if !attr_names.contains(tname.as_str()) {
                add_memberships(tn, tname, &bits, policy);
            }
        },
        None => {},
    }
    Ok(())
}

/// The type-attribute map: one ebitmap for each of the `nprim` type
/// values.
pub open spec fn sp_type_attr_map(
    d: Seq<u8>,
    p: nat,
    nprim: nat,
    tn: Map<u32, Seq<char>>,
    attr_names: Set<Seq<char>>,
    pol: SpecPolicy,
) -> SpecResult<SpecPolicy> {
    match sp_iterate(p, nprim, (0nat, pol), type_attr_step(d, tn, attr_names)) {
        Err(e) => Err(e),
        Ok(((_, pol2), q)) => Ok((pol2, q)),
    }
}

pub fn read_type_attr_map(r: &mut Reader, nprim: u32, tn: &HashMap<u32, String>, attr_names: &NameSet, policy: &mut Policy) -> (res: Result<(), String>)
    ensures
        final(r).bytes() == old(r).bytes(),
        follows_state(
            sp_type_attr_map(old(r).bytes(), old(r).at(), nprim as nat, name_map(tn@), attr_names@, old(policy)@),
            outcome(res),
            final(policy)@,
            final(r).at(),
        ),
{
    let ghost d = r.bytes();
    let ghost p0 = r.at();
    let ghost s0 = policy@;
    let ghost step = type_attr_step(d, name_map(tn@), attr_names@);
    proof {
        lemma_iterate_zero(p0, (0nat, s0), step);
    }
    let mut i: u32 = 0;
    while i < nprim
        invariant
            i <= nprim,
            r.bytes() == d,
            d == old(r).bytes(),
            p0 == old(r).at(),
            s0 == old(policy)@,
            step == type_attr_step(d, name_map(tn@), attr_names@),
            sp_iterate(p0, i as nat, (0nat, s0), step) == Ok::<((nat, SpecPolicy), nat), (Seq<char>, nat)>(
                ((i as nat, policy@), r.at()),
            ),
        decreases nprim - i,
    {
        let ghost q = r.at();
        let ghost before = policy@;
        proof {
            lemma_iterate_next(p0, i as nat, (0nat, s0), step, (i as nat, before), q);
        }
        match read_type_attr_entry(r, i, tn, attr_names, policy) {
            Ok(_) => {},
            Err(e) => {
                proof {
                    lemma_iterate_err(p0, (i + 1) as nat, nprim as nat, (0nat, s0), step);
                }
                return Err(e);
            },
        }
        i = i + 1;
    }
    Ok(())
}

} // verus!
