//! Attribute membership after a parse: the members of every attribute are
//! concrete types of the policy. The parse inverts the on-disk
//! type-to-attributes map, adding only types that are not attributes, into
//! attributes created empty by the types table.

use vstd::prelude::*;
use crate::policy::SpecPolicy;
use crate::reader::{SpecResult, sp_iterate, lemma_iterate_keeps};
use crate::tables::{SymState, add_type, commons_step, classes_step, roles_step, types_step,
    users_step, bools_step, sens_step, cats_step, sp_table, tables_step, sp_tables, empty_symbols};
use crate::resolve::SpecResolvedClass;
use crate::sections::{avtab_step, sp_avtab, cond_step, sp_cond_list,
    ftrans_datum_step, ftrans_comp_step, ftrans_legacy_step, sp_filename_trans, genfs_entry_step,
    genfs_step, sp_genfs, attr_apply, type_attr_step, sp_type_attr_map};
use crate::parser::{sp_parse, sp_header, sp_rules, after_tables};
use crate::policy::empty_policy;

verus! {

/// Every member of every attribute is a concrete type.
pub open spec fn members_typed(p: SpecPolicy) -> bool {
    forall|a: Seq<char>, t: Seq<char>|
        p.attributes.contains_key(a) && #[trigger] p.attributes[a].contains(t) ==> p.types.contains(t)
}

/// Every recorded type name is a concrete type or an attribute.
pub open spec fn names_classified(types: Set<Seq<char>>, attr_names: Set<Seq<char>>, tn: Map<u32, Seq<char>>) -> bool {
    forall|v: u32| #[trigger] tn.contains_key(v) ==> types.contains(tn[v]) || attr_names.contains(tn[v])
}

/// What the symbol tables keep.
pub open spec fn sym_ok(s: SymState) -> bool {
    members_typed(s.pol) && names_classified(s.pol.types, s.attr_names, s.type_names)
}

pub open spec fn sym_ok_fn() -> spec_fn(SymState) -> bool {
    |s: SymState| sym_ok(s)
}

proof fn lemma_add_type(s: SymState, name: Seq<char>, value: u32, is_attrib: bool)
    requires
        sym_ok(s),
    ensures
        sym_ok(add_type(s, name, value, is_attrib)),
{
    let s2 = add_type(s, name, value, is_attrib);
    assert forall|a: Seq<char>, t: Seq<char>|
        s2.pol.attributes.contains_key(a) && #[trigger] s2.pol.attributes[a].contains(t) implies s2.pol.types.contains(t) by {
        if s.pol.attributes.contains_key(a) {
            assert(s2.pol.attributes[a] == s.pol.attributes[a]);
        }
    }
}

/// Every symbol-table step keeps the tables' property.
proof fn lemma_steps_keep(d: Seq<u8>, version: u32, mls: bool)
    ensures
        forall|s: SymState, q: nat| sym_ok(s) ==> match #[trigger] commons_step(d)(s, q) { Ok((s2, _)) => sym_ok(s2), Err(_) => true },
        forall|s: SymState, q: nat| sym_ok(s) ==> match #[trigger] classes_step(d, version)(s, q) { Ok((s2, _)) => sym_ok(s2), Err(_) => true },
        forall|s: SymState, q: nat| sym_ok(s) ==> match #[trigger] roles_step(d, version)(s, q) { Ok((s2, _)) => sym_ok(s2), Err(_) => true },
        forall|s: SymState, q: nat| sym_ok(s) ==> match #[trigger] types_step(d, version)(s, q) { Ok((s2, _)) => sym_ok(s2), Err(_) => true },
        forall|s: SymState, q: nat| sym_ok(s) ==> match #[trigger] users_step(d, version, mls)(s, q) { Ok((s2, _)) => sym_ok(s2), Err(_) => true },
        forall|s: SymState, q: nat| sym_ok(s) ==> match #[trigger] bools_step(d)(s, q) { Ok((s2, _)) => sym_ok(s2), Err(_) => true },
        forall|s: SymState, q: nat| sym_ok(s) ==> match #[trigger] sens_step(d)(s, q) { Ok((s2, _)) => sym_ok(s2), Err(_) => true },
        forall|s: SymState, q: nat| sym_ok(s) ==> match #[trigger] cats_step(d)(s, q) { Ok((s2, _)) => sym_ok(s2), Err(_) => true },
{
    assert forall|s: SymState, q: nat| sym_ok(s) implies match #[trigger] types_step(d, version)(s, q) {
        Ok((s2, _)) => sym_ok(s2),
        Err(_) => true,
    } by {
        match crate::symtab::sp_type(d, q, version) {
            Ok(((name, value, is_attrib), _)) => lemma_add_type(s, name, value, is_attrib),
            Err(_) => {},
        }
    }
}

/// A symbol table keeps the property.
proof fn lemma_table_keeps(d: Seq<u8>, p: nat, idx: nat, version: u32, mls: bool, s: SymState)
    requires
        sym_ok(s),
    ensures
        match sp_table(d, p, idx, version, mls, s) {
            Ok((s2, _)) => sym_ok(s2),
            Err(_) => true,
        },
{
    lemma_steps_keep(d, version, mls);
    let inv = sym_ok_fn();
    match crate::reader::sp_u32(d, p) {
        Ok((nprim, p1)) => match crate::reader::sp_u32(d, p1) {
            Ok((nel, p2)) => {
                let n = nel as nat;
                if idx == 0 {
                    lemma_iterate_keeps(p2, n, s, commons_step(d), inv);
                } else if idx == 1 {
                    lemma_iterate_keeps(p2, n, s, classes_step(d, version), inv);
                } else if idx == 2 {
                    let s1 = SymState { pol: SpecPolicy { role_count: nel as usize, ..s.pol }, ..s };
                    lemma_iterate_keeps(p2, n, s1, roles_step(d, version), inv);
                } else if idx == 3 {
                    let s1 = SymState { types_nprim: nprim, ..s };
                    lemma_iterate_keeps(p2, n, s1, types_step(d, version), inv);
                } else if idx == 4 {
                    let s1 = SymState { pol: SpecPolicy { user_count: nel as usize, ..s.pol }, ..s };
                    lemma_iterate_keeps(p2, n, s1, users_step(d, version, mls), inv);
                } else if idx == 5 {
                    lemma_iterate_keeps(p2, n, s, bools_step(d), inv);
                } else if idx == 6 {
                    lemma_iterate_keeps(p2, n, s, sens_step(d), inv);
                } else if idx == 7 {
                    lemma_iterate_keeps(p2, n, s, cats_step(d), inv);
                }
            },
            Err(_) => {},
        },
        Err(_) => {},
    }
}

/// All the symbol tables keep the property.
proof fn lemma_tables_keep(d: Seq<u8>, p: nat, sym_num: nat, version: u32, mls: bool, s0: SymState)
    requires
        sym_ok(s0),
    ensures
        match sp_tables(d, p, sym_num, version, mls, s0) {
            Ok((s2, _)) => sym_ok(s2),
            Err(_) => true,
        },
{
    let inv = |st: (nat, SymState)| sym_ok(st.1);
    let step = tables_step(d, version, mls);
    assert forall|st: (nat, SymState), q: nat| inv(st) implies match #[trigger] step(st, q) {
        Ok((st2, _)) => inv(st2),
        Err(_) => true,
    } by {
        lemma_table_keeps(d, q, st.0, version, mls, st.1);
    }
    lemma_iterate_keeps(p, sym_num, (0nat, s0), step, inv);
}

/// The types and attributes of a policy, unchanged.
pub open spec fn same_types(t: Set<Seq<char>>, a: Map<Seq<char>, Set<Seq<char>>>) -> spec_fn(SpecPolicy) -> bool {
    |pol: SpecPolicy| pol.types == t && pol.attributes == a
}

/// The rule sections before the type-attribute map leave types and
/// attributes alone.
proof fn lemma_sections_keep(
    d: Seq<u8>,
    tn: Map<u32, Seq<char>>,
    cm: Map<u32, SpecResolvedClass>,
    mls: bool,
    t: Set<Seq<char>>,
    a: Map<Seq<char>, Set<Seq<char>>>,
)
    ensures
        forall|pol: SpecPolicy, q: nat| same_types(t, a)(pol) ==> match #[trigger] avtab_step(d, tn, cm, false)(pol, q) {
            Ok((p2, _)) => same_types(t, a)(p2),
            Err(_) => true,
        },
        forall|pol: SpecPolicy, q: nat| same_types(t, a)(pol) ==> match #[trigger] cond_step(d, tn, cm)(pol, q) {
            Ok((p2, _)) => same_types(t, a)(p2),
            Err(_) => true,
        },
        forall|pol: SpecPolicy, q: nat| same_types(t, a)(pol) ==> match #[trigger] ftrans_comp_step(d, tn, cm)(pol, q) {
            Ok((p2, _)) => same_types(t, a)(p2),
            Err(_) => true,
        },
        forall|pol: SpecPolicy, q: nat| same_types(t, a)(pol) ==> match #[trigger] ftrans_legacy_step(d, tn, cm)(pol, q) {
            Ok((p2, _)) => same_types(t, a)(p2),
            Err(_) => true,
        },
        forall|pol: SpecPolicy, q: nat| same_types(t, a)(pol) ==> match #[trigger] genfs_step(d, tn, mls)(pol, q) {
            Ok((p2, _)) => same_types(t, a)(p2),
            Err(_) => true,
        },
{
    let inv = same_types(t, a);
    assert forall|c: bool, pol: SpecPolicy, q: nat| inv(pol) implies match #[trigger] avtab_step(d, tn, cm, c)(pol, q) {
        Ok((p2, _)) => inv(p2),
        Err(_) => true,
    } by {
    }
    assert forall|pol: SpecPolicy, q: nat| inv(pol) implies match #[trigger] cond_step(d, tn, cm)(pol, q) {
        Ok((p2, _)) => inv(p2),
        Err(_) => true,
    } by {
        match crate::reader::sp_u32(d, q) {
            Ok((_, p1)) => match crate::reader::sp_u32(d, p1) {
                Ok((expr_len, p2)) => match crate::reader::sp_skip(d, p2, expr_len as nat * 8) {
                    Ok((_, p3)) => match crate::reader::sp_u32(d, p3) {
                        Ok((true_nel, p4)) => {
                            lemma_iterate_keeps(p4, true_nel as nat, pol, avtab_step(d, tn, cm, true), inv);
                            match sp_iterate(p4, true_nel as nat, pol, avtab_step(d, tn, cm, true)) {
                                Ok((pol1, p5)) => match crate::reader::sp_u32(d, p5) {
                                    Ok((false_nel, p6)) => {
                                        lemma_iterate_keeps(p6, false_nel as nat, pol1, avtab_step(d, tn, cm, true), inv);
                                    },
                                    Err(_) => {},
                                },
                                Err(_) => {},
                            }
                        },
                        Err(_) => {},
                    },
                    Err(_) => {},
                },
                Err(_) => {},
            },
            Err(_) => {},
        }
    }
    assert forall|pol: SpecPolicy, q: nat| inv(pol) implies match #[trigger] ftrans_comp_step(d, tn, cm)(pol, q) {
        Ok((p2, _)) => inv(p2),
        Err(_) => true,
    } by {
        match crate::reader::sp_string(d, q) {
            Ok((name, q1)) => match crate::reader::sp_u32(d, q1) {
                Ok((ttype, q2)) => match crate::reader::sp_u32(d, q2) {
                    Ok((tclass, q3)) => match crate::reader::sp_u32(d, q3) {
                        Ok((ndatum, q4)) => {
                            let step = ftrans_datum_step(d, tn, cm, name, ttype, tclass);
                            assert forall|x: SpecPolicy, r: nat| inv(x) implies match #[trigger] step(x, r) {
                                Ok((p2, _)) => inv(p2),
                                Err(_) => true,
                            } by {
                            }
                            lemma_iterate_keeps(q4, ndatum as nat, pol, step, inv);
                        },
                        Err(_) => {},
                    },
                    Err(_) => {},
                },
                Err(_) => {},
            },
            Err(_) => {},
        }
    }
    assert forall|pol: SpecPolicy, q: nat| inv(pol) implies match #[trigger] genfs_step(d, tn, mls)(pol, q) {
        Ok((p2, _)) => inv(p2),
        Err(_) => true,
    } by {
        match crate::reader::sp_string(d, q) {
            Ok((fstype, q1)) => match crate::reader::sp_u32(d, q1) {
                Ok((ncon, q2)) => {
                    let step = genfs_entry_step(d, tn, mls, fstype);
                    assert forall|x: SpecPolicy, r: nat| inv(x) implies match #[trigger] step(x, r) {
                        Ok((p2, _)) => inv(p2),
                        Err(_) => true,
                    } by {
                    }
                    lemma_iterate_keeps(q2, ncon as nat, pol, step, inv);
                },
                Err(_) => {},
            },
            Err(_) => {},
        }
    }
}

/// The type-attribute map keeps the concrete types and adds only concrete
/// types to attributes.
proof fn lemma_type_attr_keeps(
    d: Seq<u8>,
    p: nat,
    nprim: nat,
    tn: Map<u32, Seq<char>>,
    attr_names: Set<Seq<char>>,
    pol: SpecPolicy,
)
    requires
        members_typed(pol),
        names_classified(pol.types, attr_names, tn),
    ensures
        match sp_type_attr_map(d, p, nprim, tn, attr_names, pol) {
            Ok((p2, _)) => members_typed(p2),
            Err(_) => true,
        },
{
    let t = pol.types;
    let inv = |st: (nat, SpecPolicy)| members_typed(st.1) && st.1.types == t;
    let step = type_attr_step(d, tn, attr_names);
    assert forall|st: (nat, SpecPolicy), q: nat| inv(st) implies match #[trigger] step(st, q) {
        Ok((st2, _)) => inv(st2),
        Err(_) => true,
    } by {
        match crate::reader::sp_ebitmap(d, q) {
            Ok((bits, _)) => {
                let tv = (st.0 + 1) as u32;
                if tn.contains_key(tv) && !attr_names.contains(tn[tv]) {
                    let x = tn[tv];
                    assert(t.contains(x));
                    let attrs2 = attr_apply(st.1.attributes, tn, x, bits);
                    assert forall|a: Seq<char>, m: Seq<char>|
                        attrs2.contains_key(a) && #[trigger] attrs2[a].contains(m) implies t.contains(m) by {
                        assert(st.1.attributes.contains_key(a));
                    }
                }
            },
            Err(_) => {},
        }
    }
    lemma_iterate_keeps(p, nprim, (0nat, pol), step, inv);
}

/// The header leaves types and attributes alone.
proof fn lemma_header_keeps(d: Seq<u8>, pol: SpecPolicy)
    ensures
        match sp_header(d, pol) {
            Ok(((p2, _, _), _)) => p2.types == pol.types && p2.attributes == pol.attributes,
            Err(_) => true,
        },
{
}

/// The rule sections keep every attribute's members among the types.
proof fn lemma_rules_keep(
    d: Seq<u8>,
    p: nat,
    pol: SpecPolicy,
    oclass_num: u32,
    tn: Map<u32, Seq<char>>,
    cm: Map<u32, SpecResolvedClass>,
    attr_names: Set<Seq<char>>,
    nprim: u32,
)
    requires
        members_typed(pol),
        names_classified(pol.types, attr_names, tn),
    ensures
        match sp_rules(d, p, pol, oclass_num, tn, cm, attr_names, nprim) {
            Ok(p2) => members_typed(p2),
            Err(_) => true,
        },
{
    let version = pol.version;
    let mls = pol.mls;
    let inv = same_types(pol.types, pol.attributes);
    lemma_sections_keep(d, tn, cm, mls, pol.types, pol.attributes);
    match sp_avtab(d, p, tn, cm, pol) {
        Ok((pol1, p1)) => {
            match crate::reader::sp_u32(d, p) {
                Ok((nel, q)) => lemma_iterate_keeps(q, nel as nat, pol, avtab_step(d, tn, cm, false), inv),
                Err(_) => {},
            }
            assert(inv(pol1));
            match sp_cond_list(d, p1, tn, cm, pol1) {
                Ok((pol2, p2)) => {
                    match crate::reader::sp_u32(d, p1) {
                        Ok((nel, q)) => lemma_iterate_keeps(q, nel as nat, pol1, cond_step(d, tn, cm), inv),
                        Err(_) => {},
                    }
                    assert(inv(pol2));
                    match crate::sections::sp_roles_rules(d, p2, version) {
                        Ok((_, p3)) => {
                            let r4: SpecResult<SpecPolicy> = if version >= 25 {
                                sp_filename_trans(d, p3, version, tn, cm, pol2)
                            } else {
                                Ok((pol2, p3))
                            };
                            if version >= 25 {
                                match crate::reader::sp_u32(d, p3) {
                                    Ok((nel, q)) => {
                                        lemma_iterate_keeps(q, nel as nat, pol2, ftrans_comp_step(d, tn, cm), inv);
                                        lemma_iterate_keeps(q, nel as nat, pol2, ftrans_legacy_step(d, tn, cm), inv);
                                    },
                                    Err(_) => {},
                                }
                            }
                            match r4 {
                                Ok((pol3, p4)) => {
                                    assert(inv(pol3));
                                    match crate::sections::sp_ocons(d, p4, oclass_num as nat, mls) {
                                        Ok((_, p5)) => match sp_genfs(d, p5, tn, mls, pol3) {
                                            Ok((pol4, p6)) => {
                                                match crate::reader::sp_u32(d, p5) {
                                                    Ok((nel, q)) => lemma_iterate_keeps(q, nel as nat, pol3, genfs_step(d, tn, mls), inv),
                                                    Err(_) => {},
                                                }
                                                assert(inv(pol4));
                                                assert(members_typed(pol4));
                                                match crate::sections::sp_range_trans(d, p6, version, mls) {
                                                    Ok((_, p7)) => {
                                                        if version >= 20 {
                                                            lemma_type_attr_keeps(d, p7, nprim as nat, tn, attr_names, pol4);
                                                        }
                                                    },
                                                    Err(_) => {},
                                                }
                                            },
                                            Err(_) => {},
                                        },
                                        Err(_) => {},
                                    }
                                },
                                Err(_) => {},
                            }
                        },
                        Err(_) => {},
                    }
                },
                Err(_) => {},
            }
        },
        Err(_) => {},
    }
}

/// After a successful parse, every member of every attribute is one of the
/// policy's concrete types.
pub proof fn law_attribute_members_are_types(d: Seq<u8>)
    requires
        sp_parse(d) is Ok,
    ensures
        members_typed(sp_parse(d)->Ok_0),
{
    match sp_header(d, empty_policy()) {
        Ok(((pol, sym_num, oclass_num), p)) => {
            let s0 = empty_symbols(pol);
            lemma_header_keeps(d, empty_policy());
            assert(members_typed(pol));
            assert(sym_ok(s0));
            lemma_tables_keep(d, p, sym_num as nat, pol.version, pol.mls, s0);
            match sp_tables(d, p, sym_num as nat, pol.version, pol.mls, s0) {
                Ok((s, p1)) => {
                    let (pol1, cm) = after_tables(s);
                    assert(members_typed(pol1));
                    assert(names_classified(pol1.types, s.attr_names, s.type_names));
                    lemma_rules_keep(d, p1, pol1, oclass_num, s.type_names, cm, s.attr_names, s.types_nprim);
                },
                Err(_) => {},
            }
        },
        Err(_) => {},
    }
}

} // verus!
