//! The symbol tables of a policydb, each preceded by its own `(nprim, nel)`
//! counts: commons, classes, roles, types, users, booleans, sensitivities
//! and categories, in that order.

use vstd::prelude::*;
use std::collections::HashMap;
use crate::collections::{NameMap, NameSet};
use crate::policy::{Policy, SpecPolicy};
use crate::reader::{Reader, SpecResult, sp_u32, sp_iterate, follows_state, outcome,
    lemma_iterate_err, lemma_iterate_next, lemma_iterate_zero};
use crate::symtab::{Perm, SpecPerm, ClassDatum, SpecClassDatum, RawConstraint,
    SpecRawConstraint, perm_views, constraint_views, sp_common, sp_class, sp_role, sp_type,
    sp_user, sp_bool, sp_sens, sp_cat, read_common, read_class, read_role, read_type, read_user,
    read_bool, read_sens, read_cat};

verus! {

/// The names of a value-to-name map.
pub open spec fn name_map(m: Map<u32, String>) -> Map<u32, Seq<char>> {
    m.map_values(|s: String| s@)
}

/// What the symbol tables have produced so far.
#[verifier::ext_equal]
pub struct SymState {
    pub pol: SpecPolicy,
    pub commons: Map<Seq<char>, Seq<SpecPerm>>,
    pub classes: Seq<SpecClassDatum>,
    pub raw: Seq<SpecRawConstraint>,
    pub type_names: Map<u32, Seq<char>>,
    pub role_names: Map<u32, Seq<char>>,
    pub user_names: Map<u32, Seq<char>>,
    pub attr_names: Set<Seq<char>>,
    pub types_nprim: u32,
}

/// Symbol-table contents that the later sections look things up in.
pub struct Symbols {
    pub commons: NameMap<Vec<Perm>>,
    pub classes: Vec<ClassDatum>,
    pub raw: Vec<RawConstraint>,
    pub type_names: HashMap<u32, String>,
    pub role_names: HashMap<u32, String>,
    pub user_names: HashMap<u32, String>,
    pub attr_names: NameSet,
    pub types_nprim: u32,
}

pub open spec fn sym_state(pol: &Policy, sym: &Symbols) -> SymState {
    SymState {
        pol: pol@,
        commons: sym.commons@,
        classes: sym.classes@.map_values(|c: ClassDatum| c@),
        raw: constraint_views(sym.raw@),
        type_names: name_map(sym.type_names@),
        role_names: name_map(sym.role_names@),
        user_names: name_map(sym.user_names@),
        attr_names: sym.attr_names@,
        types_nprim: sym.types_nprim,
    }
}

pub open spec fn empty_symbols(pol: SpecPolicy) -> SymState {
    SymState {
        pol,
        commons: Map::empty(),
        classes: Seq::empty(),
        raw: Seq::empty(),
        type_names: Map::empty(),
        role_names: Map::empty(),
        user_names: Map::empty(),
        attr_names: Set::empty(),
        types_nprim: 0,
    }
}

impl Symbols {
    pub fn new() -> (s: Self)
        ensures
            s.commons@ == Map::<Seq<char>, Seq<SpecPerm>>::empty(),
            s.classes@ == Seq::<ClassDatum>::empty(),
            s.raw@ == Seq::<RawConstraint>::empty(),
            s.type_names@ == Map::<u32, String>::empty(),
            s.role_names@ == Map::<u32, String>::empty(),
            s.user_names@ == Map::<u32, String>::empty(),
            s.attr_names@ == Set::<Seq<char>>::empty(),
            s.types_nprim == 0,
    {
        Symbols {
            commons: NameMap::new(),
            classes: Vec::new(),
            raw: Vec::new(),
            type_names: HashMap::new(),
            role_names: HashMap::new(),
            user_names: HashMap::new(),
            attr_names: NameSet::new(),
            types_nprim: 0,
        }
    }
}

pub open spec fn commons_step(d: Seq<u8>) -> spec_fn(SymState, nat) -> SpecResult<SymState> {
    |s: SymState, q: nat|
        match sp_common(d, q) {
            Err(e) => Err(e),
            Ok(((name, perms), q2)) => Ok((SymState { commons: s.commons.insert(name, perms), ..s }, q2)),
        }
}

pub open spec fn classes_step(d: Seq<u8>, version: u32) -> spec_fn(SymState, nat) -> SpecResult<SymState> {
    |s: SymState, q: nat|
        match sp_class(d, q, version) {
            Err(e) => Err(e),
            Ok(((cd, cons), q2)) => Ok((SymState { raw: s.raw + cons, classes: s.classes.push(cd), ..s }, q2)),
        }
}

pub open spec fn roles_step(d: Seq<u8>, version: u32) -> spec_fn(SymState, nat) -> SpecResult<SymState> {
    |s: SymState, q: nat|
        match sp_role(d, q, version) {
            Err(e) => Err(e),
            Ok(((name, value), q2)) => Ok((SymState { role_names: s.role_names.insert(value, name), ..s }, q2)),
        }
}

/// Recording a type datum: its name under its value, and the name among the
/// attributes (with an empty member set unless it already has one) or among
/// the concrete types.
pub open spec fn add_type(s: SymState, name: Seq<char>, value: u32, is_attrib: bool) -> SymState {
    let s1 = SymState { type_names: s.type_names.insert(value, name), ..s };
    if is_attrib {
        SymState {
            attr_names: s1.attr_names.insert(name),
            pol: SpecPolicy {
                attributes: if s1.pol.attributes.contains_key(name) {
                    s1.pol.attributes
                } else {
                    s1.pol.attributes.insert(name, Set::empty())
                },
                ..s1.pol
            },
            ..s1
        }
    } else {
        SymState { pol: SpecPolicy { types: s1.pol.types.insert(name), ..s1.pol }, ..s1 }
    }
}

pub open spec fn types_step(d: Seq<u8>, version: u32) -> spec_fn(SymState, nat) -> SpecResult<SymState> {
    |s: SymState, q: nat|
        match sp_type(d, q, version) {
            Err(e) => Err(e),
            Ok(((name, value, is_attrib), q2)) => Ok((add_type(s, name, value, is_attrib), q2)),
        }
}

pub open spec fn users_step(d: Seq<u8>, version: u32, mls: bool) -> spec_fn(SymState, nat) -> SpecResult<SymState> {
    |s: SymState, q: nat|
        match sp_user(d, q, version, mls) {
            Err(e) => Err(e),
            Ok(((name, value), q2)) => Ok((SymState { user_names: s.user_names.insert(value, name), ..s }, q2)),
        }
}

pub open spec fn bools_step(d: Seq<u8>) -> spec_fn(SymState, nat) -> SpecResult<SymState> {
    |s: SymState, q: nat|
        match sp_bool(d, q) {
            Err(e) => Err(e),
            Ok(((name, state), q2)) => Ok((
                SymState { pol: SpecPolicy { booleans: s.pol.booleans.insert(name, state), ..s.pol }, ..s },
                q2,
            )),
        }
}

pub open spec fn sens_step(d: Seq<u8>) -> spec_fn(SymState, nat) -> SpecResult<SymState> {
    |s: SymState, q: nat|
        match sp_sens(d, q) {
            Err(e) => Err(e),
            Ok((name, q2)) => Ok((
                match name {
                    Some(n) => SymState {
                        pol: SpecPolicy { sensitivities: s.pol.sensitivities.push(n), ..s.pol },
                        ..s
                    },
                    None => s,
                },
                q2,
            )),
        }
}

pub open spec fn cats_step(d: Seq<u8>) -> spec_fn(SymState, nat) -> SpecResult<SymState> {
    |s: SymState, q: nat|
        match sp_cat(d, q) {
            Err(e) => Err(e),
            Ok((name, q2)) => Ok((
                match name {
                    Some(n) => SymState {
                        pol: SpecPolicy { categories: s.pol.categories.push(n), ..s.pol },
                        ..s
                    },
                    None => s,
                },
                q2,
            )),
        }
}

} // verus!

verus! {

fn read_commons_table(r: &mut Reader, nel: u32, pol: &mut Policy, sym: &mut Symbols) -> (res: Result<(), String>)
    ensures
        final(r).bytes() == old(r).bytes(),
        follows_state(
            sp_iterate(old(r).at(), nel as nat, sym_state(old(pol), old(sym)), commons_step(old(r).bytes())),
            outcome(res),
            sym_state(final(pol), final(sym)),
            final(r).at(),
        ),
{
    let ghost d = r.bytes();
    let ghost p0 = r.at();
    let ghost s0 = sym_state(pol, sym);
    let ghost step = commons_step(d);
    proof {
        lemma_iterate_zero(p0, s0, step);
    }
    let mut i: u32 = 0;
    while i < nel
        invariant
            i <= nel,
            r.bytes() == d,
            d == old(r).bytes(),
            p0 == old(r).at(),
            s0 == sym_state(old(pol), old(sym)),
            step == commons_step(d),
            sp_iterate(p0, i as nat, s0, step) == Ok::<(SymState, nat), (Seq<char>, nat)>(
                (sym_state(pol, sym), r.at()),
            ),
        decreases nel - i,
    {
        let ghost q = r.at();
        let ghost before = sym_state(pol, sym);
        proof {
            lemma_iterate_next(p0, i as nat, s0, step, before, q);
        }
        let item = match read_common(r) {
            Ok(v) => v,
            Err(e) => {
                proof {
                    lemma_iterate_err(p0, (i + 1) as nat, nel as nat, s0, step);
                }
                return Err(e);
            },
        };
        let (name, perms) = item;
        let ghost nv = name@;
        let ghost pv = perm_views(perms@);
        assert(perms.deep_view() =~= pv);
        sym.commons.insert(name, perms);
        assert(sym_state(pol, sym) =~= SymState { commons: before.commons.insert(nv, pv), ..before });
        i = i + 1;
    }
    Ok(())
}

fn read_classes_table(r: &mut Reader, nel: u32, version: u32, pol: &mut Policy, sym: &mut Symbols) -> (res: Result<(), String>)
    ensures
        final(r).bytes() == old(r).bytes(),
        follows_state(
            sp_iterate(old(r).at(), nel as nat, sym_state(old(pol), old(sym)), classes_step(old(r).bytes(), version)),
            outcome(res),
            sym_state(final(pol), final(sym)),
            final(r).at(),
        ),
{
    let ghost d = r.bytes();
    let ghost p0 = r.at();
    let ghost s0 = sym_state(pol, sym);
    let ghost step = classes_step(d, version);
    proof {
        lemma_iterate_zero(p0, s0, step);
    }
    let mut i: u32 = 0;
    while i < nel
        invariant
            i <= nel,
            r.bytes() == d,
            d == old(r).bytes(),
            p0 == old(r).at(),
            s0 == sym_state(old(pol), old(sym)),
            step == classes_step(d, version),
            sp_iterate(p0, i as nat, s0, step) == Ok::<(SymState, nat), (Seq<char>, nat)>(
                (sym_state(pol, sym), r.at()),
            ),
        decreases nel - i,
    {
        let ghost q = r.at();
        let ghost before = sym_state(pol, sym);
        proof {
            lemma_iterate_next(p0, i as nat, s0, step, before, q);
        }
        let item = match read_class(r, version) {
            Ok(v) => v,
            Err(e) => {
                proof {
                    lemma_iterate_err(p0, (i + 1) as nat, nel as nat, s0, step);
                }
                return Err(e);
            },
        };
        let (cd, cons) = item;
        let ghost cv = cd@;
        let ghost consv = constraint_views(cons@);
        let mut cons = cons;
        sym.raw.append(&mut cons);
        assert(constraint_views(sym.raw@) =~= before.raw + consv);
        sym.classes.push(cd);
        assert(sym_state(pol, sym) =~= SymState { raw: before.raw + consv, classes: before.classes.push(cv), ..before });
        i = i + 1;
    }
    Ok(())
}

fn read_roles_table(r: &mut Reader, nel: u32, version: u32, pol: &mut Policy, sym: &mut Symbols) -> (res: Result<(), String>)
    ensures
        final(r).bytes() == old(r).bytes(),
        follows_state(
            sp_iterate(old(r).at(), nel as nat, sym_state(old(pol), old(sym)), roles_step(old(r).bytes(), version)),
            outcome(res),
            sym_state(final(pol), final(sym)),
            final(r).at(),
        ),
{
    let ghost d = r.bytes();
    let ghost p0 = r.at();
    let ghost s0 = sym_state(pol, sym);
    let ghost step = roles_step(d, version);
    proof {
        lemma_iterate_zero(p0, s0, step);
    }
    let mut i: u32 = 0;
    while i < nel
        invariant
            i <= nel,
            r.bytes() == d,
            d == old(r).bytes(),
            p0 == old(r).at(),
            s0 == sym_state(old(pol), old(sym)),
            step == roles_step(d, version),
            sp_iterate(p0, i as nat, s0, step) == Ok::<(SymState, nat), (Seq<char>, nat)>(
                (sym_state(pol, sym), r.at()),
            ),
        decreases nel - i,
    {
        let ghost q = r.at();
        let ghost before = sym_state(pol, sym);
        proof {
            lemma_iterate_next(p0, i as nat, s0, step, before, q);
        }
        let item = match read_role(r, version) {
            Ok(v) => v,
            Err(e) => {
                proof {
                    lemma_iterate_err(p0, (i + 1) as nat, nel as nat, s0, step);
                }
                return Err(e);
            },
        };
        let (name, value) = item;
        let ghost nv = name@;
        sym.role_names.insert(value, name);
        assert(sym_state(pol, sym) =~= SymState { role_names: before.role_names.insert(value, nv), ..before });
        i = i + 1;
    }
    Ok(())
}

fn read_users_table(r: &mut Reader, nel: u32, version: u32, mls: bool, pol: &mut Policy, sym: &mut Symbols) -> (res: Result<(), String>)
    ensures
        final(r).bytes() == old(r).bytes(),
        follows_state(
            sp_iterate(old(r).at(), nel as nat, sym_state(old(pol), old(sym)), users_step(old(r).bytes(), version, mls)),
            outcome(res),
            sym_state(final(pol), final(sym)),
            final(r).at(),
        ),
{
    let ghost d = r.bytes();
    let ghost p0 = r.at();
    let ghost s0 = sym_state(pol, sym);
    let ghost step = users_step(d, version, mls);
    proof {
        lemma_iterate_zero(p0, s0, step);
    }
    let mut i: u32 = 0;
    while i < nel
        invariant
            i <= nel,
            r.bytes() == d,
            d == old(r).bytes(),
            p0 == old(r).at(),
            s0 == sym_state(old(pol), old(sym)),
            step == users_step(d, version, mls),
            sp_iterate(p0, i as nat, s0, step) == Ok::<(SymState, nat), (Seq<char>, nat)>(
                (sym_state(pol, sym), r.at()),
            ),
        decreases nel - i,
    {
        let ghost q = r.at();
        let ghost before = sym_state(pol, sym);
        proof {
            lemma_iterate_next(p0, i as nat, s0, step, before, q);
        }
        let item = match read_user(r, version, mls) {
            Ok(v) => v,
            Err(e) => {
                proof {
                    lemma_iterate_err(p0, (i + 1) as nat, nel as nat, s0, step);
                }
                return Err(e);
            },
        };
        let (name, value) = item;
        let ghost nv = name@;
        sym.user_names.insert(value, name);
        assert(sym_state(pol, sym) =~= SymState { user_names: before.user_names.insert(value, nv), ..before });
        i = i + 1;
    }
    Ok(())
}

fn read_types_table(r: &mut Reader, nel: u32, version: u32, pol: &mut Policy, sym: &mut Symbols) -> (res: Result<(), String>)
    ensures
        final(r).bytes() == old(r).bytes(),
        follows_state(
            sp_iterate(old(r).at(), nel as nat, sym_state(old(pol), old(sym)), types_step(old(r).bytes(), version)),
            outcome(res),
            sym_state(final(pol), final(sym)),
            final(r).at(),
        ),
{
    let ghost d = r.bytes();
    let ghost p0 = r.at();
    let ghost s0 = sym_state(pol, sym);
    let ghost step = types_step(d, version);
    proof {
        lemma_iterate_zero(p0, s0, step);
    }
    let mut i: u32 = 0;
    while i < nel
        invariant
            i <= nel,
            r.bytes() == d,
            d == old(r).bytes(),
            p0 == old(r).at(),
            s0 == sym_state(old(pol), old(sym)),
            step == types_step(d, version),
            sp_iterate(p0, i as nat, s0, step) == Ok::<(SymState, nat), (Seq<char>, nat)>(
                (sym_state(pol, sym), r.at()),
            ),
        decreases nel - i,
    {
        let ghost q = r.at();
        let ghost before = sym_state(pol, sym);
        proof {
            lemma_iterate_next(p0, i as nat, s0, step, before, q);
        }
        let item = match read_type(r, version) {
            Ok(v) => v,
            Err(e) => {
                proof {
                    lemma_iterate_err(p0, (i + 1) as nat, nel as nat, s0, step);
                }
                return Err(e);
            },
        };
        let (name, value, is_attrib) = item;
        let ghost nv = name@;
        sym.type_names.insert(value, name.clone());
        if is_attrib {
            sym.attr_names.insert(name.clone());
            if !pol.attributes.contains_key(name.as_str()) {
                pol.attributes.insert(name, NameSet::new());
            }
        } else {
            pol.types.insert(name);
        }
        assert(sym_state(pol, sym) =~= add_type(before, nv, value, is_attrib));
        i = i + 1;
    }
    Ok(())
}

fn read_bools_table(r: &mut Reader, nel: u32, pol: &mut Policy, sym: &mut Symbols) -> (res: Result<(), String>)
    ensures
        final(r).bytes() == old(r).bytes(),
        follows_state(
            sp_iterate(old(r).at(), nel as nat, sym_state(old(pol), old(sym)), bools_step(old(r).bytes())),
            outcome(res),
            sym_state(final(pol), final(sym)),
            final(r).at(),
        ),
{
    let ghost d = r.bytes();
    let ghost p0 = r.at();
    let ghost s0 = sym_state(pol, sym);
    let ghost step = bools_step(d);
    proof {
        lemma_iterate_zero(p0, s0, step);
    }
    let mut i: u32 = 0;
    while i < nel
        invariant
            i <= nel,
            r.bytes() == d,
            d == old(r).bytes(),
            p0 == old(r).at(),
            s0 == sym_state(old(pol), old(sym)),
            step == bools_step(d),
            sp_iterate(p0, i as nat, s0, step) == Ok::<(SymState, nat), (Seq<char>, nat)>(
                (sym_state(pol, sym), r.at()),
            ),
        decreases nel - i,
    {
        let ghost q = r.at();
        let ghost before = sym_state(pol, sym);
        proof {
            lemma_iterate_next(p0, i as nat, s0, step, before, q);
        }
        let item = match read_bool(r) {
            Ok(v) => v,
            Err(e) => {
                proof {
                    lemma_iterate_err(p0, (i + 1) as nat, nel as nat, s0, step);
                }
                return Err(e);
            },
        };
        let (name, state) = item;
        let ghost nv = name@;
        pol.booleans.insert(name, state);
        assert(sym_state(pol, sym) =~= SymState { pol: SpecPolicy { booleans: before.pol.booleans.insert(nv, state), ..before.pol }, ..before });
        i = i + 1;
    }
    Ok(())
}

fn read_sens_table(r: &mut Reader, nel: u32, pol: &mut Policy, sym: &mut Symbols) -> (res: Result<(), String>)
    ensures
        final(r).bytes() == old(r).bytes(),
        follows_state(
            sp_iterate(old(r).at(), nel as nat, sym_state(old(pol), old(sym)), sens_step(old(r).bytes())),
            outcome(res),
            sym_state(final(pol), final(sym)),
            final(r).at(),
        ),
{
    let ghost d = r.bytes();
    let ghost p0 = r.at();
    let ghost s0 = sym_state(pol, sym);
    let ghost step = sens_step(d);
    proof {
        lemma_iterate_zero(p0, s0, step);
    }
    let mut i: u32 = 0;
    while i < nel
        invariant
            i <= nel,
            r.bytes() == d,
            d == old(r).bytes(),
            p0 == old(r).at(),
            s0 == sym_state(old(pol), old(sym)),
            step == sens_step(d),
            sp_iterate(p0, i as nat, s0, step) == Ok::<(SymState, nat), (Seq<char>, nat)>(
                (sym_state(pol, sym), r.at()),
            ),
        decreases nel - i,
    {
        let ghost q = r.at();
        let ghost before = sym_state(pol, sym);
        proof {
            lemma_iterate_next(p0, i as nat, s0, step, before, q);
        }
        let item = match read_sens(r) {
            Ok(v) => v,
            Err(e) => {
                proof {
                    lemma_iterate_err(p0, (i + 1) as nat, nel as nat, s0, step);
                }
                return Err(e);
            },
        };
        match item {
            Some(name) => {
                let ghost nv = name@;
                pol.sensitivities.push(name);
                assert(sym_state(pol, sym) =~= SymState { pol: SpecPolicy { sensitivities: before.pol.sensitivities.push(nv), ..before.pol }, ..before });
            },
            None => {},
        }
        i = i + 1;
    }
    Ok(())
}

fn read_cats_table(r: &mut Reader, nel: u32, pol: &mut Policy, sym: &mut Symbols) -> (res: Result<(), String>)
    ensures
        final(r).bytes() == old(r).bytes(),
        follows_state(
            sp_iterate(old(r).at(), nel as nat, sym_state(old(pol), old(sym)), cats_step(old(r).bytes())),
            outcome(res),
            sym_state(final(pol), final(sym)),
            final(r).at(),
        ),
{
    let ghost d = r.bytes();
    let ghost p0 = r.at();
    let ghost s0 = sym_state(pol, sym);
    let ghost step = cats_step(d);
    proof {
        lemma_iterate_zero(p0, s0, step);
    }
    let mut i: u32 = 0;
    while i < nel
        invariant
            i <= nel,
            r.bytes() == d,
            d == old(r).bytes(),
            p0 == old(r).at(),
            s0 == sym_state(old(pol), old(sym)),
            step == cats_step(d),
            sp_iterate(p0, i as nat, s0, step) == Ok::<(SymState, nat), (Seq<char>, nat)>(
                (sym_state(pol, sym), r.at()),
            ),
        decreases nel - i,
    {
        let ghost q = r.at();
        let ghost before = sym_state(pol, sym);
        proof {
            lemma_iterate_next(p0, i as nat, s0, step, before, q);
        }
        let item = match read_cat(r) {
            Ok(v) => v,
            Err(e) => {
                proof {
                    lemma_iterate_err(p0, (i + 1) as nat, nel as nat, s0, step);
                }
                return Err(e);
            },
        };
        match item {
            Some(name) => {
                let ghost nv = name@;
                pol.categories.push(name);
                assert(sym_state(pol, sym) =~= SymState { pol: SpecPolicy { categories: before.pol.categories.push(nv), ..before.pol }, ..before });
            },
            None => {},
        }
        i = i + 1;
    }
    Ok(())
}

} // verus!

verus! {

/// One symbol table: `nprim` and `nel`, then `nel` datums of the kind the
/// table's index names (none for an index past the eighth). The roles and
/// users tables record their `nel` as the role and user counts; the types
/// table records its `nprim`.
pub open spec fn sp_table(d: Seq<u8>, p: nat, idx: nat, version: u32, mls: bool, s: SymState) -> SpecResult<SymState> {
    match sp_u32(d, p) {
        Err(e) => Err(e),
        Ok((nprim, p1)) => match sp_u32(d, p1) {
            Err(e) => Err(e),
            Ok((nel, p2)) => if idx == 0 {
                sp_iterate(p2, nel as nat, s, commons_step(d))
            } else if idx == 1 {
                sp_iterate(p2, nel as nat, s, classes_step(d, version))
            } else if idx == 2 {
                sp_iterate(
                    p2,
                    nel as nat,
                    SymState { pol: SpecPolicy { role_count: nel as usize, ..s.pol }, ..s },
                    roles_step(d, version),
                )
            } else if idx == 3 {
                sp_iterate(p2, nel as nat, SymState { types_nprim: nprim, ..s }, types_step(d, version))
            } else if idx == 4 {
                sp_iterate(
                    p2,
                    nel as nat,
                    SymState { pol: SpecPolicy { user_count: nel as usize, ..s.pol }, ..s },
                    users_step(d, version, mls),
                )
            } else if idx == 5 {
                sp_iterate(p2, nel as nat, s, bools_step(d))
            } else if idx == 6 {
                sp_iterate(p2, nel as nat, s, sens_step(d))
            } else if idx == 7 {
                sp_iterate(p2, nel as nat, s, cats_step(d))
            } else {
                Ok((s, p2))
            },
        },
    }
}

pub open spec fn tables_step(d: Seq<u8>, version: u32, mls: bool) -> spec_fn((nat, SymState), nat) -> SpecResult<(nat, SymState)> {
    |st: (nat, SymState), q: nat|
        match sp_table(d, q, st.0, version, mls, st.1) {
            Err(e) => Err(e),
            Ok((s2, q2)) => Ok(((st.0 + 1, s2), q2)),
        }
}

/// `sym_num` symbol tables, in order.
pub open spec fn sp_tables(d: Seq<u8>, p: nat, sym_num: nat, version: u32, mls: bool, s0: SymState) -> SpecResult<SymState> {
    match sp_iterate(p, sym_num, (0nat, s0), tables_step(d, version, mls)) {
        Err(e) => Err(e),
        Ok(((_, s), q)) => Ok((s, q)),
    }
}

fn read_table(r: &mut Reader, idx: usize, version: u32, mls: bool, pol: &mut Policy, sym: &mut Symbols) -> (res: Result<(), String>)
    ensures
        final(r).bytes() == old(r).bytes(),
        follows_state(
            sp_table(old(r).bytes(), old(r).at(), idx as nat, version, mls, sym_state(old(pol), old(sym))),
            outcome(res),
            sym_state(final(pol), final(sym)),
            final(r).at(),
        ),
{
    let nprim = r.read_u32()?;
    let nel = r.read_u32()?;
    if idx == 0 {
        read_commons_table(r, nel, pol, sym)
    } else if idx == 1 {
        read_classes_table(r, nel, version, pol, sym)
    } else if idx == 2 {
        let ghost s = sym_state(pol, sym);
        pol.role_count = nel as usize;
        assert(sym_state(pol, sym) =~= SymState { pol: SpecPolicy { role_count: nel as usize, ..s.pol }, ..s });
        read_roles_table(r, nel, version, pol, sym)
    } else if idx == 3 {
        let ghost s = sym_state(pol, sym);
        sym.types_nprim = nprim;
        assert(sym_state(pol, sym) =~= SymState { types_nprim: nprim, ..s });
        read_types_table(r, nel, version, pol, sym)
    } else if idx == 4 {
        let ghost s = sym_state(pol, sym);
        pol.user_count = nel as usize;
        assert(sym_state(pol, sym) =~= SymState { pol: SpecPolicy { user_count: nel as usize, ..s.pol }, ..s });
        read_users_table(r, nel, version, mls, pol, sym)
    } else if idx == 5 {
        read_bools_table(r, nel, pol, sym)
    } else if idx == 6 {
        read_sens_table(r, nel, pol, sym)
    } else if idx == 7 {
        read_cats_table(r, nel, pol, sym)
    } else {
        Ok(())
    }
}

/// Reads `sym_num` symbol tables into the policy and the symbols.
pub fn read_tables(r: &mut Reader, sym_num: u32, version: u32, mls: bool, pol: &mut Policy, sym: &mut Symbols) -> (res: Result<(), String>)
    ensures
        final(r).bytes() == old(r).bytes(),
        follows_state(
            sp_tables(old(r).bytes(), old(r).at(), sym_num as nat, version, mls, sym_state(old(pol), old(sym))),
            outcome(res),
            sym_state(final(pol), final(sym)),
            final(r).at(),
        ),
{
    let ghost d = r.bytes();
    let ghost p0 = r.at();
    let ghost s0 = sym_state(pol, sym);
    let ghost step = tables_step(d, version, mls);
    proof {
        lemma_iterate_zero(p0, (0nat, s0), step);
    }
    let mut i: u32 = 0;
    while i < sym_num
        invariant
            i <= sym_num,
            r.bytes() == d,
            d == old(r).bytes(),
            p0 == old(r).at(),
            s0 == sym_state(old(pol), old(sym)),
            step == tables_step(d, version, mls),
            sp_iterate(p0, i as nat, (0nat, s0), step) == Ok::<((nat, SymState), nat), (Seq<char>, nat)>(
                ((i as nat, sym_state(pol, sym)), r.at()),
            ),
        decreases sym_num - i,
    {
        let ghost q = r.at();
        let ghost before = sym_state(pol, sym);
        proof {
            lemma_iterate_next(p0, i as nat, (0nat, s0), step, (i as nat, before), q);
        }
        match read_table(r, i as usize, version, mls, pol, sym) {
            Ok(_) => {},
            Err(e) => {
                proof {
                    lemma_iterate_err(p0, (i + 1) as nat, sym_num as nat, (0nat, s0), step);
                }
                return Err(e);
            },
        }
        i = i + 1;
    }
    Ok(())
}

} // verus!
