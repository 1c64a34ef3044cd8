//! Symbol-table datums of the policydb: commons, classes (with their
//! constraints), roles, types, users, booleans, sensitivities and
//! categories. Every datum stores its fixed-size fields first and its
//! variable-length name key after them.

use vstd::prelude::*;
use crate::reader::{Reader, SpecResult, follows, outcome, sp_u32, sp_key, sp_skip,
    sp_ebitmap, sp_skip_ebitmap, sp_skip_mls_range, sp_skip_mls_level, sp_iterate,
    lemma_iterate_err, lemma_iterate_next, lemma_iterate_zero};

verus! {

/// A result transformed on success.
pub open spec fn agrees<T, V>(spec: SpecResult<V>, r: Result<T, String>, f: spec_fn(T) -> V, pos: nat) -> bool {
    match r {
        Ok(v) => spec == Ok::<(V, nat), (Seq<char>, nat)>((f(v), pos)),
        Err(e) => spec == Err::<(V, nat), (Seq<char>, nat)>((e@, pos)),
    }
}

/// A step that appends each item read to a sequence.
pub open spec fn collect_step<T>(item: spec_fn(nat) -> SpecResult<T>) -> spec_fn(Seq<T>, nat) -> SpecResult<Seq<T>> {
    |s: Seq<T>, q: nat|
        match item(q) {
            Ok((x, q2)) => Ok((s.push(x), q2)),
            Err(e) => Err(e),
        }
}

/// `n` items read one after another.
pub open spec fn sp_items<T>(p: nat, n: nat, item: spec_fn(nat) -> SpecResult<T>) -> SpecResult<Seq<T>> {
    sp_iterate(p, n, Seq::empty(), collect_step(item))
}

// ---------------------------------------------------------------------------
// Permissions and commons
// ---------------------------------------------------------------------------

pub struct SpecPerm {
    pub name: Seq<char>,
    /// 1-based bit position.
    pub value: u32,
}

pub struct Perm {
    pub name: String,
    pub value: u32,
}

impl View for Perm {
    type V = SpecPerm;

    open spec fn view(&self) -> SpecPerm {
        SpecPerm { name: self.name@, value: self.value }
    }
}

pub open spec fn perm_views(v: Seq<Perm>) -> Seq<SpecPerm> {
    v.map_values(|p: Perm| p@)
}

/// A permission datum: key length, value, key.
pub open spec fn sp_perm(d: Seq<u8>, p: nat) -> SpecResult<SpecPerm> {
    match sp_u32(d, p) {
        Err(e) => Err(e),
        Ok((len, p1)) => match sp_u32(d, p1) {
            Err(e) => Err(e),
            Ok((value, p2)) => match sp_key(d, p2, len as nat) {
                Err(e) => Err(e),
                Ok((name, p3)) => Ok((SpecPerm { name, value }, p3)),
            },
        },
    }
}

pub open spec fn perm_item(d: Seq<u8>) -> spec_fn(nat) -> SpecResult<SpecPerm> {
    |q: nat| sp_perm(d, q)
}

pub fn read_perm(r: &mut Reader) -> (res: Result<Perm, String>)
    ensures
        final(r).bytes() == old(r).bytes(),
        follows(sp_perm(old(r).bytes(), old(r).at()), outcome(res), final(r).at()),
{
    let len = r.read_u32()?;
    let value = r.read_u32()?;
    let name = r.read_key(len as usize)?;
    Ok(Perm { name, value })
}

/// `n` permission datums.
pub fn read_perms(r: &mut Reader, n: u32) -> (res: Result<Vec<Perm>, String>)
    ensures
        final(r).bytes() == old(r).bytes(),
        agrees(
            sp_items(old(r).at(), n as nat, perm_item(old(r).bytes())),
            res,
            |v: Vec<Perm>| perm_views(v@),
            final(r).at(),
        ),
{
    let ghost d = r.bytes();
    let ghost p0 = r.at();
    let ghost step = collect_step(perm_item(d));
    let mut perms: Vec<Perm> = Vec::new();
    let mut i: u32 = 0;
    assert(perm_views(perms@) =~= Seq::<SpecPerm>::empty());
    proof {
        lemma_iterate_zero(p0, Seq::<SpecPerm>::empty(), step);
    }
    while i < n
        invariant
            i <= n,
            r.bytes() == d,
            d == old(r).bytes(),
            p0 == old(r).at(),
            step == collect_step(perm_item(d)),
            sp_iterate(p0, i as nat, Seq::empty(), step) == Ok::<(Seq<SpecPerm>, nat), (Seq<char>, nat)>(
                (perm_views(perms@), r.at()),
            ),
        decreases n - i,
    {
        let ghost q = r.at();
        let ghost before = perm_views(perms@);
        proof {
            lemma_iterate_next(p0, i as nat, Seq::empty(), step, before, q);
            assert(perm_item(d)(q) == sp_perm(d, q));
        }
        let perm = match read_perm(r) {
            Ok(v) => v,
            Err(e) => {
                proof {
                    lemma_iterate_err(p0, (i + 1) as nat, n as nat, Seq::empty(), step);
                }
                return Err(e);
            },
        };
        proof {
            assert(step(before, q) == Ok::<(Seq<SpecPerm>, nat), (Seq<char>, nat)>((before.push(perm@), r.at())));
        }
        perms.push(perm);
        assert(perm_views(perms@) =~= before.push(perms@.last()@));
        i = i + 1;
    }
    Ok(perms)
}

/// A common datum: key length, value, nprim, nel, key, then `nel` perms.
pub open spec fn sp_common(d: Seq<u8>, p: nat) -> SpecResult<(Seq<char>, Seq<SpecPerm>)> {
    match sp_u32(d, p) {
        Err(e) => Err(e),
        Ok((len, p1)) => match sp_u32(d, p1) {
            Err(e) => Err(e),
            Ok((_value, p2)) => match sp_u32(d, p2) {
                Err(e) => Err(e),
                Ok((_nprim, p3)) => match sp_u32(d, p3) {
                    Err(e) => Err(e),
                    Ok((nel, p4)) => match sp_key(d, p4, len as nat) {
                        Err(e) => Err(e),
                        Ok((name, p5)) => match sp_items(p5, nel as nat, perm_item(d)) {
                            Err(e) => Err(e),
                            Ok((perms, p6)) => Ok(((name, perms), p6)),
                        },
                    },
                },
            },
        },
    }
}

pub fn read_common(r: &mut Reader) -> (res: Result<(String, Vec<Perm>), String>)
    ensures
        final(r).bytes() == old(r).bytes(),
        agrees(
            sp_common(old(r).bytes(), old(r).at()),
            res,
            |v: (String, Vec<Perm>)| (v.0@, perm_views(v.1@)),
            final(r).at(),
        ),
{
    let len = r.read_u32()?;
    let _value = r.read_u32()?;
    let _nprim = r.read_u32()?;
    let nel = r.read_u32()?;
    let name = r.read_key(len as usize)?;
    let perms = read_perms(r, nel)?;
    Ok((name, perms))
}

} // verus!

verus! {

impl DeepView for Perm {
    type V = SpecPerm;

    open spec fn deep_view(&self) -> SpecPerm {
        self@
    }
}

// ---------------------------------------------------------------------------
// Constraints
// ---------------------------------------------------------------------------

pub const CEXPR_NAMES: u32 = 5;

/// A single constraint-expression node, captured raw and rendered later
/// (once the type/role/user name maps are populated).
pub struct RawExpr {
    pub expr_type: u32,
    pub attr: u32,
    pub op: u32,
    /// 1-based symbol values, for `CEXPR_NAMES` nodes.
    pub names: Vec<u32>,
}

pub struct SpecRawExpr {
    pub expr_type: u32,
    pub attr: u32,
    pub op: u32,
    pub names: Seq<u32>,
}

impl View for RawExpr {
    type V = SpecRawExpr;

    open spec fn view(&self) -> SpecRawExpr {
        SpecRawExpr { expr_type: self.expr_type, attr: self.attr, op: self.op, names: self.names@ }
    }
}

/// A constraint captured during class parsing, pending rendering.
pub struct RawConstraint {
    pub class_value: u32,
    pub perm_mask: u32,
    pub exprs: Vec<RawExpr>,
    pub validatetrans: bool,
}

pub struct SpecRawConstraint {
    pub class_value: u32,
    pub perm_mask: u32,
    pub exprs: Seq<SpecRawExpr>,
    pub validatetrans: bool,
}

pub open spec fn expr_views(v: Seq<RawExpr>) -> Seq<SpecRawExpr> {
    v.map_values(|e: RawExpr| e@)
}

impl View for RawConstraint {
    type V = SpecRawConstraint;

    open spec fn view(&self) -> SpecRawConstraint {
        SpecRawConstraint {
            class_value: self.class_value,
            perm_mask: self.perm_mask,
            exprs: expr_views(self.exprs@),
            validatetrans: self.validatetrans,
        }
    }
}

pub open spec fn constraint_views(v: Seq<RawConstraint>) -> Seq<SpecRawConstraint> {
    v.map_values(|c: RawConstraint| c@)
}

/// Each set bit index plus one (wrapping), the 1-based symbol values.
pub open spec fn plus_one(bits: Seq<u32>) -> Seq<u32> {
    bits.map_values(|b: u32| vstd::wrapping::u32_specs::wrapping_add(b, 1))
}

/// An expression node: type, attribute, operator; a `CEXPR_NAMES` node then
/// carries a names ebitmap and, from version 29, a type-set (two ebitmaps
/// and a flags word).
pub open spec fn sp_expr(d: Seq<u8>, p: nat, version: u32) -> SpecResult<SpecRawExpr> {
    match sp_u32(d, p) {
        Err(e) => Err(e),
        Ok((expr_type, p1)) => match sp_u32(d, p1) {
            Err(e) => Err(e),
            Ok((attr, p2)) => match sp_u32(d, p2) {
                Err(e) => Err(e),
                Ok((op, p3)) => if expr_type == CEXPR_NAMES {
                    match sp_ebitmap(d, p3) {
                        Err(e) => Err(e),
                        Ok((bits, p4)) => {
                            let node = SpecRawExpr { expr_type, attr, op, names: plus_one(bits) };
                            if version >= 29 {
                                match sp_skip_ebitmap(d, p4) {
                                    Err(e) => Err(e),
                                    Ok((_, p5)) => match sp_skip_ebitmap(d, p5) {
                                        Err(e) => Err(e),
                                        Ok((_, p6)) => match sp_u32(d, p6) {
                                            Err(e) => Err(e),
                                            Ok((_flags, p7)) => Ok((node, p7)),
                                        },
                                    },
                                }
                            } else {
                                Ok((node, p4))
                            }
                        },
                    }
                } else {
                    Ok((SpecRawExpr { expr_type, attr, op, names: Seq::empty() }, p3))
                },
            },
        },
    }
}

pub open spec fn expr_item(d: Seq<u8>, version: u32) -> spec_fn(nat) -> SpecResult<SpecRawExpr> {
    |q: nat| sp_expr(d, q, version)
}

fn read_expr(r: &mut Reader, version: u32) -> (res: Result<RawExpr, String>)
    ensures
        final(r).bytes() == old(r).bytes(),
        follows(sp_expr(old(r).bytes(), old(r).at(), version), outcome(res), final(r).at()),
{
    let expr_type = r.read_u32()?;
    let attr = r.read_u32()?;
    let op = r.read_u32()?;
    let mut names: Vec<u32> = Vec::new();
    if expr_type == CEXPR_NAMES {
        let bits = r.read_ebitmap()?;
        let mut i: usize = 0;
        while i < bits.len()
            invariant
                i <= bits@.len(),
                names@ == plus_one(bits@).subrange(0, i as int),
            decreases bits@.len() - i,
        {
            names.push(bits[i].wrapping_add(1));
            assert(names@ =~= plus_one(bits@).subrange(0, i + 1));
            i = i + 1;
        }
        assert(names@ =~= plus_one(bits@));
        if version >= 29 {
            r.skip_ebitmap()?;  // type_names.types
            r.skip_ebitmap()?;  // type_names.negset
            let _flags = r.read_u32()?;
        }
    }
    Ok(RawExpr { expr_type, attr, op, names })
}

fn read_exprs(r: &mut Reader, n: u32, version: u32) -> (res: Result<Vec<RawExpr>, String>)
    ensures
        final(r).bytes() == old(r).bytes(),
        agrees(
            sp_items(old(r).at(), n as nat, expr_item(old(r).bytes(), version)),
            res,
            |v: Vec<RawExpr>| expr_views(v@),
            final(r).at(),
        ),
{
    let ghost d = r.bytes();
    let ghost p0 = r.at();
    let ghost step = collect_step(expr_item(d, version));
    let mut out: Vec<RawExpr> = Vec::new();
    let mut i: u32 = 0;
    assert(expr_views(out@) =~= Seq::<SpecRawExpr>::empty());
    proof {
        lemma_iterate_zero(p0, Seq::<SpecRawExpr>::empty(), step);
    }
    while i < n
        invariant
            i <= n,
            r.bytes() == d,
            d == old(r).bytes(),
            p0 == old(r).at(),
            step == collect_step(expr_item(d, version)),
            sp_iterate(p0, i as nat, Seq::empty(), step) == Ok::<(Seq<SpecRawExpr>, nat), (Seq<char>, nat)>(
                (expr_views(out@), r.at()),
            ),
        decreases n - i,
    {
        let ghost q = r.at();
        let ghost before = expr_views(out@);
        proof {
            lemma_iterate_next(p0, i as nat, Seq::empty(), step, before, q);
            assert(expr_item(d, version)(q) == sp_expr(d, q, version));
        }
        let x = match read_expr(r, version) {
            Ok(v) => v,
            Err(e) => {
                proof {
                    lemma_iterate_err(p0, (i + 1) as nat, n as nat, Seq::empty(), step);
                }
                return Err(e);
            },
        };
        out.push(x);
        assert(expr_views(out@) =~= before.push(out@.last()@));
        i = i + 1;
    }
    Ok(out)
}

/// A constraint: a permission mask, then a list of expression nodes (in
/// reverse-Polish order).
pub open spec fn sp_constraint(
    d: Seq<u8>,
    p: nat,
    version: u32,
    class_value: u32,
    validatetrans: bool,
) -> SpecResult<SpecRawConstraint> {
    match sp_u32(d, p) {
        Err(e) => Err(e),
        Ok((perm_mask, p1)) => match sp_u32(d, p1) {
            Err(e) => Err(e),
            Ok((nexpr, p2)) => match sp_items(p2, nexpr as nat, expr_item(d, version)) {
                Err(e) => Err(e),
                Ok((exprs, p3)) => Ok(
                    (SpecRawConstraint { class_value, perm_mask, exprs, validatetrans }, p3),
                ),
            },
        },
    }
}

pub open spec fn constraint_item(d: Seq<u8>, version: u32, class_value: u32, validatetrans: bool) -> spec_fn(nat) -> SpecResult<SpecRawConstraint> {
    |q: nat| sp_constraint(d, q, version, class_value, validatetrans)
}

fn read_constraint(r: &mut Reader, version: u32, class_value: u32, validatetrans: bool) -> (res: Result<RawConstraint, String>)
    ensures
        final(r).bytes() == old(r).bytes(),
        follows(
            sp_constraint(old(r).bytes(), old(r).at(), version, class_value, validatetrans),
            outcome(res),
            final(r).at(),
        ),
{
    let perm_mask = r.read_u32()?;
    let nexpr = r.read_u32()?;
    let exprs = read_exprs(r, nexpr, version)?;
    Ok(RawConstraint { class_value, perm_mask, exprs, validatetrans })
}

/// `n` constraints of one class, appended to `out`.
fn read_constraints(
    r: &mut Reader,
    n: u32,
    version: u32,
    class_value: u32,
    validatetrans: bool,
    out: &mut Vec<RawConstraint>,
) -> (res: Result<(), String>)
    ensures
        final(r).bytes() == old(r).bytes(),
        match res {
            Ok(_) => sp_items(old(r).at(), n as nat, constraint_item(old(r).bytes(), version, class_value, validatetrans))
                == Ok::<(Seq<SpecRawConstraint>, nat), (Seq<char>, nat)>((
                    constraint_views(final(out)@).subrange(old(out)@.len() as int, final(out)@.len() as int),
                    final(r).at(),
                )) && final(out)@.len() >= old(out)@.len()
                && constraint_views(final(out)@).subrange(0, old(out)@.len() as int) == constraint_views(old(out)@),
            Err(e) => sp_items(old(r).at(), n as nat, constraint_item(old(r).bytes(), version, class_value, validatetrans))
                == Err::<(Seq<SpecRawConstraint>, nat), (Seq<char>, nat)>((e@, final(r).at())),
        },
{
    let ghost d = r.bytes();
    let ghost p0 = r.at();
    let ghost base = constraint_views(out@);
    let ghost start = out@.len();
    let ghost step = collect_step(constraint_item(d, version, class_value, validatetrans));
    let mut i: u32 = 0;
    proof {
        lemma_iterate_zero(p0, Seq::<SpecRawConstraint>::empty(), step);
        assert(constraint_views(out@).subrange(start as int, out@.len() as int) =~= Seq::<SpecRawConstraint>::empty());
    }
    while i < n
        invariant
            i <= n,
            r.bytes() == d,
            d == old(r).bytes(),
            p0 == old(r).at(),
            start == old(out)@.len(),
            base == constraint_views(old(out)@),
            out@.len() >= start,
            constraint_views(out@).subrange(0, start as int) == base,
            step == collect_step(constraint_item(d, version, class_value, validatetrans)),
            sp_iterate(p0, i as nat, Seq::empty(), step) == Ok::<(Seq<SpecRawConstraint>, nat), (Seq<char>, nat)>(
                (constraint_views(out@).subrange(start as int, out@.len() as int), r.at()),
            ),
        decreases n - i,
    {
        let ghost q = r.at();
        let ghost before = constraint_views(out@).subrange(start as int, out@.len() as int);
        proof {
            lemma_iterate_next(p0, i as nat, Seq::empty(), step, before, q);
            assert(constraint_item(d, version, class_value, validatetrans)(q) == sp_constraint(d, q, version, class_value, validatetrans));
        }
        let x = match read_constraint(r, version, class_value, validatetrans) {
            Ok(v) => v,
            Err(e) => {
                proof {
                    lemma_iterate_err(p0, (i + 1) as nat, n as nat, Seq::empty(), step);
                }
                return Err(e);
            },
        };
        let ghost xv = x@;
        out.push(x);
        assert(constraint_views(out@).subrange(start as int, out@.len() as int) =~= before.push(xv));
        assert(constraint_views(out@).subrange(0, start as int) =~= base);
        i = i + 1;
    }
    Ok(())
}

} // verus!

verus! {

// ---------------------------------------------------------------------------
// Classes
// ---------------------------------------------------------------------------

pub struct ClassDatum {
    pub name: String,
    pub value: u32,
    pub common_name: Option<String>,
    pub perms: Vec<Perm>,
}

pub struct SpecClassDatum {
    pub name: Seq<char>,
    pub value: u32,
    pub common_name: Option<Seq<char>>,
    pub perms: Seq<SpecPerm>,
}

impl View for ClassDatum {
    type V = SpecClassDatum;

    open spec fn view(&self) -> SpecClassDatum {
        SpecClassDatum {
            name: self.name@,
            value: self.value,
            common_name: match self.common_name {
                Some(c) => Some(c@),
                None => None,
            },
            perms: perm_views(self.perms@),
        }
    }
}

/// What follows a class's permissions: its constraints, then (from version
/// 19) its validatetrans statements, then (from 27) the default user, role
/// and range and (from 28) the default type, which are skipped.
pub open spec fn sp_class_rules(d: Seq<u8>, p: nat, version: u32, value: u32, ncons: u32) -> SpecResult<Seq<SpecRawConstraint>> {
    match sp_items(p, ncons as nat, constraint_item(d, version, value, false)) {
        Err(e) => Err(e),
        Ok((cons, p1)) => {
            let r2: SpecResult<Seq<SpecRawConstraint>> = if version >= 19 {
                match sp_u32(d, p1) {
                    Err(e) => Err(e),
                    Ok((nvtrans, p2)) => match sp_items(p2, nvtrans as nat, constraint_item(d, version, value, true)) {
                        Err(e) => Err(e),
                        Ok((vts, p3)) => Ok((cons + vts, p3)),
                    },
                }
            } else {
                Ok((cons, p1))
            };
            match r2 {
                Err(e) => Err(e),
                Ok((all, p3)) => {
                    let r4: SpecResult<()> = if version >= 27 { sp_skip(d, p3, 12) } else { Ok(((), p3)) };
                    match r4 {
                        Err(e) => Err(e),
                        Ok((_, p4)) => {
                            let r5: SpecResult<()> = if version >= 28 { sp_skip(d, p4, 4) } else { Ok(((), p4)) };
                            match r5 {
                                Err(e) => Err(e),
                                Ok((_, p5)) => Ok((all, p5)),
                            }
                        },
                    }
                },
            }
        },
    }
}

/// A class datum: key length, common key length, value, nprim, nel, ncons,
/// the key, the common's key when it has one, `nel` permissions, then its
/// rules.
pub open spec fn sp_class(d: Seq<u8>, p: nat, version: u32) -> SpecResult<(SpecClassDatum, Seq<SpecRawConstraint>)> {
    match sp_u32(d, p) {
        Err(e) => Err(e),
        Ok((len, p1)) => match sp_u32(d, p1) {
        Err(e) => Err(e),
        Ok((common_len, p2)) => match sp_u32(d, p2) {
        Err(e) => Err(e),
        Ok((value, p3)) => match sp_u32(d, p3) {
        Err(e) => Err(e),
        Ok((_nprim, p4)) => match sp_u32(d, p4) {
        Err(e) => Err(e),
        Ok((nel, p5)) => match sp_u32(d, p5) {
        Err(e) => Err(e),
        Ok((ncons, p6)) => match sp_key(d, p6, len as nat) {
        Err(e) => Err(e),
        Ok((name, p7)) => {
            let rc: SpecResult<Option<Seq<char>>> = if common_len > 0 {
                match sp_key(d, p7, common_len as nat) {
                    Err(e) => Err(e),
                    Ok((c, q)) => Ok((Some(c), q)),
                }
            } else {
                Ok((None, p7))
            };
            match rc {
                Err(e) => Err(e),
                Ok((common_name, p8)) => match sp_items(p8, nel as nat, perm_item(d)) {
                    Err(e) => Err(e),
                    Ok((perms, p9)) => match sp_class_rules(d, p9, version, value, ncons) {
                        Err(e) => Err(e),
                        Ok((cons, p10)) => Ok(((SpecClassDatum { name, value, common_name, perms }, cons), p10)),
                    },
                },
            }
        },
        }}}}}},
    }
}

/// A class's constraints, validatetrans statements and skipped defaults.
fn read_class_rules(r: &mut Reader, version: u32, value: u32, ncons: u32) -> (res: Result<Vec<RawConstraint>, String>)
    ensures
        final(r).bytes() == old(r).bytes(),
        agrees(
            sp_class_rules(old(r).bytes(), old(r).at(), version, value, ncons),
            res,
            |v: Vec<RawConstraint>| constraint_views(v@),
            final(r).at(),
        ),
{
    let mut constraints: Vec<RawConstraint> = Vec::new();
    read_constraints(r, ncons, version, value, false, &mut constraints)?;
    let ghost cons = constraint_views(constraints@);
    assert(constraint_views(constraints@).subrange(0, constraints@.len() as int) =~= cons);
    if version >= 19 {
        let nvtrans = r.read_u32()?;
        read_constraints(r, nvtrans, version, value, true, &mut constraints)?;
        assert(constraint_views(constraints@) =~= cons + constraint_views(constraints@).subrange(
            cons.len() as int,
            constraints@.len() as int,
        ));
    }
    if version >= 27 {
        r.skip(12)?;  // default_user, default_role, default_range
    }
    if version >= 28 {
        r.skip(4)?;  // default_type
    }
    Ok(constraints)
}

pub fn read_class(r: &mut Reader, version: u32) -> (res: Result<(ClassDatum, Vec<RawConstraint>), String>)
    ensures
        final(r).bytes() == old(r).bytes(),
        agrees(
            sp_class(old(r).bytes(), old(r).at(), version),
            res,
            |v: (ClassDatum, Vec<RawConstraint>)| (v.0@, constraint_views(v.1@)),
            final(r).at(),
        ),
{
    let len = r.read_u32()?;
    let common_len = r.read_u32()?;
    let value = r.read_u32()?;
    let _nprim = r.read_u32()?;
    let nel = r.read_u32()?;
    let ncons = r.read_u32()?;

    let name = r.read_key(len as usize)?;
    let common_name = if common_len > 0 {
        Some(r.read_key(common_len as usize)?)
    } else {
        None
    };
    let perms = read_perms(r, nel)?;

    let constraints = read_class_rules(r, version, value, ncons)?;
    Ok((ClassDatum { name, value, common_name, perms }, constraints))
}

// ---------------------------------------------------------------------------
// Roles, types, users, booleans, sensitivities, categories
// ---------------------------------------------------------------------------

/// A role datum: key length, value, bounds (from version 24), key, then the
/// dominates and types ebitmaps (skipped).
pub open spec fn sp_role(d: Seq<u8>, p: nat, version: u32) -> SpecResult<(Seq<char>, u32)> {
    match sp_u32(d, p) {
        Err(e) => Err(e),
        Ok((len, p1)) => match sp_u32(d, p1) {
            Err(e) => Err(e),
            Ok((value, p2)) => {
                let rb: SpecResult<()> = if version >= 24 {
                    match sp_u32(d, p2) { Err(e) => Err(e), Ok((_, q)) => Ok(((), q)) }
                } else {
                    Ok(((), p2))
                };
                match rb {
                    Err(e) => Err(e),
                    Ok((_, p3)) => match sp_key(d, p3, len as nat) {
                        Err(e) => Err(e),
                        Ok((name, p4)) => match sp_skip_ebitmap(d, p4) {
                            Err(e) => Err(e),
                            Ok((_, p5)) => match sp_skip_ebitmap(d, p5) {
                                Err(e) => Err(e),
                                Ok((_, p6)) => Ok(((name, value), p6)),
                            },
                        },
                    },
                }
            },
        },
    }
}

pub fn read_role(r: &mut Reader, version: u32) -> (res: Result<(String, u32), String>)
    ensures
        final(r).bytes() == old(r).bytes(),
        agrees(sp_role(old(r).bytes(), old(r).at(), version), res, |v: (String, u32)| (v.0@, v.1), final(r).at()),
{
    let len = r.read_u32()?;
    let value = r.read_u32()?;
    if version >= 24 {
        let _bounds = r.read_u32()?;
    }
    let name = r.read_key(len as usize)?;
    r.skip_ebitmap()?;  // dominates
    r.skip_ebitmap()?;  // types
    Ok((name, value))
}

/// A type datum: key length, value, then either properties and bounds (from
/// version 24; an attribute when properties has bit 0x2) or a primary flag
/// (an attribute when zero), then the key.
pub open spec fn sp_type(d: Seq<u8>, p: nat, version: u32) -> SpecResult<(Seq<char>, u32, bool)> {
    match sp_u32(d, p) {
        Err(e) => Err(e),
        Ok((len, p1)) => match sp_u32(d, p1) {
            Err(e) => Err(e),
            Ok((value, p2)) => {
                let ra: SpecResult<bool> = if version >= 24 {
                    match sp_u32(d, p2) {
                        Err(e) => Err(e),
                        Ok((prop, p3)) => match sp_u32(d, p3) {
                            Err(e) => Err(e),
                            Ok((_bounds, p4)) => Ok((prop & 0x0002 != 0, p4)),
                        },
                    }
                } else {
                    match sp_u32(d, p2) {
                        Err(e) => Err(e),
                        Ok((primary, p3)) => Ok((primary == 0, p3)),
                    }
                };
                match ra {
                    Err(e) => Err(e),
                    Ok((is_attrib, p4)) => match sp_key(d, p4, len as nat) {
                        Err(e) => Err(e),
                        Ok((name, p5)) => Ok(((name, value, is_attrib), p5)),
                    },
                }
            },
        },
    }
}

pub fn read_type(r: &mut Reader, version: u32) -> (res: Result<(String, u32, bool), String>)
    ensures
        final(r).bytes() == old(r).bytes(),
        agrees(sp_type(old(r).bytes(), old(r).at(), version), res, |v: (String, u32, bool)| (v.0@, v.1, v.2), final(r).at()),
{
    let len = r.read_u32()?;
    let value = r.read_u32()?;
    let is_attrib = if version >= 24 {
        let prop = r.read_u32()?;
        let _bounds = r.read_u32()?;
        prop & 0x0002 != 0
    } else {
        let primary = r.read_u32()?;
        primary == 0
    };
    let name = r.read_key(len as usize)?;
    Ok((name, value, is_attrib))
}

/// A user datum: key length, value, bounds (from version 24), key, the roles
/// ebitmap, and for MLS policies a range and a default level (skipped).
pub open spec fn sp_user(d: Seq<u8>, p: nat, version: u32, mls: bool) -> SpecResult<(Seq<char>, u32)> {
    match sp_u32(d, p) {
        Err(e) => Err(e),
        Ok((len, p1)) => match sp_u32(d, p1) {
            Err(e) => Err(e),
            Ok((value, p2)) => {
                let rb: SpecResult<()> = if version >= 24 {
                    match sp_u32(d, p2) { Err(e) => Err(e), Ok((_, q)) => Ok(((), q)) }
                } else {
                    Ok(((), p2))
                };
                match rb {
                    Err(e) => Err(e),
                    Ok((_, p3)) => match sp_key(d, p3, len as nat) {
                        Err(e) => Err(e),
                        Ok((name, p4)) => match sp_skip_ebitmap(d, p4) {
                            Err(e) => Err(e),
                            Ok((_, p5)) => if mls {
                                match sp_skip_mls_range(d, p5) {
                                    Err(e) => Err(e),
                                    Ok((_, p6)) => match sp_skip_mls_level(d, p6) {
                                        Err(e) => Err(e),
                                        Ok((_, p7)) => Ok(((name, value), p7)),
                                    },
                                }
                            } else {
                                Ok(((name, value), p5))
                            },
                        },
                    },
                }
            },
        },
    }
}

pub fn read_user(r: &mut Reader, version: u32, mls: bool) -> (res: Result<(String, u32), String>)
    ensures
        final(r).bytes() == old(r).bytes(),
        agrees(sp_user(old(r).bytes(), old(r).at(), version, mls), res, |v: (String, u32)| (v.0@, v.1), final(r).at()),
{
    let len = r.read_u32()?;
    let value = r.read_u32()?;
    if version >= 24 {
        let _bounds = r.read_u32()?;
    }
    let name = r.read_key(len as usize)?;
    r.skip_ebitmap()?;  // roles
    if mls {
        r.skip_mls_range()?;  // range
        r.skip_mls_level()?;  // default level
    }
    Ok((name, value))
}

/// A boolean datum: key length, value, state, key.
pub open spec fn sp_bool(d: Seq<u8>, p: nat) -> SpecResult<(Seq<char>, bool)> {
    match sp_u32(d, p) {
        Err(e) => Err(e),
        Ok((len, p1)) => match sp_u32(d, p1) {
            Err(e) => Err(e),
            Ok((_value, p2)) => match sp_u32(d, p2) {
                Err(e) => Err(e),
                Ok((state, p3)) => match sp_key(d, p3, len as nat) {
                    Err(e) => Err(e),
                    Ok((name, p4)) => Ok(((name, state != 0), p4)),
                },
            },
        },
    }
}

pub fn read_bool(r: &mut Reader) -> (res: Result<(String, bool), String>)
    ensures
        final(r).bytes() == old(r).bytes(),
        agrees(sp_bool(old(r).bytes(), old(r).at()), res, |v: (String, bool)| (v.0@, v.1), final(r).at()),
{
    let len = r.read_u32()?;
    let _value = r.read_u32()?;
    let state = r.read_u32()? != 0;
    let name = r.read_key(len as usize)?;
    Ok((name, state))
}

/// A sensitivity datum: key length, alias flag, key, level; its name unless
/// it is an alias.
pub open spec fn sp_sens(d: Seq<u8>, p: nat) -> SpecResult<Option<Seq<char>>> {
    match sp_u32(d, p) {
        Err(e) => Err(e),
        Ok((len, p1)) => match sp_u32(d, p1) {
            Err(e) => Err(e),
            Ok((isalias, p2)) => match sp_key(d, p2, len as nat) {
                Err(e) => Err(e),
                Ok((name, p3)) => match sp_skip_mls_level(d, p3) {
                    Err(e) => Err(e),
                    Ok((_, p4)) => Ok((if isalias == 0 { Some(name) } else { None }, p4)),
                },
            },
        },
    }
}

pub fn read_sens(r: &mut Reader) -> (res: Result<Option<String>, String>)
    ensures
        final(r).bytes() == old(r).bytes(),
        agrees(
            sp_sens(old(r).bytes(), old(r).at()),
            res,
            |v: Option<String>| match v { Some(s) => Some(s@), None => None },
            final(r).at(),
        ),
{
    let len = r.read_u32()?;
    let isalias = r.read_u32()?;
    let name = r.read_key(len as usize)?;
    r.skip_mls_level()?;
    Ok(if isalias == 0 { Some(name) } else { None })
}

/// A category datum: key length, value, alias flag, key; its name unless it
/// is an alias.
pub open spec fn sp_cat(d: Seq<u8>, p: nat) -> SpecResult<Option<Seq<char>>> {
    match sp_u32(d, p) {
        Err(e) => Err(e),
        Ok((len, p1)) => match sp_u32(d, p1) {
            Err(e) => Err(e),
            Ok((_value, p2)) => match sp_u32(d, p2) {
                Err(e) => Err(e),
                Ok((isalias, p3)) => match sp_key(d, p3, len as nat) {
                    Err(e) => Err(e),
                    Ok((name, p4)) => Ok((if isalias == 0 { Some(name) } else { None }, p4)),
                },
            },
        },
    }
}

pub fn read_cat(r: &mut Reader) -> (res: Result<Option<String>, String>)
    ensures
        final(r).bytes() == old(r).bytes(),
        agrees(
            sp_cat(old(r).bytes(), old(r).at()),
            res,
            |v: Option<String>| match v { Some(s) => Some(s@), None => None },
            final(r).at(),
        ),
{
    let len = r.read_u32()?;
    let _value = r.read_u32()?;
    let isalias = r.read_u32()?;
    let name = r.read_key(len as usize)?;
    Ok(if isalias == 0 { Some(name) } else { None })
}

} // verus!
