//! Cutting a blob short: every reader of the format, run on a prefix of the
//! bytes, either gives what it gives on the whole blob (when the prefix
//! holds everything it read) or fails (when it does not). Hence a parse
//! that needed every byte of a blob fails on each of its truncations.

use vstd::prelude::*;
use crate::reader::{SpecResult, sp_bytes, sp_skip, sp_u8, sp_u16, sp_u32, sp_u64, sp_key, sp_string,
    sp_nodes, sp_ebitmap, sp_skip_ebitmap, sp_skip_mls_level, sp_skip_mls_range, sp_context_type,
    sp_skip_context, sp_iterate};
use crate::policy::{SpecPolicy, empty_policy};
use crate::parser::{sp_leading_maps, sp_header, sp_rules_at, sp_parse_at, sp_parse, after_tables};
use crate::tables::empty_symbols;
use crate::resolve::SpecResolvedClass;
use crate::avtab::{sp_xperm_tail, sp_plain_tail, sp_avtab_entry};
use crate::sections::{avtab_step, sp_avtab, sp_cond_node, cond_step, sp_cond_list, role_tr_step,
    sp_roles_rules, ftrans_datum_step, ftrans_comp_step, ftrans_legacy_step, sp_filename_trans,
    sp_skip_then_context, sp_ocon_entry, ocon_entry_step, ocon_table_step, sp_ocons, genfs_entry_step,
    genfs_step, sp_genfs, range_tr_step, sp_range_trans, type_attr_step, sp_type_attr_map};
use crate::tables::{SymState, commons_step, classes_step, roles_step, types_step, users_step,
    bools_step, sens_step, cats_step, sp_table, tables_step, sp_tables};
use crate::symtab::{sp_items, collect_step, sp_perm, perm_item, sp_common, sp_expr, expr_item,
    sp_constraint, constraint_item, sp_class_rules, sp_class, sp_role, sp_type, sp_user, sp_bool,
    sp_sens, sp_cat};

verus! {

/// How a reader started at `p` on the first `k` bytes (`cut`) relates to
/// the same reader on the whole blob (`full`), when the latter succeeds: it
/// never moves backwards; it gives the same result when it stopped within
/// the first `k` bytes, and fails when it needed more.
pub open spec fn cut_agrees<T>(full: SpecResult<T>, cut: SpecResult<T>, p: nat, k: nat) -> bool {
    full is Ok ==> {
        &&& p <= full->Ok_0.1
        &&& (p <= k && full->Ok_0.1 <= k ==> cut == full)
        &&& (p <= k && k < full->Ok_0.1 ==> cut is Err)
    }
}

pub proof fn cut_bytes(d: Seq<u8>, p: nat, n: nat, k: nat)
    requires
        k <= d.len(),
    ensures
        cut_agrees(sp_bytes(d, p, n), sp_bytes(d.take(k as int), p, n), p, k),
{
    if p + n <= k {
        assert(d.take(k as int).subrange(p as int, (p + n) as int) =~= d.subrange(p as int, (p + n) as int));
    }
}

pub proof fn cut_skip(d: Seq<u8>, p: nat, n: nat, k: nat)
    requires
        k <= d.len(),
    ensures
        cut_agrees(sp_skip(d, p, n), sp_skip(d.take(k as int), p, n), p, k),
{
}

pub proof fn cut_u32(d: Seq<u8>, p: nat, k: nat)
    requires
        k <= d.len(),
    ensures
        cut_agrees(sp_u32(d, p), sp_u32(d.take(k as int), p), p, k),
{
    cut_bytes(d, p, 4, k);
}

pub proof fn cut_u64(d: Seq<u8>, p: nat, k: nat)
    requires
        k <= d.len(),
    ensures
        cut_agrees(sp_u64(d, p), sp_u64(d.take(k as int), p), p, k),
{
    cut_bytes(d, p, 8, k);
}

pub proof fn cut_u16(d: Seq<u8>, p: nat, k: nat)
    requires
        k <= d.len(),
    ensures
        cut_agrees(sp_u16(d, p), sp_u16(d.take(k as int), p), p, k),
{
    cut_bytes(d, p, 2, k);
}

pub proof fn cut_u8(d: Seq<u8>, p: nat, k: nat)
    requires
        k <= d.len(),
    ensures
        cut_agrees(sp_u8(d, p), sp_u8(d.take(k as int), p), p, k),
{
    cut_bytes(d, p, 1, k);
}

pub proof fn cut_key(d: Seq<u8>, p: nat, len: nat, k: nat)
    requires
        k <= d.len(),
    ensures
        cut_agrees(sp_key(d, p, len), sp_key(d.take(k as int), p, len), p, k),
{
    cut_bytes(d, p, len, k);
}

pub proof fn cut_string(d: Seq<u8>, p: nat, k: nat)
    requires
        k <= d.len(),
    ensures
        cut_agrees(sp_string(d, p), sp_string(d.take(k as int), p), p, k),
{
    cut_u32(d, p, k);
    let r = sp_u32(d, p);
    cut_bytes(d, r->Ok_0.1, r->Ok_0.0 as nat, k);
}

pub proof fn cut_nodes(d: Seq<u8>, p: nat, n: nat, k: nat)
    requires
        k <= d.len(),
    ensures
        cut_agrees(sp_nodes(d, p, n), sp_nodes(d.take(k as int), p, n), p, k),
    decreases n,
{
    if n > 0 {
        let m = (n - 1) as nat;
        cut_nodes(d, p, m, k);
        let q = sp_nodes(d, p, m)->Ok_0.1;
        cut_u32(d, q, k);
        cut_u64(d, sp_u32(d, q)->Ok_0.1, k);
    }
}

pub proof fn cut_ebitmap(d: Seq<u8>, p: nat, k: nat)
    requires
        k <= d.len(),
    ensures
        cut_agrees(sp_ebitmap(d, p), sp_ebitmap(d.take(k as int), p), p, k),
{
    let p1 = sp_u32(d, p)->Ok_0.1;
    let p2 = sp_u32(d, p1)->Ok_0.1;
    let p3 = sp_u32(d, p2)->Ok_0.1;
    cut_u32(d, p, k);
    cut_u32(d, p1, k);
    cut_u32(d, p2, k);
    cut_nodes(d, p3, sp_u32(d, p2)->Ok_0.0 as nat, k);
}

pub proof fn cut_skip_ebitmap(d: Seq<u8>, p: nat, k: nat)
    requires
        k <= d.len(),
    ensures
        cut_agrees(sp_skip_ebitmap(d, p), sp_skip_ebitmap(d.take(k as int), p), p, k),
{
    let p1 = sp_u32(d, p)->Ok_0.1;
    let p2 = sp_u32(d, p1)->Ok_0.1;
    let p3 = sp_u32(d, p2)->Ok_0.1;
    cut_u32(d, p, k);
    cut_u32(d, p1, k);
    cut_u32(d, p2, k);
    cut_skip(d, p3, sp_u32(d, p2)->Ok_0.0 as nat * 12, k);
}

pub proof fn cut_skip_mls_level(d: Seq<u8>, p: nat, k: nat)
    requires
        k <= d.len(),
    ensures
        cut_agrees(sp_skip_mls_level(d, p), sp_skip_mls_level(d.take(k as int), p), p, k),
{
    cut_u32(d, p, k);
    cut_skip_ebitmap(d, sp_u32(d, p)->Ok_0.1, k);
}

pub proof fn cut_skip_mls_range(d: Seq<u8>, p: nat, k: nat)
    requires
        k <= d.len(),
    ensures
        cut_agrees(sp_skip_mls_range(d, p), sp_skip_mls_range(d.take(k as int), p), p, k),
{
    let p1 = sp_u32(d, p)->Ok_0.1;
    let items = sp_u32(d, p)->Ok_0.0;
    let p2 = sp_u32(d, p1)->Ok_0.1;
    let p3 = if items > 1 { sp_u32(d, p2)->Ok_0.1 } else { p2 };
    let p4 = sp_skip_ebitmap(d, p3)->Ok_0.1;
    cut_u32(d, p, k);
    cut_u32(d, p1, k);
    cut_u32(d, p2, k);
    cut_skip_ebitmap(d, p3, k);
    cut_skip_ebitmap(d, p4, k);
}

pub proof fn cut_context_type(d: Seq<u8>, p: nat, mls: bool, k: nat)
    requires
        k <= d.len(),
    ensures
        cut_agrees(sp_context_type(d, p, mls), sp_context_type(d.take(k as int), p, mls), p, k),
{
    let p1 = sp_u32(d, p)->Ok_0.1;
    let p2 = sp_u32(d, p1)->Ok_0.1;
    let p3 = sp_u32(d, p2)->Ok_0.1;
    cut_u32(d, p, k);
    cut_u32(d, p1, k);
    cut_u32(d, p2, k);
    cut_skip_mls_range(d, p3, k);
}

pub proof fn cut_skip_context(d: Seq<u8>, p: nat, mls: bool, k: nat)
    requires
        k <= d.len(),
    ensures
        cut_agrees(sp_skip_context(d, p, mls), sp_skip_context(d.take(k as int), p, mls), p, k),
{
    cut_context_type(d, p, mls, k);
}

/// Steps that agree on the cut blob make runs of them agree.
pub proof fn cut_iterate<S>(
    p: nat,
    n: nat,
    s0: S,
    f: spec_fn(S, nat) -> SpecResult<S>,
    g: spec_fn(S, nat) -> SpecResult<S>,
    k: nat,
)
    requires
        forall|s: S, q: nat| #[trigger] cut_agrees(f(s, q), g(s, q), q, k),
    ensures
        cut_agrees(sp_iterate(p, n, s0, f), sp_iterate(p, n, s0, g), p, k),
    decreases n,
{
    reveal(sp_iterate);
    if n > 0 {
        let m = (n - 1) as nat;
        cut_iterate(p, m, s0, f, g, k);
        let r = sp_iterate(p, m, s0, f);
        assert(cut_agrees(f(r->Ok_0.0, r->Ok_0.1), g(r->Ok_0.0, r->Ok_0.1), r->Ok_0.1, k));
    }
}

/// Items that agree on the cut blob make runs of them agree.
pub proof fn cut_items<T>(
    p: nat,
    n: nat,
    f: spec_fn(nat) -> SpecResult<T>,
    g: spec_fn(nat) -> SpecResult<T>,
    k: nat,
)
    requires
        forall|q: nat| #[trigger] cut_agrees(f(q), g(q), q, k),
    ensures
        cut_agrees(sp_items(p, n, f), sp_items(p, n, g), p, k),
{
    assert forall|s: Seq<T>, q: nat| #[trigger] cut_agrees(collect_step(f)(s, q), collect_step(g)(s, q), q, k) by {
        assert(cut_agrees(f(q), g(q), q, k));
    }
    cut_iterate(p, n, Seq::empty(), collect_step(f), collect_step(g), k);
}

pub proof fn cut_perm(d: Seq<u8>, p: nat, k: nat)
    requires
        k <= d.len(),
    ensures
        cut_agrees(sp_perm(d, p), sp_perm(d.take(k as int), p), p, k),
{
    let p1 = sp_u32(d, p)->Ok_0.1;
    let p2 = sp_u32(d, p1)->Ok_0.1;
    cut_u32(d, p, k);
    cut_u32(d, p1, k);
    cut_key(d, p2, sp_u32(d, p)->Ok_0.0 as nat, k);
}

pub proof fn cut_perms(d: Seq<u8>, p: nat, n: nat, k: nat)
    requires
        k <= d.len(),
    ensures
        cut_agrees(sp_items(p, n, perm_item(d)), sp_items(p, n, perm_item(d.take(k as int))), p, k),
{
    assert forall|q: nat| #[trigger] cut_agrees(perm_item(d)(q), perm_item(d.take(k as int))(q), q, k) by {
        cut_perm(d, q, k);
    }
    cut_items(p, n, perm_item(d), perm_item(d.take(k as int)), k);
}

pub proof fn cut_common(d: Seq<u8>, p: nat, k: nat)
    requires
        k <= d.len(),
    ensures
        cut_agrees(sp_common(d, p), sp_common(d.take(k as int), p), p, k),
{
    let p1 = sp_u32(d, p)->Ok_0.1;
    let p2 = sp_u32(d, p1)->Ok_0.1;
    let p3 = sp_u32(d, p2)->Ok_0.1;
    let p4 = sp_u32(d, p3)->Ok_0.1;
    let len = sp_u32(d, p)->Ok_0.0;
    let nel = sp_u32(d, p3)->Ok_0.0;
    let p5 = sp_key(d, p4, len as nat)->Ok_0.1;
    cut_u32(d, p, k);
    cut_u32(d, p1, k);
    cut_u32(d, p2, k);
    cut_u32(d, p3, k);
    cut_key(d, p4, len as nat, k);
    cut_perms(d, p5, nel as nat, k);
}

pub proof fn cut_expr(d: Seq<u8>, p: nat, version: u32, k: nat)
    requires
        k <= d.len(),
    ensures
        cut_agrees(sp_expr(d, p, version), sp_expr(d.take(k as int), p, version), p, k),
{
    let p1 = sp_u32(d, p)->Ok_0.1;
    let p2 = sp_u32(d, p1)->Ok_0.1;
    let p3 = sp_u32(d, p2)->Ok_0.1;
    let p4 = sp_ebitmap(d, p3)->Ok_0.1;
    let p5 = sp_skip_ebitmap(d, p4)->Ok_0.1;
    let p6 = sp_skip_ebitmap(d, p5)->Ok_0.1;
    cut_u32(d, p, k);
    cut_u32(d, p1, k);
    cut_u32(d, p2, k);
    cut_ebitmap(d, p3, k);
    cut_skip_ebitmap(d, p4, k);
    cut_skip_ebitmap(d, p5, k);
    cut_u32(d, p6, k);
}

pub proof fn cut_constraint(d: Seq<u8>, p: nat, version: u32, class_value: u32, validatetrans: bool, k: nat)
    requires
        k <= d.len(),
    ensures
        cut_agrees(
            sp_constraint(d, p, version, class_value, validatetrans),
            sp_constraint(d.take(k as int), p, version, class_value, validatetrans),
            p,
            k,
        ),
{
    let t = d.take(k as int);
    let p1 = sp_u32(d, p)->Ok_0.1;
    let p2 = sp_u32(d, p1)->Ok_0.1;
    cut_u32(d, p, k);
    cut_u32(d, p1, k);
    assert forall|q: nat| #[trigger] cut_agrees(expr_item(d, version)(q), expr_item(t, version)(q), q, k) by {
        cut_expr(d, q, version, k);
    }
    cut_items(p2, sp_u32(d, p1)->Ok_0.0 as nat, expr_item(d, version), expr_item(t, version), k);
}

pub proof fn cut_constraints(d: Seq<u8>, p: nat, n: nat, version: u32, value: u32, vt: bool, k: nat)
    requires
        k <= d.len(),
    ensures
        cut_agrees(
            sp_items(p, n, constraint_item(d, version, value, vt)),
            sp_items(p, n, constraint_item(d.take(k as int), version, value, vt)),
            p,
            k,
        ),
{
    let t = d.take(k as int);
    assert forall|q: nat| #[trigger] cut_agrees(
        constraint_item(d, version, value, vt)(q),
        constraint_item(t, version, value, vt)(q),
        q,
        k,
    ) by {
        cut_constraint(d, q, version, value, vt, k);
    }
    cut_items(p, n, constraint_item(d, version, value, vt), constraint_item(t, version, value, vt), k);
}

pub proof fn cut_class_rules(d: Seq<u8>, p: nat, version: u32, value: u32, ncons: u32, k: nat)
    requires
        k <= d.len(),
    ensures
        cut_agrees(
            sp_class_rules(d, p, version, value, ncons),
            sp_class_rules(d.take(k as int), p, version, value, ncons),
            p,
            k,
        ),
{
    let p1 = sp_items(p, ncons as nat, constraint_item(d, version, value, false))->Ok_0.1;
    let p2 = sp_u32(d, p1)->Ok_0.1;
    let p3 = if version >= 19 {
        sp_items(p2, sp_u32(d, p1)->Ok_0.0 as nat, constraint_item(d, version, value, true))->Ok_0.1
    } else {
        p1
    };
    let p4 = if version >= 27 { p3 + 12 } else { p3 };
    cut_constraints(d, p, ncons as nat, version, value, false, k);
    cut_u32(d, p1, k);
    cut_constraints(d, p2, sp_u32(d, p1)->Ok_0.0 as nat, version, value, true, k);
    cut_skip(d, p3, 12, k);
    cut_skip(d, p4, 4, k);
}

pub proof fn cut_class(d: Seq<u8>, p: nat, version: u32, k: nat)
    requires
        k <= d.len(),
    ensures
        cut_agrees(sp_class(d, p, version), sp_class(d.take(k as int), p, version), p, k),
{
    let p1 = sp_u32(d, p)->Ok_0.1;
    let p2 = sp_u32(d, p1)->Ok_0.1;
    let p3 = sp_u32(d, p2)->Ok_0.1;
    let p4 = sp_u32(d, p3)->Ok_0.1;
    let p5 = sp_u32(d, p4)->Ok_0.1;
    let p6 = sp_u32(d, p5)->Ok_0.1;
    let len = sp_u32(d, p)->Ok_0.0;
    let common_len = sp_u32(d, p1)->Ok_0.0;
    let value = sp_u32(d, p2)->Ok_0.0;
    let nel = sp_u32(d, p4)->Ok_0.0;
    let ncons = sp_u32(d, p5)->Ok_0.0;
    let p7 = sp_key(d, p6, len as nat)->Ok_0.1;
    let p8 = if common_len > 0 { sp_key(d, p7, common_len as nat)->Ok_0.1 } else { p7 };
    let p9 = sp_items(p8, nel as nat, perm_item(d))->Ok_0.1;
    cut_u32(d, p, k);
    cut_u32(d, p1, k);
    cut_u32(d, p2, k);
    cut_u32(d, p3, k);
    cut_u32(d, p4, k);
    cut_u32(d, p5, k);
    cut_key(d, p6, len as nat, k);
    cut_key(d, p7, common_len as nat, k);
    cut_perms(d, p8, nel as nat, k);
    cut_class_rules(d, p9, version, value, ncons, k);
}

pub proof fn cut_role(d: Seq<u8>, p: nat, version: u32, k: nat)
    requires
        k <= d.len(),
    ensures
        cut_agrees(sp_role(d, p, version), sp_role(d.take(k as int), p, version), p, k),
{
    let p1 = sp_u32(d, p)->Ok_0.1;
    let p2 = sp_u32(d, p1)->Ok_0.1;
    let p3 = if version >= 24 { sp_u32(d, p2)->Ok_0.1 } else { p2 };
    let p4 = sp_key(d, p3, sp_u32(d, p)->Ok_0.0 as nat)->Ok_0.1;
    let p5 = sp_skip_ebitmap(d, p4)->Ok_0.1;
    cut_u32(d, p, k);
    cut_u32(d, p1, k);
    cut_u32(d, p2, k);
    cut_key(d, p3, sp_u32(d, p)->Ok_0.0 as nat, k);
    cut_skip_ebitmap(d, p4, k);
    cut_skip_ebitmap(d, p5, k);
}

pub proof fn cut_type(d: Seq<u8>, p: nat, version: u32, k: nat)
    requires
        k <= d.len(),
    ensures
        cut_agrees(sp_type(d, p, version), sp_type(d.take(k as int), p, version), p, k),
{
    let p1 = sp_u32(d, p)->Ok_0.1;
    let p2 = sp_u32(d, p1)->Ok_0.1;
    let p3 = sp_u32(d, p2)->Ok_0.1;
    let p4 = if version >= 24 { sp_u32(d, p3)->Ok_0.1 } else { p3 };
    cut_u32(d, p, k);
    cut_u32(d, p1, k);
    cut_u32(d, p2, k);
    cut_u32(d, p3, k);
    cut_key(d, p4, sp_u32(d, p)->Ok_0.0 as nat, k);
}

pub proof fn cut_user(d: Seq<u8>, p: nat, version: u32, mls: bool, k: nat)
    requires
        k <= d.len(),
    ensures
        cut_agrees(sp_user(d, p, version, mls), sp_user(d.take(k as int), p, version, mls), p, k),
{
    let p1 = sp_u32(d, p)->Ok_0.1;
    let p2 = sp_u32(d, p1)->Ok_0.1;
    let p3 = if version >= 24 { sp_u32(d, p2)->Ok_0.1 } else { p2 };
    let p4 = sp_key(d, p3, sp_u32(d, p)->Ok_0.0 as nat)->Ok_0.1;
    let p5 = sp_skip_ebitmap(d, p4)->Ok_0.1;
    let p6 = sp_skip_mls_range(d, p5)->Ok_0.1;
    cut_u32(d, p, k);
    cut_u32(d, p1, k);
    cut_u32(d, p2, k);
    cut_key(d, p3, sp_u32(d, p)->Ok_0.0 as nat, k);
    cut_skip_ebitmap(d, p4, k);
    cut_skip_mls_range(d, p5, k);
    cut_skip_mls_level(d, p6, k);
}

pub proof fn cut_bool(d: Seq<u8>, p: nat, k: nat)
    requires
        k <= d.len(),
    ensures
        cut_agrees(sp_bool(d, p), sp_bool(d.take(k as int), p), p, k),
{
    let p1 = sp_u32(d, p)->Ok_0.1;
    let p2 = sp_u32(d, p1)->Ok_0.1;
    let p3 = sp_u32(d, p2)->Ok_0.1;
    cut_u32(d, p, k);
    cut_u32(d, p1, k);
    cut_u32(d, p2, k);
    cut_key(d, p3, sp_u32(d, p)->Ok_0.0 as nat, k);
}

pub proof fn cut_sens(d: Seq<u8>, p: nat, k: nat)
    requires
        k <= d.len(),
    ensures
        cut_agrees(sp_sens(d, p), sp_sens(d.take(k as int), p), p, k),
{
    let p1 = sp_u32(d, p)->Ok_0.1;
    let p2 = sp_u32(d, p1)->Ok_0.1;
    let p3 = sp_key(d, p2, sp_u32(d, p)->Ok_0.0 as nat)->Ok_0.1;
    cut_u32(d, p, k);
    cut_u32(d, p1, k);
    cut_key(d, p2, sp_u32(d, p)->Ok_0.0 as nat, k);
    cut_skip_mls_level(d, p3, k);
}

pub proof fn cut_cat(d: Seq<u8>, p: nat, k: nat)
    requires
        k <= d.len(),
    ensures
        cut_agrees(sp_cat(d, p), sp_cat(d.take(k as int), p), p, k),
{
    let p1 = sp_u32(d, p)->Ok_0.1;
    let p2 = sp_u32(d, p1)->Ok_0.1;
    let p3 = sp_u32(d, p2)->Ok_0.1;
    cut_u32(d, p, k);
    cut_u32(d, p1, k);
    cut_u32(d, p2, k);
    cut_key(d, p3, sp_u32(d, p)->Ok_0.0 as nat, k);
}

/// The step of each symbol table, on the whole blob and on its first `k`
/// bytes.
pub open spec fn table_steps_agree(d: Seq<u8>, version: u32, mls: bool, k: nat) -> bool {
    let t = d.take(k as int);
    &&& forall|s: SymState, q: nat| #[trigger] cut_agrees(commons_step(d)(s, q), commons_step(t)(s, q), q, k)
    &&& forall|s: SymState, q: nat| #[trigger] cut_agrees(classes_step(d, version)(s, q), classes_step(t, version)(s, q), q, k)
    &&& forall|s: SymState, q: nat| #[trigger] cut_agrees(roles_step(d, version)(s, q), roles_step(t, version)(s, q), q, k)
    &&& forall|s: SymState, q: nat| #[trigger] cut_agrees(types_step(d, version)(s, q), types_step(t, version)(s, q), q, k)
    &&& forall|s: SymState, q: nat| #[trigger] cut_agrees(users_step(d, version, mls)(s, q), users_step(t, version, mls)(s, q), q, k)
    &&& forall|s: SymState, q: nat| #[trigger] cut_agrees(bools_step(d)(s, q), bools_step(t)(s, q), q, k)
    &&& forall|s: SymState, q: nat| #[trigger] cut_agrees(sens_step(d)(s, q), sens_step(t)(s, q), q, k)
    &&& forall|s: SymState, q: nat| #[trigger] cut_agrees(cats_step(d)(s, q), cats_step(t)(s, q), q, k)
}

pub proof fn cut_table_steps(d: Seq<u8>, version: u32, mls: bool, k: nat)
    requires
        k <= d.len(),
    ensures
        table_steps_agree(d, version, mls, k),
{
    let t = d.take(k as int);
    assert forall|s: SymState, q: nat| #[trigger] cut_agrees(commons_step(d)(s, q), commons_step(t)(s, q), q, k) by {
        cut_common(d, q, k);
    }
    assert forall|s: SymState, q: nat| #[trigger] cut_agrees(classes_step(d, version)(s, q), classes_step(t, version)(s, q), q, k) by {
        cut_class(d, q, version, k);
    }
    assert forall|s: SymState, q: nat| #[trigger] cut_agrees(roles_step(d, version)(s, q), roles_step(t, version)(s, q), q, k) by {
        cut_role(d, q, version, k);
    }
    assert forall|s: SymState, q: nat| #[trigger] cut_agrees(types_step(d, version)(s, q), types_step(t, version)(s, q), q, k) by {
        cut_type(d, q, version, k);
    }
    assert forall|s: SymState, q: nat| #[trigger] cut_agrees(users_step(d, version, mls)(s, q), users_step(t, version, mls)(s, q), q, k) by {
        cut_user(d, q, version, mls, k);
    }
    assert forall|s: SymState, q: nat| #[trigger] cut_agrees(bools_step(d)(s, q), bools_step(t)(s, q), q, k) by {
        cut_bool(d, q, k);
    }
    assert forall|s: SymState, q: nat| #[trigger] cut_agrees(sens_step(d)(s, q), sens_step(t)(s, q), q, k) by {
        cut_sens(d, q, k);
    }
    assert forall|s: SymState, q: nat| #[trigger] cut_agrees(cats_step(d)(s, q), cats_step(t)(s, q), q, k) by {
        cut_cat(d, q, k);
    }
}

pub proof fn cut_table(d: Seq<u8>, p: nat, idx: nat, version: u32, mls: bool, s: SymState, k: nat)
    requires
        k <= d.len(),
        table_steps_agree(d, version, mls, k),
    ensures
        cut_agrees(sp_table(d, p, idx, version, mls, s), sp_table(d.take(k as int), p, idx, version, mls, s), p, k),
{
    let t = d.take(k as int);
    let p1 = sp_u32(d, p)->Ok_0.1;
    let p2 = sp_u32(d, p1)->Ok_0.1;
    let nprim = sp_u32(d, p)->Ok_0.0;
    let nel = sp_u32(d, p1)->Ok_0.0 as nat;
    cut_u32(d, p, k);
    cut_u32(d, p1, k);
    if idx == 0 {
        cut_iterate(p2, nel, s, commons_step(d), commons_step(t), k);
    } else if idx == 1 {
        cut_iterate(p2, nel, s, classes_step(d, version), classes_step(t, version), k);
    } else if idx == 2 {
        let s2 = SymState { pol: crate::policy::SpecPolicy { role_count: nel as usize, ..s.pol }, ..s };
        cut_iterate(p2, nel, s2, roles_step(d, version), roles_step(t, version), k);
    } else if idx == 3 {
        cut_iterate(p2, nel, SymState { types_nprim: nprim, ..s }, types_step(d, version), types_step(t, version), k);
    } else if idx == 4 {
        let s2 = SymState { pol: crate::policy::SpecPolicy { user_count: nel as usize, ..s.pol }, ..s };
        cut_iterate(p2, nel, s2, users_step(d, version, mls), users_step(t, version, mls), k);
    } else if idx == 5 {
        cut_iterate(p2, nel, s, bools_step(d), bools_step(t), k);
    } else if idx == 6 {
        cut_iterate(p2, nel, s, sens_step(d), sens_step(t), k);
    } else if idx == 7 {
        cut_iterate(p2, nel, s, cats_step(d), cats_step(t), k);
    }
}

pub proof fn cut_tables(d: Seq<u8>, p: nat, sym_num: nat, version: u32, mls: bool, s0: SymState, k: nat)
    requires
        k <= d.len(),
    ensures
        cut_agrees(
            sp_tables(d, p, sym_num, version, mls, s0),
            sp_tables(d.take(k as int), p, sym_num, version, mls, s0),
            p,
            k,
        ),
{
    let t = d.take(k as int);
    cut_table_steps(d, version, mls, k);
    assert forall|st: (nat, SymState), q: nat| #[trigger] cut_agrees(
        tables_step(d, version, mls)(st, q),
        tables_step(t, version, mls)(st, q),
        q,
        k,
    ) by {
        cut_table(d, q, st.0, version, mls, st.1, k);
    }
    cut_iterate(p, sym_num, (0nat, s0), tables_step(d, version, mls), tables_step(t, version, mls), k);
}

pub proof fn cut_avtab_entry(
    d: Seq<u8>,
    p: nat,
    tn: Map<u32, Seq<char>>,
    cm: Map<u32, SpecResolvedClass>,
    conditional: bool,
    pol: SpecPolicy,
    k: nat,
)
    requires
        k <= d.len(),
    ensures
        cut_agrees(
            sp_avtab_entry(d, p, tn, cm, conditional, pol),
            sp_avtab_entry(d.take(k as int), p, tn, cm, conditional, pol),
            p,
            k,
        ),
{
    let p1 = sp_u16(d, p)->Ok_0.1;
    let p2 = sp_u16(d, p1)->Ok_0.1;
    let p3 = sp_u16(d, p2)->Ok_0.1;
    let p4 = sp_u16(d, p3)->Ok_0.1;
    let p5 = sp_u8(d, p4)->Ok_0.1;
    let p6 = sp_u8(d, p5)->Ok_0.1;
    cut_u16(d, p, k);
    cut_u16(d, p1, k);
    cut_u16(d, p2, k);
    cut_u16(d, p3, k);
    cut_u8(d, p4, k);
    cut_u8(d, p5, k);
    cut_bytes(d, p6, 32, k);
    cut_u32(d, p4, k);
}

pub proof fn cut_avtab_steps(d: Seq<u8>, tn: Map<u32, Seq<char>>, cm: Map<u32, SpecResolvedClass>, conditional: bool, k: nat)
    requires
        k <= d.len(),
    ensures
        forall|pol: SpecPolicy, q: nat| #[trigger] cut_agrees(
            avtab_step(d, tn, cm, conditional)(pol, q),
            avtab_step(d.take(k as int), tn, cm, conditional)(pol, q),
            q,
            k,
        ),
{
    assert forall|pol: SpecPolicy, q: nat| #[trigger] cut_agrees(
        avtab_step(d, tn, cm, conditional)(pol, q),
        avtab_step(d.take(k as int), tn, cm, conditional)(pol, q),
        q,
        k,
    ) by {
        cut_avtab_entry(d, q, tn, cm, conditional, pol, k);
    }
}

pub proof fn cut_avtab(d: Seq<u8>, p: nat, tn: Map<u32, Seq<char>>, cm: Map<u32, SpecResolvedClass>, pol: SpecPolicy, k: nat)
    requires
        k <= d.len(),
    ensures
        cut_agrees(sp_avtab(d, p, tn, cm, pol), sp_avtab(d.take(k as int), p, tn, cm, pol), p, k),
{
    cut_u32(d, p, k);
    cut_avtab_steps(d, tn, cm, false, k);
    cut_iterate(
        sp_u32(d, p)->Ok_0.1,
        sp_u32(d, p)->Ok_0.0 as nat,
        pol,
        avtab_step(d, tn, cm, false),
        avtab_step(d.take(k as int), tn, cm, false),
        k,
    );
}

pub proof fn cut_cond_node(d: Seq<u8>, p: nat, tn: Map<u32, Seq<char>>, cm: Map<u32, SpecResolvedClass>, pol: SpecPolicy, k: nat)
    requires
        k <= d.len(),
    ensures
        cut_agrees(sp_cond_node(d, p, tn, cm, pol), sp_cond_node(d.take(k as int), p, tn, cm, pol), p, k),
{
    let t = d.take(k as int);
    let p1 = sp_u32(d, p)->Ok_0.1;
    let p2 = sp_u32(d, p1)->Ok_0.1;
    let p3 = sp_skip(d, p2, sp_u32(d, p1)->Ok_0.0 as nat * 8)->Ok_0.1;
    let p4 = sp_u32(d, p3)->Ok_0.1;
    let r5 = sp_iterate(p4, sp_u32(d, p3)->Ok_0.0 as nat, pol, avtab_step(d, tn, cm, true));
    let p5 = r5->Ok_0.1;
    let p6 = sp_u32(d, p5)->Ok_0.1;
    cut_u32(d, p, k);
    cut_u32(d, p1, k);
    cut_skip(d, p2, sp_u32(d, p1)->Ok_0.0 as nat * 8, k);
    cut_u32(d, p3, k);
    cut_avtab_steps(d, tn, cm, true, k);
    cut_iterate(p4, sp_u32(d, p3)->Ok_0.0 as nat, pol, avtab_step(d, tn, cm, true), avtab_step(t, tn, cm, true), k);
    cut_u32(d, p5, k);
    cut_iterate(p6, sp_u32(d, p5)->Ok_0.0 as nat, r5->Ok_0.0, avtab_step(d, tn, cm, true), avtab_step(t, tn, cm, true), k);
}

pub proof fn cut_cond_list(d: Seq<u8>, p: nat, tn: Map<u32, Seq<char>>, cm: Map<u32, SpecResolvedClass>, pol: SpecPolicy, k: nat)
    requires
        k <= d.len(),
    ensures
        cut_agrees(sp_cond_list(d, p, tn, cm, pol), sp_cond_list(d.take(k as int), p, tn, cm, pol), p, k),
{
    let t = d.take(k as int);
    cut_u32(d, p, k);
    assert forall|pl: SpecPolicy, q: nat| #[trigger] cut_agrees(cond_step(d, tn, cm)(pl, q), cond_step(t, tn, cm)(pl, q), q, k) by {
        cut_cond_node(d, q, tn, cm, pl, k);
    }
    cut_iterate(sp_u32(d, p)->Ok_0.1, sp_u32(d, p)->Ok_0.0 as nat, pol, cond_step(d, tn, cm), cond_step(t, tn, cm), k);
}

pub proof fn cut_roles_rules(d: Seq<u8>, p: nat, version: u32, k: nat)
    requires
        k <= d.len(),
    ensures
        cut_agrees(sp_roles_rules(d, p, version), sp_roles_rules(d.take(k as int), p, version), p, k),
{
    let t = d.take(k as int);
    let p1 = sp_u32(d, p)->Ok_0.1;
    cut_u32(d, p, k);
    assert forall|s: (), q: nat| #[trigger] cut_agrees(role_tr_step(d, version)(s, q), role_tr_step(t, version)(s, q), q, k) by {
        cut_skip(d, q, 12, k);
        cut_skip(d, q + 12, 4, k);
    }
    cut_iterate(p1, sp_u32(d, p)->Ok_0.0 as nat, (), role_tr_step(d, version), role_tr_step(t, version), k);
    let p2 = sp_iterate(p1, sp_u32(d, p)->Ok_0.0 as nat, (), role_tr_step(d, version))->Ok_0.1;
    cut_u32(d, p2, k);
    cut_skip(d, sp_u32(d, p2)->Ok_0.1, sp_u32(d, p2)->Ok_0.0 as nat * 8, k);
}

pub proof fn cut_filename_trans(
    d: Seq<u8>,
    p: nat,
    version: u32,
    tn: Map<u32, Seq<char>>,
    cm: Map<u32, SpecResolvedClass>,
    pol: SpecPolicy,
    k: nat,
)
    requires
        k <= d.len(),
    ensures
        cut_agrees(
            sp_filename_trans(d, p, version, tn, cm, pol),
            sp_filename_trans(d.take(k as int), p, version, tn, cm, pol),
            p,
            k,
        ),
{
    let t = d.take(k as int);
    cut_u32(d, p, k);
    let p1 = sp_u32(d, p)->Ok_0.1;
    let nel = sp_u32(d, p)->Ok_0.0 as nat;
    if version >= 33 {
        assert forall|pl: SpecPolicy, q: nat| #[trigger] cut_agrees(ftrans_comp_step(d, tn, cm)(pl, q), ftrans_comp_step(t, tn, cm)(pl, q), q, k) by {
            let q1 = sp_string(d, q)->Ok_0.1;
            let q2 = sp_u32(d, q1)->Ok_0.1;
            let q3 = sp_u32(d, q2)->Ok_0.1;
            let q4 = sp_u32(d, q3)->Ok_0.1;
            let name = sp_string(d, q)->Ok_0.0;
            let ttype = sp_u32(d, q1)->Ok_0.0;
            let tclass = sp_u32(d, q2)->Ok_0.0;
            cut_string(d, q, k);
            cut_u32(d, q1, k);
            cut_u32(d, q2, k);
            cut_u32(d, q3, k);
            assert forall|pm: SpecPolicy, r: nat| #[trigger] cut_agrees(
                ftrans_datum_step(d, tn, cm, name, ttype, tclass)(pm, r),
                ftrans_datum_step(t, tn, cm, name, ttype, tclass)(pm, r),
                r,
                k,
            ) by {
                cut_ebitmap(d, r, k);
                cut_u32(d, sp_ebitmap(d, r)->Ok_0.1, k);
            }
            cut_iterate(
                q4,
                sp_u32(d, q3)->Ok_0.0 as nat,
                pl,
                ftrans_datum_step(d, tn, cm, name, ttype, tclass),
                ftrans_datum_step(t, tn, cm, name, ttype, tclass),
                k,
            );
        }
        cut_iterate(p1, nel, pol, ftrans_comp_step(d, tn, cm), ftrans_comp_step(t, tn, cm), k);
    } else {
        assert forall|pl: SpecPolicy, q: nat| #[trigger] cut_agrees(ftrans_legacy_step(d, tn, cm)(pl, q), ftrans_legacy_step(t, tn, cm)(pl, q), q, k) by {
            let q1 = sp_string(d, q)->Ok_0.1;
            let q2 = sp_u32(d, q1)->Ok_0.1;
            let q3 = sp_u32(d, q2)->Ok_0.1;
            let q4 = sp_u32(d, q3)->Ok_0.1;
            cut_string(d, q, k);
            cut_u32(d, q1, k);
            cut_u32(d, q2, k);
            cut_u32(d, q3, k);
            cut_u32(d, q4, k);
        }
        cut_iterate(p1, nel, pol, ftrans_legacy_step(d, tn, cm), ftrans_legacy_step(t, tn, cm), k);
    }
}

pub proof fn cut_skip_then_context(d: Seq<u8>, p: nat, n: nat, mls: bool, k: nat)
    requires
        k <= d.len(),
    ensures
        cut_agrees(sp_skip_then_context(d, p, n, mls), sp_skip_then_context(d.take(k as int), p, n, mls), p, k),
{
    cut_skip(d, p, n, k);
    cut_skip_context(d, p + n, mls, k);
}

pub proof fn cut_ocon_entry(d: Seq<u8>, p: nat, idx: nat, mls: bool, k: nat)
    requires
        k <= d.len(),
    ensures
        cut_agrees(sp_ocon_entry(d, p, idx, mls), sp_ocon_entry(d.take(k as int), p, idx, mls), p, k),
{
    if idx == 0 {
        cut_skip_then_context(d, p, 4, mls, k);
    } else if idx == 1 || idx == 3 {
        let p1 = sp_string(d, p)->Ok_0.1;
        cut_string(d, p, k);
        cut_skip_context(d, p1, mls, k);
        cut_skip_context(d, sp_skip_context(d, p1, mls)->Ok_0.1, mls, k);
    } else if idx == 2 {
        cut_skip_then_context(d, p, 12, mls, k);
    } else if idx == 4 {
        cut_skip_then_context(d, p, 8, mls, k);
    } else if idx == 5 {
        let p1 = sp_u32(d, p)->Ok_0.1;
        cut_u32(d, p, k);
        cut_string(d, p1, k);
        cut_skip_context(d, sp_string(d, p1)->Ok_0.1, mls, k);
    } else if idx == 6 {
        cut_skip_then_context(d, p, 32, mls, k);
    } else if idx == 7 {
        cut_skip_then_context(d, p, 16, mls, k);
    } else if idx == 8 {
        let p1 = sp_string(d, p)->Ok_0.1;
        cut_string(d, p, k);
        cut_u32(d, p1, k);
        cut_skip_context(d, sp_u32(d, p1)->Ok_0.1, mls, k);
    }
}

pub proof fn cut_ocons(d: Seq<u8>, p: nat, oclass_num: nat, mls: bool, k: nat)
    requires
        k <= d.len(),
    ensures
        cut_agrees(sp_ocons(d, p, oclass_num, mls), sp_ocons(d.take(k as int), p, oclass_num, mls), p, k),
{
    let t = d.take(k as int);
    assert forall|idx: nat, q: nat| #[trigger] cut_agrees(ocon_table_step(d, mls)(idx, q), ocon_table_step(t, mls)(idx, q), q, k) by {
        cut_u32(d, q, k);
        assert forall|s: (), r: nat| #[trigger] cut_agrees(ocon_entry_step(d, idx, mls)(s, r), ocon_entry_step(t, idx, mls)(s, r), r, k) by {
            cut_ocon_entry(d, r, idx, mls, k);
        }
        cut_iterate(sp_u32(d, q)->Ok_0.1, sp_u32(d, q)->Ok_0.0 as nat, (), ocon_entry_step(d, idx, mls), ocon_entry_step(t, idx, mls), k);
    }
    cut_iterate(p, oclass_num, 0nat, ocon_table_step(d, mls), ocon_table_step(t, mls), k);
}

pub proof fn cut_genfs(d: Seq<u8>, p: nat, tn: Map<u32, Seq<char>>, mls: bool, pol: SpecPolicy, k: nat)
    requires
        k <= d.len(),
    ensures
        cut_agrees(sp_genfs(d, p, tn, mls, pol), sp_genfs(d.take(k as int), p, tn, mls, pol), p, k),
{
    let t = d.take(k as int);
    assert forall|pl: SpecPolicy, q: nat| #[trigger] cut_agrees(genfs_step(d, tn, mls)(pl, q), genfs_step(t, tn, mls)(pl, q), q, k) by {
        let q1 = sp_string(d, q)->Ok_0.1;
        let fstype = sp_string(d, q)->Ok_0.0;
        cut_string(d, q, k);
        cut_u32(d, q1, k);
        assert forall|pm: SpecPolicy, r: nat| #[trigger] cut_agrees(
            genfs_entry_step(d, tn, mls, fstype)(pm, r),
            genfs_entry_step(t, tn, mls, fstype)(pm, r),
            r,
            k,
        ) by {
            let r1 = sp_string(d, r)->Ok_0.1;
            cut_string(d, r, k);
            cut_u32(d, r1, k);
            cut_context_type(d, sp_u32(d, r1)->Ok_0.1, mls, k);
        }
        cut_iterate(
            sp_u32(d, q1)->Ok_0.1,
            sp_u32(d, q1)->Ok_0.0 as nat,
            pl,
            genfs_entry_step(d, tn, mls, fstype),
            genfs_entry_step(t, tn, mls, fstype),
            k,
        );
    }
    cut_u32(d, p, k);
    cut_iterate(sp_u32(d, p)->Ok_0.1, sp_u32(d, p)->Ok_0.0 as nat, pol, genfs_step(d, tn, mls), genfs_step(t, tn, mls), k);
}

pub proof fn cut_range_trans(d: Seq<u8>, p: nat, version: u32, mls: bool, k: nat)
    requires
        k <= d.len(),
    ensures
        cut_agrees(sp_range_trans(d, p, version, mls), sp_range_trans(d.take(k as int), p, version, mls), p, k),
{
    let t = d.take(k as int);
    assert forall|s: (), q: nat| #[trigger] cut_agrees(range_tr_step(d, version)(s, q), range_tr_step(t, version)(s, q), q, k) by {
        cut_skip(d, q, 8, k);
        cut_skip(d, q + 8, 4, k);
        cut_skip_mls_range(d, if version >= 21 { q + 12 } else { q + 8 }, k);
    }
    cut_u32(d, p, k);
    cut_iterate(sp_u32(d, p)->Ok_0.1, sp_u32(d, p)->Ok_0.0 as nat, (), range_tr_step(d, version), range_tr_step(t, version), k);
}

pub proof fn cut_type_attr_map(
    d: Seq<u8>,
    p: nat,
    nprim: nat,
    tn: Map<u32, Seq<char>>,
    attr_names: Set<Seq<char>>,
    pol: SpecPolicy,
    k: nat,
)
    requires
        k <= d.len(),
    ensures
        cut_agrees(
            sp_type_attr_map(d, p, nprim, tn, attr_names, pol),
            sp_type_attr_map(d.take(k as int), p, nprim, tn, attr_names, pol),
            p,
            k,
        ),
{
    let t = d.take(k as int);
    assert forall|st: (nat, SpecPolicy), q: nat| #[trigger] cut_agrees(
        type_attr_step(d, tn, attr_names)(st, q),
        type_attr_step(t, tn, attr_names)(st, q),
        q,
        k,
    ) by {
        cut_ebitmap(d, q, k);
    }
    cut_iterate(p, nprim, (0nat, pol), type_attr_step(d, tn, attr_names), type_attr_step(t, tn, attr_names), k);
}

pub proof fn cut_leading_maps(d: Seq<u8>, p: nat, version: u32, pol: SpecPolicy, k: nat)
    requires
        k <= d.len(),
    ensures
        cut_agrees(sp_leading_maps(d, p, version, pol), sp_leading_maps(d.take(k as int), p, version, pol), p, k),
{
    let p1 = if version >= crate::parser::V_POLCAP { sp_ebitmap(d, p)->Ok_0.1 } else { p };
    let p2 = if version >= crate::parser::V_PERMISSIVE { sp_skip_ebitmap(d, p1)->Ok_0.1 } else { p1 };
    cut_ebitmap(d, p, k);
    cut_skip_ebitmap(d, p1, k);
    cut_skip_ebitmap(d, p2, k);
}

pub proof fn cut_header(d: Seq<u8>, pol: SpecPolicy, k: nat)
    requires
        k <= d.len(),
    ensures
        cut_agrees(sp_header(d, pol), sp_header(d.take(k as int), pol), 0, k),
{
    let p1 = sp_u32(d, 0)->Ok_0.1;
    let p2 = sp_u32(d, p1)->Ok_0.1;
    let p3 = sp_bytes(d, p2, sp_u32(d, p1)->Ok_0.0 as nat)->Ok_0.1;
    let p4 = sp_u32(d, p3)->Ok_0.1;
    let p5 = sp_u32(d, p4)->Ok_0.1;
    let p6 = sp_u32(d, p5)->Ok_0.1;
    let p7 = sp_u32(d, p6)->Ok_0.1;
    let kind = sp_bytes(d, p2, sp_u32(d, p1)->Ok_0.0 as nat)->Ok_0.0;
    let version = sp_u32(d, p3)->Ok_0.0;
    let config = sp_u32(d, p4)->Ok_0.0;
    let pol1 = SpecPolicy {
        policy_kind: crate::parser::lossy_text(kind),
        version,
        mls: config & 1 != 0,
        ..pol
    };
    cut_u32(d, 0, k);
    cut_u32(d, p1, k);
    cut_bytes(d, p2, sp_u32(d, p1)->Ok_0.0 as nat, k);
    cut_u32(d, p3, k);
    cut_u32(d, p4, k);
    cut_u32(d, p5, k);
    cut_u32(d, p6, k);
    cut_leading_maps(d, p7, version, pol1, k);
}

pub proof fn cut_rules(
    d: Seq<u8>,
    p: nat,
    pol: SpecPolicy,
    oclass_num: u32,
    tn: Map<u32, Seq<char>>,
    cm: Map<u32, SpecResolvedClass>,
    attr_names: Set<Seq<char>>,
    nprim: u32,
    k: nat,
)
    requires
        k <= d.len(),
    ensures
        cut_agrees(
            sp_rules_at(d, p, pol, oclass_num, tn, cm, attr_names, nprim),
            sp_rules_at(d.take(k as int), p, pol, oclass_num, tn, cm, attr_names, nprim),
            p,
            k,
        ),
{
    let version = pol.version;
    let mls = pol.mls;
    let r1 = sp_avtab(d, p, tn, cm, pol);
    let r2 = sp_cond_list(d, r1->Ok_0.1, tn, cm, r1->Ok_0.0);
    let r3 = sp_roles_rules(d, r2->Ok_0.1, version);
    let r4 = if version >= crate::parser::V_FILENAME_TRANS {
        sp_filename_trans(d, r3->Ok_0.1, version, tn, cm, r2->Ok_0.0)
    } else {
        Ok((r2->Ok_0.0, r3->Ok_0.1))
    };
    let r5 = sp_ocons(d, r4->Ok_0.1, oclass_num as nat, mls);
    let r6 = sp_genfs(d, r5->Ok_0.1, tn, mls, r4->Ok_0.0);
    let r7 = sp_range_trans(d, r6->Ok_0.1, version, mls);
    cut_avtab(d, p, tn, cm, pol, k);
    cut_cond_list(d, r1->Ok_0.1, tn, cm, r1->Ok_0.0, k);
    cut_roles_rules(d, r2->Ok_0.1, version, k);
    cut_filename_trans(d, r3->Ok_0.1, version, tn, cm, r2->Ok_0.0, k);
    cut_ocons(d, r4->Ok_0.1, oclass_num as nat, mls, k);
    cut_genfs(d, r5->Ok_0.1, tn, mls, r4->Ok_0.0, k);
    cut_range_trans(d, r6->Ok_0.1, version, mls, k);
    cut_type_attr_map(d, r7->Ok_0.1, nprim as nat, tn, attr_names, r6->Ok_0.0, k);
}

pub proof fn cut_parse(d: Seq<u8>, k: nat)
    requires
        k <= d.len(),
    ensures
        cut_agrees(sp_parse_at(d), sp_parse_at(d.take(k as int)), 0, k),
{
    let h = sp_header(d, empty_policy());
    let pol = h->Ok_0.0.0;
    let p = h->Ok_0.1;
    let r = sp_tables(d, p, h->Ok_0.0.1 as nat, pol.version, pol.mls, empty_symbols(pol));
    let s = r->Ok_0.0;
    let (pol1, cm) = after_tables(s);
    cut_header(d, empty_policy(), k);
    cut_tables(d, p, h->Ok_0.0.1 as nat, pol.version, pol.mls, empty_symbols(pol), k);
    cut_rules(d, r->Ok_0.1, pol1, h->Ok_0.0.2, s.type_names, cm, s.attr_names, s.types_nprim, k);
}

/// Where a successful parse stopped: the position after the last byte it
/// read.
pub open spec fn parse_end(d: Seq<u8>) -> nat {
    sp_parse_at(d)->Ok_0.1
}

/// A blob that parses is refused when cut short of the last byte the parse
/// read, and parses to the same policy when cut anywhere after it.
#[verifier::spinoff_prover]
#[verifier::rlimit(80)]
pub proof fn law_truncation(d: Seq<u8>, k: nat)
    requires
        sp_parse(d) is Ok,
        k <= d.len(),
    ensures
        parse_end(d) <= d.len(),
        k < parse_end(d) ==> sp_parse(d.take(k as int)) is Err,
        parse_end(d) <= k ==> sp_parse(d.take(k as int)) == sp_parse(d),
{
    cut_parse(d, k);
    cut_parse(d, d.len());
    assert(d.take(d.len() as int) =~= d);
}

/// Every truncation of a blob that parses and whose parse reads all of it is
/// refused.
pub proof fn law_truncated_blob_refused(d: Seq<u8>, k: nat)
    requires
        sp_parse(d) is Ok,
        parse_end(d) == d.len(),
        k < d.len(),
    ensures
        sp_parse(d.take(k as int)) is Err,
{
    law_truncation(d, k);
}

} // verus!
