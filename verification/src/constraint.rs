//! Rendering of constraint expressions: the reverse-Polish node list that a
//! class's constraints and validatetrans statements carry becomes an infix
//! string, with name sets resolved through the symbol tables.

use vstd::prelude::*;
use std::collections::HashMap;
use crate::order::{views, sort_strings, sort_spec, lemma_sort_spec};
use crate::policy::{Policy, SpecPolicy, Constraint, SpecConstraint, join, push_joined};
use crate::symtab::{RawExpr, SpecRawExpr, RawConstraint, SpecRawConstraint, expr_views,
    constraint_views};
use crate::resolve::{ResolvedClass, SpecResolvedClass, class_views};
use crate::avtab::{decoded_perms, decode_perms};
use crate::tables::name_map;
use crate::text::{dec, push_str, push_dec};

verus! {

/// The attribute bits that compare MLS levels.
pub const CEXPR_MLS_MASK: u32 = 2016;

/// The text of a comparison operator.
pub open spec fn op_text(op: u32) -> Seq<char> {
    if op == 1 {
        "=="@
    } else if op == 2 {
        "!="@
    } else if op == 3 {
        "dom"@
    } else if op == 4 {
        "domby"@
    } else if op == 5 {
        "incomp"@
    } else {
        "?"@
    }
}

/// The left and right operands of an attribute comparison, by the first of
/// its flags that is set: the MLS level pairs, then user, role, type.
pub open spec fn operands_text(attr: u32) -> (Seq<char>, Seq<char>) {
    if attr & 32 != 0 {
        ("l1"@, "l2"@)
    } else if attr & 64 != 0 {
        ("l1"@, "h2"@)
    } else if attr & 128 != 0 {
        ("h1"@, "l2"@)
    } else if attr & 256 != 0 {
        ("h1"@, "h2"@)
    } else if attr & 512 != 0 {
        ("l1"@, "h1"@)
    } else if attr & 1024 != 0 {
        ("l2"@, "h2"@)
    } else if attr & 1 != 0 {
        ("u1"@, "u2"@)
    } else if attr & 2 != 0 {
        ("r1"@, "r2"@)
    } else if attr & 4 != 0 {
        ("t1"@, "t2"@)
    } else {
        ("?"@, "?"@)
    }
}

/// The left operand of a comparison against a name set: user, role or type,
/// of the target when a target flag is set.
pub open spec fn names_lhs_text(attr: u32) -> Seq<char> {
    let target = attr & 24 != 0;
    if attr & 1 != 0 {
        if target { "u2"@ } else { "u1"@ }
    } else if attr & 2 != 0 {
        if target { "r2"@ } else { "r1"@ }
    } else if target {
        "t2"@
    } else {
        "t1"@
    }
}

/// The name of symbol value `v`, or `#v` when it has none.
pub open spec fn value_name(m: Map<u32, Seq<char>>, v: u32) -> Seq<char> {
    if m.contains_key(v) {
        m[v]
    } else {
        "#"@ + dec(v as nat)
    }
}

/// The names a name set node refers to: users, roles or types, by its
/// attribute flags.
pub open spec fn name_table(
    attr: u32,
    tn: Map<u32, Seq<char>>,
    rn: Map<u32, Seq<char>>,
    un: Map<u32, Seq<char>>,
) -> Map<u32, Seq<char>> {
    if attr & 1 != 0 {
        un
    } else if attr & 2 != 0 {
        rn
    } else {
        tn
    }
}

/// A set of names: a single name alone, otherwise braced and separated by
/// spaces.
pub open spec fn set_text(names: Seq<Seq<char>>) -> Seq<char> {
    if names.len() == 1 {
        names[0]
    } else {
        "{ "@ + join(names, " "@) + " }"@
    }
}

/// The rendering of a name set node's values, sorted.
pub open spec fn node_names(
    e: SpecRawExpr,
    tn: Map<u32, Seq<char>>,
    rn: Map<u32, Seq<char>>,
    un: Map<u32, Seq<char>>,
) -> Seq<Seq<char>> {
    let m = name_table(e.attr, tn, rn, un);
    sort_spec(e.names.map_values(|v: u32| value_name(m, v)))
}

/// The stack of rendered operands, whether an MLS level was compared, and
/// whether rendering has failed.
pub struct RenderState {
    pub stack: Seq<Seq<char>>,
    pub mls: bool,
    pub failed: bool,
}

/// One node applied to the state: `not` wraps the top operand, `and` and
/// `or` join the top two, an attribute or name set comparison pushes a new
/// operand. A missing operand or an unknown node fails, and a failed state
/// stays as it is.
pub open spec fn render_step(
    s: RenderState,
    e: SpecRawExpr,
    tn: Map<u32, Seq<char>>,
    rn: Map<u32, Seq<char>>,
    un: Map<u32, Seq<char>>,
) -> RenderState {
    let n = s.stack.len();
    if s.failed {
        s
    } else if e.expr_type == 1 {
        if n >= 1 {
            RenderState { stack: s.stack.drop_last().push("not ("@ + s.stack.last() + ")"@), ..s }
        } else {
            RenderState { failed: true, ..s }
        }
    } else if e.expr_type == 2 || e.expr_type == 3 {
        if n >= 2 {
            let kw = if e.expr_type == 2 { " and "@ } else { " or "@ };
            RenderState {
                stack: s.stack.subrange(0, n - 2).push(s.stack[n - 2] + kw + s.stack[n - 1]),
                ..s
            }
        } else {
            RenderState { failed: true, ..s }
        }
    } else if e.expr_type == 4 {
        let (lhs, rhs) = operands_text(e.attr);
        RenderState {
            stack: s.stack.push(lhs + " "@ + op_text(e.op) + " "@ + rhs),
            mls: s.mls || e.attr & CEXPR_MLS_MASK != 0,
            failed: false,
        }
    } else if e.expr_type == 5 {
        RenderState {
            stack: s.stack.push(
                names_lhs_text(e.attr) + " "@ + op_text(e.op) + " "@ + set_text(node_names(e, tn, rn, un)),
            ),
            ..s
        }
    } else {
        RenderState { failed: true, ..s }
    }
}

/// The state after the nodes of `es`, in order.
pub open spec fn render_fold(
    es: Seq<SpecRawExpr>,
    tn: Map<u32, Seq<char>>,
    rn: Map<u32, Seq<char>>,
    un: Map<u32, Seq<char>>,
) -> RenderState
    decreases es.len(),
{
    if es.len() == 0 {
        RenderState { stack: Seq::empty(), mls: false, failed: false }
    } else {
        render_step(render_fold(es.drop_last(), tn, rn, un), es.last(), tn, rn, un)
    }
}

/// A constraint expression rendered in infix form, and whether it compares
/// MLS levels; the text is empty unless exactly one operand remains.
pub open spec fn rendered(
    es: Seq<SpecRawExpr>,
    tn: Map<u32, Seq<char>>,
    rn: Map<u32, Seq<char>>,
    un: Map<u32, Seq<char>>,
) -> (Seq<char>, bool) {
    let s = render_fold(es, tn, rn, un);
    if !s.failed && s.stack.len() == 1 {
        (s.stack[0], s.mls)
    } else {
        (Seq::empty(), s.mls)
    }
}

proof fn lemma_fold_prefix(es: Seq<SpecRawExpr>, k: int, tn: Map<u32, Seq<char>>, rn: Map<u32, Seq<char>>, un: Map<u32, Seq<char>>)
    requires
        0 <= k < es.len(),
    ensures
        render_fold(es.subrange(0, k + 1), tn, rn, un) == render_step(
            render_fold(es.subrange(0, k), tn, rn, un),
            es[k],
            tn,
            rn,
            un,
        ),
{
    assert(es.subrange(0, k + 1).drop_last() =~= es.subrange(0, k));
}

/// Once rendering fails, the remaining nodes change nothing.
proof fn lemma_fold_failed(es: Seq<SpecRawExpr>, i: int, k: int, tn: Map<u32, Seq<char>>, rn: Map<u32, Seq<char>>, un: Map<u32, Seq<char>>)
    requires
        0 <= i <= k <= es.len(),
        render_fold(es.subrange(0, i), tn, rn, un).failed,
    ensures
        render_fold(es.subrange(0, k), tn, rn, un) == render_fold(es.subrange(0, i), tn, rn, un),
    decreases k - i,
{
    if k > i {
        lemma_fold_failed(es, i, k - 1, tn, rn, un);
        lemma_fold_prefix(es, k - 1, tn, rn, un);
    }
}

fn op_symbol(op: u32) -> (s: &'static str)
    ensures
        s@ == op_text(op),
{
    if op == 1 {
        "=="
    } else if op == 2 {
        "!="
    } else if op == 3 {
        "dom"
    } else if op == 4 {
        "domby"
    } else if op == 5 {
        "incomp"
    } else {
        "?"
    }
}

/// The left/right operands for an attribute comparison.
fn attr_operands(attr: u32) -> (r: (&'static str, &'static str))
    ensures
        (r.0@, r.1@) == operands_text(attr),
{
    if attr & 32 != 0 {
        ("l1", "l2")
    } else if attr & 64 != 0 {
        ("l1", "h2")
    } else if attr & 128 != 0 {
        ("h1", "l2")
    } else if attr & 256 != 0 {
        ("h1", "h2")
    } else if attr & 512 != 0 {
        ("l1", "h1")
    } else if attr & 1024 != 0 {
        ("l2", "h2")
    } else if attr & 1 != 0 {
        ("u1", "u2")
    } else if attr & 2 != 0 {
        ("r1", "r2")
    } else if attr & 4 != 0 {
        ("t1", "t2")
    } else {
        ("?", "?")
    }
}

/// The left-hand operand for a comparison against a name set.
fn names_lhs(attr: u32) -> (s: &'static str)
    ensures
        s@ == names_lhs_text(attr),
{
    let target = attr & 24 != 0;
    if attr & 1 != 0 {
        if target { "u2" } else { "u1" }
    } else if attr & 2 != 0 {
        if target { "r2" } else { "r1" }
    } else if target {
        "t2"
    } else {
        "t1"
    }
}

/// The names of a name set node's values, sorted.
fn resolve_names(
    e: &RawExpr,
    tn: &HashMap<u32, String>,
    rn: &HashMap<u32, String>,
    un: &HashMap<u32, String>,
) -> (r: Vec<String>)
    ensures
        views(r@) == node_names(e@, name_map(tn@), name_map(rn@), name_map(un@)),
{
    let m = if e.attr & 1 != 0 {
        un
    } else if e.attr & 2 != 0 {
        rn
    } else {
        tn
    };
    let ghost mv = name_map(m@);
    assert(mv == name_table(e.attr, name_map(tn@), name_map(rn@), name_map(un@)));
    let ghost want = e.names@.map_values(|v: u32| value_name(mv, v));
    let mut out: Vec<String> = Vec::new();
    let mut i: usize = 0;
    while i < e.names.len()
        invariant
            i <= e.names@.len(),
            mv == name_map(m@),
            want == e.names@.map_values(|v: u32| value_name(mv, v)),
            views(out@) == want.subrange(0, i as int),
        decreases e.names@.len() - i,
    {
        let v = e.names[i];
        let name = match m.get(&v) {
            Some(n) => n.clone(),
            None => {
                let mut s = String::new();
                push_str(&mut s, "#");
                push_dec(&mut s, v as u64);
                s
            },
        };
        assert(name@ == value_name(mv, v));
        assert(want[i as int] == value_name(mv, v));
        let ghost prev_out = views(out@);
        out.push(name);
        assert(views(out@) =~= prev_out.push(value_name(mv, v)));
        assert(views(out@) =~= want.subrange(0, i + 1));
        i = i + 1;
    }
    assert(want.subrange(0, e.names@.len() as int) =~= want);
    let sorted = sort_strings(out);
    proof {
        lemma_sort_spec(views(sorted@), views(out@));
    }
    sorted
}

/// The text of a set of names.
fn name_set(names: &Vec<String>) -> (s: String)
    ensures
        s@ == set_text(views(names@)),
{
    if names.len() == 1 {
        names[0].clone()
    } else {
        let mut s = String::new();
        push_str(&mut s, "{ ");
        push_joined(&mut s, names, " ");
        push_str(&mut s, " }");
        s
    }
}

/// `a`, a space, the operator, a space and `b`.
fn comparison(a: &str, op: u32, b: &str) -> (s: String)
    ensures
        s@ == a@ + " "@ + op_text(op) + " "@ + b@,
{
    let mut s = String::new();
    push_str(&mut s, a);
    push_str(&mut s, " ");
    push_str(&mut s, op_symbol(op));
    push_str(&mut s, " ");
    push_str(&mut s, b);
    assert(s@ =~= a@ + " "@ + op_text(op) + " "@ + b@);
    s
}

/// Renders a constraint's reverse-Polish expression list into an infix
/// string, and says whether it references MLS levels. The string is empty
/// when the list does not reduce to a single operand.
pub fn render_constraint_expr(
    exprs: &Vec<RawExpr>,
    tn: &HashMap<u32, String>,
    rn: &HashMap<u32, String>,
    un: &HashMap<u32, String>,
) -> (r: (String, bool))
    ensures
        (r.0@, r.1) == rendered(expr_views(exprs@), name_map(tn@), name_map(rn@), name_map(un@)),
{
    let ghost es = expr_views(exprs@);
    let ghost tv = name_map(tn@);
    let ghost rv = name_map(rn@);
    let ghost uv = name_map(un@);
    let mut stack: Vec<String> = Vec::new();
    let mut mls = false;
    let mut i: usize = 0;
    assert(es.subrange(0, 0) =~= Seq::<SpecRawExpr>::empty());
    assert(views(stack@) =~= Seq::<Seq<char>>::empty());
    while i < exprs.len()
        invariant
            i <= exprs@.len(),
            es == expr_views(exprs@),
            tv == name_map(tn@),
            rv == name_map(rn@),
            uv == name_map(un@),
            render_fold(es.subrange(0, i as int), tv, rv, uv) == (RenderState { stack: views(stack@), mls, failed: false }),
        decreases exprs@.len() - i,
    {
        let e = &exprs[i];
        let ghost s = RenderState { stack: views(stack@), mls, failed: false };
        proof {
            lemma_fold_prefix(es, i as int, tv, rv, uv);
        }
        if e.expr_type == 1 {
            match stack.pop() {
                Some(a) => {
                    let mut t = String::new();
                    push_str(&mut t, "not (");
                    push_str(&mut t, a.as_str());
                    push_str(&mut t, ")");
                    stack.push(t);
                    assert(views(stack@) =~= s.stack.drop_last().push("not ("@ + s.stack.last() + ")"@));
                },
                None => {
                    proof {
                        lemma_fold_failed(es, i + 1, es.len() as int, tv, rv, uv);
                        assert(es.subrange(0, es.len() as int) =~= es);
                    }
                    return (String::new(), mls);
                },
            }
        } else if e.expr_type == 2 || e.expr_type == 3 {
            if stack.len() < 2 {
                proof {
                    lemma_fold_failed(es, i + 1, es.len() as int, tv, rv, uv);
                    assert(es.subrange(0, es.len() as int) =~= es);
                }
                return (String::new(), mls);
            }
            let ghost n = stack@.len();
            let b = match stack.pop() {
                Some(b) => b,
                None => String::new(),
            };
            let a = match stack.pop() {
                Some(a) => a,
                None => String::new(),
            };
            let mut t = String::new();
            push_str(&mut t, a.as_str());
            if e.expr_type == 2 {
                push_str(&mut t, " and ");
            } else {
                push_str(&mut t, " or ");
            }
            push_str(&mut t, b.as_str());
            stack.push(t);
            proof {
                let kw = if e.expr_type == 2 { " and "@ } else { " or "@ };
                assert(a@ == s.stack[n - 2]);
                assert(b@ == s.stack[n - 1]);
                assert(views(stack@) =~= s.stack.subrange(0, n - 2).push(s.stack[n - 2] + kw + s.stack[n - 1]));
            }
        } else if e.expr_type == 4 {
            if e.attr & CEXPR_MLS_MASK != 0 {
                mls = true;
            }
            let (lhs, rhs) = attr_operands(e.attr);
            let t = comparison(lhs, e.op, rhs);
            stack.push(t);
            assert(views(stack@) =~= s.stack.push(t@));
        } else if e.expr_type == 5 {
            let names = resolve_names(e, tn, rn, un);
            let set = name_set(&names);
            let t = comparison(names_lhs(e.attr), e.op, set.as_str());
            stack.push(t);
            assert(views(stack@) =~= s.stack.push(t@));
        } else {
            proof {
                lemma_fold_failed(es, i + 1, es.len() as int, tv, rv, uv);
                assert(es.subrange(0, es.len() as int) =~= es);
            }
            return (String::new(), mls);
        }
        i = i + 1;
    }
    assert(es.subrange(0, exprs@.len() as int) =~= es);
    if stack.len() == 1 {
        let top = match stack.pop() {
            Some(t) => t,
            None => String::new(),
        };
        (top, mls)
    } else {
        (String::new(), mls)
    }
}

// ---------------------------------------------------------------------------
// Constraints of the policy
// ---------------------------------------------------------------------------

/// The constraint a raw one renders to: none when its class is unknown or
/// its expression does not render. A validatetrans statement lists no
/// permissions.
pub open spec fn constraint_of(
    rc: SpecRawConstraint,
    cm: Map<u32, SpecResolvedClass>,
    tn: Map<u32, Seq<char>>,
    rn: Map<u32, Seq<char>>,
    un: Map<u32, Seq<char>>,
) -> Option<SpecConstraint> {
    if !cm.contains_key(rc.class_value) {
        None
    } else {
        let (expr, mls) = rendered(rc.exprs, tn, rn, un);
        if expr.len() == 0 {
            None
        } else {
            let class = cm[rc.class_value];
            Some(SpecConstraint {
                class: class.name,
                perms: if rc.validatetrans { Seq::empty() } else { decoded_perms(rc.perm_mask, class.perms) },
                expr,
                mls,
                validatetrans: rc.validatetrans,
            })
        }
    }
}

/// The constraints that raw ones render to, in order.
pub open spec fn constraints_of(
    raw: Seq<SpecRawConstraint>,
    cm: Map<u32, SpecResolvedClass>,
    tn: Map<u32, Seq<char>>,
    rn: Map<u32, Seq<char>>,
    un: Map<u32, Seq<char>>,
) -> Seq<SpecConstraint>
    decreases raw.len(),
{
    if raw.len() == 0 {
        Seq::empty()
    } else {
        let prev = constraints_of(raw.drop_last(), cm, tn, rn, un);
        match constraint_of(raw.last(), cm, tn, rn, un) {
            Some(c) => prev.push(c),
            None => prev,
        }
    }
}

/// Appends the rendered constraints to the policy.
pub fn add_constraints(
    raw: &Vec<RawConstraint>,
    cm: &HashMap<u32, ResolvedClass>,
    tn: &HashMap<u32, String>,
    rn: &HashMap<u32, String>,
    un: &HashMap<u32, String>,
    policy: &mut Policy,
)
    ensures
        final(policy)@ == (SpecPolicy {
            constraints: old(policy)@.constraints + constraints_of(
                constraint_views(raw@),
                class_views(cm@),
                name_map(tn@),
                name_map(rn@),
                name_map(un@),
            ),
            ..old(policy)@
        }),
{
    let ghost before = policy@;
    let ghost rs = constraint_views(raw@);
    let ghost cv = class_views(cm@);
    let ghost tv = name_map(tn@);
    let ghost rv = name_map(rn@);
    let ghost uv = name_map(un@);
    assert(policy@ =~= (SpecPolicy {
        constraints: before.constraints + constraints_of(rs.subrange(0, 0), cv, tv, rv, uv),
        ..before
    }));
    let mut i: usize = 0;
    while i < raw.len()
        invariant
            i <= raw@.len(),
            rs == constraint_views(raw@),
            cv == class_views(cm@),
            tv == name_map(tn@),
            rv == name_map(rn@),
            uv == name_map(un@),
            policy@ == (SpecPolicy {
                constraints: before.constraints + constraints_of(rs.subrange(0, i as int), cv, tv, rv, uv),
                ..before
            }),
        decreases raw@.len() - i,
    {
        let rc = &raw[i];
        let ghost prev = policy@;
        assert(rs.subrange(0, i + 1).drop_last() =~= rs.subrange(0, i as int));
        assert(rs.subrange(0, i + 1).last() == rc@);
        match cm.get(&rc.class_value) {
            Some(class) => {
                let (expr, mls) = render_constraint_expr(&rc.exprs, tn, rn, un);
                if !expr.as_str().is_empty() {
                    let perms = if rc.validatetrans {
                        Vec::new()
                    } else {
                        decode_perms(rc.perm_mask, class)
                    };
                    let c = Constraint {
                        class: class.name.clone(),
                        perms,
                        expr,
                        mls,
                        validatetrans: rc.validatetrans,
                    };
                    assert(c@ == constraint_of(rc@, cv, tv, rv, uv).unwrap()) by {
                        assert(views(c.perms@) =~= (if rc.validatetrans { Seq::empty() } else { decoded_perms(rc.perm_mask, cv[rc.class_value].perms) }));
                    }
                    policy.constraints.push(c);
                    assert(policy@.constraints =~= prev.constraints.push(c@));
                } else {
                    assert(constraint_of(rc@, cv, tv, rv, uv) is None);
                }
            },
            None => {},
        }
        assert(policy@ =~= (SpecPolicy {
            constraints: before.constraints + constraints_of(rs.subrange(0, i + 1), cv, tv, rv, uv),
            ..before
        }));
        i = i + 1;
    }
    assert(rs.subrange(0, raw@.len() as int) =~= rs);
}

} // verus!
