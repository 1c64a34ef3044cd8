use std::collections::HashMap;

use sesearch_rust::constraint::render_constraint_expr;
use sesearch_rust::symtab::RawExpr;

fn attr(attr: u32, op: u32) -> RawExpr {
    RawExpr { expr_type: 4, attr, op, names: vec![] }
}

fn names(attr: u32, op: u32, names: &[u32]) -> RawExpr {
    RawExpr { expr_type: 5, attr, op, names: names.to_vec() }
}

fn node(t: u32) -> RawExpr {
    RawExpr { expr_type: t, attr: 0, op: 0, names: vec![] }
}

fn maps() -> (HashMap<u32, String>, HashMap<u32, String>, HashMap<u32, String>) {
    let mut types = HashMap::new();
    types.insert(1, "zeta_t".to_string());
    types.insert(2, "alpha_t".to_string());
    let mut roles = HashMap::new();
    roles.insert(1, "object_r".to_string());
    let mut users = HashMap::new();
    users.insert(1, "system_u".to_string());
    (types, roles, users)
}

#[test]
fn renders_reverse_polish_into_infix() {
    let (t, r, u) = maps();
    let exprs = vec![attr(1, 1), attr(4, 2), node(3), node(1)];
    assert_eq!(render_constraint_expr(&exprs, &t, &r, &u), ("not (u1 == u2 or t1 != t2)".to_string(), false));
    let exprs = vec![attr(32, 3), attr(2, 1), node(2)];
    assert_eq!(render_constraint_expr(&exprs, &t, &r, &u), ("l1 dom l2 and r1 == r2".to_string(), true));
}

#[test]
fn name_sets_are_resolved_and_sorted() {
    let (t, r, u) = maps();
    assert_eq!(
        render_constraint_expr(&vec![names(4 | 8, 1, &[1, 2, 9])], &t, &r, &u),
        ("t2 == { #9 alpha_t zeta_t }".to_string(), false)
    );
    assert_eq!(render_constraint_expr(&vec![names(1, 2, &[1])], &t, &r, &u), ("u1 != system_u".to_string(), false));
    assert_eq!(render_constraint_expr(&vec![names(2 | 16, 5, &[1])], &t, &r, &u), ("r2 incomp object_r".to_string(), false));
    assert_eq!(render_constraint_expr(&vec![names(4, 9, &[])], &t, &r, &u), ("t1 ? {  }".to_string(), false));
}

#[test]
fn malformed_lists_render_empty() {
    let (t, r, u) = maps();
    assert_eq!(render_constraint_expr(&vec![node(1)], &t, &r, &u), (String::new(), false));
    assert_eq!(render_constraint_expr(&vec![attr(64, 1), node(2)], &t, &r, &u), (String::new(), true));
    assert_eq!(render_constraint_expr(&vec![attr(1, 1), attr(1, 1)], &t, &r, &u), (String::new(), false));
    assert_eq!(render_constraint_expr(&vec![node(7)], &t, &r, &u), (String::new(), false));
    assert_eq!(render_constraint_expr(&vec![], &t, &r, &u), (String::new(), false));
}
