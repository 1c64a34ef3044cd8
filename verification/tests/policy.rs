use sesearch_rust::collections::NameSet;
use sesearch_rust::policy::{AvKind, AvRule, Policy, Query, TeKind, TeRule, XpermKind, XpermRule};

fn sample_policy() -> Policy {
    let mut p = Policy::default();
    p.types.insert("untrusted_app".into());
    p.types.insert("shell_data_file".into());
    p.types.insert("app_data_file".into());
    let mut members = NameSet::new();
    members.insert("untrusted_app".into());
    members.insert("priv_app".into());
    p.attributes.insert("appdomain".into(), members);
    p.types.insert("priv_app".into());
    p
}

fn allow(s: &str, t: &str, c: &str, perms: &[&str]) -> AvRule {
    AvRule {
        kind: AvKind::Allow,
        source: s.into(),
        target: t.into(),
        class: c.into(),
        perms: perms.iter().map(|x| x.to_string()).collect(),
        conditional: false,
    }
}

#[test]
fn direct_match() {
    let p = sample_policy();
    let q = Query {
        source: Some("untrusted_app".into()),
        ..Default::default()
    };
    assert!(q.matches_av(&p, &allow("untrusted_app", "shell_data_file", "file", &["read"])));
    assert!(!q.matches_av(&p, &allow("priv_app", "shell_data_file", "file", &["read"])));
}

#[test]
fn semantic_expands_attribute_in_rule() {
    let p = sample_policy();
    // Rule is written on the attribute; querying a member should match.
    let q = Query {
        source: Some("untrusted_app".into()),
        ..Default::default()
    };
    let rule = allow("appdomain", "app_data_file", "file", &["read"]);
    assert!(q.matches_av(&p, &rule));
    // Direct mode should not match across the attribute boundary.
    let q_direct = Query {
        source: Some("untrusted_app".into()),
        mode_direct: true,
        ..Default::default()
    };
    assert!(!q_direct.matches_av(&p, &rule));
}

#[test]
fn semantic_expands_queried_attribute() {
    let p = sample_policy();
    // Query an attribute; a rule on a member type should match.
    let q = Query {
        source: Some("appdomain".into()),
        ..Default::default()
    };
    assert!(q.matches_av(&p, &allow("priv_app", "app_data_file", "file", &["read"])));
}

#[test]
fn perm_filter_any() {
    let p = sample_policy();
    let q = Query {
        perms: vec!["execute".into()],
        ..Default::default()
    };
    assert!(q.matches_av(&p, &allow("a", "b", "file", &["read", "execute"])));
    assert!(!q.matches_av(&p, &allow("a", "b", "file", &["read", "write"])));
}

#[test]
fn class_filter() {
    let p = sample_policy();
    let q = Query {
        class: Some("dir".into()),
        ..Default::default()
    };
    assert!(q.matches_av(&p, &allow("a", "b", "dir", &["search"])));
    assert!(!q.matches_av(&p, &allow("a", "b", "file", &["read"])));
}

fn xperm(s: &str) -> XpermRule {
    XpermRule {
        kind: XpermKind::AllowXperm,
        source: s.into(),
        target: "t".into(),
        class: "file".into(),
        op: "ioctl".into(),
        ranges: vec![(0x6703, 0x6703), (0x8900, 0x8905)],
    }
}

fn te(s: &str, name: Option<&str>) -> TeRule {
    TeRule {
        kind: TeKind::Transition,
        source: s.into(),
        target: "t".into(),
        class: "file".into(),
        default: "new_t".into(),
        object_name: name.map(|n| n.to_string()),
    }
}

#[test]
fn target_filter_expands_attributes_too() {
    let p = sample_policy();
    let q = Query {
        target: Some("untrusted_app".into()),
        ..Default::default()
    };
    assert!(q.matches_av(&p, &allow("x", "appdomain", "file", &["read"])));
    assert!(!q.matches_av(&p, &allow("x", "shell_data_file", "file", &["read"])));
}

#[test]
fn perm_filter_excludes_xperm_and_type_rules() {
    let p = sample_policy();
    let q = Query {
        perms: vec!["read".into()],
        ..Default::default()
    };
    assert!(!q.matches_xperm(&p, &xperm("a")));
    assert!(!q.matches_te(&p, &te("a", None)));
    let all = Query::default();
    assert!(all.matches_xperm(&p, &xperm("a")));
    assert!(all.matches_te(&p, &te("a", None)));
}

#[test]
fn rule_lines() {
    let mut r = allow("a", "b", "file", &["read", "write"]);
    assert_eq!(r.line(), "allow a b:file { read write };");
    r.conditional = true;
    r.kind = AvKind::DontAudit;
    assert_eq!(r.line(), "dontaudit a b:file { read write };  # conditional");
    assert_eq!(xperm("a").line(), "allowxperm a t:file ioctl { 0x6703 0x8900-0x8905 };");
    assert_eq!(te("a", None).line(), "type_transition a t:file new_t;");
    assert_eq!(te("a", Some("log")).line(), "type_transition a t:file new_t \"log\";");
}

#[test]
fn keywords() {
    assert_eq!(AvKind::AuditAllow.keyword(), "auditallow");
    assert_eq!(XpermKind::DontAuditXperm.keyword(), "dontauditxperm");
    assert_eq!(TeKind::Member.keyword(), "type_member");
    assert_eq!(TeKind::Change.keyword(), "type_change");
}
