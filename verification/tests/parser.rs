use sesearch_rust::avtab::{coalesce, decode_perms};
use sesearch_rust::parser::{parse, policycap_name};
use sesearch_rust::policy::AvKind;
use sesearch_rust::resolve::{BitNames, ResolvedClass};
use sesearch_rust::testgen::minimal_policy;

#[test]
fn rejects_bad_magic() {
    assert!(parse(&[0u8; 32]).is_err());
    assert!(parse(b"not a policy at all").unwrap_err().contains("not a SELinux"));
}

#[test]
fn rejects_truncated() {
    let mut data = vec![0x8C, 0xFF, 0x7C, 0xF9];
    data.extend_from_slice(&[0; 20]);
    let err = parse(&data).unwrap_err();
    assert!(err.contains("EOF") || err.contains("unsupported"), "got: {err}");
}

#[test]
fn decode_perms_orders_alphabetically() {
    let mut perms = BitNames::new();
    perms.insert(0, "read".to_string());
    perms.insert(1, "write".to_string());
    perms.insert(2, "execute".to_string());
    let class = ResolvedClass {
        name: "file".into(),
        perms,
    };
    assert_eq!(decode_perms(0b101, &class), vec!["execute", "read"]);
    assert_eq!(decode_perms(0b010, &class), vec!["write"]);
}

#[test]
fn coalesces_ranges() {
    assert_eq!(coalesce(vec![3, 1, 2, 5]), vec![(1, 3), (5, 5)]);
    assert_eq!(coalesce(vec![]), Vec::<(u32, u32)>::new());
    assert_eq!(coalesce(vec![7, 7, 8]), vec![(7, 8)]);
}

#[test]
fn parses_synthetic_policy() {
    let blob = minimal_policy();
    let p = parse(&blob).expect("synthetic policy should parse");
    assert_eq!(p.version, 30);
    assert!(p.types.contains("source_t"));
    assert!(p.types.contains("target_t"));
    assert!(p.classes.contains_key("file"));
    let allow = p
        .av_rules
        .iter()
        .find(|r| r.kind == AvKind::Allow)
        .expect("should have an allow rule");
    assert_eq!(allow.source, "source_t");
    assert_eq!(allow.target, "target_t");
    assert_eq!(allow.class, "file");
    assert!(allow.perms.contains(&"read".to_string()));
    assert!(allow.perms.contains(&"write".to_string()));
}

#[test]
fn synthetic_policy_details() {
    let p = parse(&minimal_policy()).unwrap();
    assert_eq!(p.policy_kind, "SE Linux");
    assert!(!p.mls);
    assert_eq!(p.role_count, 1);
    assert_eq!(p.user_count, 1);
    assert_eq!(p.types.len(), 2);
    assert_eq!(p.attributes.len(), 0);
    assert_eq!(p.classes.get("file").unwrap(), &vec!["read".to_string(), "write".to_string(), "execute".to_string()]);
    assert!(p.policycaps.contains("network_peer_controls"));
    assert!(!p.policycaps.contains("open_perms"));
    assert_eq!(p.policycaps.len(), 1);
    assert_eq!(p.av_rules.len(), 1);
    assert_eq!(p.av_rules[0].line(), "allow source_t target_t:file { read write };");
    assert_eq!(p.constraints.len(), 1);
    assert_eq!(p.constraints[0].line(), "constrain file { write } (u1 == u2);");
    assert!(p.te_rules.is_empty());
    assert!(p.genfs.is_empty());
}

#[test]
fn unsupported_version_is_rejected() {
    let mut blob = minimal_policy();
    // magic (4) + kind length (4) + "SE Linux" (8) -> version at offset 16
    blob[16] = 14;
    assert_eq!(parse(&blob).unwrap_err(), "unsupported policy version 14");
    blob[16] = 36;
    assert_eq!(parse(&blob).unwrap_err(), "unsupported policy version 36");
}

#[test]
fn bad_magic_message_is_exact() {
    let err = parse(&[0x01, 0x02, 0x03, 0x04, 0, 0, 0, 0]).unwrap_err();
    assert_eq!(err, "not a SELinux kernel policy (magic 0x04030201, expected 0xf97cff8c)");
}

#[test]
fn every_truncation_of_the_synthetic_policy_fails() {
    let blob = minimal_policy();
    for n in 0..blob.len() {
        assert!(parse(&blob[..n]).is_err(), "prefix of {n} bytes parsed");
    }
}

#[test]
fn policy_capability_names() {
    assert_eq!(policycap_name(0), "network_peer_controls");
    assert_eq!(policycap_name(11), "genfs_seclabel_wildcard");
    assert_eq!(policycap_name(12), "policycap_12");
    assert_eq!(policycap_name(400), "policycap_400");
}

#[test]
fn synthetic_policy_bytes_start_with_the_header() {
    let blob = minimal_policy();
    assert_eq!(&blob[..4], &[0x8C, 0xFF, 0x7C, 0xF9]);
    assert_eq!(&blob[4..8], &[8, 0, 0, 0]);
    assert_eq!(&blob[8..16], b"SE Linux");
    assert_eq!(&blob[16..20], &[30, 0, 0, 0]);
}

#[test]
fn blob_shorter_than_the_magic() {
    assert_eq!(parse(&[1, 2]).unwrap_err(), "unexpected EOF at offset 0x0: need 4 more byte(s), have 2");
    assert_eq!(parse(&[]).unwrap_err(), "unexpected EOF at offset 0x0: need 4 more byte(s), have 0");
}

#[test]
fn every_truncation_of_the_synthetic_policy_is_refused() {
    let blob = minimal_policy();
    assert!(parse(&blob).is_ok());
    for k in 0..blob.len() {
        assert!(parse(&blob[..k]).is_err(), "a blob cut to {k} bytes parsed");
    }
}

#[test]
fn bytes_after_the_parsed_blob_change_nothing() {
    let blob = minimal_policy();
    let mut longer = blob.clone();
    longer.extend_from_slice(&[0xAB, 0xCD, 0xEF]);
    let a = parse(&blob).unwrap();
    let b = parse(&longer).unwrap();
    assert_eq!(a.types.len(), b.types.len());
    assert!(b.types.contains("source_t") && b.types.contains("target_t"));
    assert_eq!(a.policycaps.len(), b.policycaps.len());
    assert_eq!(a.av_rules.len(), b.av_rules.len());
    assert_eq!(a.av_rules[0].line(), b.av_rules[0].line());
    assert_eq!(a.constraints[0].line(), b.constraints[0].line());
}
