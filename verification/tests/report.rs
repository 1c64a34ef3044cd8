use sesearch_rust::cli::{parse_args, Config, Invocation};
use sesearch_rust::collections::NameSet;
use sesearch_rust::listing::{report, stats_lines};
use sesearch_rust::parser::parse;
use sesearch_rust::policy::{AvKind, AvRule, Policy};
use sesearch_rust::report::{edit_distance, rules_output, unknown_filter, validate_query};
use sesearch_rust::testgen::minimal_policy;

fn config(v: &[&str]) -> Config {
    let a: Vec<String> = v.iter().map(|s| s.to_string()).collect();
    match parse_args(a).unwrap() {
        Invocation::Run(c) => c,
        _ => panic!("expected a run"),
    }
}

fn synthetic() -> Policy {
    parse(&minimal_policy()).unwrap()
}

#[test]
fn edit_distances() {
    assert_eq!(edit_distance("", ""), 0);
    assert_eq!(edit_distance("kitten", "sitting"), 3);
    assert_eq!(edit_distance("abc", ""), 3);
    assert_eq!(edit_distance("", "abcd"), 4);
    assert_eq!(edit_distance("flaw", "lawn"), 2);
    // Bytes, not characters: "é" is two bytes.
    assert_eq!(edit_distance("é", "e"), 2);
}

#[test]
fn unknown_names_get_a_close_suggestion() {
    let cands = vec!["source_t".to_string(), "target_t".to_string()];
    assert_eq!(unknown_filter("source", "sourc_t", &cands), "unknown source sourc_t. did you mean: source_t?");
    assert_eq!(unknown_filter("source", "zzzzzzzzzzzz", &cands), "unknown source zzzzzzzzzzzz.");
    assert_eq!(unknown_filter("class", "x", &vec![]), "unknown class x.");
    // Ties go to the first candidate.
    let tie = vec!["ab".to_string(), "ba".to_string()];
    assert_eq!(unknown_filter("type", "aa", &tie), "unknown type aa. did you mean: ab?");
}

#[test]
fn validation_of_the_query() {
    let p = synthetic();
    assert!(validate_query(&config(&["-A", "-s", "source_t", "-c", "file", "-p", "read"]), &p).is_ok());
    assert_eq!(
        validate_query(&config(&["-s", "sorce_t"]), &p).unwrap_err(),
        "unknown source sorce_t. did you mean: source_t?"
    );
    assert_eq!(
        validate_query(&config(&["-t", "targe_t"]), &p).unwrap_err(),
        "unknown target targe_t. did you mean: target_t?"
    );
    assert_eq!(validate_query(&config(&["-c", "dir"]), &p).unwrap_err(), "unknown class dir.");
    assert_eq!(
        validate_query(&config(&["-p", "read,wrte"]), &p).unwrap_err(),
        "unknown permission wrte. did you mean: write?"
    );
    assert_eq!(
        validate_query(&config(&["--expand", "domain"]), &p).unwrap_err(),
        "unknown attribute domain."
    );
}

#[test]
fn rules_as_lines_and_json() {
    let p = synthetic();
    assert_eq!(rules_output(&config(&["-A"]), &p), vec!["allow source_t target_t:file { read write };"]);
    assert_eq!(
        rules_output(&config(&["-A", "--json"]), &p),
        vec![r#"[{"rule_type":"allow","source":"source_t","target":"target_t","class":"file","perms":["read","write"],"conditional":false}]"#]
    );
    assert!(rules_output(&config(&["--dontaudit"]), &p).is_empty());
    assert_eq!(rules_output(&config(&["--dontaudit", "--json"]), &p), vec!["[]"]);
    assert!(rules_output(&config(&["-A", "-p", "execute"]), &p).is_empty());
}

#[test]
fn rules_are_sorted_distinct_and_limited() {
    let mut p = Policy::default();
    for (s, perm) in [("b", "read"), ("a", "read"), ("b", "read"), ("c", "write")] {
        p.av_rules.push(AvRule {
            kind: AvKind::Allow,
            source: s.into(),
            target: "t".into(),
            class: "file".into(),
            perms: vec![perm.into()],
            conditional: false,
        });
    }
    let all = rules_output(&config(&["-A"]), &p);
    assert_eq!(
        all,
        vec![
            "allow a t:file { read };",
            "allow b t:file { read };",
            "allow c t:file { write };",
        ]
    );
    assert_eq!(rules_output(&config(&["-A", "-n", "2"]), &p), all[..2].to_vec());
    assert_eq!(rules_output(&config(&["-A", "-n", "0"]), &p), Vec::<String>::new());
}

#[test]
fn stats_summary() {
    let p = synthetic();
    let lines = stats_lines(&p);
    assert_eq!(lines.len(), 24);
    assert_eq!(lines[0], "Policy kind:       SE Linux");
    assert_eq!(lines[1], "Policy version:    30");
    assert_eq!(lines[2], "MLS enabled:       false");
    assert_eq!(lines[3], "Types:             2");
    assert_eq!(lines[9], "allow rules:       1");
    assert_eq!(lines[14], "constraints:       1");
    assert_eq!(lines[23], "policy caps:       1");
}

#[test]
fn listings() {
    let p = synthetic();
    assert_eq!(
        report(&config(&["--types", "--classes", "--policycaps"]), &p).unwrap(),
        vec![
            "Types (2):",
            "  source_t",
            "  target_t",
            "class file { read write execute }",
            "Policy capabilities (1):",
            "  network_peer_controls",
        ]
    );
    assert_eq!(
        report(&config(&["--types", "--classes", "--json"]), &p).unwrap(),
        vec![r#"["source_t","target_t"]"#, r#"{"file":["read","write","execute"]}"#]
    );
    assert_eq!(
        report(&config(&["--constrain"]), &p).unwrap(),
        vec!["constrain file { write } (u1 == u2);"]
    );
    assert_eq!(report(&config(&["--constrain", "-c", "file", "--json"]), &p).unwrap(), vec![r#"["constrain file { write } (u1 == u2);"]"#]);
    assert_eq!(report(&config(&["--permissive", "--portcon"]), &p).unwrap(), vec!["Permissive types (0):"]);
}

#[test]
fn listings_then_rules_and_errors() {
    let p = synthetic();
    assert_eq!(
        report(&config(&["-A", "--booleans", "--attributes"]), &p).unwrap(),
        vec!["Attributes (0):", "allow source_t target_t:file { read write };"]
    );
    assert_eq!(
        report(&config(&[]), &p).unwrap_err(),
        (Vec::<String>::new(), "nothing to do: specify a rule type (e.g. -A) or an info flag (e.g. --stats). See --help".to_string())
    );
    assert_eq!(
        report(&config(&["-A", "-s", "nope"]), &p).unwrap_err(),
        (Vec::<String>::new(), "unknown source nope.".to_string())
    );
}

#[test]
fn expanding_an_attribute() {
    let mut p = Policy::default();
    let mut members = NameSet::new();
    members.insert("b_t".into());
    members.insert("a_t".into());
    p.attributes.insert("domain".into(), members);
    assert_eq!(
        report(&config(&["--expand", "domain"]), &p).unwrap(),
        vec!["Members of domain (2):", "  a_t", "  b_t"]
    );
    assert_eq!(report(&config(&["--expand", "domain", "--json"]), &p).unwrap(), vec![r#"["a_t","b_t"]"#]);
}

#[test]
fn an_unknown_attribute_is_refused_before_any_listing() {
    let mut p = Policy::default();
    p.types.insert("a_t".into());
    assert_eq!(
        report(&config(&["--types", "--expand", "nosuch"]), &p).unwrap_err(),
        (Vec::<String>::new(), "unknown attribute nosuch.".to_string())
    );
}
