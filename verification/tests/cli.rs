use sesearch_rust::cli::{parse_args, Config, Invocation};

fn args(v: &[&str]) -> Vec<String> {
    v.iter().map(|s| s.to_string()).collect()
}

fn run_config(v: &[&str]) -> Config {
    match parse_args(args(v)).unwrap() {
        Invocation::Run(c) => c,
        _ => panic!("expected a run"),
    }
}

#[test]
fn help_and_version_stop_reading() {
    assert!(matches!(parse_args(args(&["-h"])).unwrap(), Invocation::Help));
    assert!(matches!(parse_args(args(&["--bogus=1", "--help"])), Err(_)));
    assert!(matches!(parse_args(args(&["-A", "--version", "--bogus"])).unwrap(), Invocation::Version));
}

#[test]
fn rule_types_and_filters() {
    let c = run_config(&["-A", "-s", "untrusted_app", "--target=shell_data_file", "-c", "file", "pol"]);
    assert!(c.rules.allow && !c.rules.auditallow && !c.rules.xperm);
    assert_eq!(c.query.source.as_deref(), Some("untrusted_app"));
    assert_eq!(c.query.target.as_deref(), Some("shell_data_file"));
    assert_eq!(c.query.class.as_deref(), Some("file"));
    assert_eq!(c.policy_path.as_deref(), Some("pol"));
    assert!(c.any_rule_type());
    assert!(!c.any_info());
}

#[test]
fn all_rules_sets_every_rule_type() {
    let c = run_config(&["--all-rules"]);
    assert!(c.rules.allow && c.rules.auditallow && c.rules.dontaudit && c.rules.type_trans && c.rules.xperm);
}

#[test]
fn perms_split_on_commas_and_spaces() {
    let c = run_config(&["-p", "read,,write execute", "x"]);
    assert_eq!(c.query.perms, vec!["read", "write", "execute"]);
    let c = run_config(&["--perms=open"]);
    assert_eq!(c.query.perms, vec!["open"]);
}

#[test]
fn limit_values() {
    assert_eq!(run_config(&["-n", "5"]).limit, Some(5));
    assert_eq!(run_config(&["--limit=+7"]).limit, Some(7));
    assert_eq!(parse_args(args(&["-n", "x5"])).err().unwrap(), "invalid --limit value: x5");
    assert_eq!(parse_args(args(&["-n", "-1"])).err().unwrap(), "invalid --limit value: -1");
}

#[test]
fn errors() {
    assert_eq!(parse_args(args(&["-s"])).err().unwrap(), "option -s requires a value");
    assert_eq!(parse_args(args(&["--frob"])).err().unwrap(), "unknown option: --frob (try --help)");
    assert_eq!(parse_args(args(&["--frob=3"])).err().unwrap(), "unknown option: --frob (try --help)");
    assert_eq!(parse_args(args(&["a", "b"])).err().unwrap(), "unexpected extra argument: b");
}

#[test]
fn dash_alone_is_a_path_and_switch_values_are_ignored() {
    let c = run_config(&["-"]);
    assert_eq!(c.policy_path.as_deref(), Some("-"));
    let c = run_config(&["--allow=yes", "-d", "--json", "--expand", "domain"]);
    assert!(c.rules.allow && c.query.mode_direct && c.json);
    assert_eq!(c.expand_attr.as_deref(), Some("domain"));
    assert!(c.any_info());
}

#[test]
fn info_flags_and_aliases() {
    let c = run_config(&["--stats", "--types", "--attributes", "--classes", "--booleans", "--policycaps"]);
    assert!(c.lists.stats && c.lists.types && c.lists.attributes && c.lists.classes && c.lists.booleans && c.lists.policycaps);
    let c = run_config(&["--genfs", "--sens", "--cats", "--constrain", "--permissive"]);
    assert!(c.statements.genfs && c.statements.sensitivities && c.statements.categories);
    assert!(c.statements.constrain && c.statements.permissive);
    let c = run_config(&["--isids", "--ports", "--netifcon", "--nodecon", "--fsuse", "-T", "--type-trans"]);
    assert!(c.contexts.initialsids && c.contexts.portcon && c.contexts.netifcon && c.contexts.nodecon && c.contexts.fsuse);
    assert!(c.rules.type_trans);
    let d = run_config(&[]);
    assert!(!d.any_info() && !d.any_rule_type());
    assert_eq!(d.policy_path, None);
}
