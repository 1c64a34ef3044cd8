use sesearch_rust::cli::{parse_args, Config, Invocation};
use sesearch_rust::listing::report;
use sesearch_rust::parser::parse;
use sesearch_rust::policy::{AvKind, Query};
use sesearch_rust::reader::Reader;
use sesearch_rust::testgen::minimal_policy;

struct Blob(Vec<u8>);

impl Blob {
    fn u32(&mut self, v: u32) {
        self.0.extend_from_slice(&v.to_le_bytes());
    }
    fn u16(&mut self, v: u16) {
        self.0.extend_from_slice(&v.to_le_bytes());
    }
    fn bytes(&mut self, b: &[u8]) {
        self.0.extend_from_slice(b);
    }
    fn string(&mut self, s: &str) {
        self.u32(s.len() as u32);
        self.bytes(s.as_bytes());
    }
    fn ebitmap(&mut self, bits: &[u32]) {
        self.u32(64);
        if bits.is_empty() {
            self.u32(0);
            self.u32(0);
            return;
        }
        let mut map = 0u64;
        for b in bits {
            map |= 1u64 << b;
        }
        self.u32(64);
        self.u32(1);
        self.u32(0);
        self.0.extend_from_slice(&map.to_le_bytes());
    }
    fn perm(&mut self, name: &str, value: u32) {
        self.u32(name.len() as u32);
        self.u32(value);
        self.bytes(name.as_bytes());
    }
    fn type_datum(&mut self, name: &str, value: u32, attribute: bool) {
        self.u32(name.len() as u32);
        self.u32(value);
        self.u32(if attribute { 2 } else { 0 });
        self.u32(0);
        self.bytes(name.as_bytes());
    }
}

/// A version-30 policy with a common, an attribute, a boolean, a dontaudit
/// entry, an ioctl rule, a conditional rule, a filename transition and a
/// genfs binding.
fn richer_policy(kind: &[u8]) -> Vec<u8> {
    let mut w = Blob(Vec::new());
    w.u32(0xF97C_FF8C);
    w.u32(kind.len() as u32);
    w.bytes(kind);
    w.u32(30);
    w.u32(0);
    w.u32(8);
    w.u32(0);
    w.ebitmap(&[]); // policy capabilities
    w.ebitmap(&[]); // permissive

    // commons: file_common { ioctl }
    w.u32(1);
    w.u32(1);
    w.u32("file_common".len() as u32);
    w.u32(1);
    w.u32(1);
    w.u32(1);
    w.bytes(b"file_common");
    w.perm("ioctl", 1);

    // classes: file inherits file_common, adds read and write
    w.u32(1);
    w.u32(1);
    w.u32("file".len() as u32);
    w.u32("file_common".len() as u32);
    w.u32(1);
    w.u32(3);
    w.u32(2);
    w.u32(0);
    w.bytes(b"file");
    w.bytes(b"file_common");
    w.perm("read", 2);
    w.perm("write", 3);
    w.u32(0); // validatetrans
    w.u32(0);
    w.u32(0);
    w.u32(0);
    w.u32(0);

    // roles: none
    w.u32(0);
    w.u32(0);

    // types: source_t (1), target_t (2), attribute domain (3)
    w.u32(3);
    w.u32(3);
    w.type_datum("source_t", 1, false);
    w.type_datum("target_t", 2, false);
    w.type_datum("domain", 3, true);

    // users: none
    w.u32(0);
    w.u32(0);

    // booleans: b1 = true
    w.u32(1);
    w.u32(1);
    w.u32(2);
    w.u32(1);
    w.u32(1);
    w.bytes(b"b1");

    // sensitivities, categories: none
    w.u32(0);
    w.u32(0);
    w.u32(0);
    w.u32(0);

    // access vectors
    w.u32(3);
    w.u16(1);
    w.u16(2);
    w.u16(1);
    w.u16(0x0001);
    w.u32(0b011); // allow { ioctl read }
    w.u16(1);
    w.u16(2);
    w.u16(1);
    w.u16(0x0004);
    w.u32(0b101); // auditdeny { ioctl write } -> dontaudit { read }
    w.u16(1);
    w.u16(2);
    w.u16(1);
    w.u16(0x0100);
    w.bytes(&[1, 0x89]); // ioctl functions of driver 0x89
    let mut map = [0u8; 32];
    map[0] = 0b0000_0111;
    w.bytes(&map);

    // conditional list: one block with one true-list rule
    w.u32(1);
    w.u32(1);
    w.u32(1);
    w.bytes(&[0; 8]);
    w.u32(1);
    w.u16(3);
    w.u16(2);
    w.u16(1);
    w.u16(0x0001);
    w.u32(0b100); // allow domain target_t:file { write }
    w.u32(0);

    // role transitions, role allows
    w.u32(0);
    w.u32(0);

    // filename transitions (legacy layout)
    w.u32(1);
    w.string("log");
    w.u32(1);
    w.u32(2);
    w.u32(1);
    w.u32(2);

    // genfs: proc / -> target_t
    w.u32(1);
    w.string("proc");
    w.u32(1);
    w.string("/");
    w.u32(0);
    w.u32(1);
    w.u32(1);
    w.u32(2);

    // type-attribute map: source_t belongs to domain
    w.ebitmap(&[2]);
    w.ebitmap(&[]);
    w.ebitmap(&[2]);
    w.0
}

fn config(v: &[&str]) -> Config {
    let a: Vec<String> = v.iter().map(|s| s.to_string()).collect();
    match parse_args(a).unwrap() {
        Invocation::Run(c) => c,
        _ => panic!("expected a run"),
    }
}

#[test]
fn richer_policy_parses() {
    let p = parse(&richer_policy(b"SE Linux")).unwrap();
    assert_eq!(p.classes.get("file").unwrap(), &vec!["ioctl".to_string(), "read".to_string(), "write".to_string()]);
    assert_eq!(p.booleans.get("b1"), Some(&true));
    assert!(p.types.contains("source_t") && p.types.contains("target_t") && !p.types.contains("domain"));
    let lines: Vec<String> = p.av_rules.iter().map(|r| r.line()).collect();
    assert_eq!(
        lines,
        vec![
            "allow source_t target_t:file { ioctl read };",
            "dontaudit source_t target_t:file { read };",
            "allow domain target_t:file { write };  # conditional",
        ]
    );
    assert_eq!(p.xperm_rules.len(), 1);
    assert_eq!(p.xperm_rules[0].line(), "allowxperm source_t target_t:file ioctl { 0x8900-0x8902 };");
    assert_eq!(p.te_rules.len(), 1);
    assert_eq!(p.te_rules[0].line(), "type_transition source_t target_t:file target_t \"log\";");
    assert_eq!(p.genfs.len(), 1);
    assert_eq!(p.genfs[0].line(), "genfscon proc / target_t");
}

#[test]
fn attribute_members_come_from_the_type_attribute_map() {
    let p = parse(&richer_policy(b"SE Linux")).unwrap();
    let members = p.attributes.get("domain").unwrap();
    assert!(members.contains("source_t"));
    assert_eq!(members.len(), 1);
    // Every member of every attribute is a concrete type.
    for (_, m) in p.attributes.entries() {
        for t in m.names() {
            assert!(p.types.contains(t));
        }
    }
    // A source filter on the member matches the rule written on the attribute.
    let q = Query {
        source: Some("source_t".into()),
        ..Default::default()
    };
    let cond = p.av_rules.iter().find(|r| r.conditional).unwrap();
    assert!(q.matches_av(&p, cond));
}

#[test]
fn semantic_and_direct_queries_through_the_report() {
    let p = parse(&richer_policy(b"SE Linux")).unwrap();
    assert_eq!(
        report(&config(&["-A", "-s", "source_t"]), &p).unwrap(),
        vec![
            "allow domain target_t:file { write };  # conditional",
            "allow source_t target_t:file { ioctl read };",
        ]
    );
    assert_eq!(
        report(&config(&["-A", "-s", "source_t", "-d"]), &p).unwrap(),
        vec!["allow source_t target_t:file { ioctl read };"]
    );
    assert_eq!(
        report(&config(&["-X", "-T", "--json"]), &p).unwrap(),
        vec![r#"[{"rule_type":"allowxperm","source":"source_t","target":"target_t","class":"file","op":"ioctl","ranges":[[35072,35074]]},{"rule_type":"type_transition","source":"source_t","target":"target_t","class":"file","default":"target_t","object_name":"log"}]"#]
    );
    assert_eq!(
        report(&config(&["--expand", "domain", "--booleans", "--genfs"]), &p).unwrap(),
        vec!["bool b1 true", "genfscon proc / target_t", "Members of domain (1):", "  source_t"]
    );
    assert_eq!(
        report(&config(&["--booleans", "--genfs", "--json"]), &p).unwrap(),
        vec![r#"{"b1":true}"#, r#"[{"fstype":"proc","path":"/","type":"target_t"}]"#]
    );
    assert_eq!(
        report(&config(&["-A", "-s", "domian"]), &p).unwrap_err().1,
        "unknown source domian. did you mean: domain?"
    );
    let dontaudit = p.av_rules.iter().find(|r| r.kind == AvKind::DontAudit).unwrap();
    assert_eq!(dontaudit.perms, vec!["read"]);
}

#[test]
fn policy_kind_is_decoded_lossily() {
    let p = parse(&richer_policy(b"SE\xFFLinux")).unwrap();
    assert_eq!(p.policy_kind, "SE\u{FFFD}Linux");
}

#[test]
fn the_writer_output_reads_back() {
    let blob = minimal_policy();
    let mut r = Reader::new(&blob);
    assert_eq!(r.read_u32().unwrap(), 0xF97C_FF8C);
    assert_eq!(r.read_string().unwrap(), "SE Linux");
    assert_eq!(r.read_u32().unwrap(), 30);
    assert_eq!(r.read_u32().unwrap(), 0);
    assert_eq!(r.read_u32().unwrap(), 8);
    assert_eq!(r.read_u32().unwrap(), 0);
    assert_eq!(r.read_ebitmap().unwrap(), vec![0]);
    assert!(r.read_ebitmap().unwrap().is_empty());
}

#[test]
fn truncated_richer_policy_fails_everywhere() {
    let blob = richer_policy(b"SE Linux");
    for n in 0..blob.len() {
        assert!(parse(&blob[..n]).is_err(), "prefix of {n} bytes parsed");
    }
    assert!(parse(&blob).is_ok());
}
