//! The seinfo-style listings (summary counts, symbols, statements) and the
//! complete output of a run.

use vstd::prelude::*;
use crate::order::views;
use crate::collections::{NameSet, in_order};
use crate::policy::{Policy, SpecPolicy, AvKind, SpecAvRule, SpecGenfs, SpecConstraint, join,
    push_joined, genfs_line, constraint_line};
use crate::json::{Value, json_text, quoted, array_text, member_text, object_text, member_texts,
    texts, lemma_items_text, lemma_fields_text};
use crate::cli::{Config, SpecConfig, any_rule_type_spec, any_info_spec};
use crate::report::{bool_json, strings_json, validation, validate_query, rules_report, rules_output};

use crate::text::{dec, dec_signed, push_str, push_dec, owned};

verus! {

// ---------------------------------------------------------------------------
// Lists
// ---------------------------------------------------------------------------

/// A titled list of names (already in order): a count header and indented
/// names, or a JSON array of strings.
pub open spec fn list_report(title: Seq<char>, items: Seq<Seq<char>>, json: bool) -> Seq<Seq<char>> {
    if json {
        seq![strings_json(items)]
    } else {
        seq![title + " ("@ + dec(items.len()) + "):"@] + items.map_values(|x: Seq<char>| "  "@ + x)
    }
}

/// Statement lines as they are, or a JSON array of them.
pub open spec fn rendered_report(lines: Seq<Seq<char>>, json: bool) -> Seq<Seq<char>> {
    if json {
        seq![strings_json(lines)]
    } else {
        lines
    }
}

fn quoted_all(items: &Vec<String>) -> (r: Vec<Value>)
    ensures
        texts(r@) == views(items@).map_values(|x: Seq<char>| quoted(x)),
{
    let mut out: Vec<Value> = Vec::new();
    let mut i: usize = 0;
    while i < items.len()
        invariant
            i <= items@.len(),
            texts(out@) == views(items@).subrange(0, i as int).map_values(|x: Seq<char>| quoted(x)),
        decreases items@.len() - i,
    {
        let v = Value::Str(items[i].clone());
        let ghost pre = out@;
        out.push(v);
        assert(texts(out@) =~= texts(pre).push(json_text(v)));
        assert(texts(out@) =~= views(items@).subrange(0, i + 1).map_values(|x: Seq<char>| quoted(x)));
        i = i + 1;
    }
    assert(views(items@).subrange(0, items@.len() as int) =~= views(items@));
    out
}

/// The JSON array of strings.
fn strings_line(items: &Vec<String>) -> (s: String)
    ensures
        s@ == strings_json(views(items@)),
{
    let vals = quoted_all(items);
    proof {
        lemma_items_text(vals@);
    }
    Value::Array(vals).render()
}

/// Lines of a titled list of names.
fn list_lines(title: &str, items: &Vec<String>, json: bool) -> (r: Vec<String>)
    ensures
        views(r@) == list_report(title@, views(items@), json),
{
    if json {
        let s = strings_line(items);
        let r = vec![s];
        assert(views(r@) =~= seq![s@]);
        r
    } else {
        let mut head = String::new();
        push_str(&mut head, title);
        push_str(&mut head, " (");
        push_dec(&mut head, items.len() as u64);
        push_str(&mut head, "):");
        let mut r = vec![head];
        let ghost start = seq![head@];
        assert(views(r@) =~= start);
        let mut i: usize = 0;
        while i < items.len()
            invariant
                i <= items@.len(),
                views(r@) == start + views(items@).subrange(0, i as int).map_values(|x: Seq<char>| "  "@ + x),
            decreases items@.len() - i,
        {
            let mut line = String::new();
            push_str(&mut line, "  ");
            push_str(&mut line, items[i].as_str());
            let ghost pre = views(r@);
            r.push(line);
            assert(views(r@) =~= pre.push(line@));
            assert(views(r@) =~= start + views(items@).subrange(0, i + 1).map_values(|x: Seq<char>| "  "@ + x));
            i = i + 1;
        }
        assert(views(items@).subrange(0, items@.len() as int) =~= views(items@));
        assert(head@ =~= title@ + " ("@ + dec(items@.len()) + "):"@);
        r
    }
}

/// Statement lines, or their JSON array.
fn rendered_lines(lines: Vec<String>, json: bool) -> (r: Vec<String>)
    ensures
        views(r@) == rendered_report(views(lines@), json),
{
    if json {
        let s = strings_line(&lines);
        let r = vec![s];
        assert(views(r@) =~= seq![s@]);
        r
    } else {
        lines
    }
}

/// Copies of the names of a set, in order.
fn set_names(s: &NameSet) -> (r: Vec<String>)
    ensures
        views(r@) == in_order(s@),
{
    let names = s.names();
    let mut r: Vec<String> = Vec::new();
    let mut i: usize = 0;
    while i < names.len()
        invariant
            i <= names@.len(),
            views(names@) == in_order(s@),
            views(r@) == views(names@).subrange(0, i as int),
        decreases names@.len() - i,
    {
        let c = names[i].clone();
        let ghost pre = views(r@);
        r.push(c);
        assert(views(r@) =~= pre.push(views(names@)[i as int]));
        i = i + 1;
    }
    assert(views(names@).subrange(0, names@.len() as int) =~= views(names@));
    r
}

/// Copies of the keys of a name map, in order.
fn map_keys<V: DeepView>(m: &crate::collections::NameMap<V>) -> (r: Vec<String>)
    ensures
        views(r@) == in_order(m@.dom()),
{
    let entries = m.entries();
    let ghost keys = entries@.map_values(|e: (String, V)| e.0@);
    let mut r: Vec<String> = Vec::new();
    let mut i: usize = 0;
    while i < entries.len()
        invariant
            i <= entries@.len(),
            keys == entries@.map_values(|e: (String, V)| e.0@),
            views(r@) == keys.subrange(0, i as int),
        decreases entries@.len() - i,
    {
        let c = entries[i].0.clone();
        let ghost pre = views(r@);
        r.push(c);
        assert(views(r@) =~= pre.push(keys[i as int]));
        i = i + 1;
    }
    assert(keys.subrange(0, entries@.len() as int) =~= keys);
    r
}

// ---------------------------------------------------------------------------
// Classes, booleans, genfs, constraints
// ---------------------------------------------------------------------------

/// The class listing: `class C { perms }` lines, or a JSON object from class
/// to its permissions.
pub open spec fn classes_report(p: SpecPolicy, json: bool) -> Seq<Seq<char>> {
    let names = in_order(p.classes.dom());
    if json {
        seq![object_text(names.map_values(|c: Seq<char>| member_text(c, strings_json(p.classes[c]))))]
    } else {
        names.map_values(|c: Seq<char>| "class "@ + c + " { "@ + join(p.classes[c], " "@) + " }"@)
    }
}

/// The boolean listing: `bool B true|false` lines, or a JSON object.
pub open spec fn booleans_report(p: SpecPolicy, json: bool) -> Seq<Seq<char>> {
    let names = in_order(p.booleans.dom());
    if json {
        seq![object_text(names.map_values(|b: Seq<char>| member_text(b, bool_json(p.booleans[b]))))]
    } else {
        names.map_values(|b: Seq<char>| "bool "@ + b + " "@ + if p.booleans[b] { "true"@ } else { "false"@ })
    }
}

/// The JSON object of a genfs binding.
pub open spec fn genfs_json(g: SpecGenfs) -> Seq<char> {
    object_text(
        seq![
            member_text("fstype"@, quoted(g.fstype)),
            member_text("path"@, quoted(g.path)),
            member_text("type"@, quoted(g.context_type)),
        ],
    )
}

/// The genfs listing: statement lines, or a JSON array of objects.
pub open spec fn genfs_report(p: SpecPolicy, json: bool) -> Seq<Seq<char>> {
    if json {
        seq![array_text(p.genfs.map_values(|g: SpecGenfs| genfs_json(g)))]
    } else {
        p.genfs.map_values(|g: SpecGenfs| genfs_line(g))
    }
}

/// The constraint lines, only of `class` when one is given.
pub open spec fn constraint_lines(cs: Seq<SpecConstraint>, class: Option<Seq<char>>) -> Seq<Seq<char>>
    decreases cs.len(),
{
    if cs.len() == 0 {
        Seq::empty()
    } else {
        let prev = constraint_lines(cs.drop_last(), class);
        let c = cs.last();
        if class is None || class->0 == c.class {
            prev.push(constraint_line(c))
        } else {
            prev
        }
    }
}

/// The members of a JSON object from class to its permissions.
fn class_members(p: &Policy) -> (r: Vec<(String, Value)>)
    ensures
        member_texts(r@) == in_order(p@.classes.dom()).map_values(
            |c: Seq<char>| member_text(c, strings_json(p@.classes[c])),
        ),
{
    let entries = p.classes.entries();
    let ghost names = in_order(p@.classes.dom());
    let mut members: Vec<(String, Value)> = Vec::new();
    let mut i: usize = 0;
    while i < entries.len()
        invariant
            i <= entries@.len(),
            entries@.map_values(|e: (String, Vec<String>)| e.0@) == names,
            forall|k: int| 0 <= k < entries@.len() ==> p@.classes[#[trigger] entries@[k].0@] == entries@[k].1.deep_view(),
            member_texts(members@) == names.subrange(0, i as int).map_values(
                |c: Seq<char>| member_text(c, strings_json(p@.classes[c])),
            ),
        decreases entries@.len() - i,
    {
        let name = &entries[i].0;
        let perms = &entries[i].1;
        assert(perms.deep_view() =~= views(perms@));
        assert(names[i as int] == name@);
        let vals = quoted_all(perms);
        proof {
            lemma_items_text(vals@);
        }
        let arr = Value::Array(vals);
        let ghost pre = members@;
        members.push((name.clone(), arr));
        assert(member_texts(members@) =~= member_texts(pre).push(member_text(name@, strings_json(views(perms@)))));
        assert(member_texts(members@) =~= names.subrange(0, i + 1).map_values(
            |c: Seq<char>| member_text(c, strings_json(p@.classes[c])),
        ));
        i = i + 1;
    }
    assert(names.subrange(0, entries@.len() as int) =~= names);
    members
}

/// The `class C { perms }` lines.
fn class_statements(p: &Policy) -> (r: Vec<String>)
    ensures
        views(r@) == in_order(p@.classes.dom()).map_values(
            |c: Seq<char>| "class "@ + c + " { "@ + join(p@.classes[c], " "@) + " }"@,
        ),
{
    let entries = p.classes.entries();
    let ghost names = in_order(p@.classes.dom());
    let mut lines: Vec<String> = Vec::new();
    let mut i: usize = 0;
    while i < entries.len()
        invariant
            i <= entries@.len(),
            entries@.map_values(|e: (String, Vec<String>)| e.0@) == names,
            forall|k: int| 0 <= k < entries@.len() ==> p@.classes[#[trigger] entries@[k].0@] == entries@[k].1.deep_view(),
            views(lines@) == names.subrange(0, i as int).map_values(
                |c: Seq<char>| "class "@ + c + " { "@ + join(p@.classes[c], " "@) + " }"@,
            ),
        decreases entries@.len() - i,
    {
        let name = &entries[i].0;
        let perms = &entries[i].1;
        assert(perms.deep_view() =~= views(perms@));
        assert(names[i as int] == name@);
        let mut line = String::new();
        push_str(&mut line, "class ");
        push_str(&mut line, name.as_str());
        push_str(&mut line, " { ");
        push_joined(&mut line, perms, " ");
        push_str(&mut line, " }");
        let ghost pre = views(lines@);
        lines.push(line);
        assert(views(lines@) =~= pre.push(line@));
        assert(views(lines@) =~= names.subrange(0, i + 1).map_values(
            |c: Seq<char>| "class "@ + c + " { "@ + join(p@.classes[c], " "@) + " }"@,
        ));
        i = i + 1;
    }
    assert(names.subrange(0, entries@.len() as int) =~= names);
    lines
}

/// The class listing.
fn classes_lines(p: &Policy, json: bool) -> (r: Vec<String>)
    ensures
        views(r@) == classes_report(p@, json),
{
    if json {
        let members = class_members(p);
        proof {
            lemma_fields_text(members@);
        }
        let s = Value::Object(members).render();
        let r = vec![s];
        assert(views(r@) =~= seq![s@]);
        r
    } else {
        class_statements(p)
    }
}

/// The boolean listing.
fn booleans_lines(p: &Policy, json: bool) -> (r: Vec<String>)
    ensures
        views(r@) == booleans_report(p@, json),
{
    let entries = p.booleans.entries();
    let ghost names = in_order(p@.booleans.dom());
    let mut lines: Vec<String> = Vec::new();
    let mut members: Vec<(String, Value)> = Vec::new();
    let mut i: usize = 0;
    while i < entries.len()
        invariant
            i <= entries@.len(),
            entries@.map_values(|e: (String, bool)| e.0@) == names,
            forall|k: int| 0 <= k < entries@.len() ==> p@.booleans[#[trigger] entries@[k].0@] == entries@[k].1,
            views(lines@) == names.subrange(0, i as int).map_values(
                |b: Seq<char>| "bool "@ + b + " "@ + if p@.booleans[b] { "true"@ } else { "false"@ },
            ),
            member_texts(members@) == names.subrange(0, i as int).map_values(
                |b: Seq<char>| member_text(b, bool_json(p@.booleans[b])),
            ),
        decreases entries@.len() - i,
    {
        let name = &entries[i].0;
        let state = entries[i].1;
        assert(names[i as int] == name@);
        let mut line = String::new();
        push_str(&mut line, "bool ");
        push_str(&mut line, name.as_str());
        push_str(&mut line, " ");
        push_str(&mut line, if state { "true" } else { "false" });
        let ghost pre = views(lines@);
        lines.push(line);
        assert(views(lines@) =~= pre.push(line@));
        let ghost pre_m = members@;
        members.push((name.clone(), Value::Bool(state)));
        assert(member_texts(members@) =~= member_texts(pre_m).push(member_text(name@, bool_json(state))));
        assert(views(lines@) =~= names.subrange(0, i + 1).map_values(
            |b: Seq<char>| "bool "@ + b + " "@ + if p@.booleans[b] { "true"@ } else { "false"@ },
        ));
        assert(member_texts(members@) =~= names.subrange(0, i + 1).map_values(
            |b: Seq<char>| member_text(b, bool_json(p@.booleans[b])),
        ));
        i = i + 1;
    }
    assert(names.subrange(0, entries@.len() as int) =~= names);
    if json {
        proof {
            lemma_fields_text(members@);
        }
        let s = Value::Object(members).render();
        let r = vec![s];
        assert(views(r@) =~= seq![s@]);
        r
    } else {
        lines
    }
}

fn genfs_value(g: &crate::policy::Genfs) -> (v: Value)
    ensures
        json_text(v) == genfs_json(g@),
{
    let fields = vec![
        (owned("fstype"), Value::Str(g.fstype.clone())),
        (owned("path"), Value::Str(g.path.clone())),
        (owned("type"), Value::Str(g.context_type.clone())),
    ];
    proof {
        lemma_fields_text(fields@);
        assert(member_texts(fields@) =~= seq![
            member_text("fstype"@, quoted(g@.fstype)),
            member_text("path"@, quoted(g@.path)),
            member_text("type"@, quoted(g@.context_type)),
        ]);
    }
    Value::Object(fields)
}

/// The genfs listing.
fn genfs_lines(p: &Policy, json: bool) -> (r: Vec<String>)
    ensures
        views(r@) == genfs_report(p@, json),
{
    let ghost gs = p@.genfs;
    let mut lines: Vec<String> = Vec::new();
    let mut items: Vec<Value> = Vec::new();
    let mut i: usize = 0;
    while i < p.genfs.len()
        invariant
            i <= p.genfs@.len(),
            gs == p@.genfs,
            views(lines@) == gs.subrange(0, i as int).map_values(|g: SpecGenfs| genfs_line(g)),
            texts(items@) == gs.subrange(0, i as int).map_values(|g: SpecGenfs| genfs_json(g)),
        decreases p.genfs@.len() - i,
    {
        let g = &p.genfs[i];
        assert(gs[i as int] == g@);
        let line = g.line();
        let ghost pre = views(lines@);
        lines.push(line);
        assert(views(lines@) =~= pre.push(line@));
        let v = genfs_value(g);
        let ghost pre_i = items@;
        items.push(v);
        assert(texts(items@) =~= texts(pre_i).push(json_text(v)));
        assert(views(lines@) =~= gs.subrange(0, i + 1).map_values(|g: SpecGenfs| genfs_line(g)));
        assert(texts(items@) =~= gs.subrange(0, i + 1).map_values(|g: SpecGenfs| genfs_json(g)));
        i = i + 1;
    }
    assert(gs.subrange(0, p.genfs@.len() as int) =~= gs);
    if json {
        proof {
            lemma_items_text(items@);
        }
        let s = Value::Array(items).render();
        let r = vec![s];
        assert(views(r@) =~= seq![s@]);
        r
    } else {
        lines
    }
}

/// The lines of the constraints, only of `class` when one is given.
fn constraint_statements(p: &Policy, class: &Option<String>) -> (r: Vec<String>)
    ensures
        views(r@) == constraint_lines(p@.constraints, crate::policy::opt_view(*class)),
{
    let ghost cs = p@.constraints;
    let ghost want = crate::policy::opt_view(*class);
    let mut lines: Vec<String> = Vec::new();
    let mut i: usize = 0;
    assert(cs.subrange(0, 0) =~= Seq::<SpecConstraint>::empty());
    while i < p.constraints.len()
        invariant
            i <= p.constraints@.len(),
            cs == p@.constraints,
            want == crate::policy::opt_view(*class),
            views(lines@) == constraint_lines(cs.subrange(0, i as int), want),
        decreases p.constraints@.len() - i,
    {
        let c = &p.constraints[i];
        assert(cs[i as int] == c@);
        assert(cs.subrange(0, i + 1).drop_last() =~= cs.subrange(0, i as int));
        let keep = match class {
            Some(k) => crate::order::str_equal(c.class.as_str(), k.as_str()),
            None => true,
        };
        if keep {
            let line = c.line();
            let ghost pre = views(lines@);
            lines.push(line);
            assert(views(lines@) =~= pre.push(line@));
        }
        i = i + 1;
    }
    assert(cs.subrange(0, p.constraints@.len() as int) =~= cs);
    lines
}

// ---------------------------------------------------------------------------
// Summary counts
// ---------------------------------------------------------------------------

/// The number of access-vector rules of kind `k`.
pub open spec fn count_kind(rules: Seq<SpecAvRule>, k: AvKind) -> nat
    decreases rules.len(),
{
    if rules.len() == 0 {
        0
    } else {
        count_kind(rules.drop_last(), k) + if rules.last().kind == k { 1nat } else { 0nat }
    }
}

/// The rules of each kind: allow, auditallow, dontaudit.
fn av_counts(p: &Policy) -> (r: (usize, usize, usize))
    ensures
        r.0 == count_kind(p@.av_rules, AvKind::Allow),
        r.1 == count_kind(p@.av_rules, AvKind::AuditAllow),
        r.2 == count_kind(p@.av_rules, AvKind::DontAudit),
{
    let ghost rules = p@.av_rules;
    let mut allow: usize = 0;
    let mut auditallow: usize = 0;
    let mut dontaudit: usize = 0;
    let mut i: usize = 0;
    assert(rules.subrange(0, 0) =~= Seq::<SpecAvRule>::empty());
    while i < p.av_rules.len()
        invariant
            i <= p.av_rules@.len(),
            rules == p@.av_rules,
            allow == count_kind(rules.subrange(0, i as int), AvKind::Allow),
            auditallow == count_kind(rules.subrange(0, i as int), AvKind::AuditAllow),
            dontaudit == count_kind(rules.subrange(0, i as int), AvKind::DontAudit),
            allow + auditallow + dontaudit == i,
        decreases p.av_rules@.len() - i,
    {
        assert(rules[i as int] == p.av_rules@[i as int]@);
        assert(rules.subrange(0, i + 1).drop_last() =~= rules.subrange(0, i as int));
        match p.av_rules[i].kind {
            AvKind::Allow => allow = allow + 1,
            AvKind::AuditAllow => auditallow = auditallow + 1,
            AvKind::DontAudit => dontaudit = dontaudit + 1,
        }
        i = i + 1;
    }
    assert(rules.subrange(0, p.av_rules@.len() as int) =~= rules);
    (allow, auditallow, dontaudit)
}

/// A label and a count.
pub open spec fn count_line(label: Seq<char>, n: nat) -> Seq<char> {
    label + dec(n)
}

/// The summary: policy kind, version, MLS, then the counts.
pub open spec fn stats_text(p: SpecPolicy) -> Seq<Seq<char>> {
    seq![
        "Policy kind:       "@ + p.policy_kind,
        count_line("Policy version:    "@, p.version as nat),
        "MLS enabled:       "@ + if p.mls { "true"@ } else { "false"@ },
        count_line("Types:             "@, p.types.len()),
        count_line("Attributes:        "@, p.attributes.len()),
        count_line("Classes:           "@, p.classes.len()),
        count_line("Roles:             "@, p.role_count as nat),
        count_line("Users:             "@, p.user_count as nat),
        count_line("Booleans:          "@, p.booleans.len()),
    ] + seq![
        count_line("allow rules:       "@, count_kind(p.av_rules, AvKind::Allow)),
        count_line("auditallow rules:  "@, count_kind(p.av_rules, AvKind::AuditAllow)),
        count_line("dontaudit rules:   "@, count_kind(p.av_rules, AvKind::DontAudit)),
        count_line("xperm rules:       "@, p.xperm_rules.len()),
        count_line("type rules:        "@, p.te_rules.len()),
        count_line("constraints:       "@, p.constraints.len()),
        count_line("sensitivities:     "@, p.sensitivities.len()),
        count_line("categories:        "@, p.categories.len()),
    ] + seq![
        count_line("genfscon entries:  "@, p.genfs.len()),
        count_line("initial SIDs:      "@, 0),
        count_line("portcon entries:   "@, 0),
        count_line("netifcon entries:  "@, 0),
        count_line("nodecon entries:   "@, 0),
        count_line("fs_use entries:    "@, 0),
        count_line("policy caps:       "@, p.policycaps.len()),
    ]
}

fn count_text(label: &str, n: usize) -> (s: String)
    ensures
        s@ == count_line(label@, n as nat),
{
    let mut s = String::new();
    push_str(&mut s, label);
    push_dec(&mut s, n as u64);
    assert(s@ =~= count_line(label@, n as nat));
    s
}

fn stats_head(p: &Policy) -> (r: Vec<String>)
    ensures
        views(r@) == stats_text(p@).subrange(0, 9),
{
    let mut kind = String::new();
    push_str(&mut kind, "Policy kind:       ");
    push_str(&mut kind, p.policy_kind.as_str());
    let mut mls = String::new();
    push_str(&mut mls, "MLS enabled:       ");
    push_str(&mut mls, if p.mls { "true" } else { "false" });
    let r = vec![
        kind,
        count_text("Policy version:    ", p.version as usize),
        mls,
        count_text("Types:             ", p.types.len()),
        count_text("Attributes:        ", p.attributes.len()),
        count_text("Classes:           ", p.classes.len()),
        count_text("Roles:             ", p.role_count),
        count_text("Users:             ", p.user_count),
        count_text("Booleans:          ", p.booleans.len()),
    ];
    assert(views(r@) =~= stats_text(p@).subrange(0, 9));
    r
}

fn stats_rules(p: &Policy) -> (r: Vec<String>)
    ensures
        views(r@) == stats_text(p@).subrange(9, 17),
{
    let (allow, auditallow, dontaudit) = av_counts(p);
    let r = vec![
        count_text("allow rules:       ", allow),
        count_text("auditallow rules:  ", auditallow),
        count_text("dontaudit rules:   ", dontaudit),
        count_text("xperm rules:       ", p.xperm_rules.len()),
        count_text("type rules:        ", p.te_rules.len()),
        count_text("constraints:       ", p.constraints.len()),
        count_text("sensitivities:     ", p.sensitivities.len()),
        count_text("categories:        ", p.categories.len()),
    ];
    assert(views(r@) =~= stats_text(p@).subrange(9, 17));
    r
}

fn stats_tail(p: &Policy) -> (r: Vec<String>)
    ensures
        views(r@) == stats_text(p@).subrange(17, 24),
{
    let r = vec![
        count_text("genfscon entries:  ", p.genfs.len()),
        count_text("initial SIDs:      ", 0),
        count_text("portcon entries:   ", 0),
        count_text("netifcon entries:  ", 0),
        count_text("nodecon entries:   ", 0),
        count_text("fs_use entries:    ", 0),
        count_text("policy caps:       ", p.policycaps.len()),
    ];
    assert(views(r@) =~= stats_text(p@).subrange(17, 24));
    r
}

/// The summary lines.
pub fn stats_lines(p: &Policy) -> (r: Vec<String>)
    ensures
        views(r@) == stats_text(p@),
{
    let mut r = stats_head(p);
    let mid = stats_rules(p);
    let tail = stats_tail(p);
    let ghost a = views(r@);
    let mut i: usize = 0;
    while i < mid.len()
        invariant
            i <= mid@.len(),
            views(r@) == a + views(mid@).subrange(0, i as int),
        decreases mid@.len() - i,
    {
        let c = mid[i].clone();
        let ghost pre = views(r@);
        r.push(c);
        assert(views(r@) =~= pre.push(views(mid@)[i as int]));
        assert(views(r@) =~= a + views(mid@).subrange(0, i + 1));
        i = i + 1;
    }
    let ghost b = views(r@);
    let mut j: usize = 0;
    while j < tail.len()
        invariant
            j <= tail@.len(),
            views(r@) == b + views(tail@).subrange(0, j as int),
        decreases tail@.len() - j,
    {
        let c = tail[j].clone();
        let ghost pre = views(r@);
        r.push(c);
        assert(views(r@) =~= pre.push(views(tail@)[j as int]));
        assert(views(r@) =~= b + views(tail@).subrange(0, j + 1));
        j = j + 1;
    }
    assert(views(mid@).subrange(0, mid@.len() as int) =~= views(mid@));
    assert(views(tail@).subrange(0, tail@.len() as int) =~= views(tail@));
    assert(stats_text(p@) =~= stats_text(p@).subrange(0, 9) + stats_text(p@).subrange(9, 17)
        + stats_text(p@).subrange(17, 24));
    r
}

/// A count as a JSON number (as a 64-bit signed value).
pub open spec fn num_json(n: nat) -> Seq<char> {
    dec_signed((n as i64) as int)
}

/// The summary as JSON members.
pub open spec fn stats_members(p: SpecPolicy) -> Seq<Seq<char>> {
    seq![
        member_text("policy_kind"@, quoted(p.policy_kind)),
        member_text("version"@, num_json(p.version as nat)),
        member_text("mls"@, bool_json(p.mls)),
        member_text("types"@, num_json(p.types.len())),
        member_text("attributes"@, num_json(p.attributes.len())),
        member_text("classes"@, num_json(p.classes.len())),
        member_text("roles"@, num_json(p.role_count as nat)),
        member_text("users"@, num_json(p.user_count as nat)),
        member_text("booleans"@, num_json(p.booleans.len())),
    ] + seq![
        member_text("allow_rules"@, num_json(count_kind(p.av_rules, AvKind::Allow))),
        member_text("auditallow_rules"@, num_json(count_kind(p.av_rules, AvKind::AuditAllow))),
        member_text("dontaudit_rules"@, num_json(count_kind(p.av_rules, AvKind::DontAudit))),
        member_text("xperm_rules"@, num_json(p.xperm_rules.len())),
        member_text("type_rules"@, num_json(p.te_rules.len())),
        member_text("constraints"@, num_json(p.constraints.len())),
        member_text("sensitivities"@, num_json(p.sensitivities.len())),
        member_text("categories"@, num_json(p.categories.len())),
    ] + seq![
        member_text("genfs"@, num_json(p.genfs.len())),
        member_text("initial_sids"@, num_json(0)),
        member_text("portcons"@, num_json(0)),
        member_text("netifcons"@, num_json(0)),
        member_text("nodecons"@, num_json(0)),
        member_text("fs_uses"@, num_json(0)),
        member_text("policycaps"@, num_json(p.policycaps.len())),
    ]
}

fn num_member(key: &str, n: usize) -> (f: (String, Value))
    ensures
        member_text(f.0@, json_text(f.1)) == member_text(key@, num_json(n as nat)),
{
    (owned(key), Value::Num(n as i64))
}

fn stats_members_head(p: &Policy) -> (r: Vec<(String, Value)>)
    ensures
        member_texts(r@) == stats_members(p@).subrange(0, 9),
{
    let r = vec![
        (owned("policy_kind"), Value::Str(p.policy_kind.clone())),
        num_member("version", p.version as usize),
        (owned("mls"), Value::Bool(p.mls)),
        num_member("types", p.types.len()),
        num_member("attributes", p.attributes.len()),
        num_member("classes", p.classes.len()),
        num_member("roles", p.role_count),
        num_member("users", p.user_count),
        num_member("booleans", p.booleans.len()),
    ];
    assert(member_texts(r@) =~= stats_members(p@).subrange(0, 9));
    r
}

fn stats_members_rules(p: &Policy) -> (r: Vec<(String, Value)>)
    ensures
        member_texts(r@) == stats_members(p@).subrange(9, 17),
{
    let (allow, auditallow, dontaudit) = av_counts(p);
    let r = vec![
        num_member("allow_rules", allow),
        num_member("auditallow_rules", auditallow),
        num_member("dontaudit_rules", dontaudit),
        num_member("xperm_rules", p.xperm_rules.len()),
        num_member("type_rules", p.te_rules.len()),
        num_member("constraints", p.constraints.len()),
        num_member("sensitivities", p.sensitivities.len()),
        num_member("categories", p.categories.len()),
    ];
    assert(member_texts(r@) =~= stats_members(p@).subrange(9, 17));
    r
}

fn stats_members_tail(p: &Policy) -> (r: Vec<(String, Value)>)
    ensures
        member_texts(r@) == stats_members(p@).subrange(17, 24),
{
    let r = vec![
        num_member("genfs", p.genfs.len()),
        num_member("initial_sids", 0),
        num_member("portcons", 0),
        num_member("netifcons", 0),
        num_member("nodecons", 0),
        num_member("fs_uses", 0),
        num_member("policycaps", p.policycaps.len()),
    ];
    assert(member_texts(r@) =~= stats_members(p@).subrange(17, 24));
    r
}

/// Appends the members of `more`.
fn append_members(out: &mut Vec<(String, Value)>, more: Vec<(String, Value)>)
    ensures
        member_texts(final(out)@) == member_texts(old(out)@) + member_texts(more@),
{
    let mut more = more;
    let ghost m = more@;
    out.append(&mut more);
    assert(member_texts(out@) =~= member_texts(old(out)@) + member_texts(m));
}

/// The summary as JSON.
pub fn stats_json(p: &Policy) -> (v: Value)
    ensures
        json_text(v) == object_text(stats_members(p@)),
{
    let mut members = stats_members_head(p);
    append_members(&mut members, stats_members_rules(p));
    append_members(&mut members, stats_members_tail(p));
    proof {
        lemma_fields_text(members@);
        assert(stats_members(p@) =~= stats_members(p@).subrange(0, 9) + stats_members(p@).subrange(9, 17)
            + stats_members(p@).subrange(17, 24));
    }
    Value::Object(members)
}

// ---------------------------------------------------------------------------
// The listings of a run, and the whole output
// ---------------------------------------------------------------------------

/// The summary, as lines or as one JSON object.
pub open spec fn stats_report(p: SpecPolicy, json: bool) -> Seq<Seq<char>> {
    if json {
        seq![object_text(stats_members(p))]
    } else {
        stats_text(p)
    }
}

/// The symbol and summary listings asked for, in order.
pub open spec fn symbol_report(c: SpecConfig, p: SpecPolicy) -> Seq<Seq<char>> {
    let json = c.json;
    (if c.lists.stats { stats_report(p, json) } else { Seq::empty() })
        + (if c.lists.types { list_report("Types"@, in_order(p.types), json) } else { Seq::empty() })
        + (if c.lists.attributes { list_report("Attributes"@, in_order(p.attributes.dom()), json) } else { Seq::empty() })
        + (if c.lists.classes { classes_report(p, json) } else { Seq::empty() })
        + (if c.lists.booleans { booleans_report(p, json) } else { Seq::empty() })
        + (if c.lists.policycaps { list_report("Policy capabilities"@, in_order(p.policycaps), json) } else { Seq::empty() })
}

/// The statement listings asked for, in order. The policy keeps no object
/// contexts besides genfs, and no permissive types, so those listings are
/// empty.
pub open spec fn statement_report(c: SpecConfig, p: SpecPolicy) -> Seq<Seq<char>> {
    let json = c.json;
    let none = Seq::<Seq<char>>::empty();
    (if c.statements.genfs { genfs_report(p, json) } else { none })
        + (if c.statements.sensitivities { rendered_report(p.sensitivities, json) } else { none })
        + (if c.statements.categories { rendered_report(p.categories, json) } else { none })
        + (if c.statements.constrain { rendered_report(constraint_lines(p.constraints, c.query.class), json) } else { none })
        + (if c.contexts.initialsids { rendered_report(none, json) } else { none })
        + (if c.contexts.portcon { rendered_report(none, json) } else { none })
        + (if c.contexts.netifcon { rendered_report(none, json) } else { none })
        + (if c.contexts.nodecon { rendered_report(none, json) } else { none })
        + (if c.contexts.fsuse { rendered_report(none, json) } else { none })
        + (if c.statements.permissive { list_report("Permissive types"@, none, json) } else { none })
}

/// All the listings asked for: the error when the attribute to expand does
/// not exist.
pub open spec fn info_report(c: SpecConfig, p: SpecPolicy) -> Result<Seq<Seq<char>>, (Seq<Seq<char>>, Seq<char>)> {
    let head = symbol_report(c, p) + statement_report(c, p);
    match c.expand_attr {
        None => Ok(head),
        Some(a) => if p.attributes.contains_key(a) {
            Ok(head + list_report("Members of "@ + a, in_order(p.attributes[a]), c.json))
        } else {
            Err((head, "no such attribute: "@ + a))
        },
    }
}

pub open spec fn nothing_to_do_msg() -> Seq<char> {
    "nothing to do: specify a rule type (e.g. -A) or an info flag (e.g. --stats). See --help"@
}

/// The output of a run on a parsed policy: after the query's names check
/// out and something was asked for, the listings, then the rules. A run
/// that stops on an error keeps the lines it produced before the error.
pub open spec fn run_report(c: SpecConfig, p: SpecPolicy) -> Result<Seq<Seq<char>>, (Seq<Seq<char>>, Seq<char>)> {
    match validation(c, p) {
        Err(m) => Err((Seq::empty(), m)),
        Ok(_) => if !any_rule_type_spec(c) && !any_info_spec(c) {
            Err((Seq::empty(), nothing_to_do_msg()))
        } else {
            let info = if any_info_spec(c) { info_report(c, p) } else { Ok(Seq::empty()) };
            match info {
                Err(e) => Err(e),
                Ok(lines) => Ok(lines + if any_rule_type_spec(c) { rules_report(c, p) } else { Seq::empty() }),
            }
        },
    }
}

/// Appends the strings of `more`.
fn append_lines(out: &mut Vec<String>, more: Vec<String>)
    ensures
        views(final(out)@) == views(old(out)@) + views(more@),
{
    let mut more = more;
    let ghost m = more@;
    out.append(&mut more);
    assert(views(out@) =~= views(old(out)@) + views(m));
}

fn stats_output(p: &Policy, json: bool) -> (r: Vec<String>)
    ensures
        views(r@) == stats_report(p@, json),
{
    if json {
        let s = stats_json(p).render();
        let r = vec![s];
        assert(views(r@) =~= seq![s@]);
        r
    } else {
        stats_lines(p)
    }
}

/// Copies of strings.
fn cloned_lines(v: &Vec<String>) -> (r: Vec<String>)
    ensures
        views(r@) == views(v@),
{
    let mut r: Vec<String> = Vec::new();
    let mut i: usize = 0;
    while i < v.len()
        invariant
            i <= v@.len(),
            views(r@) == views(v@).subrange(0, i as int),
        decreases v@.len() - i,
    {
        let c = v[i].clone();
        let ghost pre = views(r@);
        r.push(c);
        assert(views(r@) =~= pre.push(views(v@)[i as int]));
        i = i + 1;
    }
    assert(views(v@).subrange(0, v@.len() as int) =~= views(v@));
    r
}

fn symbol_lines(cfg: &Config, p: &Policy) -> (r: Vec<String>)
    ensures
        views(r@) == symbol_report(cfg@, p@),
{
    let json = cfg.json;
    let ghost c = cfg@;
    let ghost pv = p@;
    let ghost none = Seq::<Seq<char>>::empty();
    let mut out: Vec<String> = Vec::new();
    assert(views(out@) =~= none);
    if cfg.lists.stats {
        append_lines(&mut out, stats_output(p, json));
    }
    let ghost s1 = if c.lists.stats { stats_report(pv, json) } else { none };
    assert(views(out@) =~= s1);
    if cfg.lists.types {
        append_lines(&mut out, list_lines("Types", &set_names(&p.types), json));
    }
    let ghost s2 = s1 + (if c.lists.types { list_report("Types"@, in_order(pv.types), json) } else { none });
    assert(views(out@) =~= s2);
    if cfg.lists.attributes {
        append_lines(&mut out, list_lines("Attributes", &map_keys(&p.attributes), json));
    }
    let ghost s3 = s2 + (if c.lists.attributes { list_report("Attributes"@, in_order(pv.attributes.dom()), json) } else { none });
    assert(views(out@) =~= s3);
    if cfg.lists.classes {
        append_lines(&mut out, classes_lines(p, json));
    }
    let ghost s4 = s3 + (if c.lists.classes { classes_report(pv, json) } else { none });
    assert(views(out@) =~= s4);
    if cfg.lists.booleans {
        append_lines(&mut out, booleans_lines(p, json));
    }
    let ghost s5 = s4 + (if c.lists.booleans { booleans_report(pv, json) } else { none });
    assert(views(out@) =~= s5);
    if cfg.lists.policycaps {
        append_lines(&mut out, list_lines("Policy capabilities", &set_names(&p.policycaps), json));
    }
    let ghost s6 = s5 + (if c.lists.policycaps { list_report("Policy capabilities"@, in_order(pv.policycaps), json) } else { none });
    assert(views(out@) =~= s6);
    out
}

/// An empty listing of statements.
fn no_statements(json: bool) -> (r: Vec<String>)
    ensures
        views(r@) == rendered_report(Seq::empty(), json),
{
    let empty: Vec<String> = Vec::new();
    assert(views(empty@) =~= Seq::<Seq<char>>::empty());
    rendered_lines(empty, json)
}

fn context_lines(cfg: &Config, out: &mut Vec<String>)
    ensures
        views(final(out)@) == views(old(out)@)
            + (if cfg@.contexts.initialsids { rendered_report(Seq::empty(), cfg@.json) } else { Seq::empty() })
            + (if cfg@.contexts.portcon { rendered_report(Seq::empty(), cfg@.json) } else { Seq::empty() })
            + (if cfg@.contexts.netifcon { rendered_report(Seq::empty(), cfg@.json) } else { Seq::empty() })
            + (if cfg@.contexts.nodecon { rendered_report(Seq::empty(), cfg@.json) } else { Seq::empty() })
            + (if cfg@.contexts.fsuse { rendered_report(Seq::empty(), cfg@.json) } else { Seq::empty() }),
{
    let json = cfg.json;
    let ghost none = Seq::<Seq<char>>::empty();
    let ghost e = rendered_report(none, json);
    let ghost s0 = views(out@);
    if cfg.contexts.initialsids {
        append_lines(out, no_statements(json));
    }
    let ghost s1 = s0 + (if cfg@.contexts.initialsids { e } else { none });
    assert(views(out@) =~= s1);
    if cfg.contexts.portcon {
        append_lines(out, no_statements(json));
    }
    let ghost s2 = s1 + (if cfg@.contexts.portcon { e } else { none });
    assert(views(out@) =~= s2);
    if cfg.contexts.netifcon {
        append_lines(out, no_statements(json));
    }
    let ghost s3 = s2 + (if cfg@.contexts.netifcon { e } else { none });
    assert(views(out@) =~= s3);
    if cfg.contexts.nodecon {
        append_lines(out, no_statements(json));
    }
    let ghost s4 = s3 + (if cfg@.contexts.nodecon { e } else { none });
    assert(views(out@) =~= s4);
    if cfg.contexts.fsuse {
        append_lines(out, no_statements(json));
    }
    let ghost s5 = s4 + (if cfg@.contexts.fsuse { e } else { none });
    assert(views(out@) =~= s5);
}

fn statement_lines(cfg: &Config, p: &Policy) -> (r: Vec<String>)
    ensures
        views(r@) == statement_report(cfg@, p@),
{
    let json = cfg.json;
    let ghost c = cfg@;
    let ghost pv = p@;
    let ghost none = Seq::<Seq<char>>::empty();
    let mut out: Vec<String> = Vec::new();
    assert(views(out@) =~= none);
    if cfg.statements.genfs {
        append_lines(&mut out, genfs_lines(p, json));
    }
    let ghost s1 = if c.statements.genfs { genfs_report(pv, json) } else { none };
    assert(views(out@) =~= s1);
    if cfg.statements.sensitivities {
        append_lines(&mut out, rendered_lines(cloned_lines(&p.sensitivities), json));
    }
    let ghost s2 = s1 + (if c.statements.sensitivities { rendered_report(pv.sensitivities, json) } else { none });
    assert(views(out@) =~= s2);
    if cfg.statements.categories {
        append_lines(&mut out, rendered_lines(cloned_lines(&p.categories), json));
    }
    let ghost s3 = s2 + (if c.statements.categories { rendered_report(pv.categories, json) } else { none });
    assert(views(out@) =~= s3);
    if cfg.statements.constrain {
        append_lines(&mut out, rendered_lines(constraint_statements(p, &cfg.query.class), json));
    }
    let ghost s4 = s3 + (if c.statements.constrain { rendered_report(constraint_lines(pv.constraints, c.query.class), json) } else { none });
    assert(views(out@) =~= s4);
    context_lines(cfg, &mut out);
    let ghost e = rendered_report(none, json);
    let ghost s9 = s4 + (if c.contexts.initialsids { e } else { none })
        + (if c.contexts.portcon { e } else { none })
        + (if c.contexts.netifcon { e } else { none })
        + (if c.contexts.nodecon { e } else { none })
        + (if c.contexts.fsuse { e } else { none });
    assert(views(out@) =~= s9);
    if cfg.statements.permissive {
        let empty: Vec<String> = Vec::new();
        assert(views(empty@) =~= none);
        append_lines(&mut out, list_lines("Permissive types", &empty, json));
    }
    let ghost s10 = s9 + (if c.statements.permissive { list_report("Permissive types"@, none, json) } else { none });
    assert(views(out@) =~= s10);
    out
}

/// All the listings asked for; on an unknown attribute to expand, the
/// listings before it and the error.
fn info_lines(cfg: &Config, p: &Policy) -> (r: Result<Vec<String>, (Vec<String>, String)>)
    ensures
        match info_report(cfg@, p@) {
            Ok(lines) => r is Ok && views(r->Ok_0@) == lines,
            Err((lines, m)) => r is Err && views(r->Err_0.0@) == lines && r->Err_0.1@ == m,
        },
{
    let mut out = symbol_lines(cfg, p);
    append_lines(&mut out, statement_lines(cfg, p));
    match &cfg.expand_attr {
        None => Ok(out),
        Some(attr) => {
            match p.attributes.get(attr.as_str()) {
                Some(members) => {
                    let mut title = String::new();
                    push_str(&mut title, "Members of ");
                    push_str(&mut title, attr.as_str());
                    append_lines(&mut out, list_lines(title.as_str(), &set_names(members), cfg.json));
                    Ok(out)
                },
                None => {
                    let mut e = String::new();
                    push_str(&mut e, "no such attribute: ");
                    push_str(&mut e, attr.as_str());
                    assert(e@ =~= "no such attribute: "@ + attr@);
                    Err((out, e))
                },
            }
        },
    }
}

/// The complete output of a run on a parsed policy: the listings and the
/// matching rules, or the error that stops the run together with the lines
/// produced before it.
pub fn report(cfg: &Config, p: &Policy) -> (r: Result<Vec<String>, (Vec<String>, String)>)
    ensures
        match run_report(cfg@, p@) {
            Ok(lines) => r is Ok && views(r->Ok_0@) == lines,
            Err((lines, m)) => r is Err && views(r->Err_0.0@) == lines && r->Err_0.1@ == m,
        },
{
    if let Err(m) = validate_query(cfg, p) {
        let none: Vec<String> = Vec::new();
        assert(views(none@) =~= Seq::<Seq<char>>::empty());
        return Err((none, m));
    }
    let any_rules = cfg.any_rule_type();
    let any_info = cfg.any_info();
    if !any_rules && !any_info {
        let mut e = String::new();
        push_str(&mut e, "nothing to do: specify a rule type (e.g. -A) or an info flag (e.g. --stats). See --help");
        let none: Vec<String> = Vec::new();
        assert(views(none@) =~= Seq::<Seq<char>>::empty());
        return Err((none, e));
    }
    let mut out: Vec<String> = Vec::new();
    assert(views(out@) =~= Seq::<Seq<char>>::empty());
    if any_info {
        out = info_lines(cfg, p)?;
    }
    if any_rules {
        append_lines(&mut out, rules_output(cfg, p));
    } else {
        assert(views(out@) =~= views(out@) + Seq::<Seq<char>>::empty());
    }
    Ok(out)
}

} // verus!

verus! {

/// Counting the rules of a kind one by one gives the number of rules of
/// that kind.
proof fn lemma_count_kind_filter(rules: Seq<SpecAvRule>, k: AvKind)
    ensures
        count_kind(rules, k) == rules.filter(|r: SpecAvRule| r.kind == k).len(),
    decreases rules.len(),
{
    reveal(Seq::filter);
    if rules.len() > 0 {
        lemma_count_kind_filter(rules.drop_last(), k);
    }
}

/// The summary shows, on the lines labelled for them, the number of
/// `allow`, `auditallow` and `dontaudit` rules of the policy, each the
/// number of its rules of that kind; the JSON summary gives the same counts
/// under "allow_rules", "auditallow_rules" and "dontaudit_rules".
pub proof fn law_stats_rule_counts(p: SpecPolicy)
    ensures
        stats_text(p).len() == 24,
        stats_text(p)[9] == "allow rules:       "@ + dec(p.av_rules.filter(|r: SpecAvRule| r.kind == AvKind::Allow).len()),
        stats_text(p)[10] == "auditallow rules:  "@ + dec(p.av_rules.filter(|r: SpecAvRule| r.kind == AvKind::AuditAllow).len()),
        stats_text(p)[11] == "dontaudit rules:   "@ + dec(p.av_rules.filter(|r: SpecAvRule| r.kind == AvKind::DontAudit).len()),
        stats_members(p).len() == 24,
        stats_members(p)[9] == member_text("allow_rules"@, num_json(p.av_rules.filter(|r: SpecAvRule| r.kind == AvKind::Allow).len())),
        stats_members(p)[10] == member_text("auditallow_rules"@, num_json(p.av_rules.filter(|r: SpecAvRule| r.kind == AvKind::AuditAllow).len())),
        stats_members(p)[11] == member_text("dontaudit_rules"@, num_json(p.av_rules.filter(|r: SpecAvRule| r.kind == AvKind::DontAudit).len())),
{
    lemma_count_kind_filter(p.av_rules, AvKind::Allow);
    lemma_count_kind_filter(p.av_rules, AvKind::AuditAllow);
    lemma_count_kind_filter(p.av_rules, AvKind::DontAudit);
}

} // verus!
