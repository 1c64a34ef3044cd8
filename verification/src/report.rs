//! What a run of the tool reports on a parsed policy: the check of the
//! query's names against the policy (with a suggestion for a misspelt one),
//! and the matching rules, as statement lines or as JSON.

use vstd::prelude::*;
use vstd::utf8::encode_utf8;
use crate::order::{str_equal, views, sorted, str_le, str_lt, sort_strings, lemma_str_lt_transitive};
use crate::collections::{in_order, strictly_sorted, lemma_in_order};
use crate::policy::{Policy, SpecPolicy, AvKind, AvRule, SpecAvRule, XpermRule,
    SpecXpermRule, TeRule, SpecTeRule, av_keyword, xperm_keyword, te_keyword, av_line, xperm_line,
    te_line, matches_av_spec, matches_xperm_spec, matches_te_spec, push_joined, join};
use crate::json::{Value, json_text, quoted, array_text, member_text, object_text, texts,
    member_texts, lemma_items_text, lemma_fields_text};
use crate::cli::{Config, SpecConfig, RuleTypes};

use crate::text::{push_str, dec_signed, owned};

verus! {

// ---------------------------------------------------------------------------
// Edit distance
// ---------------------------------------------------------------------------

pub open spec fn min3(x: nat, y: nat, z: nat) -> nat {
    if x <= y && x <= z {
        x
    } else if y <= z {
        y
    } else {
        z
    }
}

/// The Levenshtein distance between two byte strings: the fewest single-byte
/// insertions, deletions and substitutions that turn one into the other.
pub open spec fn lev(a: Seq<u8>, b: Seq<u8>) -> nat
    decreases a.len() + b.len(),
{
    if a.len() == 0 {
        b.len()
    } else if b.len() == 0 {
        a.len()
    } else {
        min3(
            lev(a.drop_last(), b) + 1,
            lev(a, b.drop_last()) + 1,
            lev(a.drop_last(), b.drop_last()) + if a.last() == b.last() { 0nat } else { 1nat },
        )
    }
}

/// The distance is at most the longer length.
pub proof fn lemma_lev_bound(a: Seq<u8>, b: Seq<u8>)
    ensures
        lev(a, b) <= if a.len() >= b.len() { a.len() } else { b.len() },
    decreases a.len() + b.len(),
{
    if a.len() > 0 && b.len() > 0 {
        lemma_lev_bound(a.drop_last(), b.drop_last());
    }
}

proof fn lemma_lev_step(x: Seq<u8>, y: Seq<u8>, i: int, j: int)
    requires
        0 <= i < x.len(),
        0 <= j < y.len(),
    ensures
        lev(x.subrange(0, i + 1), y.subrange(0, j + 1)) == min3(
            lev(x.subrange(0, i), y.subrange(0, j + 1)) + 1,
            lev(x.subrange(0, i + 1), y.subrange(0, j)) + 1,
            lev(x.subrange(0, i), y.subrange(0, j)) + if x[i] == y[j] { 0nat } else { 1nat },
        ),
{
    assert(x.subrange(0, i + 1).drop_last() =~= x.subrange(0, i));
    assert(y.subrange(0, j + 1).drop_last() =~= y.subrange(0, j));
}

/// The Levenshtein distance between the UTF-8 bytes of two strings.
pub fn edit_distance(a: &str, b: &str) -> (d: usize)
    ensures
        d == lev(encode_utf8(a@), encode_utf8(b@)),
{
    let x = a.as_bytes();
    let y = b.as_bytes();
    let n = x.len();
    let m = y.len();
    let ghost xs = x@;
    let ghost ys = y@;
    // row[j] = distance between the first i bytes of a and the first j of b.
    let mut row: Vec<usize> = Vec::new();
    row.push(0);
    let mut j: usize = 0;
    while j < m
        invariant
            j <= m,
            m == ys.len(),
            row@.len() == j + 1,
            forall|k: int| 0 <= k <= j ==> #[trigger] row@[k] == lev(xs.subrange(0, 0), ys.subrange(0, k)),
        decreases m - j,
    {
        row.push(j + 1);
        assert(xs.subrange(0, 0).len() == 0);
        j = j + 1;
    }
    let mut i: usize = 0;
    while i < n
        invariant
            i <= n,
            n == xs.len(),
            m == ys.len(),
            xs == x@,
            ys == y@,
            row@.len() == m + 1,
            forall|k: int| 0 <= k <= m ==> #[trigger] row@[k] == lev(xs.subrange(0, i as int), ys.subrange(0, k)),
        decreases n - i,
    {
        let mut prev = row[0];
        assert(ys.subrange(0, 0).len() == 0);
        assert(xs.subrange(0, i + 1).len() == i + 1);
        row.set(0, i + 1);
        let mut j: usize = 0;
        while j < m
            invariant
                i < n,
                j <= m,
                n == xs.len(),
                m == ys.len(),
                xs == x@,
                ys == y@,
                row@.len() == m + 1,
                prev == lev(xs.subrange(0, i as int), ys.subrange(0, j as int)),
                forall|k: int| 0 <= k <= j ==> #[trigger] row@[k] == lev(xs.subrange(0, i + 1), ys.subrange(0, k)),
                forall|k: int| j < k <= m ==> #[trigger] row@[k] == lev(xs.subrange(0, i as int), ys.subrange(0, k)),
            decreases m - j,
        {
            let old = row[j + 1];
            let left = row[j];
            proof {
                lemma_lev_step(xs, ys, i as int, j as int);
                lemma_lev_bound(xs.subrange(0, i + 1), ys.subrange(0, j + 1));
            }
            let del = if old < usize::MAX { old + 1 } else { old };
            let ins = if left < usize::MAX { left + 1 } else { left };
            let sub = if x[i] != y[j] {
                if prev < usize::MAX { prev + 1 } else { prev }
            } else {
                prev
            };
            let mut v = del;
            if ins < v {
                v = ins;
            }
            if sub < v {
                v = sub;
            }
            row.set(j + 1, v);
            prev = old;
            j = j + 1;
        }
        i = i + 1;
    }
    assert(xs.subrange(0, n as int) =~= xs);
    assert(ys.subrange(0, m as int) =~= ys);
    row[m]
}

// ---------------------------------------------------------------------------
// Unknown names
// ---------------------------------------------------------------------------

/// The UTF-8 bytes of a string.
pub open spec fn bytes_of(s: Seq<char>) -> Seq<u8> {
    encode_utf8(s)
}

/// The first of the candidates closest to `value`, if there are any.
pub open spec fn closest(value: Seq<char>, cands: Seq<Seq<char>>) -> Option<int>
    decreases cands.len(),
{
    if cands.len() == 0 {
        None
    } else {
        let k = cands.len() - 1;
        match closest(value, cands.drop_last()) {
            None => Some(k),
            Some(b) => if lev(bytes_of(value), bytes_of(cands[k])) < lev(bytes_of(value), bytes_of(cands[b])) {
                Some(k)
            } else {
                Some(b)
            },
        }
    }
}

/// The suggestion for an unknown name: the closest candidate, when it is
/// within half the longer length of the two.
pub open spec fn suggestion(value: Seq<char>, cands: Seq<Seq<char>>) -> Seq<char> {
    match closest(value, cands) {
        None => Seq::empty(),
        Some(b) => {
            let c = cands[b];
            let n = if bytes_of(value).len() >= bytes_of(c).len() { bytes_of(value).len() } else { bytes_of(c).len() };
            if lev(bytes_of(value), bytes_of(c)) <= n / 2 {
                " did you mean: "@ + c + "?"@
            } else {
                Seq::empty()
            }
        },
    }
}

/// The message for a name of some kind that the policy does not have.
pub open spec fn unknown_msg(kind: Seq<char>, value: Seq<char>, cands: Seq<Seq<char>>) -> Seq<char> {
    "unknown "@ + kind + " "@ + value + "."@ + suggestion(value, cands)
}

proof fn lemma_closest_in_range(value: Seq<char>, cands: Seq<Seq<char>>)
    ensures
        cands.len() == 0 <==> closest(value, cands) is None,
        closest(value, cands) matches Some(b) ==> 0 <= b < cands.len(),
    decreases cands.len(),
{
    if cands.len() > 0 {
        lemma_closest_in_range(value, cands.drop_last());
    }
}

/// The message for an unknown name, with a suggestion from the candidates.
pub fn unknown_filter(kind: &str, value: &str, candidates: &Vec<String>) -> (msg: String)
    ensures
        msg@ == unknown_msg(kind@, value@, views(candidates@)),
{
    let ghost cs = views(candidates@);
    let mut best: Option<(usize, usize)> = None;
    let mut i: usize = 0;
    assert(cs.subrange(0, 0).len() == 0);
    while i < candidates.len()
        invariant
            i <= candidates@.len(),
            cs == views(candidates@),
            match closest(value@, cs.subrange(0, i as int)) {
                None => best is None,
                Some(b) => (best matches Some((bi, bd)) && bi == b && bd == lev(bytes_of(value@), bytes_of(cs[b])))
                    && 0 <= b < i,
            },
        decreases candidates@.len() - i,
    {
        let d = edit_distance(value, candidates[i].as_str());
        proof {
            let pre = cs.subrange(0, i + 1);
            assert(pre.drop_last() =~= cs.subrange(0, i as int));
            assert(pre[i as int] == cs[i as int]);
            lemma_closest_in_range(value@, cs.subrange(0, i as int));
        }
        match best {
            None => {
                best = Some((i, d));
            },
            Some((b, bd)) => {
                proof {
                    assert(cs.subrange(0, i as int)[b as int] == cs[b as int]);
                }
                if d < bd {
                    best = Some((i, d));
                }
            },
        }
        i = i + 1;
    }
    assert(cs.subrange(0, candidates@.len() as int) =~= cs);
    proof {
        lemma_closest_in_range(value@, cs);
    }
    let mut msg = String::new();
    push_str(&mut msg, "unknown ");
    push_str(&mut msg, kind);
    push_str(&mut msg, " ");
    push_str(&mut msg, value);
    push_str(&mut msg, ".");
    match best {
        Some((b, bd)) => {
            let c = candidates[b].as_str();
            let vl = value.as_bytes().len();
            let cl = c.as_bytes().len();
            let longer = if vl >= cl { vl } else { cl };
            assert(c@ == cs[b as int]);
            if bd <= longer / 2 {
                push_str(&mut msg, " did you mean: ");
                push_str(&mut msg, c);
                push_str(&mut msg, "?");
            }
        },
        None => {},
    }
    assert(msg@ =~= unknown_msg(kind@, value@, cs));
    msg
}

// ---------------------------------------------------------------------------
// Checking the query against the policy
// ---------------------------------------------------------------------------

/// The names a source or target filter may use: types, then attributes.
pub open spec fn type_candidates(p: SpecPolicy) -> Seq<Seq<char>> {
    in_order(p.types) + in_order(p.attributes.dom())
}

/// Every permission of every class, class by class.
pub open spec fn perm_candidates(p: SpecPolicy) -> Seq<Seq<char>> {
    in_order(p.classes.dom()).map_values(|c: Seq<char>| p.classes[c]).flatten()
}

/// The index of the first wanted name that `have` lacks.
pub open spec fn first_missing(wanted: Seq<Seq<char>>, have: Seq<Seq<char>>) -> Option<int>
    decreases wanted.len(),
{
    if wanted.len() == 0 {
        None
    } else {
        match first_missing(wanted.drop_last(), have) {
            Some(i) => Some(i),
            None => if have.contains(wanted.last()) {
                None
            } else {
                Some(wanted.len() - 1)
            },
        }
    }
}

/// Whether the source, target and class filters name things the policy
/// has.
pub open spec fn filters_known(c: SpecConfig, p: SpecPolicy) -> bool {
    let names = type_candidates(p);
    let q = c.query;
    &&& !(q.source is Some && !names.contains(q.source->0))
    &&& !(q.target is Some && !names.contains(q.target->0))
    &&& !(q.class is Some && !p.classes.contains_key(q.class->0))
}

/// Whether the query's names exist in the policy: the error for the first
/// that does not (source, target, class, each permission, the attribute to
/// expand), or success.
pub open spec fn validation(c: SpecConfig, p: SpecPolicy) -> Result<(), Seq<char>> {
    let names = type_candidates(p);
    let q = c.query;
    if q.source is Some && !names.contains(q.source->0) {
        Err(unknown_msg("source"@, q.source->0, names))
    } else if q.target is Some && !names.contains(q.target->0) {
        Err(unknown_msg("target"@, q.target->0, names))
    } else if q.class is Some && !p.classes.contains_key(q.class->0) {
        Err(unknown_msg("class"@, q.class->0, in_order(p.classes.dom())))
    } else {
        match first_missing(q.perms, perm_candidates(p)) {
            Some(i) => Err(unknown_msg("permission"@, q.perms[i], perm_candidates(p))),
            None => if c.expand_attr is Some && !p.attributes.contains_key(c.expand_attr->0) {
                Err(unknown_msg("attribute"@, c.expand_attr->0, in_order(p.attributes.dom())))
            } else {
                Ok(())
            },
        }
    }
}

/// Whether `names` holds `s`.
fn has_name(names: &Vec<String>, s: &str) -> (r: bool)
    ensures
        r == views(names@).contains(s@),
{
    let mut i: usize = 0;
    while i < names.len()
        invariant
            i <= names@.len(),
            forall|k: int| 0 <= k < i ==> #[trigger] views(names@)[k] != s@,
        decreases names@.len() - i,
    {
        if str_equal(names[i].as_str(), s) {
            assert(views(names@)[i as int] == s@);
            return true;
        }
        i = i + 1;
    }
    false
}

/// Copies of the strings of `v`.
fn cloned(v: &Vec<String>) -> (r: Vec<String>)
    ensures
        views(r@) == views(v@),
{
    let mut r: Vec<String> = Vec::new();
    let mut i: usize = 0;
    while i < v.len()
        invariant
            i <= v@.len(),
            views(r@) == views(v@).subrange(0, i as int),
        decreases v@.len() - i,
    {
        let c = v[i].clone();
        let ghost pr = views(r@);
        r.push(c);
        assert(views(r@) =~= pr.push(v@[i as int]@));
        assert(views(r@) =~= views(v@).subrange(0, i + 1));
        i = i + 1;
    }
    assert(views(v@).subrange(0, v@.len() as int) =~= views(v@));
    r
}

/// Appends copies of the strings of `v`.
fn extend_cloned(out: &mut Vec<String>, v: &Vec<String>)
    ensures
        views(final(out)@) == views(old(out)@) + views(v@),
{
    let ghost start = views(out@);
    let mut i: usize = 0;
    while i < v.len()
        invariant
            i <= v@.len(),
            views(out@) == start + views(v@).subrange(0, i as int),
        decreases v@.len() - i,
    {
        let c = v[i].clone();
        let ghost pr = views(out@);
        out.push(c);
        assert(views(out@) =~= pr.push(v@[i as int]@));
        assert(views(out@) =~= start + views(v@).subrange(0, i + 1));
        i = i + 1;
    }
    assert(views(v@).subrange(0, v@.len() as int) =~= views(v@));
}

/// The keys of a name map, in order.
fn key_names<V: DeepView>(m: &crate::collections::NameMap<V>) -> (r: Vec<String>)
    ensures
        views(r@) == in_order(m@.dom()),
{
    let entries = m.entries();
    let ghost keys = entries@.map_values(|e: (String, V)| e.0@);
    let mut r: Vec<String> = Vec::new();
    let mut i: usize = 0;
    while i < entries.len()
        invariant
            i <= entries@.len(),
            keys == entries@.map_values(|e: (String, V)| e.0@),
            views(r@) == keys.subrange(0, i as int),
        decreases entries@.len() - i,
    {
        let c = entries[i].0.clone();
        let ghost pr = views(r@);
        r.push(c);
        assert(views(r@) =~= pr.push(entries@[i as int].0@));
        assert(views(r@) =~= keys.subrange(0, i + 1));
        i = i + 1;
    }
    assert(keys.subrange(0, entries@.len() as int) =~= keys);
    r
}

/// Types, then attributes.
fn type_names(p: &Policy) -> (r: Vec<String>)
    ensures
        views(r@) == type_candidates(p@),
{
    let mut r = cloned(p.types.names());
    let attrs = key_names(&p.attributes);
    extend_cloned(&mut r, &attrs);
    r
}

/// Every permission of every class.
fn perm_names(p: &Policy) -> (r: Vec<String>)
    ensures
        views(r@) == perm_candidates(p@),
{
    let entries = p.classes.entries();
    let ghost keys = entries@.map_values(|e: (String, Vec<String>)| e.0@);
    let ghost lists = in_order(p@.classes.dom()).map_values(|c: Seq<char>| p@.classes[c]);
    let mut r: Vec<String> = Vec::new();
    let mut i: usize = 0;
    assert(lists.subrange(0, 0).flatten() =~= Seq::<Seq<char>>::empty()) by {
        assert(lists.subrange(0, 0) =~= Seq::<Seq<Seq<char>>>::empty());
    }
    assert(views(r@) =~= Seq::<Seq<char>>::empty());
    while i < entries.len()
        invariant
            i <= entries@.len(),
            keys == entries@.map_values(|e: (String, Vec<String>)| e.0@),
            keys == in_order(p@.classes.dom()),
            lists == in_order(p@.classes.dom()).map_values(|c: Seq<char>| p@.classes[c]),
            forall|k: int| 0 <= k < entries@.len() ==> p@.classes[#[trigger] entries@[k].0@] == entries@[k].1.deep_view(),
            views(r@) == lists.subrange(0, i as int).flatten(),
        decreases entries@.len() - i,
    {
        let perms = &entries[i].1;
        assert(perms.deep_view() =~= views(perms@));
        assert(lists[i as int] == views(perms@)) by {
            assert(keys[i as int] == entries@[i as int].0@);
        }
        let ghost before = views(r@);
        extend_cloned(&mut r, perms);
        proof {
            let pre = lists.subrange(0, i + 1);
            assert(pre.drop_last() =~= lists.subrange(0, i as int));
            assert(pre.last() == views(perms@));
            pre.lemma_flatten_and_flatten_alt_are_equivalent();
            lists.subrange(0, i as int).lemma_flatten_and_flatten_alt_are_equivalent();
            assert(pre.flatten_alt() == pre.drop_last().flatten_alt() + pre.last());
        }
        i = i + 1;
    }
    assert(lists.subrange(0, entries@.len() as int) =~= lists);
    r
}

/// Checks the query's names (and the attribute to expand) against the
/// policy.
pub fn validate_query(cfg: &Config, p: &Policy) -> (r: Result<(), String>)
    ensures
        match validation(cfg@, p@) {
            Ok(_) => r is Ok,
            Err(m) => r is Err && r->Err_0@ == m,
        },
{
    let names = type_names(p);
    match &cfg.query.source {
        Some(v) => {
            if !has_name(&names, v.as_str()) {
                return Err(unknown_filter("source", v.as_str(), &names));
            }
        },
        None => {},
    }
    match &cfg.query.target {
        Some(v) => {
            if !has_name(&names, v.as_str()) {
                return Err(unknown_filter("target", v.as_str(), &names));
            }
        },
        None => {},
    }
    match &cfg.query.class {
        Some(v) => {
            if !p.classes.contains_key(v.as_str()) {
                let classes = key_names(&p.classes);
                return Err(unknown_filter("class", v.as_str(), &classes));
            }
        },
        None => {},
    }
    assert(filters_known(cfg@, p@));
    let perms = perm_names(p);
    let ghost wanted = cfg@.query.perms;
    let mut i: usize = 0;
    assert(wanted.subrange(0, 0).len() == 0);
    while i < cfg.query.perms.len()
        invariant
            i <= wanted.len(),
            wanted == cfg@.query.perms,
            wanted == views(cfg.query.perms@),
            views(perms@) == perm_candidates(p@),
            filters_known(cfg@, p@),
            first_missing(wanted.subrange(0, i as int), views(perms@)) is None,
        decreases wanted.len() - i,
    {
        let v = cfg.query.perms[i].as_str();
        let ghost pre = wanted.subrange(0, i + 1);
        assert(pre.drop_last() =~= wanted.subrange(0, i as int));
        assert(pre.last() == v@);
        if !has_name(&perms, v) {
            proof {
                assert(first_missing(pre, views(perms@)) == Some(i as int));
                lemma_first_missing_extend(wanted, views(perms@), i as int + 1);
                assert(first_missing(cfg@.query.perms, perm_candidates(p@)) == Some(i as int));
                assert(cfg@.query.perms[i as int] == v@);
            }
            let e = unknown_filter("permission", v, &perms);
            assert(validation(cfg@, p@) == Err::<(), Seq<char>>(unknown_msg("permission"@, v@, perm_candidates(p@))));
            return Err(e);
        }
        i = i + 1;
    }
    assert(wanted.subrange(0, wanted.len() as int) =~= wanted);
    match &cfg.expand_attr {
        Some(v) => {
            if !p.attributes.contains_key(v.as_str()) {
                let attrs = key_names(&p.attributes);
                return Err(unknown_filter("attribute", v.as_str(), &attrs));
            }
        },
        None => {},
    }
    Ok(())
}

/// Once a name is missing, later names do not change which one is first.
proof fn lemma_first_missing_extend(wanted: Seq<Seq<char>>, have: Seq<Seq<char>>, k: int)
    requires
        0 <= k <= wanted.len(),
        first_missing(wanted.subrange(0, k), have) is Some,
    ensures
        first_missing(wanted, have) == first_missing(wanted.subrange(0, k), have),
    decreases wanted.len() - k,
{
    if k < wanted.len() {
        let pre = wanted.subrange(0, k + 1);
        assert(pre.drop_last() =~= wanted.subrange(0, k));
        lemma_first_missing_extend(wanted, have, k + 1);
    } else {
        assert(wanted.subrange(0, k) =~= wanted);
    }
}

// ---------------------------------------------------------------------------
// JSON of rules
// ---------------------------------------------------------------------------

/// `true` or `false` as JSON.
pub open spec fn bool_json(b: bool) -> Seq<char> {
    if b {
        seq!['t', 'r', 'u', 'e']
    } else {
        seq!['f', 'a', 'l', 's', 'e']
    }
}

/// A JSON array of strings.
pub open spec fn strings_json(items: Seq<Seq<char>>) -> Seq<char> {
    array_text(items.map_values(|x: Seq<char>| quoted(x)))
}

/// The JSON object of an access-vector rule.
pub open spec fn av_json_text(r: SpecAvRule) -> Seq<char> {
    object_text(
        seq![
            member_text("rule_type"@, quoted(av_keyword(r.kind))),
            member_text("source"@, quoted(r.source)),
            member_text("target"@, quoted(r.target)),
            member_text("class"@, quoted(r.class)),
            member_text("perms"@, strings_json(r.perms)),
            member_text("conditional"@, bool_json(r.conditional)),
        ],
    )
}

/// A command range as a JSON pair of numbers.
pub open spec fn range_json(r: (u32, u32)) -> Seq<char> {
    array_text(seq![dec_signed((r.0 as i64) as int), dec_signed((r.1 as i64) as int)])
}

/// The JSON object of an extended-permission rule.
pub open spec fn xperm_json_text(r: SpecXpermRule) -> Seq<char> {
    object_text(
        seq![
            member_text("rule_type"@, quoted(xperm_keyword(r.kind))),
            member_text("source"@, quoted(r.source)),
            member_text("target"@, quoted(r.target)),
            member_text("class"@, quoted(r.class)),
            member_text("op"@, quoted(r.op)),
            member_text("ranges"@, array_text(r.ranges.map_values(|x: (u32, u32)| range_json(x)))),
        ],
    )
}

/// The JSON object of a type rule; the object name appears only when the
/// rule has one.
pub open spec fn te_json_text(r: SpecTeRule) -> Seq<char> {
    let base = seq![
        member_text("rule_type"@, quoted(te_keyword(r.kind))),
        member_text("source"@, quoted(r.source)),
        member_text("target"@, quoted(r.target)),
        member_text("class"@, quoted(r.class)),
        member_text("default"@, quoted(r.default)),
    ];
    object_text(
        match r.object_name {
            Some(n) => base.push(member_text("object_name"@, quoted(n))),
            None => base,
        },
    )
}

fn str_value(s: &str) -> (v: Value)
    ensures
        json_text(v) == quoted(s@),
{
    Value::Str(owned(s))
}

/// A member of an object.
fn member(key: &str, v: Value) -> (f: (String, Value))
    ensures
        member_text(f.0@, json_text(f.1)) == member_text(key@, json_text(v)),
{
    (owned(key), v)
}

fn strings_value(items: &Vec<String>) -> (v: Value)
    ensures
        json_text(v) == strings_json(views(items@)),
{
    let mut out: Vec<Value> = Vec::new();
    let mut i: usize = 0;
    while i < items.len()
        invariant
            i <= items@.len(),
            texts(out@) == views(items@).subrange(0, i as int).map_values(|x: Seq<char>| quoted(x)),
        decreases items@.len() - i,
    {
        let v = str_value(items[i].as_str());
        let ghost pre = out@;
        out.push(v);
        assert(texts(out@) =~= texts(pre).push(json_text(v)));
        assert(texts(out@) =~= views(items@).subrange(0, i + 1).map_values(|x: Seq<char>| quoted(x)));
        i = i + 1;
    }
    assert(views(items@).subrange(0, items@.len() as int) =~= views(items@));
    proof {
        lemma_items_text(out@);
    }
    Value::Array(out)
}

/// An object from its members.
fn object(fields: Vec<(String, Value)>) -> (v: Value)
    ensures
        json_text(v) == object_text(member_texts(fields@)),
{
    proof {
        lemma_fields_text(fields@);
    }
    Value::Object(fields)
}

/// The JSON object of an access-vector rule.
pub fn av_json(r: &AvRule) -> (v: Value)
    ensures
        json_text(v) == av_json_text(r@),
{
    let fields = vec![
        member("rule_type", str_value(r.kind.keyword())),
        member("source", str_value(r.source.as_str())),
        member("target", str_value(r.target.as_str())),
        member("class", str_value(r.class.as_str())),
        member("perms", strings_value(&r.perms)),
        member("conditional", Value::Bool(r.conditional)),
    ];
    let v = object(fields);
    assert(member_texts(fields@) =~= seq![
        member_text("rule_type"@, quoted(av_keyword(r@.kind))),
        member_text("source"@, quoted(r@.source)),
        member_text("target"@, quoted(r@.target)),
        member_text("class"@, quoted(r@.class)),
        member_text("perms"@, strings_json(r@.perms)),
        member_text("conditional"@, bool_json(r@.conditional)),
    ]);
    v
}

fn range_value(lo: u32, hi: u32) -> (v: Value)
    ensures
        json_text(v) == range_json((lo, hi)),
{
    let items = vec![Value::Num(lo as i64), Value::Num(hi as i64)];
    proof {
        lemma_items_text(items@);
        assert(texts(items@) =~= seq![dec_signed((lo as i64) as int), dec_signed((hi as i64) as int)]);
    }
    Value::Array(items)
}

/// The JSON object of an extended-permission rule.
pub fn xperm_json(r: &XpermRule) -> (v: Value)
    ensures
        json_text(v) == xperm_json_text(r@),
{
    let mut ranges: Vec<Value> = Vec::new();
    let mut i: usize = 0;
    while i < r.ranges.len()
        invariant
            i <= r.ranges@.len(),
            texts(ranges@) == r.ranges@.subrange(0, i as int).map_values(|x: (u32, u32)| range_json(x)),
        decreases r.ranges@.len() - i,
    {
        let (lo, hi) = r.ranges[i];
        let v = range_value(lo, hi);
        let ghost pre = ranges@;
        ranges.push(v);
        assert(texts(ranges@) =~= texts(pre).push(json_text(v)));
        assert(texts(ranges@) =~= r.ranges@.subrange(0, i + 1).map_values(|x: (u32, u32)| range_json(x)));
        i = i + 1;
    }
    assert(r.ranges@.subrange(0, r.ranges@.len() as int) =~= r.ranges@);
    proof {
        lemma_items_text(ranges@);
    }
    let fields = vec![
        member("rule_type", str_value(r.kind.keyword())),
        member("source", str_value(r.source.as_str())),
        member("target", str_value(r.target.as_str())),
        member("class", str_value(r.class.as_str())),
        member("op", str_value(r.op.as_str())),
        member("ranges", Value::Array(ranges)),
    ];
    let v = object(fields);
    assert(member_texts(fields@) =~= seq![
        member_text("rule_type"@, quoted(xperm_keyword(r@.kind))),
        member_text("source"@, quoted(r@.source)),
        member_text("target"@, quoted(r@.target)),
        member_text("class"@, quoted(r@.class)),
        member_text("op"@, quoted(r@.op)),
        member_text("ranges"@, array_text(r@.ranges.map_values(|x: (u32, u32)| range_json(x)))),
    ]);
    v
}

/// The JSON object of a type rule.
pub fn te_json(r: &TeRule) -> (v: Value)
    ensures
        json_text(v) == te_json_text(r@),
{
    let mut fields = vec![
        member("rule_type", str_value(r.kind.keyword())),
        member("source", str_value(r.source.as_str())),
        member("target", str_value(r.target.as_str())),
        member("class", str_value(r.class.as_str())),
        member("default", str_value(r.default.as_str())),
    ];
    let ghost base = seq![
        member_text("rule_type"@, quoted(te_keyword(r@.kind))),
        member_text("source"@, quoted(r@.source)),
        member_text("target"@, quoted(r@.target)),
        member_text("class"@, quoted(r@.class)),
        member_text("default"@, quoted(r@.default)),
    ];
    assert(member_texts(fields@) =~= base);
    match &r.object_name {
        Some(name) => {
            let f = member("object_name", str_value(name.as_str()));
            fields.push(f);
            assert(member_texts(fields@) =~= base.push(member_text("object_name"@, quoted(name@))));
        },
        None => {},
    }
    object(fields)
}

// ---------------------------------------------------------------------------
// Matching rules
// ---------------------------------------------------------------------------

/// Whether access-vector rules of kind `k` are asked for.
pub open spec fn wants_av(t: RuleTypes, k: AvKind) -> bool {
    match k {
        AvKind::Allow => t.allow,
        AvKind::AuditAllow => t.auditallow,
        AvKind::DontAudit => t.dontaudit,
    }
}

/// The text of an access-vector rule in the output: its JSON or its line.
pub open spec fn av_out(r: SpecAvRule, json: bool) -> Seq<char> {
    if json { av_json_text(r) } else { av_line(r) }
}

pub open spec fn xperm_out(r: SpecXpermRule, json: bool) -> Seq<char> {
    if json { xperm_json_text(r) } else { xperm_line(r) }
}

pub open spec fn te_out(r: SpecTeRule, json: bool) -> Seq<char> {
    if json { te_json_text(r) } else { te_line(r) }
}

/// The texts of the access-vector rules asked for that the query matches.
pub open spec fn av_found(rules: Seq<SpecAvRule>, c: SpecConfig, attrs: Map<Seq<char>, Set<Seq<char>>>) -> Seq<Seq<char>>
    decreases rules.len(),
{
    if rules.len() == 0 {
        Seq::empty()
    } else {
        let prev = av_found(rules.drop_last(), c, attrs);
        let r = rules.last();
        if wants_av(c.rules, r.kind) && matches_av_spec(c.query, attrs, r) {
            prev.push(av_out(r, c.json))
        } else {
            prev
        }
    }
}

/// The texts of the extended-permission rules the query matches.
pub open spec fn xperm_found(rules: Seq<SpecXpermRule>, c: SpecConfig, attrs: Map<Seq<char>, Set<Seq<char>>>) -> Seq<Seq<char>>
    decreases rules.len(),
{
    if rules.len() == 0 {
        Seq::empty()
    } else {
        let prev = xperm_found(rules.drop_last(), c, attrs);
        let r = rules.last();
        if matches_xperm_spec(c.query, attrs, r) {
            prev.push(xperm_out(r, c.json))
        } else {
            prev
        }
    }
}

/// The texts of the type rules the query matches.
pub open spec fn te_found(rules: Seq<SpecTeRule>, c: SpecConfig, attrs: Map<Seq<char>, Set<Seq<char>>>) -> Seq<Seq<char>>
    decreases rules.len(),
{
    if rules.len() == 0 {
        Seq::empty()
    } else {
        let prev = te_found(rules.drop_last(), c, attrs);
        let r = rules.last();
        if matches_te_spec(c.query, attrs, r) {
            prev.push(te_out(r, c.json))
        } else {
            prev
        }
    }
}

/// The texts of every matching rule of the types asked for.
pub open spec fn rule_texts(c: SpecConfig, p: SpecPolicy) -> Seq<Seq<char>> {
    av_found(p.av_rules, c, p.attributes)
        + (if c.rules.xperm { xperm_found(p.xperm_rules, c, p.attributes) } else { Seq::empty() })
        + (if c.rules.type_trans { te_found(p.te_rules, c, p.attributes) } else { Seq::empty() })
}

/// The first `limit` texts, or all of them without a limit.
pub open spec fn limited(s: Seq<Seq<char>>, limit: Option<usize>) -> Seq<Seq<char>> {
    match limit {
        Some(n) => if n < s.len() { s.take(n as int) } else { s },
        None => s,
    }
}

/// The rule output: the distinct texts in order, at most `limit` of them;
/// as lines, or as one JSON array.
pub open spec fn rules_report(c: SpecConfig, p: SpecPolicy) -> Seq<Seq<char>> {
    let shown = limited(in_order(rule_texts(c, p).to_set()), c.limit);
    if c.json {
        seq![array_text(shown)]
    } else {
        shown
    }
}

/// The text of a rendered value.
fn text_of(v: &Value) -> (s: String)
    ensures
        s@ == json_text(*v),
{
    v.sort_key()
}

fn collect_av(cfg: &Config, policy: &Policy, out: &mut Vec<String>)
    ensures
        views(final(out)@) == views(old(out)@) + av_found(policy@.av_rules, cfg@, policy@.attributes),
{
    let ghost start = views(out@);
    let ghost rules = policy@.av_rules;
    let mut i: usize = 0;
    assert(rules.subrange(0, 0) =~= Seq::<SpecAvRule>::empty());
    assert(views(out@) =~= start + av_found(rules.subrange(0, 0), cfg@, policy@.attributes));
    while i < policy.av_rules.len()
        invariant
            i <= policy.av_rules@.len(),
            rules == policy@.av_rules,
            views(out@) == start + av_found(rules.subrange(0, i as int), cfg@, policy@.attributes),
        decreases policy.av_rules@.len() - i,
    {
        let rule = &policy.av_rules[i];
        assert(rules[i as int] == rule@);
        let ghost pre = rules.subrange(0, i + 1);
        assert(pre.drop_last() =~= rules.subrange(0, i as int));
        let want = match rule.kind {
            AvKind::Allow => cfg.rules.allow,
            AvKind::AuditAllow => cfg.rules.auditallow,
            AvKind::DontAudit => cfg.rules.dontaudit,
        };
        if want && cfg.query.matches_av(policy, rule) {
            let t = if cfg.json {
                text_of(&av_json(rule))
            } else {
                rule.line()
            };
            let ghost pr = views(out@);
            out.push(t);
            assert(views(out@) =~= pr.push(t@));
        }
        i = i + 1;
    }
    assert(rules.subrange(0, policy.av_rules@.len() as int) =~= rules);
}

fn collect_xperm(cfg: &Config, policy: &Policy, out: &mut Vec<String>)
    ensures
        views(final(out)@) == views(old(out)@) + xperm_found(policy@.xperm_rules, cfg@, policy@.attributes),
{
    let ghost start = views(out@);
    let ghost rules = policy@.xperm_rules;
    let mut i: usize = 0;
    assert(rules.subrange(0, 0) =~= Seq::<SpecXpermRule>::empty());
    assert(views(out@) =~= start + xperm_found(rules.subrange(0, 0), cfg@, policy@.attributes));
    while i < policy.xperm_rules.len()
        invariant
            i <= policy.xperm_rules@.len(),
            rules == policy@.xperm_rules,
            views(out@) == start + xperm_found(rules.subrange(0, i as int), cfg@, policy@.attributes),
        decreases policy.xperm_rules@.len() - i,
    {
        let rule = &policy.xperm_rules[i];
        assert(rules[i as int] == rule@);
        let ghost pre = rules.subrange(0, i + 1);
        assert(pre.drop_last() =~= rules.subrange(0, i as int));
        if cfg.query.matches_xperm(policy, rule) {
            let t = if cfg.json {
                text_of(&xperm_json(rule))
            } else {
                rule.line()
            };
            let ghost pr = views(out@);
            out.push(t);
            assert(views(out@) =~= pr.push(t@));
        }
        i = i + 1;
    }
    assert(rules.subrange(0, policy.xperm_rules@.len() as int) =~= rules);
}

fn collect_te(cfg: &Config, policy: &Policy, out: &mut Vec<String>)
    ensures
        views(final(out)@) == views(old(out)@) + te_found(policy@.te_rules, cfg@, policy@.attributes),
{
    let ghost start = views(out@);
    let ghost rules = policy@.te_rules;
    let mut i: usize = 0;
    assert(rules.subrange(0, 0) =~= Seq::<SpecTeRule>::empty());
    assert(views(out@) =~= start + te_found(rules.subrange(0, 0), cfg@, policy@.attributes));
    while i < policy.te_rules.len()
        invariant
            i <= policy.te_rules@.len(),
            rules == policy@.te_rules,
            views(out@) == start + te_found(rules.subrange(0, i as int), cfg@, policy@.attributes),
        decreases policy.te_rules@.len() - i,
    {
        let rule = &policy.te_rules[i];
        assert(rules[i as int] == rule@);
        let ghost pre = rules.subrange(0, i + 1);
        assert(pre.drop_last() =~= rules.subrange(0, i as int));
        if cfg.query.matches_te(policy, rule) {
            let t = if cfg.json {
                text_of(&te_json(rule))
            } else {
                rule.line()
            };
            let ghost pr = views(out@);
            out.push(t);
            assert(views(out@) =~= pr.push(t@));
        }
        i = i + 1;
    }
    assert(rules.subrange(0, policy.te_rules@.len() as int) =~= rules);
}

/// Two sequences with the same multiset have the same set.
proof fn lemma_same_set(a: Seq<Seq<char>>, b: Seq<Seq<char>>)
    requires
        a.to_multiset() == b.to_multiset(),
    ensures
        a.to_set() == b.to_set(),
{
    assert forall|x: Seq<char>| a.to_set().contains(x) <==> b.to_set().contains(x) by {
        a.to_multiset_ensures();
        b.to_multiset_ensures();
        assert(a.contains(x) <==> a.to_multiset().count(x) > 0);
        assert(b.contains(x) <==> b.to_multiset().count(x) > 0);
    }
    assert(a.to_set() =~= b.to_set());
}

/// The distinct strings of a sorted vector, in order.
fn dedup_sorted(v: &Vec<String>) -> (r: Vec<String>)
    requires
        sorted(views(v@)),
    ensures
        views(r@) == in_order(views(v@).to_set()),
        views(r@).to_set() == views(v@).to_set(),
        strictly_sorted(views(r@)),
{
    let ghost vs = views(v@);
    let mut out: Vec<String> = Vec::new();
    let mut i: usize = 0;
    assert(vs.subrange(0, 0).to_set() =~= views(out@).to_set());
    while i < v.len()
        invariant
            i <= v@.len(),
            vs == views(v@),
            sorted(vs),
            strictly_sorted(views(out@)),
            views(out@).to_set() == vs.subrange(0, i as int).to_set(),
            i > 0 ==> views(out@).len() > 0 && views(out@).last() == vs[i - 1],
            i == 0 ==> views(out@).len() == 0,
        decreases v@.len() - i,
    {
        let ghost before = views(out@);
        let dup = out.len() > 0 && str_equal(out[out.len() - 1].as_str(), v[i].as_str());
        assert(dup ==> views(out@).last() == vs[i as int]);
        if !dup {
            let c = v[i].clone();
            out.push(c);
            proof {
                let after = views(out@);
                assert(after =~= before.push(vs[i as int]));
                if i > 0 {
                    assert(str_le(vs[i - 1], vs[i as int]));
                    assert(str_lt(before.last(), vs[i as int]));
                }
                assert forall|a: int, b: int| 0 <= a < b < after.len() implies str_lt(
                    #[trigger] after[a],
                    #[trigger] after[b],
                ) by {
                    if b == after.len() - 1 && a < before.len() - 1 {
                        assert(str_lt(before[a], before.last()));
                        lemma_str_lt_transitive(before[a], before.last(), vs[i as int]);
                    }
                }
            }
        }
        proof {
            let pre = vs.subrange(0, i + 1);
            assert(pre =~= vs.subrange(0, i as int).push(vs[i as int]));
            vs.subrange(0, i as int).lemma_push_to_set_commute(vs[i as int]);
            if dup {
                assert(before.contains(before.last()));
                assert(before.to_set().contains(vs[i as int]));
                assert(views(out@) == before);
            } else {
                assert(views(out@) =~= before.push(vs[i as int]));
                before.lemma_push_to_set_commute(vs[i as int]);
            }
            assert(views(out@).to_set() =~= pre.to_set());
        }
        i = i + 1;
    }
    assert(vs.subrange(0, v@.len() as int) =~= vs);
    proof {
        lemma_in_order(views(out@));
    }
    out
}

/// The first `limit` strings of `v`, or all of them without a limit.
fn take_limited(v: Vec<String>, limit: Option<usize>) -> (r: Vec<String>)
    ensures
        views(r@) == limited(views(v@), limit),
        strictly_sorted(views(v@)) ==> strictly_sorted(views(r@)),
        limit is Some ==> r@.len() <= limit->0,
{
    match limit {
        Some(n) => {
            if n < v.len() {
                let mut r: Vec<String> = Vec::new();
                let mut i: usize = 0;
                while i < n
                    invariant
                        i <= n,
                        n < v@.len(),
                        views(r@) == views(v@).take(i as int),
                    decreases n - i,
                {
                    let c = v[i].clone();
                    let ghost pr = views(r@);
                    r.push(c);
                    assert(views(r@) =~= pr.push(views(v@)[i as int]));
                    assert(views(r@) =~= views(v@).take(i + 1));
                    i = i + 1;
                }
                r
            } else {
                v
            }
        },
        None => v,
    }
}

/// The JSON array of already rendered element texts.
fn array_of(items: &Vec<String>) -> (s: String)
    ensures
        s@ == array_text(views(items@)),
{
    let mut s = String::new();
    push_str(&mut s, "[");
    push_joined(&mut s, items, ",");
    push_str(&mut s, "]");
    proof {
        reveal_strlit("[");
        reveal_strlit(",");
        reveal_strlit("]");
        assert(","@ =~= seq![',']);
        assert("["@ =~= seq!['[']);
        assert("]"@ =~= seq![']']);
    }
    assert(s@ =~= array_text(views(items@)));
    s
}

/// The rule output of a run: the distinct texts of the matching rules of the
/// types asked for, in order and at most `limit` of them, as lines or as one
/// JSON array.
pub fn rules_output(cfg: &Config, policy: &Policy) -> (r: Vec<String>)
    ensures
        views(r@) == rules_report(cfg@, policy@),
        !cfg@.json ==> strictly_sorted(views(r@)),
        !cfg@.json && cfg@.limit is Some ==> r@.len() <= cfg@.limit->0,
        // Without a limit, the lines are those of the matching rules of the
        // types asked for: access-vector rules of the kinds asked for,
        // extended-permission rules with `-X`, type rules with `-T`.
        !cfg@.json && cfg@.limit is None ==> forall|line: Seq<char>|
            views(r@).contains(line) <==> (
                (exists|j: int|
                    0 <= j < policy@.av_rules.len()
                    && ((#[trigger] policy@.av_rules[j].kind == AvKind::Allow && cfg@.rules.allow)
                        || (policy@.av_rules[j].kind == AvKind::AuditAllow && cfg@.rules.auditallow)
                        || (policy@.av_rules[j].kind == AvKind::DontAudit && cfg@.rules.dontaudit))
                    && matches_av_spec(cfg@.query, policy@.attributes, policy@.av_rules[j])
                    && line == av_line(policy@.av_rules[j]))
                || (cfg@.rules.xperm && exists|j: int|
                    0 <= j < policy@.xperm_rules.len()
                    && matches_xperm_spec(cfg@.query, policy@.attributes, #[trigger] policy@.xperm_rules[j])
                    && line == xperm_line(policy@.xperm_rules[j]))
                || (cfg@.rules.type_trans && exists|j: int|
                    0 <= j < policy@.te_rules.len()
                    && matches_te_spec(cfg@.query, policy@.attributes, #[trigger] policy@.te_rules[j])
                    && line == te_line(policy@.te_rules[j]))
            ),
{
    let mut texts: Vec<String> = Vec::new();
    collect_av(cfg, policy, &mut texts);
    if cfg.rules.xperm {
        collect_xperm(cfg, policy, &mut texts);
    }
    if cfg.rules.type_trans {
        collect_te(cfg, policy, &mut texts);
    }
    assert(views(texts@) =~= rule_texts(cfg@, policy@));
    let ghost all = views(texts@);
    let sorted_texts = sort_strings(texts);
    proof {
        lemma_same_set(views(sorted_texts@), all);
    }
    let distinct = dedup_sorted(&sorted_texts);
    let ghost dv = views(distinct@);
    let shown = take_limited(distinct, cfg.limit);
    proof {
        if !cfg@.json && cfg@.limit is None {
            lemma_rule_lines(cfg@, policy@, all);
            assert(views(shown@) == dv);
            assert forall|line: Seq<char>| views(shown@).contains(line) <==> all.contains(line) by {
                assert(dv.to_set().contains(line) == dv.contains(line));
                assert(all.to_set().contains(line) == all.contains(line));
                assert(views(sorted_texts@).to_set().contains(line) == views(sorted_texts@).contains(line));
            }
            let pv = policy@;
            let c = cfg@;
            assert forall|line: Seq<char>|
                views(shown@).contains(line) <==> (
                    (exists|j: int|
                        0 <= j < pv.av_rules.len()
                        && ((#[trigger] pv.av_rules[j].kind == AvKind::Allow && c.rules.allow)
                            || (pv.av_rules[j].kind == AvKind::AuditAllow && c.rules.auditallow)
                            || (pv.av_rules[j].kind == AvKind::DontAudit && c.rules.dontaudit))
                        && matches_av_spec(c.query, pv.attributes, pv.av_rules[j])
                        && line == av_line(pv.av_rules[j]))
                    || (c.rules.xperm && exists|j: int|
                        0 <= j < pv.xperm_rules.len()
                        && matches_xperm_spec(c.query, pv.attributes, #[trigger] pv.xperm_rules[j])
                        && line == xperm_line(pv.xperm_rules[j]))
                    || (c.rules.type_trans && exists|j: int|
                        0 <= j < pv.te_rules.len()
                        && matches_te_spec(c.query, pv.attributes, #[trigger] pv.te_rules[j])
                        && line == te_line(pv.te_rules[j]))
                ) by {
                assert(views(shown@).contains(line) == all.contains(line));
            }
        }
    }
    if cfg.json {
        let a = array_of(&shown);
        let out = vec![a];
        assert(views(out@) =~= seq![a@]);
        out
    } else {
        shown
    }
}

/// Access-vector rules appear in the output exactly when they match the
/// query and their kind is one asked for: `allow` rules with `-A`,
/// `auditallow` rules with `--auditallow`, `dontaudit` rules with
/// `--dontaudit`; each as its text.
pub proof fn law_av_output_kinds(rules: Seq<SpecAvRule>, c: SpecConfig, attrs: Map<Seq<char>, Set<Seq<char>>>)
    ensures
        forall|x: Seq<char>| av_found(rules, c, attrs).contains(x) <==> exists|j: int|
            0 <= j < rules.len()
            && ((#[trigger] rules[j].kind == AvKind::Allow && c.rules.allow)
                || (rules[j].kind == AvKind::AuditAllow && c.rules.auditallow)
                || (rules[j].kind == AvKind::DontAudit && c.rules.dontaudit))
            && matches_av_spec(c.query, attrs, rules[j])
            && x == av_out(rules[j], c.json),
    decreases rules.len(),
{
    if rules.len() > 0 {
        let pre = rules.drop_last();
        law_av_output_kinds(pre, c, attrs);
        let n = rules.len() - 1;
        let found = av_found(rules, c, attrs);
        let prev = av_found(pre, c, attrs);
        assert forall|x: Seq<char>| found.contains(x) <==> exists|j: int|
            0 <= j < rules.len()
            && ((#[trigger] rules[j].kind == AvKind::Allow && c.rules.allow)
                || (rules[j].kind == AvKind::AuditAllow && c.rules.auditallow)
                || (rules[j].kind == AvKind::DontAudit && c.rules.dontaudit))
            && matches_av_spec(c.query, attrs, rules[j])
            && x == av_out(rules[j], c.json) by {
            if found.contains(x) {
                let i = choose|i: int| 0 <= i < found.len() && found[i] == x;
                if i < prev.len() && found[i] == prev[i] {
                    assert(prev.contains(x));
                    let j = choose|j: int|
                        0 <= j < pre.len()
                        && ((#[trigger] pre[j].kind == AvKind::Allow && c.rules.allow)
                            || (pre[j].kind == AvKind::AuditAllow && c.rules.auditallow)
                            || (pre[j].kind == AvKind::DontAudit && c.rules.dontaudit))
                        && matches_av_spec(c.query, attrs, pre[j])
                        && x == av_out(pre[j], c.json);
                    assert(rules[j] == pre[j]);
                } else {
                    assert(rules[n] == rules.last());
                }
            }
            if exists|j: int|
                0 <= j < rules.len()
                && ((#[trigger] rules[j].kind == AvKind::Allow && c.rules.allow)
                    || (rules[j].kind == AvKind::AuditAllow && c.rules.auditallow)
                    || (rules[j].kind == AvKind::DontAudit && c.rules.dontaudit))
                && matches_av_spec(c.query, attrs, rules[j])
                && x == av_out(rules[j], c.json) {
                let j = choose|j: int|
                    0 <= j < rules.len()
                    && ((#[trigger] rules[j].kind == AvKind::Allow && c.rules.allow)
                        || (rules[j].kind == AvKind::AuditAllow && c.rules.auditallow)
                        || (rules[j].kind == AvKind::DontAudit && c.rules.dontaudit))
                    && matches_av_spec(c.query, attrs, rules[j])
                    && x == av_out(rules[j], c.json);
                if j < n {
                    assert(pre[j] == rules[j]);
                    assert(prev.contains(x));
                    let i = choose|i: int| 0 <= i < prev.len() && prev[i] == x;
                    assert(found[i] == x);
                } else {
                    assert(found[found.len() - 1] == x);
                }
            }
        }
    }
}

/// Five members joined into an object's text.
proof fn lemma_object_of_five(m0: Seq<char>, m1: Seq<char>, m2: Seq<char>, m3: Seq<char>, m4: Seq<char>)
    ensures
        join(seq![m0, m1, m2, m3, m4], seq![',']) == m0 + seq![','] + m1 + seq![','] + m2 + seq![','] + m3
            + seq![','] + m4,
{
    let c = seq![','];
    let s1 = seq![m0];
    let s2 = seq![m0, m1];
    let s3 = seq![m0, m1, m2];
    let s4 = seq![m0, m1, m2, m3];
    let s5 = seq![m0, m1, m2, m3, m4];
    assert(s2.drop_last() =~= s1);
    assert(s3.drop_last() =~= s2);
    assert(s4.drop_last() =~= s3);
    assert(s5.drop_last() =~= s4);
    assert(join(s1, c) == m0);
    assert(join(s2, c) == m0 + c + m1);
    assert(join(s3, c) == m0 + c + m1 + c + m2);
    assert(join(s4, c) == m0 + c + m1 + c + m2 + c + m3);
}

/// One more member joined after the others.
proof fn lemma_join_push(ms: Seq<Seq<char>>, m: Seq<char>)
    requires
        ms.len() > 0,
    ensures
        join(ms.push(m), seq![',']) == join(ms, seq![',']) + seq![','] + m,
{
    assert(ms.push(m).drop_last() =~= ms);
}

/// The JSON object of a type rule: its members are, in order, its kind's
/// keyword under "rule_type", its source under "source", its target under
/// "target", its class under "class", its default type under "default",
/// then its object name under "object_name" when it has one.
pub proof fn law_te_json_members(r: SpecTeRule)
    ensures
        te_json_text(r) == seq!['{'] + member_text("rule_type"@, quoted(te_keyword(r.kind)))
            + seq![','] + member_text("source"@, quoted(r.source))
            + seq![','] + member_text("target"@, quoted(r.target))
            + seq![','] + member_text("class"@, quoted(r.class))
            + seq![','] + member_text("default"@, quoted(r.default))
            + match r.object_name {
                Some(n) => seq![','] + member_text("object_name"@, quoted(n)),
                None => Seq::empty(),
            } + seq!['}'],
{
    let m0 = member_text("rule_type"@, quoted(te_keyword(r.kind)));
    let m1 = member_text("source"@, quoted(r.source));
    let m2 = member_text("target"@, quoted(r.target));
    let m3 = member_text("class"@, quoted(r.class));
    let m4 = member_text("default"@, quoted(r.default));
    let c = seq![','];
    let base = seq![m0, m1, m2, m3, m4];
    lemma_object_of_five(m0, m1, m2, m3, m4);
    let tail: Seq<char> = match r.object_name {
        Some(n) => c + member_text("object_name"@, quoted(n)),
        None => Seq::empty(),
    };
    let members = match r.object_name {
        Some(n) => base.push(member_text("object_name"@, quoted(n))),
        None => base,
    };
    let head = m0 + c + m1 + c + m2 + c + m3 + c + m4;
    assert(join(members, c) =~= head + tail) by {
        match r.object_name {
            Some(n) => {
                lemma_join_push(base, member_text("object_name"@, quoted(n)));
            },
            None => {},
        }
    }
    assert(te_json_text(r) == object_text(members));
    assert(object_text(members) =~= seq!['{'] + m0 + c + m1 + c + m2 + c + m3 + c + m4 + tail + seq!['}']);
}

/// Six members joined into an object's text.
proof fn lemma_object_of_six(m0: Seq<char>, m1: Seq<char>, m2: Seq<char>, m3: Seq<char>, m4: Seq<char>, m5: Seq<char>)
    ensures
        join(seq![m0, m1, m2, m3, m4, m5], seq![',']) == m0 + seq![','] + m1 + seq![','] + m2 + seq![','] + m3
            + seq![','] + m4 + seq![','] + m5,
{
    lemma_object_of_five(m0, m1, m2, m3, m4);
    lemma_join_push(seq![m0, m1, m2, m3, m4], m5);
    assert(seq![m0, m1, m2, m3, m4].push(m5) =~= seq![m0, m1, m2, m3, m4, m5]);
}

/// The JSON object of an access-vector rule: its members are, in order,
/// its kind's keyword under "rule_type", its source under "source", its
/// target under "target", its class under "class", its permissions as an
/// array of strings under "perms" and whether it is conditional under
/// "conditional".
pub proof fn law_av_json_members(r: SpecAvRule)
    ensures
        av_json_text(r) == seq!['{'] + member_text("rule_type"@, quoted(av_keyword(r.kind)))
            + seq![','] + member_text("source"@, quoted(r.source))
            + seq![','] + member_text("target"@, quoted(r.target))
            + seq![','] + member_text("class"@, quoted(r.class))
            + seq![','] + member_text("perms"@, array_text(r.perms.map_values(|x: Seq<char>| quoted(x))))
            + seq![','] + member_text("conditional"@, if r.conditional { "true"@ } else { "false"@ })
            + seq!['}'],
{
    let m0 = member_text("rule_type"@, quoted(av_keyword(r.kind)));
    let m1 = member_text("source"@, quoted(r.source));
    let m2 = member_text("target"@, quoted(r.target));
    let m3 = member_text("class"@, quoted(r.class));
    let m4 = member_text("perms"@, strings_json(r.perms));
    let m5 = member_text("conditional"@, bool_json(r.conditional));
    let c = seq![','];
    lemma_object_of_six(m0, m1, m2, m3, m4, m5);
    reveal_strlit("true");
    reveal_strlit("false");
    assert(bool_json(r.conditional) == if r.conditional { "true"@ } else { "false"@ });
    assert(av_json_text(r) =~= seq!['{'] + m0 + c + m1 + c + m2 + c + m3 + c + m4 + c + m5 + seq!['}']);
}

/// The JSON object of an extended-permission rule: its members are, in
/// order, its kind's keyword under "rule_type", its source under "source",
/// its target under "target", its class under "class", its operation under
/// "op" and its command ranges as `[low, high]` pairs under "ranges".
pub proof fn law_xperm_json_members(r: SpecXpermRule)
    ensures
        xperm_json_text(r) == seq!['{'] + member_text("rule_type"@, quoted(xperm_keyword(r.kind)))
            + seq![','] + member_text("source"@, quoted(r.source))
            + seq![','] + member_text("target"@, quoted(r.target))
            + seq![','] + member_text("class"@, quoted(r.class))
            + seq![','] + member_text("op"@, quoted(r.op))
            + seq![','] + member_text("ranges"@, array_text(r.ranges.map_values(|x: (u32, u32)|
                array_text(seq![dec_signed(x.0 as int), dec_signed(x.1 as int)]))))
            + seq!['}'],
{
    let m0 = member_text("rule_type"@, quoted(xperm_keyword(r.kind)));
    let m1 = member_text("source"@, quoted(r.source));
    let m2 = member_text("target"@, quoted(r.target));
    let m3 = member_text("class"@, quoted(r.class));
    let m4 = member_text("op"@, quoted(r.op));
    let m5 = member_text("ranges"@, array_text(r.ranges.map_values(|x: (u32, u32)| range_json(x))));
    let c = seq![','];
    lemma_object_of_six(m0, m1, m2, m3, m4, m5);
    assert forall|x: (u32, u32)| #[trigger] range_json(x) == array_text(seq![dec_signed(x.0 as int), dec_signed(x.1 as int)]) by {
        assert((x.0 as i64) as int == x.0 as int);
        assert((x.1 as i64) as int == x.1 as int);
    }
    assert(r.ranges.map_values(|x: (u32, u32)| range_json(x)) =~= r.ranges.map_values(|x: (u32, u32)|
        array_text(seq![dec_signed(x.0 as int), dec_signed(x.1 as int)])));
    assert(xperm_json_text(r) =~= seq!['{'] + m0 + c + m1 + c + m2 + c + m3 + c + m4 + c + m5 + seq!['}']);
}

/// Extended-permission rules appear among the rule texts exactly when they
/// match the query, each as its text.
pub proof fn law_xperm_output(rules: Seq<SpecXpermRule>, c: SpecConfig, attrs: Map<Seq<char>, Set<Seq<char>>>)
    ensures
        forall|x: Seq<char>| xperm_found(rules, c, attrs).contains(x) <==> exists|j: int|
            0 <= j < rules.len() && matches_xperm_spec(c.query, attrs, #[trigger] rules[j])
            && x == xperm_out(rules[j], c.json),
    decreases rules.len(),
{
    if rules.len() > 0 {
        let pre = rules.drop_last();
        law_xperm_output(pre, c, attrs);
        let n = rules.len() - 1;
        let found = xperm_found(rules, c, attrs);
        let prev = xperm_found(pre, c, attrs);
        assert forall|x: Seq<char>| found.contains(x) <==> exists|j: int|
            0 <= j < rules.len() && matches_xperm_spec(c.query, attrs, #[trigger] rules[j])
            && x == xperm_out(rules[j], c.json) by {
            if found.contains(x) {
                let i = choose|i: int| 0 <= i < found.len() && found[i] == x;
                if i < prev.len() {
                    assert(prev.contains(x));
                    let j = choose|j: int| 0 <= j < pre.len() && matches_xperm_spec(c.query, attrs, #[trigger] pre[j])
                        && x == xperm_out(pre[j], c.json);
                    assert(rules[j] == pre[j]);
                } else {
                    assert(rules[n] == rules.last());
                }
            }
            if exists|j: int| 0 <= j < rules.len() && matches_xperm_spec(c.query, attrs, #[trigger] rules[j])
                && x == xperm_out(rules[j], c.json) {
                let j = choose|j: int| 0 <= j < rules.len() && matches_xperm_spec(c.query, attrs, #[trigger] rules[j])
                    && x == xperm_out(rules[j], c.json);
                if j < n {
                    assert(pre[j] == rules[j]);
                    assert(prev.contains(x));
                    let i = choose|i: int| 0 <= i < prev.len() && prev[i] == x;
                    assert(found[i] == x);
                } else {
                    assert(found[found.len() - 1] == x);
                }
            }
        }
    }
}

/// Type rules appear among the rule texts exactly when they match the
/// query, each as its text.
pub proof fn law_te_output(rules: Seq<SpecTeRule>, c: SpecConfig, attrs: Map<Seq<char>, Set<Seq<char>>>)
    ensures
        forall|x: Seq<char>| te_found(rules, c, attrs).contains(x) <==> exists|j: int|
            0 <= j < rules.len() && matches_te_spec(c.query, attrs, #[trigger] rules[j])
            && x == te_out(rules[j], c.json),
    decreases rules.len(),
{
    if rules.len() > 0 {
        let pre = rules.drop_last();
        law_te_output(pre, c, attrs);
        let n = rules.len() - 1;
        let found = te_found(rules, c, attrs);
        let prev = te_found(pre, c, attrs);
        assert forall|x: Seq<char>| found.contains(x) <==> exists|j: int|
            0 <= j < rules.len() && matches_te_spec(c.query, attrs, #[trigger] rules[j])
            && x == te_out(rules[j], c.json) by {
            if found.contains(x) {
                let i = choose|i: int| 0 <= i < found.len() && found[i] == x;
                if i < prev.len() {
                    assert(prev.contains(x));
                    let j = choose|j: int| 0 <= j < pre.len() && matches_te_spec(c.query, attrs, #[trigger] pre[j])
                        && x == te_out(pre[j], c.json);
                    assert(rules[j] == pre[j]);
                } else {
                    assert(rules[n] == rules.last());
                }
            }
            if exists|j: int| 0 <= j < rules.len() && matches_te_spec(c.query, attrs, #[trigger] rules[j])
                && x == te_out(rules[j], c.json) {
                let j = choose|j: int| 0 <= j < rules.len() && matches_te_spec(c.query, attrs, #[trigger] rules[j])
                    && x == te_out(rules[j], c.json);
                if j < n {
                    assert(pre[j] == rules[j]);
                    assert(prev.contains(x));
                    let i = choose|i: int| 0 <= i < prev.len() && prev[i] == x;
                    assert(found[i] == x);
                } else {
                    assert(found[found.len() - 1] == x);
                }
            }
        }
    }
}

/// The rule texts, as lines, are those of the matching rules of the types
/// asked for.
proof fn lemma_rule_lines(c: SpecConfig, p: SpecPolicy, all: Seq<Seq<char>>)
    requires
        !c.json,
        all == rule_texts(c, p),
    ensures
        forall|line: Seq<char>|
            all.contains(line) <==> (
                (exists|j: int|
                    0 <= j < p.av_rules.len()
                    && ((#[trigger] p.av_rules[j].kind == AvKind::Allow && c.rules.allow)
                        || (p.av_rules[j].kind == AvKind::AuditAllow && c.rules.auditallow)
                        || (p.av_rules[j].kind == AvKind::DontAudit && c.rules.dontaudit))
                    && matches_av_spec(c.query, p.attributes, p.av_rules[j])
                    && line == av_line(p.av_rules[j]))
                || (c.rules.xperm && exists|j: int|
                    0 <= j < p.xperm_rules.len()
                    && matches_xperm_spec(c.query, p.attributes, #[trigger] p.xperm_rules[j])
                    && line == xperm_line(p.xperm_rules[j]))
                || (c.rules.type_trans && exists|j: int|
                    0 <= j < p.te_rules.len()
                    && matches_te_spec(c.query, p.attributes, #[trigger] p.te_rules[j])
                    && line == te_line(p.te_rules[j]))
            ),
{
    let a = av_found(p.av_rules, c, p.attributes);
    let x = if c.rules.xperm { xperm_found(p.xperm_rules, c, p.attributes) } else { Seq::empty() };
    let t = if c.rules.type_trans { te_found(p.te_rules, c, p.attributes) } else { Seq::empty() };
    law_av_output_kinds(p.av_rules, c, p.attributes);
    law_xperm_output(p.xperm_rules, c, p.attributes);
    law_te_output(p.te_rules, c, p.attributes);
    assert forall|line: Seq<char>| all.contains(line) <==> (a.contains(line) || x.contains(line) || t.contains(line)) by {
        if all.contains(line) {
            let i = choose|i: int| 0 <= i < all.len() && all[i] == line;
            if i < a.len() {
                assert(a[i] == line);
            } else if i < a.len() + x.len() {
                assert(x[i - a.len()] == line);
            } else {
                assert(t[i - a.len() - x.len()] == line);
            }
        }
        if a.contains(line) {
            let i = choose|i: int| 0 <= i < a.len() && a[i] == line;
            assert(all[i] == line);
        }
        if x.contains(line) {
            let i = choose|i: int| 0 <= i < x.len() && x[i] == line;
            assert(all[a.len() + i] == line);
        }
        if t.contains(line) {
            let i = choose|i: int| 0 <= i < t.len() && t[i] == line;
            assert(all[a.len() + x.len() + i] == line);
        }
    }
}

} // verus!
