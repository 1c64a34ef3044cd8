//! Structured, queryable representation of a parsed SELinux policy.
//!
//! Every rule keeps its source / target / class / permission components
//! separate so the query engine can filter on each independently and expand
//! attributes semantically.

use vstd::prelude::*;
use crate::collections::{NameMap, NameSet};
use crate::order::{views, str_equal};
use crate::text::{push_str, push_hex_padded, hex_padded};

verus! {

/// The strings of `parts` joined with `sep` between them.
pub open spec fn join(parts: Seq<Seq<char>>, sep: Seq<char>) -> Seq<char>
    decreases parts.len(),
{
    if parts.len() == 0 {
        Seq::empty()
    } else if parts.len() == 1 {
        parts[0]
    } else {
        join(parts.drop_last(), sep) + sep + parts.last()
    }
}

/// Appends the strings of `parts` joined with `sep`.
pub fn push_joined(out: &mut String, parts: &Vec<String>, sep: &str)
    ensures
        final(out)@ == old(out)@ + join(views(parts@), sep@),
{
    let ghost start = out@;
    let mut i: usize = 0;
    while i < parts.len()
        invariant
            i <= parts@.len(),
            out@ == start + join(views(parts@).subrange(0, i as int), sep@),
        decreases parts@.len() - i,
    {
        let ghost before = views(parts@).subrange(0, i as int);
        if i > 0 {
            push_str(out, sep);
        }
        push_str(out, parts[i].as_str());
        proof {
            let now = views(parts@).subrange(0, i + 1);
            assert(now.drop_last() =~= before);
            if i == 0 {
                assert(before =~= Seq::<Seq<char>>::empty());
            }
        }
        i = i + 1;
    }
    assert(views(parts@).subrange(0, parts@.len() as int) =~= views(parts@));
}

/// The kind of access-vector rule an `AvRule` represents.
#[derive(Debug, Clone, Copy, PartialEq, Eq, Structural)]
pub enum AvKind {
    Allow,
    AuditAllow,
    DontAudit,
}

pub open spec fn av_keyword(k: AvKind) -> Seq<char> {
    match k {
        AvKind::Allow => "allow"@,
        AvKind::AuditAllow => "auditallow"@,
        AvKind::DontAudit => "dontaudit"@,
    }
}

impl AvKind {
    pub fn keyword(self) -> (r: &'static str)
        ensures
            r@ == av_keyword(self),
    {
        match self {
            AvKind::Allow => "allow",
            AvKind::AuditAllow => "auditallow",
            AvKind::DontAudit => "dontaudit",
        }
    }
}

/// An access-vector rule: `<kind> source target:class { perms };`
#[derive(Debug, Clone)]
pub struct AvRule {
    pub kind: AvKind,
    pub source: String,
    pub target: String,
    pub class: String,
    pub perms: Vec<String>,
    /// True when the rule lives inside a conditional (`if`) block.
    pub conditional: bool,
}

pub struct SpecAvRule {
    pub kind: AvKind,
    pub source: Seq<char>,
    pub target: Seq<char>,
    pub class: Seq<char>,
    pub perms: Seq<Seq<char>>,
    pub conditional: bool,
}

impl View for AvRule {
    type V = SpecAvRule;

    open spec fn view(&self) -> SpecAvRule {
        SpecAvRule {
            kind: self.kind,
            source: self.source@,
            target: self.target@,
            class: self.class@,
            perms: views(self.perms@),
            conditional: self.conditional,
        }
    }
}

/// The line an access-vector rule is printed as.
pub open spec fn av_line(r: SpecAvRule) -> Seq<char> {
    av_keyword(r.kind) + " "@ + r.source + " "@ + r.target + ":"@ + r.class + " { "@ + join(
        r.perms,
        " "@,
    ) + " };"@ + if r.conditional {
        "  # conditional"@
    } else {
        Seq::empty()
    }
}

impl AvRule {
    /// The rule as a policy statement.
    pub fn line(&self) -> (s: String)
        ensures
            s@ == av_line(self@),
    {
        let mut s = String::new();
        push_str(&mut s, self.kind.keyword());
        push_str(&mut s, " ");
        push_str(&mut s, self.source.as_str());
        push_str(&mut s, " ");
        push_str(&mut s, self.target.as_str());
        push_str(&mut s, ":");
        push_str(&mut s, self.class.as_str());
        push_str(&mut s, " { ");
        push_joined(&mut s, &self.perms, " ");
        push_str(&mut s, " };");
        if self.conditional {
            push_str(&mut s, "  # conditional");
        }
        assert(s@ =~= av_line(self@));
        s
    }
}

/// The kind of extended-permission rule.
#[derive(Debug, Clone, Copy, PartialEq, Eq, Structural)]
pub enum XpermKind {
    AllowXperm,
    AuditAllowXperm,
    DontAuditXperm,
}

pub open spec fn xperm_keyword(k: XpermKind) -> Seq<char> {
    match k {
        XpermKind::AllowXperm => "allowxperm"@,
        XpermKind::AuditAllowXperm => "auditallowxperm"@,
        XpermKind::DontAuditXperm => "dontauditxperm"@,
    }
}

impl XpermKind {
    pub fn keyword(self) -> (r: &'static str)
        ensures
            r@ == xperm_keyword(self),
    {
        match self {
            XpermKind::AllowXperm => "allowxperm",
            XpermKind::AuditAllowXperm => "auditallowxperm",
            XpermKind::DontAuditXperm => "dontauditxperm",
        }
    }
}

/// An extended-permission rule, e.g. `allowxperm s t:class ioctl { 0x8910-0x8927 };`
#[derive(Debug, Clone)]
pub struct XpermRule {
    pub kind: XpermKind,
    pub source: String,
    pub target: String,
    pub class: String,
    /// The xperm operation, currently always `ioctl`.
    pub op: String,
    /// Inclusive command ranges (already coalesced).
    pub ranges: Vec<(u32, u32)>,
}

pub struct SpecXpermRule {
    pub kind: XpermKind,
    pub source: Seq<char>,
    pub target: Seq<char>,
    pub class: Seq<char>,
    pub op: Seq<char>,
    pub ranges: Seq<(u32, u32)>,
}

impl View for XpermRule {
    type V = SpecXpermRule;

    open spec fn view(&self) -> SpecXpermRule {
        SpecXpermRule {
            kind: self.kind,
            source: self.source@,
            target: self.target@,
            class: self.class@,
            op: self.op@,
            ranges: self.ranges@,
        }
    }
}

/// One command range: `0xLLLL` or `0xLLLL-0xHHHH`.
pub open spec fn range_text(r: (u32, u32)) -> Seq<char> {
    if r.0 == r.1 {
        hex_padded(r.0 as nat, 6)
    } else {
        hex_padded(r.0 as nat, 6) + "-"@ + hex_padded(r.1 as nat, 6)
    }
}

/// The ranges, each rendered, separated by single spaces.
pub open spec fn ranges_text(rs: Seq<(u32, u32)>) -> Seq<char>
    decreases rs.len(),
{
    if rs.len() == 0 {
        Seq::empty()
    } else if rs.len() == 1 {
        range_text(rs[0])
    } else {
        ranges_text(rs.drop_last()) + " "@ + range_text(rs.last())
    }
}

/// The line an extended-permission rule is printed as.
pub open spec fn xperm_line(r: SpecXpermRule) -> Seq<char> {
    xperm_keyword(r.kind) + " "@ + r.source + " "@ + r.target + ":"@ + r.class + " "@ + r.op
        + " { "@ + ranges_text(r.ranges) + " };"@
}

impl XpermRule {
    /// The rule as a policy statement.
    pub fn line(&self) -> (s: String)
        ensures
            s@ == xperm_line(self@),
    {
        let mut s = String::new();
        push_str(&mut s, self.kind.keyword());
        push_str(&mut s, " ");
        push_str(&mut s, self.source.as_str());
        push_str(&mut s, " ");
        push_str(&mut s, self.target.as_str());
        push_str(&mut s, ":");
        push_str(&mut s, self.class.as_str());
        push_str(&mut s, " ");
        push_str(&mut s, self.op.as_str());
        push_str(&mut s, " { ");
        let ghost start = s@;
        let mut i: usize = 0;
        while i < self.ranges.len()
            invariant
                i <= self.ranges@.len(),
                s@ == start + ranges_text(self.ranges@.subrange(0, i as int)),
            decreases self.ranges@.len() - i,
        {
            let ghost before = self.ranges@.subrange(0, i as int);
            if i > 0 {
                push_str(&mut s, " ");
            }
            let (lo, hi) = self.ranges[i];
            push_hex_padded(&mut s, lo as u64, 6);
            if lo != hi {
                push_str(&mut s, "-");
                push_hex_padded(&mut s, hi as u64, 6);
            }
            proof {
                let now = self.ranges@.subrange(0, i + 1);
                assert(now.drop_last() =~= before);
                if i == 0 {
                    assert(before =~= Seq::<(u32, u32)>::empty());
                }
                assert(s@ =~= start + ranges_text(now));
            }
            i = i + 1;
        }
        assert(self.ranges@.subrange(0, self.ranges@.len() as int) =~= self.ranges@);
        push_str(&mut s, " };");
        assert(s@ =~= xperm_line(self@));
        s
    }
}

/// A type rule that produces a new type: transition / member / change.
#[derive(Debug, Clone, Copy, PartialEq, Eq, Structural)]
pub enum TeKind {
    Transition,
    Member,
    Change,
}

pub open spec fn te_keyword(k: TeKind) -> Seq<char> {
    match k {
        TeKind::Transition => "type_transition"@,
        TeKind::Member => "type_member"@,
        TeKind::Change => "type_change"@,
    }
}

impl TeKind {
    pub fn keyword(self) -> (r: &'static str)
        ensures
            r@ == te_keyword(self),
    {
        match self {
            TeKind::Transition => "type_transition",
            TeKind::Member => "type_member",
            TeKind::Change => "type_change",
        }
    }
}

/// A type-rule: `type_transition source target:class default ["name"];`
#[derive(Debug, Clone)]
pub struct TeRule {
    pub kind: TeKind,
    pub source: String,
    pub target: String,
    pub class: String,
    pub default: String,
    /// Object name, for filename transitions.
    pub object_name: Option<String>,
}

pub struct SpecTeRule {
    pub kind: TeKind,
    pub source: Seq<char>,
    pub target: Seq<char>,
    pub class: Seq<char>,
    pub default: Seq<char>,
    pub object_name: Option<Seq<char>>,
}

impl View for TeRule {
    type V = SpecTeRule;

    open spec fn view(&self) -> SpecTeRule {
        SpecTeRule {
            kind: self.kind,
            source: self.source@,
            target: self.target@,
            class: self.class@,
            default: self.default@,
            object_name: match self.object_name {
                Some(n) => Some(n@),
                None => None,
            },
        }
    }
}

/// The line a type rule is printed as.
pub open spec fn te_line(r: SpecTeRule) -> Seq<char> {
    te_keyword(r.kind) + " "@ + r.source + " "@ + r.target + ":"@ + r.class + " "@ + r.default
        + match r.object_name {
        Some(n) => " \""@ + n + "\""@,
        None => Seq::empty(),
    } + ";"@
}

impl TeRule {
    /// The rule as a policy statement.
    pub fn line(&self) -> (s: String)
        ensures
            s@ == te_line(self@),
    {
        let mut s = String::new();
        push_str(&mut s, self.kind.keyword());
        push_str(&mut s, " ");
        push_str(&mut s, self.source.as_str());
        push_str(&mut s, " ");
        push_str(&mut s, self.target.as_str());
        push_str(&mut s, ":");
        push_str(&mut s, self.class.as_str());
        push_str(&mut s, " ");
        push_str(&mut s, self.default.as_str());
        match &self.object_name {
            Some(name) => {
                push_str(&mut s, " \"");
                push_str(&mut s, name.as_str());
                push_str(&mut s, "\"");
            },
            None => {},
        }
        push_str(&mut s, ";");
        assert(s@ =~= te_line(self@));
        s
    }
}

/// A `genfscon` filesystem-context binding.
#[derive(Debug, Clone)]
pub struct Genfs {
    pub fstype: String,
    pub path: String,
    pub context_type: String,
}

pub struct SpecGenfs {
    pub fstype: Seq<char>,
    pub path: Seq<char>,
    pub context_type: Seq<char>,
}

impl View for Genfs {
    type V = SpecGenfs;

    open spec fn view(&self) -> SpecGenfs {
        SpecGenfs { fstype: self.fstype@, path: self.path@, context_type: self.context_type@ }
    }
}

pub open spec fn genfs_line(g: SpecGenfs) -> Seq<char> {
    "genfscon "@ + g.fstype + " "@ + g.path + " "@ + g.context_type
}

impl Genfs {
    /// The binding as a policy statement.
    pub fn line(&self) -> (s: String)
        ensures
            s@ == genfs_line(self@),
    {
        let mut s = String::new();
        push_str(&mut s, "genfscon ");
        push_str(&mut s, self.fstype.as_str());
        push_str(&mut s, " ");
        push_str(&mut s, self.path.as_str());
        push_str(&mut s, " ");
        push_str(&mut s, self.context_type.as_str());
        assert(s@ =~= genfs_line(self@));
        s
    }
}

/// A `constrain` / `mlsconstrain` statement: a boolean expression that must
/// hold for the listed permissions on a class to be granted.
#[derive(Debug, Clone)]
pub struct Constraint {
    pub class: String,
    pub perms: Vec<String>,
    /// The rendered boolean expression, e.g. `u1 == u2 or t1 == { foo }`.
    pub expr: String,
    /// True for `mlsconstrain` (the expression references MLS levels).
    pub mls: bool,
    /// True for `validatetrans` / `mlsvalidatetrans` statements.
    pub validatetrans: bool,
}

pub struct SpecConstraint {
    pub class: Seq<char>,
    pub perms: Seq<Seq<char>>,
    pub expr: Seq<char>,
    pub mls: bool,
    pub validatetrans: bool,
}

impl View for Constraint {
    type V = SpecConstraint;

    open spec fn view(&self) -> SpecConstraint {
        SpecConstraint {
            class: self.class@,
            perms: views(self.perms@),
            expr: self.expr@,
            mls: self.mls,
            validatetrans: self.validatetrans,
        }
    }
}

pub open spec fn constraint_keyword(validatetrans: bool, mls: bool) -> Seq<char> {
    if validatetrans {
        if mls { "mlsvalidatetrans"@ } else { "validatetrans"@ }
    } else {
        if mls { "mlsconstrain"@ } else { "constrain"@ }
    }
}

pub open spec fn constraint_line(c: SpecConstraint) -> Seq<char> {
    if c.validatetrans {
        constraint_keyword(true, c.mls) + " "@ + c.class + " ("@ + c.expr + ");"@
    } else {
        constraint_keyword(false, c.mls) + " "@ + c.class + " { "@ + join(c.perms, " "@) + " } ("@
            + c.expr + ");"@
    }
}

impl Constraint {
    /// The constraint as a policy statement.
    pub fn line(&self) -> (s: String)
        ensures
            s@ == constraint_line(self@),
    {
        let keyword = if self.validatetrans {
            if self.mls { "mlsvalidatetrans" } else { "validatetrans" }
        } else {
            if self.mls { "mlsconstrain" } else { "constrain" }
        };
        let mut s = String::new();
        push_str(&mut s, keyword);
        push_str(&mut s, " ");
        push_str(&mut s, self.class.as_str());
        if self.validatetrans {
            push_str(&mut s, " (");
        } else {
            push_str(&mut s, " { ");
            push_joined(&mut s, &self.perms, " ");
            push_str(&mut s, " } (");
        }
        push_str(&mut s, self.expr.as_str());
        push_str(&mut s, ");");
        assert(s@ =~= constraint_line(self@));
        s
    }
}

/// A fully parsed policy, ready to query.
#[derive(Debug)]
pub struct Policy {
    pub version: u32,
    pub mls: bool,
    pub policy_kind: String,
    /// Concrete (non-attribute) types.
    pub types: NameSet,
    /// Attribute name -> the set of types that belong to it.
    pub attributes: NameMap<NameSet>,
    /// Object class -> ordered permission names.
    pub classes: NameMap<Vec<String>>,
    pub booleans: NameMap<bool>,
    pub av_rules: Vec<AvRule>,
    pub xperm_rules: Vec<XpermRule>,
    pub te_rules: Vec<TeRule>,
    pub constraints: Vec<Constraint>,
    pub genfs: Vec<Genfs>,
    pub policycaps: NameSet,
    /// MLS sensitivity names (aliases excluded), in file order.
    pub sensitivities: Vec<String>,
    /// MLS category names (aliases excluded), in file order.
    pub categories: Vec<String>,
    pub role_count: usize,
    pub user_count: usize,
}

#[verifier::ext_equal]
pub struct SpecPolicy {
    pub version: u32,
    pub mls: bool,
    pub policy_kind: Seq<char>,
    pub types: Set<Seq<char>>,
    pub attributes: Map<Seq<char>, Set<Seq<char>>>,
    pub classes: Map<Seq<char>, Seq<Seq<char>>>,
    pub booleans: Map<Seq<char>, bool>,
    pub av_rules: Seq<SpecAvRule>,
    pub xperm_rules: Seq<SpecXpermRule>,
    pub te_rules: Seq<SpecTeRule>,
    pub constraints: Seq<SpecConstraint>,
    pub genfs: Seq<SpecGenfs>,
    pub policycaps: Set<Seq<char>>,
    pub sensitivities: Seq<Seq<char>>,
    pub categories: Seq<Seq<char>>,
    pub role_count: usize,
    pub user_count: usize,
}

impl View for Policy {
    type V = SpecPolicy;

    open spec fn view(&self) -> SpecPolicy {
        SpecPolicy {
            version: self.version,
            mls: self.mls,
            policy_kind: self.policy_kind@,
            types: self.types@,
            attributes: self.attributes@,
            classes: self.classes@,
            booleans: self.booleans@,
            av_rules: self.av_rules@.map_values(|r: AvRule| r@),
            xperm_rules: self.xperm_rules@.map_values(|r: XpermRule| r@),
            te_rules: self.te_rules@.map_values(|r: TeRule| r@),
            constraints: self.constraints@.map_values(|c: Constraint| c@),
            genfs: self.genfs@.map_values(|g: Genfs| g@),
            policycaps: self.policycaps@,
            sensitivities: views(self.sensitivities@),
            categories: views(self.categories@),
            role_count: self.role_count,
            user_count: self.user_count,
        }
    }
}

/// The policy with nothing in it.
pub open spec fn empty_policy() -> SpecPolicy {
    SpecPolicy {
        version: 0,
        mls: false,
        policy_kind: Seq::empty(),
        types: Set::empty(),
        attributes: Map::empty(),
        classes: Map::empty(),
        booleans: Map::empty(),
        av_rules: Seq::empty(),
        xperm_rules: Seq::empty(),
        te_rules: Seq::empty(),
        constraints: Seq::empty(),
        genfs: Seq::empty(),
        policycaps: Set::empty(),
        sensitivities: Seq::empty(),
        categories: Seq::empty(),
        role_count: 0,
        user_count: 0,
    }
}

impl Default for Policy {
    fn default() -> (p: Self)
        ensures
            p@ == empty_policy(),
    {
        let p = Policy {
            version: 0,
            mls: false,
            policy_kind: String::new(),
            types: NameSet::new(),
            attributes: NameMap::new(),
            classes: NameMap::new(),
            booleans: NameMap::new(),
            av_rules: Vec::new(),
            xperm_rules: Vec::new(),
            te_rules: Vec::new(),
            constraints: Vec::new(),
            genfs: Vec::new(),
            policycaps: NameSet::new(),
            sensitivities: Vec::new(),
            categories: Vec::new(),
            role_count: 0,
            user_count: 0,
        };
        assert(p@.av_rules =~= Seq::<SpecAvRule>::empty());
        assert(p@.xperm_rules =~= Seq::<SpecXpermRule>::empty());
        assert(p@.te_rules =~= Seq::<SpecTeRule>::empty());
        assert(p@.constraints =~= Seq::<SpecConstraint>::empty());
        assert(p@.genfs =~= Seq::<SpecGenfs>::empty());
        assert(p@.sensitivities =~= Seq::<Seq<char>>::empty());
        assert(p@.categories =~= Seq::<Seq<char>>::empty());
        p
    }
}

/// How a `--source` / `--target` filter should match a rule's operand.
#[derive(Debug, Clone, Copy, PartialEq, Eq, Structural)]
pub enum MatchMode {
    /// Match only the literal name written in the rule.
    Direct,
    /// Match the literal name, plus the attribute/member relationship in
    /// either direction (the default, matching `sesearch` semantics).
    Semantic,
}

/// A compiled set of query filters.
#[derive(Debug, Default, Clone)]
pub struct Query {
    pub source: Option<String>,
    pub target: Option<String>,
    pub class: Option<String>,
    /// Requested permissions; a rule matches if it grants any of them.
    pub perms: Vec<String>,
    pub mode_direct: bool,
}

pub struct SpecQuery {
    pub source: Option<Seq<char>>,
    pub target: Option<Seq<char>>,
    pub class: Option<Seq<char>>,
    pub perms: Seq<Seq<char>>,
    pub mode_direct: bool,
}

pub open spec fn opt_view(o: Option<String>) -> Option<Seq<char>> {
    match o {
        Some(s) => Some(s@),
        None => None,
    }
}

impl View for Query {
    type V = SpecQuery;

    open spec fn view(&self) -> SpecQuery {
        SpecQuery {
            source: opt_view(self.source),
            target: opt_view(self.target),
            class: opt_view(self.class),
            perms: views(self.perms@),
            mode_direct: self.mode_direct,
        }
    }
}

/// Whether `operand` (a name written in a rule) satisfies `filter`: they are
/// the same name, or (unless matching is direct) one is an attribute that
/// has the other as a member.
pub open spec fn operand_matches_spec(
    attrs: Map<Seq<char>, Set<Seq<char>>>,
    direct: bool,
    filter: Seq<char>,
    operand: Seq<char>,
) -> bool {
    ||| filter == operand
    ||| !direct && attrs.contains_key(operand) && attrs[operand].contains(filter)
    ||| !direct && attrs.contains_key(filter) && attrs[filter].contains(operand)
}

/// Whether the source, target and class filters of `q` accept a rule with
/// these operands.
pub open spec fn matches_st_spec(
    q: SpecQuery,
    attrs: Map<Seq<char>, Set<Seq<char>>>,
    source: Seq<char>,
    target: Seq<char>,
    class: Seq<char>,
) -> bool {
    &&& (q.source matches Some(s) ==> operand_matches_spec(attrs, q.mode_direct, s, source))
    &&& (q.target matches Some(t) ==> operand_matches_spec(attrs, q.mode_direct, t, target))
    &&& (q.class matches Some(c) ==> c == class)
}

/// Whether a rule granting `perms` grants one of the requested `wanted`
/// (trivially so when none are requested).
pub open spec fn grants_any(wanted: Seq<Seq<char>>, perms: Seq<Seq<char>>) -> bool {
    wanted.len() == 0 || exists|i: int, j: int|
        0 <= i < wanted.len() && 0 <= j < perms.len() && #[trigger] perms[j] == #[trigger] wanted[i]
}

pub open spec fn matches_av_spec(
    q: SpecQuery,
    attrs: Map<Seq<char>, Set<Seq<char>>>,
    r: SpecAvRule,
) -> bool {
    matches_st_spec(q, attrs, r.source, r.target, r.class) && grants_any(q.perms, r.perms)
}

pub open spec fn matches_xperm_spec(
    q: SpecQuery,
    attrs: Map<Seq<char>, Set<Seq<char>>>,
    r: SpecXpermRule,
) -> bool {
    q.perms.len() == 0 && matches_st_spec(q, attrs, r.source, r.target, r.class)
}

pub open spec fn matches_te_spec(
    q: SpecQuery,
    attrs: Map<Seq<char>, Set<Seq<char>>>,
    r: SpecTeRule,
) -> bool {
    q.perms.len() == 0 && matches_st_spec(q, attrs, r.source, r.target, r.class)
}

impl Query {
    fn mode(&self) -> (m: MatchMode)
        ensures
            m == (if self.mode_direct { MatchMode::Direct } else { MatchMode::Semantic }),
    {
        if self.mode_direct {
            MatchMode::Direct
        } else {
            MatchMode::Semantic
        }
    }

    /// Does `operand` (a name written in a rule) satisfy `filter` under the
    /// configured matching mode, given the policy's attribute membership?
    fn operand_matches(&self, policy: &Policy, filter: &str, operand: &str) -> (r: bool)
        ensures
            r == operand_matches_spec(policy.attributes@, self.mode_direct, filter@, operand@),
    {
        if str_equal(filter, operand) {
            return true;
        }
        if self.mode() == MatchMode::Direct {
            return false;
        }
        // Semantic: the rule's operand is an attribute containing the queried
        // type, or the queried name is an attribute containing the rule's type.
        match policy.attributes.get(operand) {
            Some(members) => {
                if members.contains(filter) {
                    return true;
                }
            },
            None => {},
        }
        match policy.attributes.get(filter) {
            Some(members) => {
                if members.contains(operand) {
                    return true;
                }
            },
            None => {},
        }
        false
    }

    fn matches_st(&self, policy: &Policy, source: &str, target: &str, class: &str) -> (r: bool)
        ensures
            r == matches_st_spec(self@, policy.attributes@, source@, target@, class@),
    {
        match &self.source {
            Some(s) => {
                if !self.operand_matches(policy, s.as_str(), source) {
                    return false;
                }
            },
            None => {},
        }
        match &self.target {
            Some(t) => {
                if !self.operand_matches(policy, t.as_str(), target) {
                    return false;
                }
            },
            None => {},
        }
        match &self.class {
            Some(c) => {
                if !str_equal(c.as_str(), class) {
                    return false;
                }
            },
            None => {},
        }
        true
    }

    /// Whether some requested permission is among `perms`.
    fn grants_requested(&self, perms: &Vec<String>) -> (r: bool)
        ensures
            r == grants_any(self@.perms, views(perms@)),
    {
        if self.perms.len() == 0 {
            return true;
        }
        let mut i: usize = 0;
        while i < self.perms.len()
            invariant
                i <= self.perms@.len(),
                forall|a: int, b: int|
                    0 <= a < i && 0 <= b < perms@.len() ==> #[trigger] views(perms@)[b]
                        != #[trigger] views(self.perms@)[a],
            decreases self.perms@.len() - i,
        {
            let mut j: usize = 0;
            while j < perms.len()
                invariant
                    i < self.perms@.len(),
                    j <= perms@.len(),
                    forall|a: int, b: int|
                        0 <= a < i && 0 <= b < perms@.len() ==> #[trigger] views(perms@)[b]
                            != #[trigger] views(self.perms@)[a],
                    forall|b: int| 0 <= b < j ==> #[trigger] views(perms@)[b] != views(
                        self.perms@,
                    )[i as int],
                decreases perms@.len() - j,
            {
                if str_equal(perms[j].as_str(), self.perms[i].as_str()) {
                    assert(views(perms@)[j as int] == views(self.perms@)[i as int]);
                    return true;
                }
                j = j + 1;
            }
            i = i + 1;
        }
        false
    }

    pub fn matches_av(&self, policy: &Policy, rule: &AvRule) -> (r: bool)
        ensures
            r == matches_av_spec(self@, policy.attributes@, rule@),
    {
        if !self.matches_st(policy, rule.source.as_str(), rule.target.as_str(), rule.class.as_str()) {
            return false;
        }
        self.grants_requested(&rule.perms)
    }

    pub fn matches_xperm(&self, policy: &Policy, rule: &XpermRule) -> (r: bool)
        ensures
            r == matches_xperm_spec(self@, policy.attributes@, rule@),
    {
        // xperm rules have no named perms to filter on.
        self.perms.len() == 0 && self.matches_st(
            policy,
            rule.source.as_str(),
            rule.target.as_str(),
            rule.class.as_str(),
        )
    }

    pub fn matches_te(&self, policy: &Policy, rule: &TeRule) -> (r: bool)
        ensures
            r == matches_te_spec(self@, policy.attributes@, rule@),
    {
        self.perms.len() == 0 && self.matches_st(
            policy,
            rule.source.as_str(),
            rule.target.as_str(),
            rule.class.as_str(),
        )
    }
}

/// Semantic matching finds everything direct matching finds: a rule that a
/// query matches literally is still matched when attributes are expanded.
pub proof fn law_direct_within_semantic(
    q: SpecQuery,
    attrs: Map<Seq<char>, Set<Seq<char>>>,
    r: SpecAvRule,
)
    requires
        q.mode_direct,
        matches_av_spec(q, attrs, r),
    ensures
        matches_av_spec(SpecQuery { mode_direct: false, ..q }, attrs, r),
{
}

/// A query without filters matches every access-vector, extended-permission
/// and type rule.
pub proof fn law_unfiltered_matches_all(
    attrs: Map<Seq<char>, Set<Seq<char>>>,
    direct: bool,
    av: SpecAvRule,
    x: SpecXpermRule,
    te: SpecTeRule,
)
    ensures
        ({
            let q = SpecQuery {
                source: None,
                target: None,
                class: None,
                perms: Seq::empty(),
                mode_direct: direct,
            };
            matches_av_spec(q, attrs, av) && matches_xperm_spec(q, attrs, x) && matches_te_spec(
                q,
                attrs,
                te,
            )
        }),
{
}

/// Attribute expansion works in both directions: when `member` belongs to
/// attribute `attr`, a semantic source filter on either name accepts a rule
/// written on the other.
pub proof fn law_expansion_symmetric(
    attrs: Map<Seq<char>, Set<Seq<char>>>,
    attr: Seq<char>,
    member: Seq<char>,
)
    requires
        attrs.contains_key(attr),
        attrs[attr].contains(member),
    ensures
        operand_matches_spec(attrs, false, member, attr),
        operand_matches_spec(attrs, false, attr, member),
{
}

/// Extended-permission and type rules carry no named permissions, so a
/// query asking for permissions matches none of them.
pub proof fn law_perm_filter_excludes_unnamed(
    q: SpecQuery,
    attrs: Map<Seq<char>, Set<Seq<char>>>,
    x: SpecXpermRule,
    te: SpecTeRule,
)
    requires
        q.perms.len() > 0,
    ensures
        !matches_xperm_spec(q, attrs, x),
        !matches_te_spec(q, attrs, te),
{
}

/// With direct matching, a filter accepts exactly the name it gives.
pub proof fn law_direct_is_literal(
    attrs: Map<Seq<char>, Set<Seq<char>>>,
    filter: Seq<char>,
    operand: Seq<char>,
)
    ensures
        operand_matches_spec(attrs, true, filter, operand) <==> filter == operand,
{
}

/// A permission filter accepts a rule that grants any one of the requested
/// permissions.
pub proof fn law_any_requested_permission(wanted: Seq<Seq<char>>, perms: Seq<Seq<char>>, i: int, j: int)
    requires
        0 <= i < wanted.len(),
        0 <= j < perms.len(),
        perms[j] == wanted[i],
    ensures
        grants_any(wanted, perms),
{
}

} // verus!
