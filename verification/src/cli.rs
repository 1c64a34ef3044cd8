//! The command line: what each argument asks for, and the configuration a
//! whole argument list amounts to.

use vstd::prelude::*;
use crate::order::{str_equal, views};
use crate::policy::{Query, SpecQuery, opt_view};
use crate::text::{push_str, push_char, chars_of};

verus! {

/// What a command-line flag asks for.
#[derive(Clone, Copy, PartialEq, Eq, Structural)]
pub enum ArgAction {
    Help,
    Version,
    Allow,
    AuditAllow,
    DontAudit,
    TypeTrans,
    Xperm,
    AllRules,
    Source,
    Target,
    Class,
    Perms,
    Direct,
    Stats,
    Types,
    Attributes,
    Classes,
    Booleans,
    Policycaps,
    Genfs,
    Sensitivities,
    Categories,
    InitialSids,
    Portcon,
    Netifcon,
    Nodecon,
    FsUse,
    Permissive,
    Constrain,
    Expand,
    Json,
    Limit,
    Unknown,
    Positional,
}

/// The action of a flag (the part of an argument before any `=`).
#[verifier::opaque]
pub open spec fn action_of(flag: Seq<char>) -> ArgAction {
    if flag == "-h"@ || flag == "--help"@ {
        ArgAction::Help
    } else if flag == "-V"@ || flag == "--version"@ {
        ArgAction::Version
    } else if flag == "-A"@ || flag == "--allow"@ {
        ArgAction::Allow
    } else if flag == "--auditallow"@ {
        ArgAction::AuditAllow
    } else if flag == "--dontaudit"@ {
        ArgAction::DontAudit
    } else if flag == "-T"@ || flag == "--type_trans"@ || flag == "--type-trans"@ {
        ArgAction::TypeTrans
    } else if flag == "-X"@ || flag == "--xperm"@ {
        ArgAction::Xperm
    } else if flag == "--all-rules"@ {
        ArgAction::AllRules
    } else if flag == "-s"@ || flag == "--source"@ {
        ArgAction::Source
    } else if flag == "-t"@ || flag == "--target"@ {
        ArgAction::Target
    } else if flag == "-c"@ || flag == "--class"@ {
        ArgAction::Class
    } else if flag == "-p"@ || flag == "--perm"@ || flag == "--perms"@ {
        ArgAction::Perms
    } else if flag == "-d"@ || flag == "--direct"@ {
        ArgAction::Direct
    } else if flag == "--stats"@ {
        ArgAction::Stats
    } else if flag == "--types"@ {
        ArgAction::Types
    } else if flag == "--attributes"@ {
        ArgAction::Attributes
    } else if flag == "--classes"@ {
        ArgAction::Classes
    } else if flag == "--booleans"@ {
        ArgAction::Booleans
    } else if flag == "--policycaps"@ {
        ArgAction::Policycaps
    } else if flag == "--genfs"@ {
        ArgAction::Genfs
    } else if flag == "--sensitivities"@ || flag == "--sens"@ {
        ArgAction::Sensitivities
    } else if flag == "--categories"@ || flag == "--cats"@ {
        ArgAction::Categories
    } else if flag == "--initialsids"@ || flag == "--isids"@ {
        ArgAction::InitialSids
    } else if flag == "--portcon"@ || flag == "--ports"@ {
        ArgAction::Portcon
    } else if flag == "--netifcon"@ {
        ArgAction::Netifcon
    } else if flag == "--nodecon"@ {
        ArgAction::Nodecon
    } else if flag == "--fs_use"@ || flag == "--fsuse"@ {
        ArgAction::FsUse
    } else if flag == "--permissive"@ {
        ArgAction::Permissive
    } else if flag == "--constrain"@ {
        ArgAction::Constrain
    } else if flag == "--expand"@ || flag == "--expand-attr"@ {
        ArgAction::Expand
    } else if flag == "--json"@ {
        ArgAction::Json
    } else if flag == "-n"@ || flag == "--limit"@ {
        ArgAction::Limit
    } else if flag.len() > 0 && flag[0] == '-' && flag != "-"@ {
        ArgAction::Unknown
    } else {
        ArgAction::Positional
    }
}

/// Whether an action takes a value.
pub open spec fn takes_value(a: ArgAction) -> bool {
    a == ArgAction::Source || a == ArgAction::Target || a == ArgAction::Class || a == ArgAction::Perms
        || a == ArgAction::Expand || a == ArgAction::Limit
}

/// The rule types asked for.
#[derive(Clone, Copy, PartialEq, Eq, Structural)]
pub struct RuleTypes {
    pub allow: bool,
    pub auditallow: bool,
    pub dontaudit: bool,
    pub type_trans: bool,
    pub xperm: bool,
}

/// The summary and symbol listings asked for.
#[derive(Clone, Copy, PartialEq, Eq, Structural)]
pub struct Listings {
    pub stats: bool,
    pub types: bool,
    pub attributes: bool,
    pub classes: bool,
    pub booleans: bool,
    pub policycaps: bool,
}

/// The statement listings asked for.
#[derive(Clone, Copy, PartialEq, Eq, Structural)]
pub struct Statements {
    pub genfs: bool,
    pub sensitivities: bool,
    pub categories: bool,
    pub constrain: bool,
    pub permissive: bool,
}

/// The object-context listings asked for.
#[derive(Clone, Copy, PartialEq, Eq, Structural)]
pub struct Contexts {
    pub initialsids: bool,
    pub portcon: bool,
    pub netifcon: bool,
    pub nodecon: bool,
    pub fsuse: bool,
}

/// The run configuration of the command line.
pub struct Config {
    pub policy_path: Option<String>,
    pub rules: RuleTypes,
    /// The filters.
    pub query: Query,
    pub lists: Listings,
    pub statements: Statements,
    pub contexts: Contexts,
    pub expand_attr: Option<String>,
    /// Emit JSON.
    pub json: bool,
    /// Print at most this many rules.
    pub limit: Option<usize>,
}

pub struct SpecConfig {
    pub policy_path: Option<Seq<char>>,
    pub rules: RuleTypes,
    pub query: SpecQuery,
    pub lists: Listings,
    pub statements: Statements,
    pub contexts: Contexts,
    pub expand_attr: Option<Seq<char>>,
    pub json: bool,
    pub limit: Option<usize>,
}

impl View for Config {
    type V = SpecConfig;

    open spec fn view(&self) -> SpecConfig {
        SpecConfig {
            policy_path: opt_view(self.policy_path),
            rules: self.rules,
            query: self.query@,
            lists: self.lists,
            statements: self.statements,
            contexts: self.contexts,
            expand_attr: opt_view(self.expand_attr),
            json: self.json,
            limit: self.limit,
        }
    }
}

/// The configuration with nothing asked for.
pub open spec fn default_config() -> SpecConfig {
    SpecConfig {
        policy_path: None,
        rules: RuleTypes { allow: false, auditallow: false, dontaudit: false, type_trans: false, xperm: false },
        query: SpecQuery { source: None, target: None, class: None, perms: Seq::empty(), mode_direct: false },
        lists: Listings {
            stats: false,
            types: false,
            attributes: false,
            classes: false,
            booleans: false,
            policycaps: false,
        },
        statements: Statements { genfs: false, sensitivities: false, categories: false, constrain: false, permissive: false },
        contexts: Contexts { initialsids: false, portcon: false, netifcon: false, nodecon: false, fsuse: false },
        expand_attr: None,
        json: false,
        limit: None,
    }
}

impl Default for Config {
    fn default() -> (c: Self)
        ensures
            c@ == default_config(),
    {
        let c = Config {
            policy_path: None,
            rules: RuleTypes { allow: false, auditallow: false, dontaudit: false, type_trans: false, xperm: false },
            query: Query { source: None, target: None, class: None, perms: Vec::new(), mode_direct: false },
            lists: Listings {
                stats: false,
                types: false,
                attributes: false,
                classes: false,
                booleans: false,
                policycaps: false,
            },
            statements: Statements { genfs: false, sensitivities: false, categories: false, constrain: false, permissive: false },
            contexts: Contexts { initialsids: false, portcon: false, netifcon: false, nodecon: false, fsuse: false },
            expand_attr: None,
            json: false,
            limit: None,
        };
        assert(c@.query.perms =~= Seq::<Seq<char>>::empty());
        c
    }
}

/// Whether some rule type is asked for.
pub open spec fn any_rule_type_spec(c: SpecConfig) -> bool {
    c.rules.allow || c.rules.auditallow || c.rules.dontaudit || c.rules.type_trans || c.rules.xperm
}

/// Whether some listing is asked for.
pub open spec fn any_info_spec(c: SpecConfig) -> bool {
    ||| c.lists.stats || c.lists.types || c.lists.attributes || c.lists.classes || c.lists.booleans
        || c.lists.policycaps
    ||| c.statements.genfs || c.statements.sensitivities || c.statements.categories
        || c.statements.constrain || c.statements.permissive
    ||| c.contexts.initialsids || c.contexts.portcon || c.contexts.netifcon || c.contexts.nodecon
        || c.contexts.fsuse
    ||| c.expand_attr is Some
}

impl Config {
    pub fn any_rule_type(&self) -> (r: bool)
        ensures
            r == any_rule_type_spec(self@),
    {
        self.rules.allow || self.rules.auditallow || self.rules.dontaudit || self.rules.type_trans
            || self.rules.xperm
    }

    pub fn any_info(&self) -> (r: bool)
        ensures
            r == any_info_spec(self@),
    {
        let l = self.lists;
        let s = self.statements;
        let c = self.contexts;
        (l.stats || l.types || l.attributes || l.classes || l.booleans || l.policycaps)
            || (s.genfs || s.sensitivities || s.categories || s.constrain || s.permissive)
            || (c.initialsids || c.portcon || c.netifcon || c.nodecon || c.fsuse)
            || self.expand_attr.is_some()
    }
}

/// The rule types after a switch.
pub open spec fn switch_rules(r: RuleTypes, a: ArgAction) -> RuleTypes {
    match a {
        ArgAction::Allow => RuleTypes { allow: true, ..r },
        ArgAction::AuditAllow => RuleTypes { auditallow: true, ..r },
        ArgAction::DontAudit => RuleTypes { dontaudit: true, ..r },
        ArgAction::TypeTrans => RuleTypes { type_trans: true, ..r },
        ArgAction::Xperm => RuleTypes { xperm: true, ..r },
        ArgAction::AllRules => RuleTypes { allow: true, auditallow: true, dontaudit: true, type_trans: true, xperm: true },
        _ => r,
    }
}

/// The listings after a switch.
pub open spec fn switch_lists(l: Listings, a: ArgAction) -> Listings {
    match a {
        ArgAction::Stats => Listings { stats: true, ..l },
        ArgAction::Types => Listings { types: true, ..l },
        ArgAction::Attributes => Listings { attributes: true, ..l },
        ArgAction::Classes => Listings { classes: true, ..l },
        ArgAction::Booleans => Listings { booleans: true, ..l },
        ArgAction::Policycaps => Listings { policycaps: true, ..l },
        _ => l,
    }
}

/// The statement listings after a switch.
pub open spec fn switch_statements(s: Statements, a: ArgAction) -> Statements {
    match a {
        ArgAction::Genfs => Statements { genfs: true, ..s },
        ArgAction::Sensitivities => Statements { sensitivities: true, ..s },
        ArgAction::Categories => Statements { categories: true, ..s },
        ArgAction::Constrain => Statements { constrain: true, ..s },
        ArgAction::Permissive => Statements { permissive: true, ..s },
        _ => s,
    }
}

/// The context listings after a switch.
pub open spec fn switch_contexts(c: Contexts, a: ArgAction) -> Contexts {
    match a {
        ArgAction::InitialSids => Contexts { initialsids: true, ..c },
        ArgAction::Portcon => Contexts { portcon: true, ..c },
        ArgAction::Netifcon => Contexts { netifcon: true, ..c },
        ArgAction::Nodecon => Contexts { nodecon: true, ..c },
        ArgAction::FsUse => Contexts { fsuse: true, ..c },
        _ => c,
    }
}

/// The configuration after a switch (a flag that takes no value).
pub open spec fn apply_switch(c: SpecConfig, a: ArgAction) -> SpecConfig {
    SpecConfig {
        rules: switch_rules(c.rules, a),
        query: SpecQuery { mode_direct: c.query.mode_direct || a == ArgAction::Direct, ..c.query },
        lists: switch_lists(c.lists, a),
        statements: switch_statements(c.statements, a),
        contexts: switch_contexts(c.contexts, a),
        json: c.json || a == ArgAction::Json,
        ..c
    }
}

// ---------------------------------------------------------------------------
// Argument text
// ---------------------------------------------------------------------------

/// The index of the first `c` in `s` at or after `i`, if any.
pub open spec fn find_char(s: Seq<char>, c: char, i: nat) -> Option<nat>
    decreases s.len() - i,
{
    if i >= s.len() {
        None
    } else if s[i as int] == c {
        Some(i)
    } else {
        find_char(s, c, i + 1)
    }
}

/// An argument split into its flag and the value written after the first
/// `=`; only arguments that start with `-` are split.
pub open spec fn split_arg(arg: Seq<char>) -> (Seq<char>, Option<Seq<char>>) {
    if arg.len() > 0 && arg[0] == '-' {
        match find_char(arg, '=', 0) {
            Some(k) => (arg.subrange(0, k as int), Some(arg.subrange((k + 1) as int, arg.len() as int))),
            None => (arg, None),
        }
    } else {
        (arg, None)
    }
}

/// The tokens of a text read so far, and the token being read.
pub open spec fn token_state(s: Seq<char>) -> (Seq<Seq<char>>, Seq<char>)
    decreases s.len(),
{
    if s.len() == 0 {
        (Seq::empty(), Seq::empty())
    } else {
        let (done, cur) = token_state(s.drop_last());
        let c = s.last();
        if c == ',' || c == ' ' {
            (if cur.len() > 0 { done.push(cur) } else { done }, Seq::empty())
        } else {
            (done, cur.push(c))
        }
    }
}

/// The non-empty pieces of a text between commas and spaces.
pub open spec fn tokens(s: Seq<char>) -> Seq<Seq<char>> {
    let (done, cur) = token_state(s);
    if cur.len() > 0 {
        done.push(cur)
    } else {
        done
    }
}

/// The value of a string of decimal digits.
pub open spec fn digits_value(s: Seq<char>) -> nat
    decreases s.len(),
{
    if s.len() == 0 {
        0
    } else {
        digits_value(s.drop_last()) * 10 + ((s.last() as u32 - 48) as nat)
    }
}

pub open spec fn is_digit(c: char) -> bool {
    48 <= (c as u32) && (c as u32) <= 57
}

/// Whether every character is a decimal digit.
pub open spec fn all_digits(s: Seq<char>) -> bool {
    forall|i: int| 0 <= i < s.len() ==> is_digit(#[trigger] s[i])
}

/// The text after an optional leading `+`.
pub open spec fn unsigned_body(s: Seq<char>) -> Seq<char> {
    if s.len() > 0 && s[0] == '+' {
        s.drop_first()
    } else {
        s
    }
}

/// An unsigned decimal count as `str::parse::<usize>` reads it: an optional
/// `+`, then at least one digit and nothing else, of a value that fits.
pub open spec fn count_value(s: Seq<char>) -> Option<usize> {
    let body = unsigned_body(s);
    if body.len() > 0 && all_digits(body) && digits_value(body) <= usize::MAX {
        Some(digits_value(body) as usize)
    } else {
        None
    }
}

#[verifier::external_body]
/// `str::parse::<usize>`, its error dropped. The contract claims what the
/// documentation of `usize::from_str` says: an optional `+` sign followed by
/// decimal digits only, with a value that fits, is read; anything else is
/// an error.
fn parse_count(s: &str) -> (r: Option<usize>)
    ensures
        r == count_value(s@),
{
    s.parse::<usize>().ok()
}

// ---------------------------------------------------------------------------
// Argument lists
// ---------------------------------------------------------------------------

/// What the command line asks for: help, the version, or a run.
pub enum Invocation {
    Help,
    Version,
    Run(Config),
}

pub enum SpecInvocation {
    Help,
    Version,
    Run(SpecConfig),
}

impl View for Invocation {
    type V = SpecInvocation;

    open spec fn view(&self) -> SpecInvocation {
        match self {
            Invocation::Help => SpecInvocation::Help,
            Invocation::Version => SpecInvocation::Version,
            Invocation::Run(c) => SpecInvocation::Run(c@),
        }
    }
}

pub open spec fn requires_value_msg(flag: Seq<char>) -> Seq<char> {
    "option "@ + flag + " requires a value"@
}

pub open spec fn bad_limit_msg(v: Seq<char>) -> Seq<char> {
    "invalid --limit value: "@ + v
}

pub open spec fn unknown_option_msg(flag: Seq<char>) -> Seq<char> {
    "unknown option: "@ + flag + " (try --help)"@
}

pub open spec fn extra_argument_msg(arg: Seq<char>) -> Seq<char> {
    "unexpected extra argument: "@ + arg
}

/// The filters after a filter option with its value.
pub open spec fn query_value(q: SpecQuery, a: ArgAction, v: Seq<char>) -> SpecQuery {
    match a {
        ArgAction::Source => SpecQuery { source: Some(v), ..q },
        ArgAction::Target => SpecQuery { target: Some(v), ..q },
        ArgAction::Class => SpecQuery { class: Some(v), ..q },
        ArgAction::Perms => SpecQuery { perms: tokens(v), ..q },
        _ => q,
    }
}

/// The configuration after an option with its value.
pub open spec fn apply_value(c: SpecConfig, a: ArgAction, v: Seq<char>) -> Result<SpecConfig, Seq<char>> {
    if a == ArgAction::Limit {
        match count_value(v) {
            Some(n) => Ok(SpecConfig { limit: Some(n), ..c }),
            None => Err(bad_limit_msg(v)),
        }
    } else if a == ArgAction::Expand {
        Ok(SpecConfig { expand_attr: Some(v), ..c })
    } else {
        Ok(SpecConfig { query: query_value(c.query, a, v), ..c })
    }
}

/// The arguments from index `i` on, read into configuration `c`.
pub open spec fn sp_args(args: Seq<Seq<char>>, i: nat, c: SpecConfig) -> Result<SpecInvocation, Seq<char>>
    decreases args.len() - i,
{
    if i >= args.len() {
        Ok(SpecInvocation::Run(c))
    } else {
        let arg = args[i as int];
        let (flag, inline) = split_arg(arg);
        let a = action_of(flag);
        if a == ArgAction::Help {
            Ok(SpecInvocation::Help)
        } else if a == ArgAction::Version {
            Ok(SpecInvocation::Version)
        } else if a == ArgAction::Unknown {
            Err(unknown_option_msg(flag))
        } else if a == ArgAction::Positional {
            if c.policy_path is Some {
                Err(extra_argument_msg(arg))
            } else {
                sp_args(args, i + 1, SpecConfig { policy_path: Some(arg), ..c })
            }
        } else if takes_value(a) {
            match inline {
                Some(v) => match apply_value(c, a, v) {
                    Err(m) => Err(m),
                    Ok(c2) => sp_args(args, i + 1, c2),
                },
                None => if i + 1 < args.len() {
                    match apply_value(c, a, args[(i + 1) as int]) {
                        Err(m) => Err(m),
                        Ok(c2) => sp_args(args, i + 2, c2),
                    }
                } else {
                    Err(requires_value_msg(flag))
                },
            }
        } else {
            sp_args(args, i + 1, apply_switch(c, a))
        }
    }
}

/// The action of a flag.
fn action_for(flag: &str) -> (a: ArgAction)
    ensures
        a == action_of(flag@),
{
    reveal(action_of);
    if str_equal(flag, "-h") || str_equal(flag, "--help") {
        ArgAction::Help
    } else if str_equal(flag, "-V") || str_equal(flag, "--version") {
        ArgAction::Version
    } else if str_equal(flag, "-A") || str_equal(flag, "--allow") {
        ArgAction::Allow
    } else if str_equal(flag, "--auditallow") {
        ArgAction::AuditAllow
    } else if str_equal(flag, "--dontaudit") {
        ArgAction::DontAudit
    } else if str_equal(flag, "-T") || str_equal(flag, "--type_trans") || str_equal(flag, "--type-trans") {
        ArgAction::TypeTrans
    } else if str_equal(flag, "-X") || str_equal(flag, "--xperm") {
        ArgAction::Xperm
    } else if str_equal(flag, "--all-rules") {
        ArgAction::AllRules
    } else if str_equal(flag, "-s") || str_equal(flag, "--source") {
        ArgAction::Source
    } else if str_equal(flag, "-t") || str_equal(flag, "--target") {
        ArgAction::Target
    } else if str_equal(flag, "-c") || str_equal(flag, "--class") {
        ArgAction::Class
    } else if str_equal(flag, "-p") || str_equal(flag, "--perm") || str_equal(flag, "--perms") {
        ArgAction::Perms
    } else if str_equal(flag, "-d") || str_equal(flag, "--direct") {
        ArgAction::Direct
    } else if str_equal(flag, "--stats") {
        ArgAction::Stats
    } else if str_equal(flag, "--types") {
        ArgAction::Types
    } else if str_equal(flag, "--attributes") {
        ArgAction::Attributes
    } else if str_equal(flag, "--classes") {
        ArgAction::Classes
    } else if str_equal(flag, "--booleans") {
        ArgAction::Booleans
    } else if str_equal(flag, "--policycaps") {
        ArgAction::Policycaps
    } else if str_equal(flag, "--genfs") {
        ArgAction::Genfs
    } else if str_equal(flag, "--sensitivities") || str_equal(flag, "--sens") {
        ArgAction::Sensitivities
    } else if str_equal(flag, "--categories") || str_equal(flag, "--cats") {
        ArgAction::Categories
    } else if str_equal(flag, "--initialsids") || str_equal(flag, "--isids") {
        ArgAction::InitialSids
    } else if str_equal(flag, "--portcon") || str_equal(flag, "--ports") {
        ArgAction::Portcon
    } else if str_equal(flag, "--netifcon") {
        ArgAction::Netifcon
    } else if str_equal(flag, "--nodecon") {
        ArgAction::Nodecon
    } else if str_equal(flag, "--fs_use") || str_equal(flag, "--fsuse") {
        ArgAction::FsUse
    } else if str_equal(flag, "--permissive") {
        ArgAction::Permissive
    } else if str_equal(flag, "--constrain") {
        ArgAction::Constrain
    } else if str_equal(flag, "--expand") || str_equal(flag, "--expand-attr") {
        ArgAction::Expand
    } else if str_equal(flag, "--json") {
        ArgAction::Json
    } else if str_equal(flag, "-n") || str_equal(flag, "--limit") {
        ArgAction::Limit
    } else {
        let cs = chars_of(flag);
        if cs.len() > 0 && cs[0] == '-' && !str_equal(flag, "-") {
            ArgAction::Unknown
        } else {
            ArgAction::Positional
        }
    }
}

/// A string of the characters `cs[lo..hi]`.
fn string_of(cs: &Vec<char>, lo: usize, hi: usize) -> (s: String)
    requires
        lo <= hi <= cs@.len(),
    ensures
        s@ == cs@.subrange(lo as int, hi as int),
{
    let mut s = String::new();
    let mut i = lo;
    while i < hi
        invariant
            lo <= i <= hi,
            hi <= cs@.len(),
            s@ == cs@.subrange(lo as int, i as int),
        decreases hi - i,
    {
        push_char(&mut s, cs[i]);
        assert(s@ =~= cs@.subrange(lo as int, i + 1));
        i = i + 1;
    }
    s
}

/// Splits `--opt=value` into (`--opt`, Some(value)).
fn split_flag(arg: &String) -> (r: (String, Option<String>))
    ensures
        (r.0@, opt_view(r.1)) == split_arg(arg@),
{
    let cs = chars_of(arg.as_str());
    if cs.len() > 0 && cs[0] == '-' {
        let mut k: usize = 0;
        while k < cs.len() && cs[k] != '='
            invariant
                k <= cs@.len(),
                cs@ == arg@,
                find_char(arg@, '=', 0) == find_char(arg@, '=', k as nat),
            decreases cs@.len() - k,
        {
            k = k + 1;
        }
        if k < cs.len() {
            let flag = string_of(&cs, 0, k);
            let value = string_of(&cs, k + 1, cs.len());
            (flag, Some(value))
        } else {
            (arg.clone(), None)
        }
    } else {
        (arg.clone(), None)
    }
}

/// Splits a permission list on commas and spaces, dropping empty pieces.
fn split_perms(raw: &String) -> (r: Vec<String>)
    ensures
        views(r@) == tokens(raw@),
{
    let cs = chars_of(raw.as_str());
    let mut done: Vec<String> = Vec::new();
    let mut cur = String::new();
    let mut i: usize = 0;
    assert(cs@.subrange(0, 0) =~= Seq::<char>::empty());
    assert(views(done@) =~= Seq::<Seq<char>>::empty());
    while i < cs.len()
        invariant
            i <= cs@.len(),
            cs@ == raw@,
            token_state(cs@.subrange(0, i as int)) == (views(done@), cur@),
        decreases cs@.len() - i,
    {
        let c = cs[i];
        assert(cs@.subrange(0, i + 1).drop_last() =~= cs@.subrange(0, i as int));
        let ghost before = views(done@);
        if c == ',' || c == ' ' {
            if !cur.as_str().is_empty() {
                done.push(cur);
                assert(views(done@) =~= before.push(cur@));
            }
            cur = String::new();
        } else {
            push_char(&mut cur, c);
        }
        i = i + 1;
    }
    assert(cs@.subrange(0, cs@.len() as int) =~= cs@);
    if !cur.as_str().is_empty() {
        let ghost before = views(done@);
        done.push(cur);
        assert(views(done@) =~= before.push(cur@));
    }
    done
}

fn requires_value(flag: &String) -> (e: String)
    ensures
        e@ == requires_value_msg(flag@),
{
    let mut e = String::new();
    push_str(&mut e, "option ");
    push_str(&mut e, flag.as_str());
    push_str(&mut e, " requires a value");
    assert(e@ =~= requires_value_msg(flag@));
    e
}

fn query_with(q: Query, a: ArgAction, v: String) -> (r: Query)
    ensures
        r@ == query_value(q@, a, v@),
{
    let mut q = q;
    match a {
        ArgAction::Source => q.source = Some(v),
        ArgAction::Target => q.target = Some(v),
        ArgAction::Class => q.class = Some(v),
        ArgAction::Perms => q.perms = split_perms(&v),
        _ => {},
    }
    q
}

/// Applies an option that takes a value.
fn with_value(cfg: Config, a: ArgAction, v: String) -> (r: Result<Config, String>)
    ensures
        match apply_value(cfg@, a, v@) {
            Ok(c) => r is Ok && r->Ok_0@ == c,
            Err(m) => r is Err && r->Err_0@ == m,
        },
{
    let mut cfg = cfg;
    if a == ArgAction::Limit {
        match parse_count(v.as_str()) {
            Some(n) => {
                cfg.limit = Some(n);
                Ok(cfg)
            },
            None => {
                let mut e = String::new();
                push_str(&mut e, "invalid --limit value: ");
                push_str(&mut e, v.as_str());
                assert(e@ =~= bad_limit_msg(v@));
                Err(e)
            },
        }
    } else if a == ArgAction::Expand {
        cfg.expand_attr = Some(v);
        Ok(cfg)
    } else {
        cfg.query = query_with(cfg.query, a, v);
        Ok(cfg)
    }
}

fn rules_after(r: RuleTypes, a: ArgAction) -> (out: RuleTypes)
    ensures
        out == switch_rules(r, a),
{
    let mut r = r;
    match a {
        ArgAction::Allow => r.allow = true,
        ArgAction::AuditAllow => r.auditallow = true,
        ArgAction::DontAudit => r.dontaudit = true,
        ArgAction::TypeTrans => r.type_trans = true,
        ArgAction::Xperm => r.xperm = true,
        ArgAction::AllRules => {
            r.allow = true;
            r.auditallow = true;
            r.dontaudit = true;
            r.type_trans = true;
            r.xperm = true;
        },
        _ => {},
    }
    r
}

fn lists_after(l: Listings, a: ArgAction) -> (out: Listings)
    ensures
        out == switch_lists(l, a),
{
    let mut l = l;
    match a {
        ArgAction::Stats => l.stats = true,
        ArgAction::Types => l.types = true,
        ArgAction::Attributes => l.attributes = true,
        ArgAction::Classes => l.classes = true,
        ArgAction::Booleans => l.booleans = true,
        ArgAction::Policycaps => l.policycaps = true,
        _ => {},
    }
    l
}

fn statements_after(s: Statements, a: ArgAction) -> (out: Statements)
    ensures
        out == switch_statements(s, a),
{
    let mut s = s;
    match a {
        ArgAction::Genfs => s.genfs = true,
        ArgAction::Sensitivities => s.sensitivities = true,
        ArgAction::Categories => s.categories = true,
        ArgAction::Constrain => s.constrain = true,
        ArgAction::Permissive => s.permissive = true,
        _ => {},
    }
    s
}

fn contexts_after(c: Contexts, a: ArgAction) -> (out: Contexts)
    ensures
        out == switch_contexts(c, a),
{
    let mut c = c;
    match a {
        ArgAction::InitialSids => c.initialsids = true,
        ArgAction::Portcon => c.portcon = true,
        ArgAction::Netifcon => c.netifcon = true,
        ArgAction::Nodecon => c.nodecon = true,
        ArgAction::FsUse => c.fsuse = true,
        _ => {},
    }
    c
}

/// Applies a switch.
fn with_switch(cfg: Config, a: ArgAction) -> (r: Config)
    ensures
        r@ == apply_switch(cfg@, a),
{
    let mut cfg = cfg;
    cfg.rules = rules_after(cfg.rules, a);
    cfg.lists = lists_after(cfg.lists, a);
    cfg.statements = statements_after(cfg.statements, a);
    cfg.contexts = contexts_after(cfg.contexts, a);
    cfg.query.mode_direct = cfg.query.mode_direct || a == ArgAction::Direct;
    cfg.json = cfg.json || a == ArgAction::Json;
    cfg
}

/// What reading one argument leads to: a final answer, or the
/// configuration so far and the index of the next argument.
pub enum Step {
    Stop(Invocation),
    Next(Config, usize),
}

/// Reads the argument at index `i` (and its value, when it takes one).
fn read_arg(args: &Vec<String>, i: usize, cfg: Config) -> (r: Result<Step, String>)
    requires
        i < args@.len(),
    ensures
        match r {
            Ok(Step::Stop(inv)) => sp_args(views(args@), i as nat, cfg@) == Ok::<SpecInvocation, Seq<char>>(inv@),
            Ok(Step::Next(c, j)) => i < j <= args@.len() && sp_args(views(args@), i as nat, cfg@)
                == sp_args(views(args@), j as nat, c@),
            Err(e) => sp_args(views(args@), i as nat, cfg@) == Err::<SpecInvocation, Seq<char>>(e@),
        },
{
    let ghost va = views(args@);
    let n = args.len();
    assert(va[i as int] == args@[i as int]@);
    let arg = &args[i];
    let (flag, inline) = split_flag(arg);
    let a = action_for(flag.as_str());
    if a == ArgAction::Help {
        Ok(Step::Stop(Invocation::Help))
    } else if a == ArgAction::Version {
        Ok(Step::Stop(Invocation::Version))
    } else if a == ArgAction::Unknown {
        let mut e = String::new();
        push_str(&mut e, "unknown option: ");
        push_str(&mut e, flag.as_str());
        push_str(&mut e, " (try --help)");
        assert(e@ =~= unknown_option_msg(flag@));
        Err(e)
    } else if a == ArgAction::Positional {
        if cfg.policy_path.is_some() {
            let mut e = String::new();
            push_str(&mut e, "unexpected extra argument: ");
            push_str(&mut e, arg.as_str());
            assert(e@ =~= extra_argument_msg(arg@));
            Err(e)
        } else {
            let mut cfg = cfg;
            cfg.policy_path = Some(arg.clone());
            Ok(Step::Next(cfg, i + 1))
        }
    } else if a == ArgAction::Source || a == ArgAction::Target || a == ArgAction::Class
        || a == ArgAction::Perms || a == ArgAction::Expand || a == ArgAction::Limit {
        match inline {
            Some(v) => {
                let c = with_value(cfg, a, v)?;
                Ok(Step::Next(c, i + 1))
            },
            None => {
                if i + 1 < args.len() {
                    assert(va[i + 1] == args@[i + 1]@);
                    let v = args[i + 1].clone();
                    let c = with_value(cfg, a, v)?;
                    Ok(Step::Next(c, i + 2))
                } else {
                    Err(requires_value(&flag))
                }
            },
        }
    } else {
        Ok(Step::Next(with_switch(cfg, a), i + 1))
    }
}

/// Reads the command-line arguments (without the program name): help, the
/// version, or the configuration of a run.
pub fn parse_args(args: Vec<String>) -> (r: Result<Invocation, String>)
    ensures
        match sp_args(views(args@), 0, default_config()) {
            Ok(inv) => r is Ok && r->Ok_0@ == inv,
            Err(m) => r is Err && r->Err_0@ == m,
        },
{
    let ghost va = views(args@);
    let mut cfg = Config::default();
    let mut i: usize = 0;
    while i < args.len()
        invariant
            i <= args@.len(),
            va == views(args@),
            sp_args(va, 0, default_config()) == sp_args(va, i as nat, cfg@),
        decreases args@.len() - i,
    {
        match read_arg(&args, i, cfg) {
            Err(e) => {
                return Err(e);
            },
            Ok(Step::Stop(inv)) => {
                return Ok(inv);
            },
            Ok(Step::Next(c, j)) => {
                cfg = c;
                i = j;
            },
        }
    }
    Ok(Invocation::Run(cfg))
}

} // verus!

