//! Scenarios: which task groups to deploy on which node.
use vstd::prelude::*;
use crate::ast::{hash_get, lookup, members_allowed, str_eq, verify_hash, Value};
use vstd::string::StringExecFns;
use crate::Error;

verus! {

/// Whether the regular expression `pattern` compiles.
pub uninterp spec fn regex_compiles(pattern: Seq<char>) -> bool;

/// Whether the regular expression `pattern` matches somewhere in `text`.
pub uninterp spec fn regex_matches(pattern: Seq<char>, text: Seq<char>) -> bool;

/// Relies on `regex::Regex::new`: whether a pattern compiles depends on the
/// pattern alone.
#[verifier::external_body]
fn compile_regex(pattern: &str) -> (r: Result<(), String>)
    ensures
        r is Ok <==> regex_compiles(pattern@),
{
    regex::Regex::new(pattern).map(|_| ()).map_err(|e| format!("{:?}", e))
}

/// Relies on `regex::Regex::is_match` (on the pattern compiled by
/// `regex::Regex::new`): whether a text matches depends on both alone.
#[verifier::external_body]
fn regex_is_match(pattern: &str, text: &str) -> (r: bool)
    ensures
        r == (regex_compiles(pattern@) && regex_matches(pattern@, text@)),
{
    regex::Regex::new(pattern).map(|re| re.is_match(text)).unwrap_or(false)
}

/// A condition on the node.
#[derive(Debug)]
pub enum TargetMatcher {
    /// The host name matches this regular expression.
    HostName(String),
    /// Elevated privilege is (`true`) or is not (`false`) held.
    Root(bool),
}

/// A named list of task groups, for the nodes that meet all its matchers.
#[derive(Debug)]
pub struct Scenario {
    pub name: String,
    pub tasks: Vec<String>,
    pub matches: Vec<TargetMatcher>,
}

/// Facts about the node that deploys.
pub struct NodeInformation {
    pub root: bool,
    pub hostname: String,
}

pub open spec fn matcher_holds(m: TargetMatcher, node: NodeInformation) -> bool {
    match m {
        TargetMatcher::HostName(p) => regex_compiles(p@) && regex_matches(p@, node.hostname@),
        TargetMatcher::Root(b) => b == node.root,
    }
}

pub open spec fn scenario_matches(s: Scenario, node: NodeInformation) -> bool {
    forall|j: int| 0 <= j < s.matches@.len() ==> matcher_holds(#[trigger] s.matches@[j], node)
}

/// Index `i` is the first scenario that matches the node.
pub open spec fn first_match(scenarios: Seq<Scenario>, node: NodeInformation, i: int) -> bool {
    &&& 0 <= i < scenarios.len()
    &&& scenario_matches(scenarios[i], node)
    &&& forall|k: int| 0 <= k < i ==> !scenario_matches(#[trigger] scenarios[k], node)
}

fn matcher_holds_exec(m: &TargetMatcher, node: &NodeInformation) -> (r: bool)
    ensures
        r == matcher_holds(*m, *node),
{
    match m {
        TargetMatcher::HostName(p) => regex_is_match(p.as_str(), node.hostname.as_str()),
        TargetMatcher::Root(b) => *b == node.root,
    }
}

fn scenario_holds(s: &Scenario, node: &NodeInformation) -> (r: bool)
    ensures
        r == scenario_matches(*s, *node),
{
    let mut j: usize = 0;
    while j < s.matches.len()
        invariant
            j <= s.matches@.len(),
            forall|k: int| 0 <= k < j ==> matcher_holds(#[trigger] s.matches@[k], *node),
        decreases s.matches.len() - j,
    {
        if !matcher_holds_exec(&s.matches[j], node) {
            return false;
        }
        j += 1;
    }
    true
}

/// The index of the first scenario, in order, all of whose matchers hold
/// of the node.
pub fn first_matching(scenarios: &[Scenario], node_info: &NodeInformation) -> (r: Option<usize>)
    ensures
        match r {
            Some(i) => first_match(scenarios@, *node_info, i as int),
            None => forall|k: int|
                0 <= k < scenarios@.len() ==> !scenario_matches(#[trigger] scenarios@[k], *node_info),
        },
{
    let mut i: usize = 0;
    while i < scenarios.len()
        invariant
            i <= scenarios@.len(),
            forall|k: int| 0 <= k < i ==> !scenario_matches(#[trigger] scenarios@[k], *node_info),
        decreases scenarios.len() - i,
    {
        if scenario_holds(&scenarios[i], node_info) {
            return Some(i);
        }
        i += 1;
    }
    None
}

/// The first scenario, in order, all of whose matchers hold of the node.
pub fn match_scenario<'a>(scenarios: &'a [Scenario], node_info: &NodeInformation) -> (r: Option<
    &'a Scenario,
>)
    ensures
        match r {
            Some(s) => exists|i: int| first_match(scenarios@, *node_info, i) && *s == scenarios@[i],
            None => forall|k: int|
                0 <= k < scenarios@.len() ==> !scenario_matches(#[trigger] scenarios@[k], *node_info),
        },
{
    match first_matching(scenarios, node_info) {
        Some(i) => Some(&scenarios[i]),
        None => None,
    }
}

/// Whether a configuration value describes a matcher: a hash whose first
/// (and only recognized) member is `hostname` with a regular expression
/// that compiles, or `root` with a boolean.
pub open spec fn valid_matcher(v: Value) -> bool {
    match v {
        Value::Hash(h) => h@.len() > 0 && ({
            ||| h@[0].0@ == "hostname"@ && members_allowed(h@, seq!["hostname"]) && h@[0].1 is Str
                && regex_compiles(h@[0].1->Str_0@)
            ||| h@[0].0@ == "root"@ && members_allowed(h@, seq!["root"]) && h@[0].1 is Bool
        }),
        _ => false,
    }
}

/// Whether matcher `m` is what the configuration value `v` describes.
pub open spec fn matcher_from(v: Value, m: TargetMatcher) -> bool {
    match v {
        Value::Hash(h) => h@.len() > 0 && if h@[0].0@ == "hostname"@ {
            m is HostName && m->HostName_0@ == h@[0].1->Str_0@
        } else {
            m == TargetMatcher::Root(h@[0].1->Bool_0)
        },
        _ => false,
    }
}

/// Whether the configuration value `v` describes a root matcher.
pub open spec fn is_root_matcher(v: Value) -> bool {
    v is Hash && v->Hash_0@.len() > 0 && v->Hash_0@[0].0@ == "root"@
}

/// Reads a matcher from the configuration.
pub fn parse_matcher(yaml: &Value) -> (r: Result<TargetMatcher, Error>)
    ensures
        r is Ok <==> valid_matcher(*yaml),
        r is Ok ==> matcher_from(*yaml, r->Ok_0),
{
    let obj = match yaml.as_hash() {
        Some(obj) => obj,
        None => {
            return Err(Error::InvalidPlaybook("matcher must be hash".to_owned(), yaml.duplicate()));
        },
    };
    if obj.len() == 0 {
        return Err(
            Error::InvalidPlaybook("matcher must be [string]: <matcher>".to_owned(), yaml.duplicate()),
        );
    }
    let target = obj[0].0.as_str();
    let val = &obj[0].1;
    proof {
        reveal_strlit("hostname");
        reveal_strlit("root");
        assert("hostname"@[0] != "root"@[0]);
    }
    if str_eq(target, "hostname") {
        let allowed: [&str; 1] = ["hostname"];
        assert(allowed@ == seq!["hostname"]);
        if let Err(e) = verify_hash(obj, &allowed, Some("matcher")) {
            return Err(e);
        }
        let src = match val.as_str() {
            Some(src) => src,
            None => {
                return Err(
                    Error::InvalidPlaybook("matcher.hostname must be string".to_owned(), val.duplicate()),
                );
            },
        };
        match compile_regex(src) {
            Ok(()) => Ok(TargetMatcher::HostName(src.to_owned())),
            Err(e) => Err(
                Error::InvalidPlaybook(
                    "cannot compile matcher.hostname ".to_owned().concat(src).concat(" due to ").concat(
                        e.as_str(),
                    ),
                    val.duplicate(),
                ),
            ),
        }
    } else if str_eq(target, "root") {
        let allowed: [&str; 1] = ["root"];
        assert(allowed@ == seq!["root"]);
        if let Err(e) = verify_hash(obj, &allowed, Some("matcher")) {
            return Err(e);
        }
        match val.as_bool() {
            Some(b) => Ok(TargetMatcher::Root(b)),
            None => Err(
                Error::InvalidPlaybook("matcher.root must be boolean".to_owned(), yaml.duplicate()),
            ),
        }
    } else {
        Err(
            Error::InvalidPlaybook(
                "unsupported matcher \"".to_owned().concat(target).concat("\""),
                yaml.duplicate(),
            ),
        )
    }
}

/// The member `key` of a hash value.
pub open spec fn member(v: Value, key: Seq<char>) -> Option<Value> {
    lookup(v->Hash_0@, key)
}

/// Whether a configuration value describes a scenario: a hash with only
/// `name` (a string), `match` (an array of matchers) and `tasks` (an array
/// of strings).
pub open spec fn valid_scenario(v: Value) -> bool {
    &&& v is Hash
    &&& members_allowed(v->Hash_0@, seq!["name", "match", "tasks"])
    &&& member(v, "name"@) is Some && member(v, "name"@)->0 is Str
    &&& member(v, "match"@) is Some && member(v, "match"@)->0 is Array
    &&& member(v, "tasks"@) is Some && member(v, "tasks"@)->0 is Array
    &&& forall|j: int|
        0 <= j < member(v, "match"@)->0->Array_0@.len() ==> valid_matcher(
            #[trigger] member(v, "match"@)->0->Array_0@[j],
        )
    &&& forall|j: int|
        0 <= j < member(v, "tasks"@)->0->Array_0@.len() ==> (#[trigger] member(
            v,
            "tasks"@,
        )->0->Array_0@[j]) is Str
}

/// Whether scenario `s` is what the configuration value `v` describes: its
/// name, its task groups, and its matchers, followed by one that asks for
/// no elevated privilege when none of them is a root matcher.
pub open spec fn scenario_from(v: Value, s: Scenario) -> bool {
    let ms = member(v, "match"@)->0->Array_0@;
    let ts = member(v, "tasks"@)->0->Array_0@;
    &&& s.name@ == member(v, "name"@)->0->Str_0@
    &&& s.tasks@.len() == ts.len()
    &&& forall|j: int| 0 <= j < ts.len() ==> (#[trigger] s.tasks@[j])@ == ts[j]->Str_0@
    &&& forall|j: int| 0 <= j < ms.len() ==> matcher_from(ms[j], #[trigger] s.matches@[j])
    &&& (exists|j: int| 0 <= j < ms.len() && is_root_matcher(#[trigger] ms[j])) ==> s.matches@.len()
        == ms.len()
    &&& !(exists|j: int| 0 <= j < ms.len() && is_root_matcher(#[trigger] ms[j])) ==> {
        &&& s.matches@.len() == ms.len() + 1
        &&& s.matches@[ms.len() as int] == TargetMatcher::Root(false)
    }
}

/// Reads a scenario from the configuration.
pub fn parse_scenario(yaml: &Value) -> (r: Result<Scenario, Error>)
    ensures
        r is Ok <==> valid_scenario(*yaml),
        r is Ok ==> scenario_from(*yaml, r->Ok_0),
{
    let obj = match yaml.as_hash() {
        Some(obj) => obj,
        None => {
            return Err(Error::InvalidPlaybook("scenario mast be hash".to_owned(), yaml.duplicate()));
        },
    };
    let allowed: [&str; 3] = ["name", "match", "tasks"];
    assert(allowed@ == seq!["name", "match", "tasks"]);
    if let Err(e) = verify_hash(obj, &allowed, Some("scenario")) {
        return Err(e);
    }
    let invalid = "scenario.name must be string, scenario.match and scenario.tasks must be array";
    let (name, matchers, tasks) = match (hash_get(obj, "name"), hash_get(obj, "match"), hash_get(obj, "tasks")) {
        (Some(Value::Str(name)), Some(Value::Array(matchers)), Some(Value::Array(tasks))) => (name, matchers, tasks),
        _ => {
            return Err(Error::InvalidPlaybook(invalid.to_owned(), yaml.duplicate()));
        },
    };
    let mut matches: Vec<TargetMatcher> = Vec::new();
    let mut has_root = false;
    let mut j: usize = 0;
    while j < matchers.len()
        invariant
            member(*yaml, "match"@) == Some(Value::Array(*matchers)),
            j <= matchers@.len(),
            matches@.len() == j,
            forall|k: int| 0 <= k < j ==> valid_matcher(#[trigger] matchers@[k]),
            forall|k: int| 0 <= k < j ==> matcher_from(matchers@[k], #[trigger] matches@[k]),
            has_root <==> exists|k: int| 0 <= k < j && is_root_matcher(#[trigger] matchers@[k]),
        decreases matchers.len() - j,
    {
        let m = match parse_matcher(&matchers[j]) {
            Ok(m) => m,
            Err(e) => {
                assert(!valid_matcher(member(*yaml, "match"@)->0->Array_0@[j as int]));
                return Err(e);
            },
        };
        proof {
            reveal_strlit("hostname");
            reveal_strlit("root");
            assert("hostname"@[0] != "root"@[0]);
        }
        if let TargetMatcher::Root(_) = m {
            has_root = true;
            assert(is_root_matcher(matchers@[j as int]));
        } else {
            assert(!is_root_matcher(matchers@[j as int]));
        }
        matches.push(m);
        j += 1;
    }
    if !has_root {
        matches.push(TargetMatcher::Root(false));
    }
    let mut names: Vec<String> = Vec::new();
    let mut k: usize = 0;
    while k < tasks.len()
        invariant
            member(*yaml, "tasks"@) == Some(Value::Array(*tasks)),
            k <= tasks@.len(),
            names@.len() == k,
            forall|i: int| 0 <= i < k ==> (#[trigger] tasks@[i]) is Str && names@[i]@ == tasks@[i]->Str_0@,
        decreases tasks.len() - k,
    {
        match tasks[k].as_str() {
            Some(t) => names.push(t.to_owned()),
            None => {
                return Err(
                    Error::InvalidPlaybook("scenario.tasks must be array of string".to_owned(), yaml.duplicate()),
                );
            },
        }
        k += 1;
    }
    Ok(Scenario { tasks: names, matches, name: name.clone() })
}

/// Of a scenario that asks for elevated privilege followed by one that
/// asks for none (each with no other matcher), the first is selected on an
/// elevated node and the second on any other.
pub proof fn law_root_selects_by_privilege(elevated: Scenario, plain: Scenario, node: NodeInformation)
    requires
        elevated.matches@ == seq![TargetMatcher::Root(true)],
        plain.matches@ == seq![TargetMatcher::Root(false)],
    ensures
        first_match(seq![elevated, plain], node, if node.root { 0 } else { 1 }),
{
    let s = seq![elevated, plain];
    assert(s[0] == elevated && s[1] == plain);
    if node.root {
        assert(matcher_holds(elevated.matches@[0], node));
        assert(scenario_matches(elevated, node));
    } else {
        assert(!matcher_holds(elevated.matches@[0], node));
        assert(!scenario_matches(elevated, node));
        assert(matcher_holds(plain.matches@[0], node));
        assert(scenario_matches(plain, node));
    }
}

} // verus!
