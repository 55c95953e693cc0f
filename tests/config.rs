use dotman::ast::{not_allowed_member, verify_hash, Value};
use dotman::playbook::{enlist_taskgroups, PlayBook, TaskBuilder};
use dotman::scenario::{first_matching, match_scenario, parse_scenario, NodeInformation, TargetMatcher};
use dotman::tasks::{link, parse_builtin};
use dotman::{Error, TaskEntity};

fn s(x: &str) -> Value {
    Value::Str(x.to_owned())
}

fn hash(pairs: Vec<(&str, Value)>) -> Value {
    Value::Hash(pairs.into_iter().map(|(k, v)| (k.to_owned(), v)).collect())
}

fn scenario_value(matchers: Vec<Value>) -> Value {
    hash(vec![
        ("name", s("test_scenario")),
        ("match", Value::Array(matchers)),
        ("tasks", Value::Array(vec![s("task1")])),
    ])
}

#[test]
fn test_not_allowed_member() {
    let map = vec![
        ("a".to_owned(), Value::Int(1)),
        ("b".to_owned(), Value::Int(2)),
        ("c".to_owned(), Value::Int(3)),
        ("d".to_owned(), Value::Int(4)),
    ];
    let mut not_allowed = not_allowed_member(&map, &["a", "c"]);
    not_allowed.sort_by(|(k1, _), (k2, _)| k1.cmp(k2));
    let keys: Vec<&str> = not_allowed.iter().map(|(k, _)| k.as_str()).collect();
    assert_eq!(keys, vec!["b", "d"]);
    assert!(matches!(not_allowed[0].1, Value::Int(2)));
    assert!(matches!(not_allowed[1].1, Value::Int(4)));
}

#[test]
fn unknown_member_is_reported() {
    let map = vec![("type".to_owned(), s("x")), ("bogus".to_owned(), Value::Int(1))];
    match verify_hash(&map, &["type"], Some("tasks.x")) {
        Err(Error::UnrecognizedMembers { prefix, members }) => {
            assert_eq!(prefix.as_deref(), Some("tasks.x"));
            assert_eq!(members.len(), 1);
            assert_eq!(members[0].0, "bogus");
        },
        _ => panic!("unknown member is not reported"),
    }
    assert!(verify_hash(&map, &["type", "bogus"], None).is_ok());
}

#[test]
fn test_parse_scenario() {
    let ast = scenario_value(vec![hash(vec![("hostname", s("hoge"))])]);
    let scenario = parse_scenario(&ast).unwrap();
    assert_eq!(scenario.tasks, vec!["task1".to_owned()]);
    assert_eq!(scenario.name, "test_scenario");
    assert_eq!(scenario.matches.len(), 2);
    assert!(matches!(&scenario.matches[0], TargetMatcher::HostName(h) if h == "hoge"));
    assert!(matches!(scenario.matches[1], TargetMatcher::Root(false)));
}

#[test]
fn invalid_matchers_are_rejected() {
    assert!(parse_scenario(&scenario_value(vec![hash(vec![("hostname", s("("))])])).is_err());
    assert!(parse_scenario(&scenario_value(vec![hash(vec![("os", s("linux"))])])).is_err());
    assert!(parse_scenario(&scenario_value(vec![hash(vec![("root", s("yes"))])])).is_err());
    assert!(parse_scenario(&s("scenario")).is_err());
}

fn node(hostname: &str, root: bool) -> NodeInformation {
    NodeInformation { hostname: hostname.to_owned(), root }
}

#[test]
fn test_match_scenario() {
    let nonroot1 = parse_scenario(&scenario_value(vec![hash(vec![("hostname", s("^hoge$"))])])).unwrap();
    let nonroot2 = parse_scenario(&scenario_value(vec![hash(vec![("hostname", s("^fuga$"))])])).unwrap();
    let root = parse_scenario(&scenario_value(vec![
        hash(vec![("hostname", s("^hoge$"))]),
        hash(vec![("root", Value::Bool(true))]),
    ]))
    .unwrap();
    let scenarios = vec![nonroot1, nonroot2, root];
    let picked = |n: &NodeInformation| {
        match_scenario(scenarios.as_slice(), n).map(|p| scenarios.iter().position(|q| std::ptr::eq(p, q)).unwrap())
    };
    assert_eq!(picked(&node("hoge", false)), Some(0));
    assert_eq!(picked(&node("fuga", false)), Some(1));
    assert_eq!(picked(&node("hoge", true)), Some(2));
    assert_eq!(picked(&node("bar", true)), None);
}

#[test]
fn elevated_scenario_selected_by_privilege() {
    let a = parse_scenario(&scenario_value(vec![hash(vec![("root", Value::Bool(true))])])).unwrap();
    let b = parse_scenario(&scenario_value(vec![])).unwrap();
    let scenarios = vec![a, b];
    assert_eq!(first_matching(scenarios.as_slice(), &node("any", true)), Some(0));
    assert_eq!(first_matching(scenarios.as_slice(), &node("any", false)), Some(1));
}

struct Builtins;

impl TaskBuilder for Builtins {
    fn parse(key: &str, hash: &Vec<(String, Value)>) -> Option<Result<TaskEntity, Error>> {
        parse_builtin(key, hash)
    }
    fn ids(&self) -> Vec<String> {
        vec!["cargo".to_owned()]
    }
    fn serialize_ids(&self) -> Vec<String> {
        vec!["cargo".to_owned()]
    }
    fn cache(&self, _key: &str) -> Option<Vec<u8>> {
        None
    }
}

fn playbook_value(tasks: Vec<Value>) -> Value {
    hash(vec![
        (
            "taskgroups",
            hash(vec![(
                "task1",
                Value::Array(vec![hash(vec![("type", s("link")), ("src", s("a")), ("dest", s("b"))])]),
            )]),
        ),
        (
            "scenarios",
            Value::Array(vec![hash(vec![
                ("name", s("main")),
                ("match", Value::Array(vec![])),
                ("tasks", Value::Array(tasks)),
            ])]),
        ),
    ])
}

#[test]
fn playbook_deploys_named_and_matched_scenarios() {
    let pb = PlayBook::from_value(&playbook_value(vec![s("task1")]), "/base".to_owned(), &Builtins).unwrap();
    let (name, groups) = pb.deploys(None, &node("h", false)).unwrap();
    assert_eq!(name, "main");
    assert_eq!(groups, vec![0]);
    assert_eq!(pb.taskgroups[0].1[0].1.name(), "link a => b");
    assert!(pb.deploys(Some("main"), &node("h", true)).is_ok());
    assert!(matches!(pb.deploys(Some("other"), &node("h", false)), Err(Error::AnyScenarioDoesNotMatch)));
    assert!(matches!(pb.deploys(None, &node("h", true)), Err(Error::AnyScenarioDoesNotMatch)));
}

#[test]
fn missing_task_group_is_reported() {
    let pb = PlayBook::from_value(&playbook_value(vec![s("nope")]), "/base".to_owned(), &Builtins).unwrap();
    assert!(matches!(pb.deploys(None, &node("h", false)), Err(Error::TaskGroupNotFound(ref g)) if g == "nope"));
    let r = enlist_taskgroups(&pb.taskgroups, &["task1".to_owned(), "task1".to_owned()]);
    assert_eq!(r.unwrap(), vec![0, 0]);
}

#[test]
fn unsupported_task_kind_is_rejected() {
    let v = hash(vec![
        ("taskgroups", hash(vec![("g", Value::Array(vec![hash(vec![("type", s("ftp"))])]))])),
        ("scenarios", Value::Array(vec![])),
    ]);
    assert!(matches!(PlayBook::from_value(&v, "/".to_owned(), &Builtins), Err(Error::InvalidPlaybook(_, _))));
    assert!(PlayBook::from_value(&s("x"), "/".to_owned(), &Builtins).is_err());
}

#[test]
fn missing_required_member_fails_loading() {
    let only_src = vec![("src".to_owned(), s("a"))];
    assert!(matches!(link::parse(&only_src), Err(Error::PlaybookLoadFailed(ref m)) if m == "link.dest is required"));
    let bad = vec![("src".to_owned(), s("a")), ("dest".to_owned(), Value::Int(1))];
    assert!(matches!(link::parse(&bad), Err(Error::PlaybookLoadFailed(ref m)) if m == "link.dest must be string"));
}

#[test]
fn unknown_task_member_names_prefix() {
    let v = vec![("type".to_owned(), s("cargo")), ("package".to_owned(), s("x")), ("color".to_owned(), s("red"))];
    match dotman::tasks::cargo::parse(&v) {
        Err(Error::UnrecognizedMembers { prefix, members }) => {
            assert_eq!(prefix.as_deref(), Some("tasks.cargo"));
            assert_eq!(members.len(), 1);
            assert_eq!(members[0].0, "color");
            assert!(matches!(&members[0].1, Value::Str(c) if c == "red"));
        },
        _ => panic!("unknown member is not reported"),
    }
    let both = vec![("cask".to_owned(), s("a")), ("formula".to_owned(), s("b"))];
    assert!(matches!(dotman::tasks::brew::parse(&both), Err(Error::PlaybookLoadFailed(ref m)) if m == "one of brew.formula or brew.cask is required."));
}
