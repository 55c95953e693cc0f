use dotman::tasks::cp::{execute_cp, join_path, render_requests, CpContext, CpPlan, Node, NodeKind, Op};
use dotman::template::{RenderError, TemplateVar, Vars};
use dotman::{TaskContext, TaskError};

fn node(path: &str, kind: NodeKind, content: &str) -> Node {
    Node { path: path.to_owned(), kind, content: content.as_bytes().to_vec() }
}

/// Renders a bound file with liquid, as a caller of the reconciler does.
fn render(text: &[u8], vars: &Vars) -> Result<Vec<u8>, RenderError> {
    let src = std::str::from_utf8(text).map_err(|_| RenderError::Parse)?;
    let mut obj = liquid::Object::new();
    for (k, v) in vars {
        let value = match v {
            TemplateVar::Str(s) | TemplateVar::Real(s) => liquid::model::Value::scalar(s.clone()),
            TemplateVar::Int(i) => liquid::model::Value::scalar(*i),
        };
        obj.insert(k.clone().into(), value);
    }
    let parser = liquid::ParserBuilder::with_stdlib().build().map_err(|_| RenderError::Parse)?;
    let template = parser.parse(src).map_err(|_| RenderError::Parse)?;
    template.render(&obj).map(String::into_bytes).map_err(|e| RenderError::Render(e.to_string()))
}

fn run_cp(c: &CpContext, src_root: &str, dest_root: &str, src: &Vec<Node>, dest: &Vec<Node>) -> CpPlan {
    let requests = render_requests(c, src);
    let rendered: Vec<Option<Result<Vec<u8>, RenderError>>> =
        src.iter().zip(requests.iter()).map(|(n, r)| r.map(|vars| render(&n.content, vars))).collect();
    execute_cp(c, src_root, dest_root, src, dest, &rendered)
}

fn ctx(dryrun: bool, merge: bool) -> CpContext {
    CpContext { base: "/base".to_owned(), dryrun, merge, templates: Vec::new() }
}

fn op_at<'a>(plan: &'a CpPlan, path: &str) -> Option<&'a Op> {
    plan.actions.iter().find(|a| a.path == path).map(|a| &a.op)
}

fn example_trees() -> (Vec<Node>, Vec<Node>) {
    let src = vec![
        node("a.txt", NodeKind::File, "X"),
        node("sub/b.txt", NodeKind::File, "Y"),
        node("sub", NodeKind::Dir, ""),
        node("", NodeKind::Dir, ""),
    ];
    let dest = vec![
        node("a.txt", NodeKind::File, "X"),
        node("c.txt", NodeKind::File, "Z"),
        node("", NodeKind::Dir, ""),
    ];
    (src, dest)
}

#[test]
fn example_without_merge() {
    let (src, dest) = example_trees();
    let plan = run_cp(&ctx(false, false), "/base/dots", "/home/u", &src, &dest);
    assert!(matches!(plan.result, Ok(true)));
    assert_eq!(plan.actions.len(), 2);
    assert!(op_at(&plan, "a.txt").is_none());
    match op_at(&plan, "sub/b.txt") {
        Some(Op::Create(b)) => assert_eq!(b.as_slice(), b"Y"),
        _ => panic!("sub/b.txt is not created"),
    }
    assert!(matches!(op_at(&plan, "c.txt"), Some(Op::RemoveFile)));
    let target = plan.actions.iter().find(|a| a.path == "sub/b.txt").unwrap();
    assert_eq!(target.target, "/home/u/sub/b.txt");
}

#[test]
fn merge_keeps_destination_only_entries() {
    let (src, mut dest) = example_trees();
    dest.insert(0, node("extra", NodeKind::Dir, ""));
    dest.insert(0, node("link", NodeKind::Symlink, ""));
    let plan = run_cp(&ctx(false, true), "/s", "/d", &src, &dest);
    assert!(matches!(plan.result, Ok(true)));
    assert_eq!(plan.actions.len(), 1);
    assert!(op_at(&plan, "c.txt").is_none());
    assert!(op_at(&plan, "extra").is_none());
    assert!(op_at(&plan, "link").is_none());
}

#[test]
fn removal_kinds_without_merge() {
    let src = vec![node("", NodeKind::Dir, "")];
    let dest = vec![
        node("d", NodeKind::Dir, ""),
        node("l", NodeKind::Symlink, ""),
        node("o", NodeKind::Other, ""),
        node("", NodeKind::Dir, ""),
    ];
    let plan = run_cp(&ctx(false, false), "/s", "/d", &src, &dest);
    assert!(matches!(plan.result, Ok(true)));
    assert!(matches!(op_at(&plan, "d"), Some(Op::RemoveDir)));
    assert!(matches!(op_at(&plan, "l"), Some(Op::RemoveFile)));
    assert!(matches!(op_at(&plan, "o"), Some(Op::RemoveFile)));
}

#[test]
fn synced_tree_is_unchanged() {
    let src = vec![node("a.txt", NodeKind::File, "X"), node("", NodeKind::Dir, "")];
    let dest = vec![node("a.txt", NodeKind::File, "X"), node("", NodeKind::Dir, "")];
    let plan = run_cp(&ctx(false, false), "/s", "/d", &src, &dest);
    assert!(matches!(plan.result, Ok(false)));
    assert!(plan.actions.is_empty());
}

#[test]
fn second_run_after_applying_is_unchanged() {
    let (src, _) = example_trees();
    let dest = vec![
        node("a.txt", NodeKind::File, "X"),
        node("sub/b.txt", NodeKind::File, "Y"),
        node("sub", NodeKind::Dir, ""),
        node("", NodeKind::Dir, ""),
    ];
    let plan = run_cp(&ctx(false, false), "/s", "/d", &src, &dest);
    assert!(matches!(plan.result, Ok(false)));
    assert!(plan.actions.is_empty());
}

#[test]
fn differing_file_is_overwritten() {
    let src = vec![node("a.txt", NodeKind::File, "new")];
    let dest = vec![node("a.txt", NodeKind::File, "old")];
    let plan = run_cp(&ctx(false, false), "/s/a.txt", "/d/a.txt", &src, &dest);
    assert!(matches!(plan.result, Ok(true)));
    match op_at(&plan, "a.txt") {
        Some(Op::Overwrite(b)) => assert_eq!(b.as_slice(), b"new"),
        _ => panic!("a.txt is not overwritten"),
    }
}

#[test]
fn file_replaces_directory_and_other() {
    let src = vec![node("x", NodeKind::File, "1"), node("y", NodeKind::File, "2")];
    let dest = vec![node("x", NodeKind::Dir, ""), node("y", NodeKind::Other, "")];
    let plan = run_cp(&ctx(false, false), "/s", "/d", &src, &dest);
    assert!(matches!(plan.result, Ok(true)));
    assert!(matches!(op_at(&plan, "x"), Some(Op::ReplaceDir(_))));
    assert!(matches!(op_at(&plan, "y"), Some(Op::ReplaceOther(_))));
}

#[test]
fn symlink_destination_fails() {
    let src = vec![node("x", NodeKind::File, "1")];
    let dest = vec![node("x", NodeKind::Symlink, "")];
    let plan = run_cp(&ctx(false, false), "/s", "/d", &src, &dest);
    assert!(matches!(plan.result, Err(TaskError::WellKnown(_))));
}

#[test]
fn unknown_source_kinds_fail() {
    let src = vec![node("x", NodeKind::Other, "")];
    let plan = run_cp(&ctx(false, false), "/s", "/d", &src, &Vec::new());
    assert!(matches!(plan.result, Err(TaskError::WellKnown(ref m)) if m == "unknown file type"));
    let src = vec![node("x", NodeKind::Symlink, "")];
    let plan = run_cp(&ctx(false, false), "/s", "/d", &src, &Vec::new());
    assert!(matches!(plan.result, Err(TaskError::WellKnown(ref m)) if m == "symlink is unsupported."));
}

#[test]
fn dry_run_classifies_alike() {
    let (src, dest) = example_trees();
    let real = run_cp(&ctx(false, false), "/s", "/d", &src, &dest);
    let dry = run_cp(&ctx(true, false), "/s", "/d", &src, &dest);
    assert!(dry.actions.is_empty());
    assert!(matches!(real.result, Ok(true)));
    assert!(matches!(dry.result, Ok(true)));
}

fn bob_templates() -> Vec<(Vec<String>, Vec<(String, TemplateVar)>)> {
    vec![(vec!["tmpl.txt".to_owned()], vec![("name".to_owned(), TemplateVar::Str("bob".to_owned()))])]
}

#[test]
fn template_is_rendered_into_new_file() {
    let src = vec![node("tmpl.txt", NodeKind::File, "hi {{name}}")];
    let c = CpContext { base: "/b".to_owned(), dryrun: false, merge: false, templates: bob_templates() };
    let plan = run_cp(&c, "/s", "/d", &src, &Vec::new());
    assert!(matches!(plan.result, Ok(true)));
    match op_at(&plan, "tmpl.txt") {
        Some(Op::Create(b)) => assert_eq!(b.as_slice(), b"hi bob"),
        _ => panic!("tmpl.txt is not created"),
    }
}

#[test]
fn identical_rendering_is_unchanged() {
    let src = vec![node("tmpl.txt", NodeKind::File, "hi {{name}}")];
    let dest = vec![node("tmpl.txt", NodeKind::File, "hi bob")];
    let c = CpContext { base: "/b".to_owned(), dryrun: false, merge: false, templates: bob_templates() };
    let plan = run_cp(&c, "/s", "/d", &src, &dest);
    assert!(matches!(plan.result, Ok(false)));
    assert!(plan.actions.is_empty());
}

#[test]
fn unbound_file_is_copied_raw() {
    let src = vec![node("other.txt", NodeKind::File, "hi {{name}}")];
    let c = CpContext { base: "/b".to_owned(), dryrun: false, merge: false, templates: bob_templates() };
    let plan = run_cp(&c, "/s", "/d", &src, &Vec::new());
    match op_at(&plan, "other.txt") {
        Some(Op::Create(b)) => assert_eq!(b.as_slice(), b"hi {{name}}"),
        _ => panic!("other.txt is not created"),
    }
}

#[test]
fn broken_template_is_well_known_error() {
    let src = vec![node("tmpl.txt", NodeKind::File, "hi {{name")];
    let c = CpContext { base: "/b".to_owned(), dryrun: false, merge: false, templates: bob_templates() };
    let plan = run_cp(&c, "/s", "/d", &src, &Vec::new());
    assert!(matches!(plan.result, Err(TaskError::WellKnown(ref m)) if m == "cannot parse template \"/s/tmpl.txt\""));
}

#[test]
fn join_path_forms() {
    assert_eq!(join_path("/a", "b/c"), "/a/b/c");
    assert_eq!(join_path("/a/", "b"), "/a/b");
    assert_eq!(join_path("/a", ""), "/a");
    assert_eq!(join_path("", "b"), "b");
}

#[test]
fn scenario_variable_is_added() {
    let tc = TaskContext { base: "/b".to_owned(), dryrun: false, scenario: "work".to_owned() };
    let c = CpContext::extend(&tc, true, bob_templates());
    let vars = &c.templates[0].1;
    assert_eq!(vars.len(), 2);
    assert_eq!(vars[1].0, "_scenario");
    assert!(matches!(&vars[1].1, TemplateVar::Str(s) if s == "work"));
    assert!(c.merge);
}

#[test]
fn failing_render_is_unknown_error() {
    let src = vec![node("tmpl.txt", NodeKind::File, "hi {{nobody}}")];
    let c = CpContext { base: "/b".to_owned(), dryrun: false, merge: false, templates: bob_templates() };
    let plan = run_cp(&c, "/s", "/d", &src, &Vec::new());
    assert!(matches!(plan.result, Err(TaskError::Unknown(_))));
}

#[test]
fn same_size_different_bytes_are_overwritten() {
    let src = vec![node("a.txt", NodeKind::File, "abc")];
    let dest = vec![node("a.txt", NodeKind::File, "abd")];
    let plan = run_cp(&ctx(false, false), "/s", "/d", &src, &dest);
    assert!(matches!(op_at(&plan, "a.txt"), Some(Op::Overwrite(_))));
}

#[test]
fn unrendered_bound_file_is_unknown_error() {
    let src = vec![node("tmpl.txt", NodeKind::File, "hi {{name}}")];
    let c = CpContext { base: "/b".to_owned(), dryrun: false, merge: false, templates: bob_templates() };
    let plan = execute_cp(&c, "/s", "/d", &src, &Vec::new(), &vec![None]);
    assert!(matches!(plan.result, Err(TaskError::Unknown(ref m)) if m == "template was not rendered: /s/tmpl.txt"));
    let requests = render_requests(&c, &src);
    assert!(requests[0].is_some());
}
