use dotman::ast::Value;
use dotman::scheduler::{must_serialize, CacheCells, RunStats};
use dotman::tasks::brew::{self, parse_brew_list, parse_installed_package, BrewTask, Cache};
use dotman::tasks::cargo::{self, parse_cargo_install_list, CargoTask};
use dotman::tasks::env::{decimal_string, env_change, yaml_to_str, EnvTask, VarState};
use dotman::tasks::{check_sha256, next_step, sh, wget, Action, DoneCheck, Phase, Sha256Set};
use dotman::tasks::wget::{wget_step, WgetStep};
use dotman::tasks::link::{link_step, LinkState, LinkStep};
use dotman::template::bytes_eq;
use dotman::{TaskEntity, TaskError};

fn s(x: &str) -> Value {
    Value::Str(x.to_owned())
}

fn obj(pairs: Vec<(&str, Value)>) -> Vec<(String, Value)> {
    pairs.into_iter().map(|(k, v)| (k.to_owned(), v)).collect()
}

fn pairs(items: &[(&str, &str)]) -> Vec<(String, String)> {
    items.iter().map(|(a, b)| (a.to_string(), b.to_string())).collect()
}

#[test]
fn test_parse_installed_packages() {
    let (rest, (name, ver)) = parse_installed_package("arm-none-eabi-gcc 10.3-2021.07").unwrap();
    assert_eq!((rest, (name.as_str(), ver.as_str())), ("", ("arm-none-eabi-gcc", "10.3-2021.07")));
}

#[test]
fn brew_list_stops_at_malformed_line() {
    let list = parse_brew_list("git 2.40.0\nwget 1.21\n!bad line\nzsh 5.9\n");
    assert_eq!(list, pairs(&[("git", "2.40.0"), ("wget", "1.21")]));
    assert!(parse_installed_package("noversion").is_none());
}

#[test]
fn test_parse_cargo_install_list() {
    let src = "bandwhich v0.20.0:\n    bandwhich\nbingrep v0.9.0:\n    bingrep\ncargo-edit v0.8.0:\n    cargo-add\n    cargo-rm\n    cargo-set-version\n    cargo-upgrade\ngping v1.2.5:\n    gping\nhelix-term v0.1.0 (/home/namachan/Project/github.com/topecongiro/helix/helix-term):\n    hx\nzoxide v0.7.5:\n    zoxide\n";
    let mut list = parse_cargo_install_list(src);
    list.sort();
    assert_eq!(
        list,
        pairs(&[
            ("bandwhich", "v0.20.0"),
            ("bingrep", "v0.9.0"),
            ("cargo-edit", "v0.8.0"),
            ("gping", "v1.2.5"),
            ("helix-term", "v0.1.0"),
            ("zoxide", "v0.7.5"),
        ])
    );
}

#[test]
fn cargo_install_decision() {
    let installed = pairs(&[("gping", "v1.2.5")]);
    let any = CargoTask { package: "gping".to_owned(), version: None };
    assert!(any.install_args(&installed).is_none());
    let pinned = CargoTask { package: "gping".to_owned(), version: Some("1.3.0".to_owned()) };
    assert_eq!(pinned.install_args(&installed).unwrap(), vec!["install", "gping", "--version", "1.3.0"]);
    let same = CargoTask { package: "gping".to_owned(), version: Some("v1.2.5".to_owned()) };
    assert!(same.install_args(&installed).is_none());
    let fresh = CargoTask { package: "zoxide".to_owned(), version: None };
    assert_eq!(fresh.install_args(&installed).unwrap(), vec!["install", "zoxide"]);
    assert_eq!(pinned.name(), "cargo install gping:1.3.0");
    assert_eq!(fresh.name(), "cargo install zoxide");
}

#[test]
fn cargo_task_parsing() {
    let t = cargo::parse(&obj(vec![("type", s("cargo")), ("package", s("ripgrep")), ("version", s("14.0.0"))]));
    assert!(matches!(t, Ok(TaskEntity::Cargo(ref c)) if c.package == "ripgrep" && c.version.as_deref() == Some("14.0.0")));
    assert!(cargo::parse(&obj(vec![("type", s("cargo"))])).is_err());
    assert!(cargo::parse(&obj(vec![("package", s("x")), ("version", Value::Int(1))])).is_err());
}

#[test]
fn brew_install_decision() {
    let cache = Cache { casks: pairs(&[("iterm2", "3.4")]), formulae: pairs(&[("git", "2.40")]) };
    let cask = BrewTask::Cask { name: "iterm2".to_owned(), ver: None };
    assert!(cask.install_args(&cache).is_none());
    let newer = BrewTask::Cask { name: "iterm2".to_owned(), ver: Some("3.5".to_owned()) };
    assert_eq!(newer.install_args(&cache).unwrap(), vec!["install", "--casks", "iterm2@3.5"]);
    let formula = BrewTask::Formulae { name: "wget".to_owned(), ver: None };
    assert_eq!(formula.install_args(&cache).unwrap(), vec!["install", "wget"]);
    assert_eq!(newer.name(), "brew cask iterm2@3.5");
}

#[test]
fn brew_task_parsing() {
    let t = brew::parse(&obj(vec![("cask", s("iterm2")), ("version", s("3.5"))]));
    assert!(matches!(t, Ok(TaskEntity::Brew(BrewTask::Cask { ref name, ref ver })) if name == "iterm2" && ver.as_deref() == Some("3.5")));
    assert!(brew::parse(&obj(vec![("cask", s("a")), ("formula", s("b"))])).is_err());
    assert!(brew::parse(&obj(vec![])).is_err());
}

#[test]
fn env_values_and_names() {
    assert_eq!(decimal_string(-42), "-42");
    assert_eq!(decimal_string(0), "0");
    assert_eq!(decimal_string(i64::MIN), "-9223372036854775808");
    assert_eq!(yaml_to_str(&Value::Bool(true)).unwrap().unwrap(), "true");
    assert_eq!(yaml_to_str(&Value::Int(7)).unwrap().unwrap(), "7");
    assert!(yaml_to_str(&Value::Array(vec![])).is_err());
    let t = dotman::tasks::env::parse(&obj(vec![("type", s("env")), ("envs", Value::Hash(obj(vec![("EDITOR", s("vim")), ("N", Value::Int(3))])))]));
    let t = match t {
        Ok(TaskEntity::Env(t)) => t,
        _ => panic!("env task is not read"),
    };
    assert_eq!(t.name(), "envs EDITOR <= vim, N <= 3");
    let many = EnvTask {
        envs: vec![
            ("A".to_owned(), None),
            ("B".to_owned(), Some("1".to_owned())),
            ("C".to_owned(), None),
            ("D".to_owned(), None),
        ],
    };
    assert_eq!(many.name(), "envs remove(A), B <= 1, remove(C)...");
}

#[test]
fn env_change_decision() {
    assert!(!env_change(&VarState::Value("x".to_owned()), Some("x")));
    assert!(env_change(&VarState::Value("x".to_owned()), Some("y")));
    assert!(env_change(&VarState::Absent, Some("y")));
    assert!(env_change(&VarState::NotUnicode, Some("y")));
    assert!(!env_change(&VarState::Absent, None));
    assert!(env_change(&VarState::Value("x".to_owned()), None));
}

#[test]
fn sh_task_parsing_and_check() {
    let t = sh::parse(&obj(vec![
        ("cmd", Value::Array(vec![s("make"), s("install")])),
        ("test", s("/bin/tool")),
        ("sha256", Value::Hash(obj(vec![("work", s("abcd"))]))),
    ]));
    let t = match t {
        Ok(TaskEntity::Sh(t)) => t,
        _ => panic!("sh task is not read"),
    };
    assert_eq!(t.name(), "sh \"make install\"");
    assert!(matches!(t.check("work"), Ok(DoneCheck::Digest(ref p, ref d)) if p == "/bin/tool" && d == "abcd"));
    assert!(matches!(t.check("home"), Err(TaskError::WellKnown(_))));
    assert!(sh::parse(&obj(vec![("cmd", Value::Array(vec![]))])).is_err());
    assert!(sh::parse(&obj(vec![("cmd", Value::Array(vec![s("x")])), ("sha256", s("ab"))])).is_err());
}

#[test]
fn command_step_machine() {
    let exists = DoneCheck::Exists("/p".to_owned());
    assert!(matches!(next_step(&DoneCheck::Always, Phase::Start, false), Action::Run));
    assert!(matches!(next_step(&DoneCheck::Always, Phase::Ran, false), Action::Finish(Ok(true))));
    assert!(matches!(next_step(&exists, Phase::Start, false), Action::Check));
    assert!(matches!(next_step(&exists, Phase::Checked, true), Action::Finish(Ok(false))));
    assert!(matches!(next_step(&exists, Phase::Checked, false), Action::Run));
    assert!(matches!(next_step(&exists, Phase::Rechecked, false), Action::Finish(Err(TaskError::WellKnown(_)))));
    let digest = DoneCheck::Digest("/p".to_owned(), "d".to_owned());
    assert!(matches!(next_step(&digest, Phase::Rechecked, true), Action::Finish(Ok(true))));
}

#[test]
fn wget_task_parsing() {
    let t = wget::parse(&obj(vec![("url", s("https://x/y")), ("dest", s("/tmp/y")), ("sha256", s("ff"))]));
    let t = match t {
        Ok(TaskEntity::Wget(t)) => t,
        _ => panic!("wget task is not read"),
    };
    assert_eq!(t.name(), "wget https://x/y");
    assert_eq!(t.expected_digest("any").unwrap(), "ff");
    assert!(matches!(t.sha256, Sha256Set::All(_)));
    assert!(wget::parse(&obj(vec![("url", s("u")), ("dest", s("d"))])).is_err());
}

#[test]
fn digests() {
    assert!(check_sha256("ba7816bf8f01cfea414140de5dae2223b00361a396177a9cb410ff61f20015ad", b"abc"));
    assert!(!check_sha256("ba7816bf8f01cfea414140de5dae2223b00361a396177a9cb410ff61f20015ad", b"abd"));
    assert!(bytes_eq(b"same", b"same"));
    assert!(!bytes_eq(b"one", b"two"));
}

#[test]
fn cache_cells_fill_once() {
    let ids = vec!["cargo".to_owned(), "brew".to_owned()];
    let mut cells = CacheCells::new(&ids, &vec![("brew".to_owned(), vec![9])]);
    assert!(cells.get("cargo").is_none());
    assert_eq!(cells.get("brew").unwrap(), &vec![9]);
    assert!(cells.fill("cargo", vec![1, 2]));
    assert!(!cells.fill("cargo", vec![3]));
    assert!(!cells.fill("nope", vec![3]));
    assert_eq!(cells.get("cargo").unwrap(), &vec![1, 2]);
    let kept = cells.persisted();
    assert_eq!(kept.len(), 2);
    assert!(must_serialize(&ids, "brew"));
    assert!(!must_serialize(&ids, "cp"));
}

#[test]
fn run_stats_count() {
    let mut stats = RunStats::new();
    stats.record(&Ok(true));
    stats.record(&Ok(false));
    stats.record(&Ok(false));
    stats.record(&Err(TaskError::Unknown("x".to_owned())));
    assert_eq!((stats.changed, stats.skipped, stats.failed), (1, 2, 1));
}

#[test]
fn link_step_decision() {
    assert!(matches!(link_step("/a", &LinkState::LinkTo("/a".to_owned())), LinkStep::Done));
    assert!(matches!(link_step("/a", &LinkState::LinkTo("/b".to_owned())), LinkStep::ReplaceOther));
    assert!(matches!(link_step("/a", &LinkState::Missing), LinkStep::Create));
    assert!(matches!(link_step("/a", &LinkState::Dir), LinkStep::ReplaceDir));
    assert!(matches!(link_step("/a", &LinkState::Other), LinkStep::ReplaceOther));
}

#[test]
fn wget_step_decisions() {
    let abc = "ba7816bf8f01cfea414140de5dae2223b00361a396177a9cb410ff61f20015ad";
    assert!(matches!(wget_step(abc, false, Some(b"abc")), WgetStep::Done));
    assert!(matches!(wget_step(abc, false, Some(b"old")), WgetStep::Download));
    assert!(matches!(wget_step(abc, false, None), WgetStep::Download));
    assert!(matches!(wget_step(abc, true, Some(b"abc")), WgetStep::Write));
    assert!(matches!(wget_step(abc, true, Some(b"bad")), WgetStep::Fail(TaskError::WellKnown(_))));
}
