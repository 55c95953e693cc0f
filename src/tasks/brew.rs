//! The brew task: a Homebrew cask or formula.
use vstd::prelude::*;
use crate::ast::{lookup, Value};
use crate::ast::str_eq;
use crate::tasks::{load_failed, installed, installed_version, opt_str, opt_str_from, optional_str, span, span_from, str_of, CharClass};
use crate::{Error, TaskEntity};
use vstd::string::StringExecFns;

verus! {

pub enum BrewTask {
    Cask { name: String, ver: Option<String> },
    Formulae { name: String, ver: Option<String> },
}

/// Installed packages and their versions, casks and formulae apart.
pub struct Cache {
    pub casks: Vec<(String, String)>,
    pub formulae: Vec<(String, String)>,
}

/// Reads a brew task from its configuration: exactly one of `cask` and
/// `formula`, and optionally a `version`.
pub fn parse(obj: &Vec<(String, Value)>) -> (r: Result<TaskEntity, Error>)
    ensures
        r is Ok <==> opt_str(obj@, "version"@) && opt_str(obj@, "formula"@) && opt_str(obj@, "cask"@)
            && (lookup(obj@, "cask"@) is Some != lookup(obj@, "formula"@) is Some),
        r is Ok ==> r->Ok_0 is Brew,
        r is Err ==> r->Err_0 is PlaybookLoadFailed,
        opt_str(obj@, "version"@) && opt_str(obj@, "formula"@) && opt_str(obj@, "cask"@) && (lookup(
            obj@,
            "cask"@,
        ) is Some == lookup(obj@, "formula"@) is Some) ==> r is Err && load_failed(
            r->Err_0,
            "one of brew.formula or brew.cask is required."@,
        ),
        r is Ok && lookup(obj@, "cask"@) is Some ==> (r->Ok_0->Brew_0 matches BrewTask::Cask { name, ver }
            && name@ == str_of(obj@, "cask"@) && opt_str_from(obj@, "version"@, ver)),
        r is Ok && lookup(obj@, "formula"@) is Some ==> (r->Ok_0->Brew_0 matches BrewTask::Formulae {
            name,
            ver,
        } && name@ == str_of(obj@, "formula"@) && opt_str_from(obj@, "version"@, ver)),
{
    let ver = match optional_str(obj, "version", "brew.version must be string") {
        Ok(v) => v,
        Err(e) => {
            return Err(e);
        },
    };
    let formula = match optional_str(obj, "formula", "brew.formula must be string") {
        Ok(v) => v,
        Err(e) => {
            return Err(e);
        },
    };
    let cask = match optional_str(obj, "cask", "brew.cask must be string") {
        Ok(v) => v,
        Err(e) => {
            return Err(e);
        },
    };
    match (cask, formula) {
        (Some(name), None) => Ok(TaskEntity::Brew(BrewTask::Cask { name, ver })),
        (None, Some(name)) => Ok(TaskEntity::Brew(BrewTask::Formulae { name, ver })),
        _ => Err(Error::PlaybookLoadFailed("one of brew.formula or brew.cask is required.".to_owned())),
    }
}

/// One `name version` line at the start of a listing, and what follows it
/// (after the line break, if there is one).
pub open spec fn brew_line(s: Seq<char>) -> Option<(Seq<char>, Seq<char>, Seq<char>)> {
    let n = span(s, CharClass::Name) as int;
    if n == 0 || n >= s.len() || s[n] != ' ' {
        None
    } else {
        let t = s.subrange(n + 1, s.len() as int);
        let v = span(t, CharClass::NotNewline) as int;
        if v == 0 {
            None
        } else {
            let after = t.subrange(v, t.len() as int);
            let rest = if after.len() > 0 && after[0] == '\n' {
                after.drop_first()
            } else {
                after
            };
            Some((s.subrange(0, n), t.subrange(0, v), rest))
        }
    }
}

/// The (name, version) pairs of the lines that a listing starts with.
pub open spec fn brew_lines(s: Seq<char>) -> Seq<(Seq<char>, Seq<char>)>
    decreases s.len(),
{
    match brew_line(s) {
        Some((name, ver, rest)) => if rest.len() < s.len() {
            seq![(name, ver)] + brew_lines(rest)
        } else {
            seq![]
        },
        None => seq![],
    }
}

/// Reads one `name version` line of `brew list --versions`: what follows
/// it, and the name and version.
pub fn parse_installed_package(src: &str) -> (r: Option<(&str, (String, String))>)
    ensures
        match brew_line(src@) {
            Some((name, ver, rest)) => (r matches Some((after, (n, v))) && after@ == rest && n@ == name
                && v@ == ver),
            None => r is None,
        },
{
    let len = src.unicode_len();
    let n = span_from(src, 0, CharClass::Name);
    assert(src@.subrange(0, len as int) == src@);
    if n == 0 || n >= len || src.get_char(n) != ' ' {
        return None;
    }
    let e = span_from(src, n + 1, CharClass::NotNewline);
    if e == n + 1 {
        return None;
    }
    let ghost t = src@.subrange(n + 1, len as int);
    assert(t.subrange(0, e - (n + 1)) == src@.subrange(n + 1, e as int));
    assert(t.subrange(e - (n + 1), t.len() as int) == src@.subrange(e as int, len as int));
    let name = src.substring_char(0, n).to_owned();
    let ver = src.substring_char(n + 1, e).to_owned();
    let next = if e < len && src.get_char(e) == '\n' {
        assert(src@.subrange(e as int, len as int).drop_first() == src@.subrange(e + 1, len as int));
        e + 1
    } else {
        e
    };
    Some((src.substring_char(next, len), (name, ver)))
}

/// Reads the listing of `brew list --versions`: the (name, version) pairs
/// of its lines, up to the first that is not such a line.
pub fn parse_brew_list(src: &str) -> (r: Vec<(String, String)>)
    ensures
        r@.len() == brew_lines(src@).len(),
        forall|i: int|
            0 <= i < r@.len() ==> (#[trigger] r@[i]).0@ == brew_lines(src@)[i].0 && r@[i].1@
                == brew_lines(src@)[i].1,
{
    let mut out: Vec<(String, String)> = Vec::new();
    let ghost mut done: Seq<(Seq<char>, Seq<char>)> = seq![];
    let mut cur = src;
    loop
        invariant
            done + brew_lines(cur@) == brew_lines(src@),
            out@.len() == done.len(),
            forall|i: int|
                0 <= i < out@.len() ==> (#[trigger] out@[i]).0@ == done[i].0 && out@[i].1@ == done[i].1,
        ensures
            done == brew_lines(src@),
            out@.len() == done.len(),
            forall|i: int|
                0 <= i < out@.len() ==> (#[trigger] out@[i]).0@ == done[i].0 && out@[i].1@ == done[i].1,
        decreases cur@.len(),
    {
        match parse_installed_package(cur) {
            Some((rest, (name, ver))) => {
                if rest.unicode_len() >= cur.unicode_len() {
                    assert(brew_lines(cur@) =~= Seq::<(Seq<char>, Seq<char>)>::empty());
                    assert(done + brew_lines(cur@) =~= done);
                    break;
                }
                proof {
                    assert(brew_lines(cur@) == seq![(name@, ver@)] + brew_lines(rest@));
                    assert(done.push((name@, ver@)) + brew_lines(rest@) == done + brew_lines(cur@));
                    done = done.push((name@, ver@));
                }
                out.push((name, ver));
                cur = rest;
            },
            None => {
                assert(brew_lines(cur@) =~= Seq::<(Seq<char>, Seq<char>)>::empty());
                assert(done + brew_lines(cur@) =~= done);
                break;
            },
        }
    }
    out
}

/// What `brew install` is given for a package and an optional version.
pub open spec fn brew_target(name: Seq<char>, ver: Option<String>) -> Seq<char> {
    match ver {
        Some(v) => name + "@"@ + v@,
        None => name,
    }
}

/// Whether a package must be installed: a version is requested that is
/// not the installed one, or it is not installed.
pub open spec fn brew_needs(ver: Option<String>, have: Option<Seq<char>>) -> bool {
    match (ver, have) {
        (Some(v), Some(w)) => v@ != w,
        (_, None) => true,
        (None, Some(_)) => false,
    }
}

fn target_string(name: &String, ver: &Option<String>) -> (r: String)
    ensures
        r@ == brew_target(name@, *ver),
{
    match ver {
        Some(v) => name.clone().concat("@").concat(v.as_str()),
        None => name.clone(),
    }
}

/// A human-readable identity of a task.
pub open spec fn task_name(t: BrewTask) -> Seq<char> {
    match t {
        BrewTask::Cask { name, ver } => "brew cask "@ + brew_target(name@, ver),
        BrewTask::Formulae { name, ver } => "brew cask "@ + brew_target(name@, ver),
    }
}

impl BrewTask {
    /// The arguments of the `brew` command that installs the package as
    /// requested, given the installed ones; `None` when nothing is needed.
    pub fn install_args(&self, cache: &Cache) -> (r: Option<Vec<String>>)
        ensures
            match self {
                BrewTask::Cask { name, ver } => if brew_needs(*ver, installed(cache.casks@, name@)) {
                    r is Some && r->0@.len() == 3 && r->0@[0]@ == "install"@ && r->0@[1]@ == "--casks"@
                        && r->0@[2]@ == brew_target(name@, *ver)
                } else {
                    r is None
                },
                BrewTask::Formulae { name, ver } => if brew_needs(
                    *ver,
                    installed(cache.formulae@, name@),
                ) {
                    r is Some && r->0@.len() == 2 && r->0@[0]@ == "install"@ && r->0@[1]@ == brew_target(
                        name@,
                        *ver,
                    )
                } else {
                    r is None
                },
            },
    {
        let (name, ver, list) = match self {
            BrewTask::Cask { name, ver } => (name, ver, &cache.casks),
            BrewTask::Formulae { name, ver } => (name, ver, &cache.formulae),
        };
        let have = installed_version(list, name.as_str());
        let needed = match (ver, have) {
            (Some(v), Some(w)) => !str_eq(v.as_str(), w.as_str()),
            (_, None) => true,
            (None, Some(_)) => false,
        };
        if !needed {
            return None;
        }
        let mut args: Vec<String> = Vec::new();
        args.push("install".to_owned());
        if let BrewTask::Cask { .. } = self {
            args.push("--casks".to_owned());
        }
        args.push(target_string(name, ver));
        Some(args)
    }

    /// A human-readable identity of the task.
    pub fn name(&self) -> (r: String)
        ensures
            r@ == task_name(*self),
    {
        match self {
            BrewTask::Cask { name, ver } => "brew cask ".to_owned().concat(target_string(name, ver).as_str()),
            BrewTask::Formulae { name, ver } => "brew cask ".to_owned().concat(target_string(name, ver).as_str()),
        }
    }
}

} // verus!
