//! The cargo task: a crate installed with `cargo install`.
use vstd::prelude::*;
use crate::ast::{hash_get, members_allowed, verify_hash, Value};
use crate::ast::str_eq;
use crate::ast::lookup;
use crate::tasks::{load_failed, unrecognized, installed, installed_version, has_str, opt_str, opt_str_from, required_str, span, span_from, str_of, CharClass};
use crate::{Error, TaskEntity};
use vstd::string::StringExecFns;

verus! {

pub struct CargoTask {
    pub package: String,
    pub version: Option<String>,
}

/// Reads a cargo task from its configuration.
pub fn parse(obj: &Vec<(String, Value)>) -> (r: Result<TaskEntity, Error>)
    ensures
        r is Ok <==> members_allowed(obj@, seq!["type", "version", "package"]) && has_str(
            obj@,
            "package"@,
        ) && opt_str(obj@, "version"@),
        r is Ok ==> r->Ok_0 is Cargo && r->Ok_0->Cargo_0.package@ == str_of(obj@, "package"@)
            && opt_str_from(obj@, "version"@, r->Ok_0->Cargo_0.version),
        !members_allowed(obj@, seq!["type", "version", "package"]) ==> r is Err && unrecognized(
            r->Err_0,
            "tasks.cargo"@,
            obj@,
            seq!["type", "version", "package"],
        ),
        members_allowed(obj@, seq!["type", "version", "package"]) && lookup(obj@, "package"@) is None
            ==> r is Err && load_failed(r->Err_0, "cargo.package is required"@),
        members_allowed(obj@, seq!["type", "version", "package"]) && lookup(obj@, "package"@) is Some
            && !has_str(obj@, "package"@) ==> r is Err && load_failed(
            r->Err_0,
            "cargo.package must be string"@,
        ),
{
    let allowed: [&str; 3] = ["type", "version", "package"];
    assert(allowed@ == seq!["type", "version", "package"]);
    if let Err(e) = verify_hash(obj, &allowed, Some("tasks.cargo")) {
        return Err(e);
    }
    let package = match required_str(obj, "package", "cargo.package is required", "cargo.package must be string") {
        Ok(v) => v,
        Err(e) => {
            return Err(e);
        },
    };
    let version = match hash_get(obj, "version") {
        None => None,
        Some(v) => match v.as_str() {
            Some(s) => Some(s.to_owned()),
            None => {
                return Err(Error::InvalidPlaybook("cargo.version must be string".to_owned(), v.duplicate()));
            },
        },
    };
    Ok(TaskEntity::Cargo(CargoTask { package, version }))
}

/// The length of the run of class-`k` characters of `s` from index `i`.
pub open spec fn span_at(s: Seq<char>, i: int, k: CharClass) -> int {
    span(s.subrange(i, s.len() as int), k) as int
}

/// Where the indented lines (four spaces, some text, a line break) that
/// follow index `j` end.
pub open spec fn skip_indented(s: Seq<char>, j: int) -> int
    decreases s.len() - j,
{
    if 0 <= j && j + 4 <= s.len() && s[j] == ' ' && s[j + 1] == ' ' && s[j + 2] == ' ' && s[j + 3]
        == ' ' {
        let l = span_at(s, j + 4, CharClass::NotNewline);
        let x = j + 4 + l;
        if l > 0 && x < s.len() && s[x] == '\n' {
            skip_indented(s, x + 1)
        } else {
            j
        }
    } else {
        j
    }
}

/// The entry of `cargo install --list` at index `i`: a name, a space, a
/// version `vA.B.C`, optionally a space and text up to a colon, then a
/// colon and a line break, then indented lines. Gives where the name and
/// the version end, and where the next entry starts.
pub open spec fn cargo_entry_at(s: Seq<char>, i: int) -> Option<(int, int, int)> {
    let len = s.len() as int;
    let n = i + span_at(s, i, CharClass::Name);
    if !(0 <= i <= len) || n == i || n >= len || s[n] != ' ' {
        None
    } else if n + 1 >= len || s[n + 1] != 'v' {
        None
    } else {
        let a = n + 2 + span_at(s, n + 2, CharClass::Digit);
        if a == n + 2 || a >= len || s[a] != '.' {
            None
        } else {
            let b = a + 1 + span_at(s, a + 1, CharClass::Digit);
            if b == a + 1 || b >= len || s[b] != '.' {
                None
            } else {
                let e = b + 1 + span_at(s, b + 1, CharClass::Digit);
                if e == b + 1 {
                    None
                } else {
                    let u = if e + 1 < len && s[e] == ' ' && span_at(s, e + 1, CharClass::NotColon) > 0 {
                        e + 1 + span_at(s, e + 1, CharClass::NotColon)
                    } else {
                        e
                    };
                    if u + 1 >= len || s[u] != ':' || s[u + 1] != '\n' {
                        None
                    } else {
                        Some((n, e, skip_indented(s, u + 2)))
                    }
                }
            }
        }
    }
}

/// The (name, version) entries of the listing from index `i` on, up to
/// the first that is not well formed.
pub open spec fn cargo_entries_at(s: Seq<char>, i: int) -> Seq<(Seq<char>, Seq<char>)>
    decreases s.len() - i,
{
    match cargo_entry_at(s, i) {
        Some((n, e, next)) => if i < next <= s.len() {
            seq![(s.subrange(i, n), s.subrange(n + 1, e))] + cargo_entries_at(s, next)
        } else {
            seq![]
        },
        None => seq![],
    }
}

fn skip_indented_exec(src: &str, j: usize) -> (r: usize)
    requires
        j <= src@.len(),
    ensures
        r as int == skip_indented(src@, j as int),
        j <= r <= src@.len(),
    decreases src@.len() - j,
{
    let len = src.unicode_len();
    if j < len && len - j >= 4 && src.get_char(j) == ' ' && src.get_char(j + 1) == ' ' && src.get_char(j + 2) == ' '
        && src.get_char(j + 3) == ' ' {
        let x = span_from(src, j + 4, CharClass::NotNewline);
        if x > j + 4 && x < len && src.get_char(x) == '\n' {
            skip_indented_exec(src, x + 1)
        } else {
            j
        }
    } else {
        j
    }
}

fn cargo_entry(src: &str, i: usize) -> (r: Option<(usize, usize, usize)>)
    requires
        i <= src@.len(),
    ensures
        match cargo_entry_at(src@, i as int) {
            Some((n, e, next)) => (r matches Some((n2, e2, next2)) && n2 == n && e2 == e && next2 == next
                && i < n < e <= src@.len() && next <= src@.len()),
            None => r is None,
        },
{
    let len = src.unicode_len();
    let n = span_from(src, i, CharClass::Name);
    if n == i || n >= len || src.get_char(n) != ' ' {
        return None;
    }
    if n + 1 >= len || src.get_char(n + 1) != 'v' {
        return None;
    }
    let a = span_from(src, n + 2, CharClass::Digit);
    if a == n + 2 || a >= len || src.get_char(a) != '.' {
        return None;
    }
    let b = span_from(src, a + 1, CharClass::Digit);
    if b == a + 1 || b >= len || src.get_char(b) != '.' {
        return None;
    }
    let e = span_from(src, b + 1, CharClass::Digit);
    if e == b + 1 {
        return None;
    }
    let mut u = e;
    if e < len && e + 1 < len && src.get_char(e) == ' ' {
        let c = span_from(src, e + 1, CharClass::NotColon);
        if c > e + 1 {
            u = c;
        }
    }
    if u >= len || u + 1 >= len || src.get_char(u) != ':' || src.get_char(u + 1) != '\n' {
        return None;
    }
    let next = skip_indented_exec(src, u + 2);
    Some((n, e, next))
}

/// Reads the listing of `cargo install --list`: the (name, version) pairs
/// of its entries, up to the first that is not well formed.
pub fn parse_cargo_install_list(src: &str) -> (r: Vec<(String, String)>)
    ensures
        r@.len() == cargo_entries_at(src@, 0).len(),
        forall|i: int|
            0 <= i < r@.len() ==> (#[trigger] r@[i]).0@ == cargo_entries_at(src@, 0)[i].0 && r@[i].1@
                == cargo_entries_at(src@, 0)[i].1,
{
    let mut out: Vec<(String, String)> = Vec::new();
    let ghost mut done: Seq<(Seq<char>, Seq<char>)> = seq![];
    let mut i: usize = 0;
    let len = src.unicode_len();
    loop
        invariant
            len == src@.len(),
            i <= len,
            done + cargo_entries_at(src@, i as int) == cargo_entries_at(src@, 0),
            out@.len() == done.len(),
            forall|k: int|
                0 <= k < out@.len() ==> (#[trigger] out@[k]).0@ == done[k].0 && out@[k].1@ == done[k].1,
        ensures
            done == cargo_entries_at(src@, 0),
            out@.len() == done.len(),
            forall|k: int|
                0 <= k < out@.len() ==> (#[trigger] out@[k]).0@ == done[k].0 && out@[k].1@ == done[k].1,
        decreases len - i,
    {
        match cargo_entry(src, i) {
            Some((n, e, next)) => {
                if next <= i {
                    assert(cargo_entries_at(src@, i as int) =~= Seq::<(Seq<char>, Seq<char>)>::empty());
                    assert(done + cargo_entries_at(src@, i as int) =~= done);
                    break;
                }
                let name = src.substring_char(i, n).to_owned();
                let ver = src.substring_char(n + 1, e).to_owned();
                proof {
                    assert(cargo_entries_at(src@, i as int) == seq![(name@, ver@)] + cargo_entries_at(
                        src@,
                        next as int,
                    ));
                    assert(done.push((name@, ver@)) + cargo_entries_at(src@, next as int) == done
                        + cargo_entries_at(src@, i as int));
                    done = done.push((name@, ver@));
                }
                out.push((name, ver));
                i = next;
            },
            None => {
                assert(cargo_entries_at(src@, i as int) =~= Seq::<(Seq<char>, Seq<char>)>::empty());
                assert(done + cargo_entries_at(src@, i as int) =~= done);
                break;
            },
        }
    }
    out
}

/// A human-readable identity of a task.
pub open spec fn task_name(t: CargoTask) -> Seq<char> {
    match t.version {
        Some(v) => "cargo install "@ + t.package@ + ":"@ + v@,
        None => "cargo install "@ + t.package@,
    }
}

impl CargoTask {
    /// The arguments of the `cargo` command that installs the package as
    /// requested, given the installed packages; `None` when it is there
    /// already (at the requested version, when one is requested).
    pub fn install_args(&self, packages: &Vec<(String, String)>) -> (r: Option<Vec<String>>)
        ensures
            match self.version {
                Some(v) => if installed(packages@, self.package@) == Some(v@) {
                    r is None
                } else {
                    r is Some && r->0@.len() == 4 && r->0@[0]@ == "install"@ && r->0@[1]@ == self.package@
                        && r->0@[2]@ == "--version"@ && r->0@[3]@ == v@
                },
                None => if installed(packages@, self.package@) is Some {
                    r is None
                } else {
                    r is Some && r->0@.len() == 2 && r->0@[0]@ == "install"@ && r->0@[1]@ == self.package@
                },
            },
    {
        let have = installed_version(packages, self.package.as_str());
        let mut args: Vec<String> = Vec::new();
        match &self.version {
            Some(v) => {
                if let Some(h) = have {
                    if str_eq(h.as_str(), v.as_str()) {
                        return None;
                    }
                }
                args.push("install".to_owned());
                args.push(self.package.clone());
                args.push("--version".to_owned());
                args.push(v.clone());
            },
            None => {
                if have.is_some() {
                    return None;
                }
                args.push("install".to_owned());
                args.push(self.package.clone());
            },
        }
        Some(args)
    }

    /// A human-readable identity of the task.
    pub fn name(&self) -> (r: String)
        ensures
            r@ == task_name(*self),
    {
        match &self.version {
            Some(v) => "cargo install ".to_owned().concat(self.package.as_str()).concat(":").concat(v.as_str()),
            None => "cargo install ".to_owned().concat(self.package.as_str()),
        }
    }
}

} // verus!
