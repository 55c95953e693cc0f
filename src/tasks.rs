//! The built-in task kinds, and what their configuration parsers share.
use vstd::prelude::*;
use crate::ast::{hash_get, lookup, reports, Value};
use crate::{Error, TaskEntity, TaskError};
use vstd::string::StringExecFns;

pub mod brew;
pub mod cargo;
pub mod cp;
pub mod env;
pub mod link;
pub mod sh;
pub mod wget;

verus! {

/// `e` reports, under `prefix`, exactly the members of `h` that are not
/// among `allowed` (see `reports`).
pub open spec fn unrecognized(e: Error, prefix: Seq<char>, h: Seq<(String, Value)>, allowed: Seq<&str>) -> bool {
    e matches Error::UnrecognizedMembers { prefix: p, members } && p is Some && p->0@ == prefix && reports(
        members@,
        h,
        allowed,
    )
}

/// `e` is a load failure with message `msg`.
pub open spec fn load_failed(e: Error, msg: Seq<char>) -> bool {
    e matches Error::PlaybookLoadFailed(m) && m@ == msg
}

/// Whether member `key` of `h` is a string.
pub open spec fn has_str(h: Seq<(String, Value)>, key: Seq<char>) -> bool {
    lookup(h, key) is Some && lookup(h, key)->0 is Str
}

/// The string that member `key` of `h` is.
pub open spec fn str_of(h: Seq<(String, Value)>, key: Seq<char>) -> Seq<char> {
    lookup(h, key)->0->Str_0@
}

/// Whether member `key` of `h` is absent or a string.
pub open spec fn opt_str(h: Seq<(String, Value)>, key: Seq<char>) -> bool {
    lookup(h, key) is None || lookup(h, key)->0 is Str
}

/// The optional string member `key` of `r` is what `h` gives.
pub open spec fn opt_str_from(h: Seq<(String, Value)>, key: Seq<char>, r: Option<String>) -> bool {
    match lookup(h, key) {
        None => r is None,
        Some(v) => r is Some && r->0@ == v->Str_0@,
    }
}

/// The string member `key` of `obj`; `missing` when it is absent and
/// `not_str` when it is not a string.
pub fn required_str(obj: &Vec<(String, Value)>, key: &str, missing: &str, not_str: &str) -> (r: Result<
    String,
    Error,
>)
    ensures
        r is Ok <==> has_str(obj@, key@),
        r is Ok ==> r->Ok_0@ == str_of(obj@, key@),
        r is Err ==> r->Err_0 is PlaybookLoadFailed,
        r is Err && lookup(obj@, key@) is None ==> load_failed(r->Err_0, missing@),
        r is Err && lookup(obj@, key@) is Some ==> load_failed(r->Err_0, not_str@),
{
    match hash_get(obj, key) {
        None => Err(Error::PlaybookLoadFailed(missing.to_owned())),
        Some(v) => match v.as_str() {
            Some(s) => Ok(s.to_owned()),
            None => Err(Error::PlaybookLoadFailed(not_str.to_owned())),
        },
    }
}

/// The optional string member `key` of `obj`; `not_str` when it is there
/// but is not a string.
pub fn optional_str(obj: &Vec<(String, Value)>, key: &str, not_str: &str) -> (r: Result<
    Option<String>,
    Error,
>)
    ensures
        r is Ok <==> opt_str(obj@, key@),
        r is Ok ==> opt_str_from(obj@, key@, r->Ok_0),
        r is Err ==> load_failed(r->Err_0, not_str@),
{
    match hash_get(obj, key) {
        None => Ok(None),
        Some(v) => match v.as_str() {
            Some(s) => Ok(Some(s.to_owned())),
            None => Err(Error::PlaybookLoadFailed(not_str.to_owned())),
        },
    }
}

/// Expected SHA-256 digests (hex): one for all scenarios, or one per
/// scenario name.
pub enum Sha256Set {
    Each(Vec<(String, String)>),
    All(String),
}

/// The digest for scenario `key`: the first binding of it (for `Each`).
pub open spec fn digest_for(pairs: Seq<(String, String)>, key: Seq<char>) -> Option<Seq<char>>
    decreases pairs.len(),
{
    if pairs.len() == 0 {
        None
    } else if pairs[0].0@ == key {
        Some(pairs[0].1@)
    } else {
        digest_for(pairs.drop_first(), key)
    }
}

impl Sha256Set {
    /// The digest expected for scenario `key`.
    pub fn get(&self, key: &str) -> (r: Option<&String>)
        ensures
            match self {
                Sha256Set::All(s) => r == Some(s),
                Sha256Set::Each(pairs) => match digest_for(pairs@, key@) {
                    Some(d) => r is Some && r->0@ == d,
                    None => r is None,
                },
            },
    {
        match self {
            Sha256Set::All(s) => Some(s),
            Sha256Set::Each(pairs) => {
                let mut i: usize = 0;
                assert(pairs@.subrange(0, pairs@.len() as int) == pairs@);
                while i < pairs.len()
                    invariant
                        *self == Sha256Set::Each(*pairs),
                        i <= pairs@.len(),
                        digest_for(pairs@, key@) == digest_for(
                            pairs@.subrange(i as int, pairs@.len() as int),
                            key@,
                        ),
                    decreases pairs.len() - i,
                {
                    let ghost rest = pairs@.subrange(i as int, pairs@.len() as int);
                    assert(rest.drop_first() == pairs@.subrange(i + 1, pairs@.len() as int));
                    if crate::ast::str_eq(pairs[i].0.as_str(), key) {
                        return Some(&pairs[i].1);
                    }
                    i += 1;
                }
                None
            },
        }
    }
}

/// Whether a configuration value describes digests: a string, or a hash of
/// strings.
pub open spec fn valid_sha256(v: Value) -> bool {
    match v {
        Value::Str(_) => true,
        Value::Hash(h) => forall|i: int| 0 <= i < h@.len() ==> (#[trigger] h@[i]).1 is Str,
        _ => false,
    }
}

/// Whether `s` is what the configuration value `v` describes.
pub open spec fn sha256_from(v: Value, s: Sha256Set) -> bool {
    match (v, s) {
        (Value::Str(x), Sha256Set::All(y)) => x@ == y@,
        (Value::Hash(h), Sha256Set::Each(p)) => p@.len() == h@.len() && forall|i: int|
            0 <= i < h@.len() ==> (#[trigger] p@[i]).0@ == h@[i].0@ && p@[i].1@ == h@[i].1->Str_0@,
        _ => false,
    }
}

/// Reads expected digests from the configuration; `msg` reports a value of
/// the wrong shape.
pub fn parse_sha256(v: &Value, msg: &str, item_msg: &str) -> (r: Result<Sha256Set, Error>)
    ensures
        r is Ok <==> valid_sha256(*v),
        r is Ok ==> sha256_from(*v, r->Ok_0),
        r is Err ==> r->Err_0 is PlaybookLoadFailed,
{
    match v {
        Value::Str(s) => Ok(Sha256Set::All(s.clone())),
        Value::Hash(h) => {
            let mut pairs: Vec<(String, String)> = Vec::new();
            let mut i: usize = 0;
            while i < h.len()
                invariant
                    *v == Value::Hash(*h),
                    i <= h@.len(),
                    pairs@.len() == i,
                    forall|k: int|
                        0 <= k < i ==> (#[trigger] pairs@[k]).0@ == h@[k].0@ && h@[k].1 is Str
                            && pairs@[k].1@ == h@[k].1->Str_0@,
                decreases h.len() - i,
            {
                match h[i].1.as_str() {
                    Some(s) => pairs.push((h[i].0.clone(), s.to_owned())),
                    None => {
                        assert(!(h@[i as int].1 is Str));
                        return Err(Error::PlaybookLoadFailed(item_msg.to_owned()));
                    },
                }
                i += 1;
            }
            assert forall|k: int| 0 <= k < h@.len() implies (#[trigger] h@[k]).1 is Str by {
                assert(pairs@[k].0@ == h@[k].0@);
            }
            Ok(Sha256Set::Each(pairs))
        },
        _ => Err(Error::PlaybookLoadFailed(msg.to_owned())),
    }
}

/// Classes of characters that package listings are read by.
#[derive(Clone, Copy)]
pub enum CharClass {
    /// ASCII letters and digits, `-` and `_`.
    Name,
    /// ASCII digits.
    Digit,
    /// Anything but a line break.
    NotNewline,
    /// Anything but a colon.
    NotColon,
}

pub open spec fn in_class(k: CharClass, c: char) -> bool {
    match k {
        CharClass::Name => ('a' <= c && c <= 'z') || ('A' <= c && c <= 'Z') || ('0' <= c && c <= '9')
            || c == '-' || c == '_',
        CharClass::Digit => '0' <= c && c <= '9',
        CharClass::NotNewline => c != '\n',
        CharClass::NotColon => c != ':',
    }
}

/// The length of the longest prefix of `s` whose characters are of class `k`.
pub open spec fn span(s: Seq<char>, k: CharClass) -> nat
    decreases s.len(),
{
    if s.len() > 0 && in_class(k, s[0]) {
        1 + span(s.drop_first(), k)
    } else {
        0
    }
}

fn class_has(k: CharClass, c: char) -> (r: bool)
    ensures
        r == in_class(k, c),
{
    match k {
        CharClass::Name => ('a' <= c && c <= 'z') || ('A' <= c && c <= 'Z') || ('0' <= c && c <= '9')
            || c == '-' || c == '_',
        CharClass::Digit => '0' <= c && c <= '9',
        CharClass::NotNewline => c != '\n',
        CharClass::NotColon => c != ':',
    }
}

/// Where the run of class-`k` characters of `s` that starts at `from` ends.
pub fn span_from(s: &str, from: usize, k: CharClass) -> (r: usize)
    requires
        from <= s@.len(),
    ensures
        from <= r <= s@.len(),
        r - from == span(s@.subrange(from as int, s@.len() as int), k),
{
    let n = s.unicode_len();
    let mut i = from;
    while i < n && class_has(k, s.get_char(i))
        invariant
            n == s@.len(),
            from <= i <= n,
            span(s@.subrange(from as int, n as int), k) == (i - from) + span(
                s@.subrange(i as int, n as int),
                k,
            ),
        decreases n - i,
    {
        assert(s@.subrange(i as int, n as int).drop_first() == s@.subrange(i + 1, n as int));
        i += 1;
    }
    i
}

/// The version that `name` has in a package listing: that of its first
/// entry (as everywhere in this library, the first binding of a key counts).
pub open spec fn installed(pairs: Seq<(String, String)>, name: Seq<char>) -> Option<Seq<char>>
    decreases pairs.len(),
{
    if pairs.len() == 0 {
        None
    } else if pairs[0].0@ == name {
        Some(pairs[0].1@)
    } else {
        installed(pairs.drop_first(), name)
    }
}

/// The version that `name` has in a package listing.
pub fn installed_version<'a>(pairs: &'a Vec<(String, String)>, name: &str) -> (r: Option<&'a String>)
    ensures
        match installed(pairs@, name@) {
            Some(v) => r is Some && r->0@ == v,
            None => r is None,
        },
{
    let mut i: usize = 0;
    assert(pairs@.subrange(0, pairs@.len() as int) == pairs@);
    while i < pairs.len()
        invariant
            i <= pairs@.len(),
            installed(pairs@, name@) == installed(pairs@.subrange(i as int, pairs@.len() as int), name@),
        decreases pairs.len() - i,
    {
        let ghost rest = pairs@.subrange(i as int, pairs@.len() as int);
        assert(rest.drop_first() == pairs@.subrange(i + 1, pairs@.len() as int));
        if crate::ast::str_eq(pairs[i].0.as_str(), name) {
            return Some(&pairs[i].1);
        }
        i += 1;
    }
    None
}

/// The SHA-256 digest of `data`, in lower-case hex.
pub uninterp spec fn sha256_hex_of(data: Seq<u8>) -> Seq<char>;

/// Relies on `sha2::Sha256` (`new`, `update`, `finalize`) and `hex::encode`:
/// the digest of the bytes, in hex.
#[verifier::external_body]
fn sha256_hex(data: &[u8]) -> (r: String)
    ensures
        r@ == sha256_hex_of(data@),
{
    let mut hasher = <sha2::Sha256 as sha2::Digest>::new();
    sha2::Digest::update(&mut hasher, data);
    hex::encode(sha2::Digest::finalize(hasher))
}

/// Whether `data` has the SHA-256 digest `sha256` (in lower-case hex).
pub fn check_sha256(sha256: &str, data: &[u8]) -> (r: bool)
    ensures
        r == (sha256_hex_of(data@) == sha256@),
{
    let digest = sha256_hex(data);
    crate::ast::str_eq(digest.as_str(), sha256)
}

/// What tells whether a task's work is already done.
pub enum DoneCheck {
    /// Nothing: the work is always done again.
    Always,
    /// The path exists.
    Exists(String),
    /// The file at the path has this SHA-256 digest.
    Digest(String, String),
}

/// Where a task that runs a command stands.
#[derive(Clone, Copy)]
pub enum Phase {
    /// Nothing done yet.
    Start,
    /// The check was made before running the command.
    Checked,
    /// The command ran.
    Ran,
    /// The check was made after running the command.
    Rechecked,
}

/// What to do next.
pub enum Action {
    /// Make the check (and come back with its outcome).
    Check,
    /// Run the command.
    Run,
    /// End the task with this result.
    Finish(Result<bool, TaskError>),
}

/// The decision of a task that runs a command unless its work is done:
/// check first (unless nothing tells), skip the command when the work is
/// done, and after running it check again. `done` is the outcome of the
/// check in the phases that follow one.
pub open spec fn next_action(check: DoneCheck, phase: Phase, done: bool) -> Action {
    match phase {
        Phase::Start => if check is Always {
            Action::Run
        } else {
            Action::Check
        },
        Phase::Checked => if done {
            Action::Finish(Ok(false))
        } else {
            Action::Run
        },
        Phase::Ran => if check is Always {
            Action::Finish(Ok(true))
        } else {
            Action::Check
        },
        Phase::Rechecked => match check {
            DoneCheck::Exists(_) => if done {
                Action::Finish(Ok(false))
            } else {
                Action::Finish(Err(TaskError::WellKnown(arbitrary())))
            },
            _ => if done {
                Action::Finish(Ok(true))
            } else {
                Action::Finish(Err(TaskError::WellKnown(arbitrary())))
            },
        },
    }
}

/// Whether two actions agree, failures by their kind only.
pub open spec fn same_action(a: Action, b: Action) -> bool {
    match (a, b) {
        (Action::Check, Action::Check) => true,
        (Action::Run, Action::Run) => true,
        (Action::Finish(Ok(x)), Action::Finish(Ok(y))) => x == y,
        (Action::Finish(Err(x)), Action::Finish(Err(y))) => x is WellKnown == y is WellKnown,
        _ => false,
    }
}

/// The next step of a task that runs a command unless its work is done.
pub fn next_step(check: &DoneCheck, phase: Phase, done: bool) -> (r: Action)
    ensures
        same_action(r, next_action(*check, phase, done)),
{
    match phase {
        Phase::Start => match check {
            DoneCheck::Always => Action::Run,
            _ => Action::Check,
        },
        Phase::Checked => if done {
            Action::Finish(Ok(false))
        } else {
            Action::Run
        },
        Phase::Ran => match check {
            DoneCheck::Always => Action::Finish(Ok(true)),
            _ => Action::Check,
        },
        Phase::Rechecked => match check {
            DoneCheck::Exists(p) => if done {
                Action::Finish(Ok(false))
            } else {
                Action::Finish(Err(TaskError::WellKnown("file ".to_owned().concat(p.as_str()).concat(" isn't created"))))
            },
            DoneCheck::Digest(p, _) => if done {
                Action::Finish(Ok(true))
            } else {
                Action::Finish(Err(TaskError::WellKnown("hash inconsistent ".to_owned().concat(p.as_str()))))
            },
            DoneCheck::Always => if done {
                Action::Finish(Ok(true))
            } else {
                Action::Finish(Err(TaskError::WellKnown("hash inconsistent".to_owned())))
            },
        },
    }
}

/// Whether `key` names a built-in task kind.
pub open spec fn builtin_kind(key: Seq<char>) -> bool {
    key == "cp"@ || key == "env"@ || key == "sh"@ || key == "cargo"@ || key == "link"@ || key == "wget"@
        || key == "brew"@
}

/// Reads a task of the built-in kind `key`; `None` when no kind has that
/// name.
pub fn parse_builtin(key: &str, hash: &Vec<(String, Value)>) -> (r: Option<Result<TaskEntity, Error>>)
    ensures
        r is Some <==> builtin_kind(key@),
{
    if crate::ast::str_eq(key, "cp") {
        Some(cp::parse(hash))
    } else if crate::ast::str_eq(key, "env") {
        Some(env::parse(hash))
    } else if crate::ast::str_eq(key, "sh") {
        Some(sh::parse(hash))
    } else if crate::ast::str_eq(key, "cargo") {
        Some(cargo::parse(hash))
    } else if crate::ast::str_eq(key, "link") {
        Some(link::parse(hash))
    } else if crate::ast::str_eq(key, "wget") {
        Some(wget::parse(hash))
    } else if crate::ast::str_eq(key, "brew") {
        Some(brew::parse(hash))
    } else {
        None
    }
}

} // verus!
