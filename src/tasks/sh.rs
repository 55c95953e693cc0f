//! The sh task: a command, run unless its result is already there.
use vstd::prelude::*;
use crate::ast::{hash_get, lookup, members_allowed, verify_hash, Value};
use crate::tasks::{unrecognized, digest_for, DoneCheck, opt_str, opt_str_from, optional_str, parse_sha256, sha256_from, valid_sha256, Sha256Set};
use crate::{Error, TaskEntity, TaskError};
use vstd::string::StringExecFns;

verus! {

/// A command (program and arguments), and optionally the path it creates,
/// with the digests that path should then have.
pub struct ShTask {
    pub cmd: (String, Vec<String>),
    pub test: Option<(String, Option<Sha256Set>)>,
}

/// Whether the configuration's `cmd` is a non-empty array of strings.
pub open spec fn valid_cmd(obj: Seq<(String, Value)>) -> bool {
    &&& lookup(obj, "cmd"@) is Some
    &&& lookup(obj, "cmd"@)->0 is Array
    &&& lookup(obj, "cmd"@)->0->Array_0@.len() > 0
    &&& forall|i: int|
        0 <= i < lookup(obj, "cmd"@)->0->Array_0@.len() ==> (#[trigger] lookup(
            obj,
            "cmd"@,
        )->0->Array_0@[i]) is Str
}

/// Reads an sh task from its configuration.
pub fn parse(obj: &Vec<(String, Value)>) -> (r: Result<TaskEntity, Error>)
    ensures
        r is Ok <==> {
            &&& members_allowed(obj@, seq!["type", "cmd", "test", "sha256"])
            &&& valid_cmd(obj@)
            &&& opt_str(obj@, "test"@)
            &&& lookup(obj@, "sha256"@) is Some ==> valid_sha256(lookup(obj@, "sha256"@)->0)
                && lookup(obj@, "test"@) is Some
        },
        !members_allowed(obj@, seq!["type", "cmd", "test", "sha256"]) ==> r is Err && unrecognized(
            r->Err_0,
            "tasks.sh"@,
            obj@,
            seq!["type", "cmd", "test", "sha256"],
        ),
        r is Ok ==> r->Ok_0 is Sh && {
            let t = r->Ok_0->Sh_0;
            let c = lookup(obj@, "cmd"@)->0->Array_0@;
            &&& t.cmd.0@ == c[0]->Str_0@
            &&& t.cmd.1@.len() == c.len() - 1
            &&& forall|j: int| 0 <= j < t.cmd.1@.len() ==> (#[trigger] t.cmd.1@[j])@ == c[j + 1]->Str_0@
            &&& opt_str_from(obj@, "test"@, if t.test is Some { Some((t.test->0).0) } else { None })
            &&& match lookup(obj@, "sha256"@) {
                None => t.test is None || (t.test->0).1 is None,
                Some(v) => t.test is Some && (t.test->0).1 is Some && sha256_from(v, (t.test->0).1->0),
            }
        },
{
    let allowed: [&str; 4] = ["type", "cmd", "test", "sha256"];
    assert(allowed@ == seq!["type", "cmd", "test", "sha256"]);
    if let Err(e) = verify_hash(obj, &allowed, Some("tasks.sh")) {
        return Err(e);
    }
    let items = match hash_get(obj, "cmd") {
        None => {
            return Err(Error::PlaybookLoadFailed("sh must have \"cmd\"".to_owned()));
        },
        Some(v) => match v.as_array() {
            Some(a) => a,
            None => {
                return Err(Error::PlaybookLoadFailed("sh.cmd must be array of string".to_owned()));
            },
        },
    };
    let mut cmd: Vec<String> = Vec::new();
    let mut i: usize = 0;
    while i < items.len()
        invariant
            members_allowed(obj@, seq!["type", "cmd", "test", "sha256"]),
            lookup(obj@, "cmd"@) == Some(Value::Array(*items)),
            i <= items@.len(),
            cmd@.len() == i,
            forall|k: int| 0 <= k < i ==> (#[trigger] items@[k]) is Str && cmd@[k]@ == items@[k]->Str_0@,
        decreases items.len() - i,
    {
        match items[i].as_str() {
            Some(s) => cmd.push(s.to_owned()),
            None => {
                return Err(Error::PlaybookLoadFailed("sh.cmd must be array of string".to_owned()));
            },
        }
        i += 1;
    }
    let test = match optional_str(obj, "test", "sh.test must be string") {
        Ok(v) => v,
        Err(e) => {
            return Err(e);
        },
    };
    let sha256 = match hash_get(obj, "sha256") {
        None => None,
        Some(v) => Some(parse_sha256(v, "sh.sha256 must be hash or string", "sh.sha256.xxx must be string")?),
    };
    let test = match (test, sha256) {
        (Some(test), sha256) => Some((test, sha256)),
        (None, None) => None,
        (None, Some(_)) => {
            return Err(Error::PlaybookLoadFailed("sh.sha256 requires sh.test".to_owned()));
        },
    };
    if cmd.len() == 0 {
        return Err(Error::InvalidPlaybook("invalid sh.cmd".to_owned(), Value::Array(Vec::new())));
    }
    let exe = cmd.remove(0);
    Ok(TaskEntity::Sh(ShTask { cmd: (exe, cmd), test }))
}

/// The command line: the program and its arguments, separated by spaces.
pub open spec fn joined_args(args: Seq<String>) -> Seq<char>
    decreases args.len(),
{
    if args.len() == 0 {
        seq![]
    } else if args.len() == 1 {
        args[0]@
    } else {
        joined_args(args.drop_last()) + " "@ + args.last()@
    }
}

fn join_args(args: &Vec<String>) -> (r: String)
    ensures
        r@ == joined_args(args@),
{
    let mut r = String::new();
    let mut i: usize = 0;
    while i < args.len()
        invariant
            i <= args@.len(),
            r@ == joined_args(args@.subrange(0, i as int)),
        decreases args.len() - i,
    {
        let ghost pre = args@.subrange(0, i + 1);
        assert(pre.drop_last() == args@.subrange(0, i as int));
        if i == 0 {
            r = args[i].clone();
        } else {
            r = r.concat(" ").concat(args[i].as_str());
        }
        i += 1;
    }
    assert(args@.subrange(0, args@.len() as int) == args@);
    r
}

/// A human-readable identity of a task.
pub open spec fn task_name(t: ShTask) -> Seq<char> {
    "sh \""@ + t.cmd.0@ + " "@ + joined_args(t.cmd.1@) + "\""@
}

impl ShTask {
    /// A human-readable identity of the task.
    pub fn name(&self) -> (r: String)
        ensures
            r@ == task_name(*self),
    {
        "sh \"".to_owned().concat(self.cmd.0.as_str()).concat(" ").concat(join_args(&self.cmd.1).as_str()).concat(
            "\"",
        )
    }

    /// What tells whether the command's work is done in scenario
    /// `scenario`: nothing, the test path existing, or the test path's
    /// digest for the scenario (an error when there is none for it).
    pub fn check(&self, scenario: &str) -> (r: Result<DoneCheck, TaskError>)
        ensures
            match self.test {
                None => r matches Ok(DoneCheck::Always),
                Some((path, None)) => (r matches Ok(DoneCheck::Exists(p)) && p@ == path@),
                Some((path, Some(set))) => match set {
                    Sha256Set::All(d) => (r matches Ok(DoneCheck::Digest(p, x)) && p@ == path@ && x@ == d@),
                    Sha256Set::Each(pairs) => match digest_for(pairs@, scenario@) {
                        Some(d) => (r matches Ok(DoneCheck::Digest(p, x)) && p@ == path@ && x@ == d),
                        None => r is Err && r->Err_0 is WellKnown,
                    },
                },
            },
    {
        match &self.test {
            None => Ok(DoneCheck::Always),
            Some((path, None)) => Ok(DoneCheck::Exists(path.clone())),
            Some((path, Some(set))) => match set.get(scenario) {
                Some(d) => Ok(DoneCheck::Digest(path.clone(), d.clone())),
                None => Err(
                    TaskError::WellKnown("sh.sha256.".to_owned().concat(scenario).concat(" is not found")),
                ),
            },
        }
    }
}

} // verus!
