//! The env task: environment variables set or removed.
use vstd::prelude::*;
use vstd::string::StringExecFns;
use crate::ast::{hash_get, lookup, members_allowed, verify_hash, Value};
use crate::tasks::{load_failed, unrecognized};
use crate::{Error, TaskEntity};

verus! {

pub struct EnvTask {
    pub envs: Vec<(String, Option<String>)>,
}

/// The decimal digit `d`.
pub open spec fn digit_of(d: nat) -> char {
    if d == 0 {
        '0'
    } else if d == 1 {
        '1'
    } else if d == 2 {
        '2'
    } else if d == 3 {
        '3'
    } else if d == 4 {
        '4'
    } else if d == 5 {
        '5'
    } else if d == 6 {
        '6'
    } else if d == 7 {
        '7'
    } else if d == 8 {
        '8'
    } else {
        '9'
    }
}

/// The decimal digits of `n`, without leading zeros.
pub open spec fn digits(n: nat) -> Seq<char>
    decreases n,
{
    if n < 10 {
        seq![digit_of(n)]
    } else {
        digits(n / 10).push(digit_of(n % 10))
    }
}

/// The decimal notation of `i`.
pub open spec fn decimal(i: int) -> Seq<char> {
    if i < 0 {
        seq!['-'] + digits((-i) as nat)
    } else {
        digits(i as nat)
    }
}

fn digit_str(d: u64) -> (s: &'static str)
    requires
        d < 10,
    ensures
        s@ == seq![digit_of(d as nat)],
{
    match d {
        0 => {
            proof {
                reveal_strlit("0");
            }
            "0"
        },
        1 => {
            proof {
                reveal_strlit("1");
            }
            "1"
        },
        2 => {
            proof {
                reveal_strlit("2");
            }
            "2"
        },
        3 => {
            proof {
                reveal_strlit("3");
            }
            "3"
        },
        4 => {
            proof {
                reveal_strlit("4");
            }
            "4"
        },
        5 => {
            proof {
                reveal_strlit("5");
            }
            "5"
        },
        6 => {
            proof {
                reveal_strlit("6");
            }
            "6"
        },
        7 => {
            proof {
                reveal_strlit("7");
            }
            "7"
        },
        8 => {
            proof {
                reveal_strlit("8");
            }
            "8"
        },
        _ => {
            proof {
                reveal_strlit("9");
            }
            "9"
        },
    }
}

fn digits_string(n: u64) -> (r: String)
    ensures
        r@ == digits(n as nat),
    decreases n,
{
    let d = digit_str(n % 10);
    if n < 10 {
        d.to_owned()
    } else {
        digits_string(n / 10).concat(d)
    }
}

/// The decimal notation of `i`.
pub fn decimal_string(i: i64) -> (r: String)
    ensures
        r@ == decimal(i as int),
{
    if i < 0 {
        let m = (-(i as i128)) as u64;
        proof {
            reveal_strlit("-");
        }
        "-".to_owned().concat(digits_string(m).as_str())
    } else {
        digits_string(i as u64)
    }
}

/// The text of a scalar configuration value, if it is one.
pub open spec fn scalar_text(v: Value) -> Option<Seq<char>> {
    match v {
        Value::Str(s) => Some(s@),
        Value::Real(t) => Some(t@),
        Value::Int(i) => Some(decimal(i as int)),
        Value::Bool(b) => Some(if b { "true"@ } else { "false"@ }),
        _ => None,
    }
}

/// Reads the value of an environment variable from the configuration.
pub fn yaml_to_str(yaml: &Value) -> (r: Result<Option<String>, Error>)
    ensures
        r is Ok <==> scalar_text(*yaml) is Some,
        r is Ok ==> r->Ok_0 is Some && r->Ok_0->0@ == scalar_text(*yaml)->0,
{
    match yaml {
        Value::Str(s) => Ok(Some(s.clone())),
        Value::Real(t) => Ok(Some(t.clone())),
        Value::Int(i) => Ok(Some(decimal_string(*i))),
        Value::Bool(b) => Ok(Some(if *b { "true".to_owned() } else { "false".to_owned() })),
        _ => Err(Error::InvalidPlaybook("cannot interpret as string".to_owned(), yaml.duplicate())),
    }
}

/// Whether the configuration's `envs` is a hash of scalars.
pub open spec fn valid_envs(obj: Seq<(String, Value)>) -> bool {
    &&& lookup(obj, "envs"@) is Some
    &&& lookup(obj, "envs"@)->0 is Hash
    &&& forall|i: int|
        0 <= i < lookup(obj, "envs"@)->0->Hash_0@.len() ==> scalar_text(
            (#[trigger] lookup(obj, "envs"@)->0->Hash_0@[i]).1,
        ) is Some
}

/// Reads an env task from its configuration.
pub fn parse(obj: &Vec<(String, Value)>) -> (r: Result<TaskEntity, Error>)
    ensures
        r is Ok <==> members_allowed(obj@, seq!["type", "envs"]) && valid_envs(obj@),
        !members_allowed(obj@, seq!["type", "envs"]) ==> r is Err && unrecognized(
            r->Err_0,
            "tasks.env"@,
            obj@,
            seq!["type", "envs"],
        ),
        members_allowed(obj@, seq!["type", "envs"]) && lookup(obj@, "envs"@) is None ==> r is Err
            && load_failed(r->Err_0, "env must have \"envs\""@),
        members_allowed(obj@, seq!["type", "envs"]) && lookup(obj@, "envs"@) is Some && !(lookup(
            obj@,
            "envs"@,
        )->0 is Hash) ==> r is Err && load_failed(r->Err_0, "env.envs must be pairs of environments"@),
        r is Ok ==> r->Ok_0 is Env && {
            let h = lookup(obj@, "envs"@)->0->Hash_0@;
            let envs = r->Ok_0->Env_0.envs@;
            &&& envs.len() == h.len()
            &&& forall|i: int|
                0 <= i < h.len() ==> (#[trigger] envs[i]).0@ == h[i].0@ && envs[i].1 is Some
                    && envs[i].1->0@ == scalar_text(h[i].1)->0
        },
{
    let allowed: [&str; 2] = ["type", "envs"];
    assert(allowed@ == seq!["type", "envs"]);
    if let Err(e) = verify_hash(obj, &allowed, Some("tasks.env")) {
        return Err(e);
    }
    let h = match hash_get(obj, "envs") {
        None => {
            return Err(Error::PlaybookLoadFailed("env must have \"envs\"".to_owned()));
        },
        Some(v) => match v.as_hash() {
            Some(h) => h,
            None => {
                return Err(Error::PlaybookLoadFailed("env.envs must be pairs of environments".to_owned()));
            },
        },
    };
    let mut envs: Vec<(String, Option<String>)> = Vec::new();
    let mut i: usize = 0;
    while i < h.len()
        invariant
            members_allowed(obj@, seq!["type", "envs"]),
            lookup(obj@, "envs"@) == Some(Value::Hash(*h)),
            i <= h@.len(),
            envs@.len() == i,
            forall|k: int|
                0 <= k < i ==> (#[trigger] envs@[k]).0@ == h@[k].0@ && envs@[k].1 is Some
                    && scalar_text(h@[k].1) is Some && envs@[k].1->0@ == scalar_text(h@[k].1)->0,
        decreases h.len() - i,
    {
        let val = match yaml_to_str(&h[i].1) {
            Ok(val) => val,
            Err(e) => {
                assert(scalar_text(lookup(obj@, "envs"@)->0->Hash_0@[i as int].1) is None);
                return Err(e);
            },
        };
        envs.push((h[i].0.clone(), val));
        i += 1;
    }
    assert forall|k: int| 0 <= k < h@.len() implies scalar_text((#[trigger] h@[k]).1) is Some by {
        assert(envs@[k].0@ == h@[k].0@);
    }
    Ok(TaskEntity::Env(EnvTask { envs }))
}

/// The state of an environment variable.
pub enum VarState {
    Absent,
    /// Set, to a value that is not Unicode.
    NotUnicode,
    Value(String),
}

/// Whether bringing a variable from `current` to `desired` (`None`: removed)
/// changes the environment.
pub open spec fn env_changes(current: VarState, desired: Option<Seq<char>>) -> bool {
    match (desired, current) {
        (Some(v), VarState::Value(s)) => s@ != v,
        (Some(_), _) => true,
        (None, VarState::Absent) => false,
        (None, _) => true,
    }
}

/// Whether bringing a variable from `current` to `desired` (`None`:
/// removed) changes the environment.
pub fn env_change(current: &VarState, desired: Option<&str>) -> (r: bool)
    ensures
        r == env_changes(*current, match desired {
            Some(d) => Some(d@),
            None => None,
        }),
{
    match (desired, current) {
        (Some(v), VarState::Value(s)) => !crate::ast::str_eq(s.as_str(), v),
        (Some(_), _) => true,
        (None, VarState::Absent) => false,
        (None, _) => true,
    }
}

/// How one variable is shown in a task's name.
pub open spec fn env_item(e: (String, Option<String>)) -> Seq<char> {
    match e.1 {
        Some(v) => e.0@ + " <= "@ + v@,
        None => "remove("@ + e.0@ + ")"@,
    }
}

/// The shown variables, separated by commas.
pub open spec fn env_items(envs: Seq<(String, Option<String>)>) -> Seq<char>
    decreases envs.len(),
{
    if envs.len() == 0 {
        seq![]
    } else if envs.len() == 1 {
        env_item(envs[0])
    } else {
        env_items(envs.drop_last()) + ", "@ + env_item(envs.last())
    }
}

/// A human-readable identity of a task: its first three variables, and an
/// ellipsis when there are more.
pub open spec fn task_name(t: EnvTask) -> Seq<char> {
    let n = if t.envs@.len() > 3 {
        3
    } else {
        t.envs@.len() as int
    };
    "envs "@ + env_items(t.envs@.subrange(0, n)) + if t.envs@.len() > 3 {
        "..."@
    } else {
        seq![]
    }
}

impl EnvTask {
    /// A human-readable identity of the task: its first three variables,
    /// and an ellipsis when there are more.
    pub fn name(&self) -> (r: String)
        ensures
            r@ == task_name(*self),
    {
        let n = if self.envs.len() > 3 { 3 } else { self.envs.len() };
        let mut items = String::new();
        let mut i: usize = 0;
        while i < n
            invariant
                n <= self.envs@.len(),
                i <= n,
                items@ == env_items(self.envs@.subrange(0, i as int)),
            decreases n - i,
        {
            let ghost pre = self.envs@.subrange(0, i + 1);
            assert(pre.drop_last() == self.envs@.subrange(0, i as int));
            let (name, val) = &self.envs[i];
            let item = match val {
                Some(v) => name.clone().concat(" <= ").concat(v.as_str()),
                None => "remove(".to_owned().concat(name.as_str()).concat(")"),
            };
            if i == 0 {
                items = item;
            } else {
                items = items.concat(", ").concat(item.as_str());
            }
            i += 1;
        }
        let r = "envs ".to_owned().concat(items.as_str());
        if self.envs.len() > 3 {
            r.concat("...")
        } else {
            proof {
                assert(r@ + seq![] == r@);
            }
            r
        }
    }
}

} // verus!
