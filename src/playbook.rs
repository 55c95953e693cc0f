//! The compiled configuration: task groups and scenarios, and what a run
//! deploys.
use vstd::prelude::*;
use vstd::string::StringExecFns;
use crate::ast::{hash_get, lookup, members_allowed, str_eq, verify_hash, Value};
use crate::scenario::{
    first_match, first_matching, parse_scenario, scenario_matches, scenario_from, valid_scenario, NodeInformation,
    Scenario,
};
use crate::tasks::load_failed;
use crate::{Error, TaskEntity};

verus! {

/// What reads tasks of the kinds that a run supports, and says which kinds
/// share a cache and which must not run side by side.
pub trait TaskBuilder {
    /// The task of kind `key` that `hash` describes; `None` when the kind is
    /// not supported.
    fn parse(key: &str, hash: &Vec<(String, Value)>) -> Option<Result<TaskEntity, Error>>;

    /// The task kinds that have a shared cache.
    fn ids(&self) -> Vec<String>;

    /// The task kinds whose tasks run one at a time.
    fn serialize_ids(&self) -> Vec<String>;

    /// The cache of kind `key` kept from an earlier run, if any.
    fn cache(&self, key: &str) -> Option<Vec<u8>>;
}

/// Task groups by name, each a list of (kind, task).
pub type TaskGroups = Vec<(String, Vec<(String, TaskEntity)>)>;

/// Compiled configuration.
pub struct PlayBook {
    pub taskgroups: TaskGroups,
    pub base: String,
    pub task_ids: Vec<String>,
    pub serialize_ids: Vec<String>,
    pub scenarios: Vec<Scenario>,
}

/// Whether a configuration value is a hash whose `type` is a string.
pub open spec fn typed_task(v: Value) -> bool {
    v is Hash && lookup(v->Hash_0@, "type"@) is Some && lookup(v->Hash_0@, "type"@)->0 is Str
}

/// What reading a task of type `key` comes to, given what the task builder
/// made of it (`built`): the task under its type, the builder's error, or,
/// when the builder does not support the type, an invalid-playbook error.
pub fn task_from_built(key: &String, built: Option<Result<TaskEntity, Error>>, yaml: &Value) -> (r: Result<
    (String, TaskEntity),
    Error,
>)
    ensures
        match built {
            Some(Ok(t)) => (r matches Ok((k, t2)) && k@ == key@ && t2 == t),
            Some(Err(e)) => r == Err::<(String, TaskEntity), Error>(e),
            None => r is Err && r->Err_0 is InvalidPlaybook,
        },
{
    match built {
        Some(Ok(task)) => Ok((key.clone(), task)),
        Some(Err(e)) => Err(e),
        None => Err(
            Error::InvalidPlaybook(
                "unsupported task \"".to_owned().concat(key.as_str()).concat("\""),
                yaml.duplicate(),
            ),
        ),
    }
}

/// Reads a task: its kind is its `type`, and `T` reads the rest.
pub fn parse_task<T: TaskBuilder>(yaml: &Value) -> (r: Result<(String, TaskEntity), Error>)
    ensures
        !typed_task(*yaml) ==> r is Err && r->Err_0 is InvalidPlaybook,
        r is Ok ==> typed_task(*yaml) && r->Ok_0.0@ == lookup(yaml->Hash_0@, "type"@)->0->Str_0@,
{
    let obj = match yaml.as_hash() {
        Some(obj) => obj,
        None => {
            return Err(Error::InvalidPlaybook("task must be hash".to_owned(), yaml.duplicate()));
        },
    };
    match hash_get(obj, "type") {
        Some(Value::Str(key)) => task_from_built(key, T::parse(key.as_str(), obj), yaml),
        _ => Err(
            Error::InvalidPlaybook("task must have \"type\" property".to_owned(), yaml.duplicate()),
        ),
    }
}

/// Whether a configuration value is a hash of task groups that are all
/// empty arrays.
pub open spec fn empty_groups(v: Value) -> bool {
    &&& v is Hash
    &&& forall|i: int|
        0 <= i < v->Hash_0@.len() ==> (#[trigger] v->Hash_0@[i]).1 is Array && v->Hash_0@[i].1->Array_0@.len()
            == 0
}

/// Reads the task groups: a hash from group name to an array of tasks.
pub fn parse_taskgroups<T: TaskBuilder>(yaml: &Value) -> (r: Result<TaskGroups, Error>)
    ensures
        !(yaml is Hash) ==> r is Err,
        empty_groups(*yaml) ==> r is Ok,
        r is Ok ==> yaml is Hash && r->Ok_0@.len() == yaml->Hash_0@.len() && forall|i: int|
            0 <= i < r->Ok_0@.len() ==> {
                let g = #[trigger] r->Ok_0@[i];
                let src = yaml->Hash_0@[i];
                &&& g.0@ == src.0@
                &&& src.1 is Array
                &&& g.1@.len() == src.1->Array_0@.len()
            },
{
    let h = match yaml.as_hash() {
        Some(h) => h,
        None => {
            return Err(Error::InvalidPlaybook("taskgroups must be hash".to_owned(), yaml.duplicate()));
        },
    };
    let mut groups: TaskGroups = Vec::new();
    let mut i: usize = 0;
    while i < h.len()
        invariant
            *yaml == Value::Hash(*h),
            i <= h@.len(),
            groups@.len() == i,
            forall|k: int|
                0 <= k < i ==> {
                    let g = #[trigger] groups@[k];
                    &&& g.0@ == h@[k].0@
                    &&& h@[k].1 is Array
                    &&& g.1@.len() == h@[k].1->Array_0@.len()
                },
        decreases h.len() - i,
    {
        let tasks = match &h[i].1 {
            Value::Array(tasks) => tasks,
            _ => {
                assert(!empty_groups(*yaml)) by {
                    assert(!(yaml->Hash_0@[i as int].1 is Array));
                }
                return Err(
                    Error::InvalidPlaybook(
                        "children of taskgropus must be [string]: <task>[]".to_owned(),
                        yaml.duplicate(),
                    ),
                );
            },
        };
        let mut parsed: Vec<(String, TaskEntity)> = Vec::new();
        let mut j: usize = 0;
        while j < tasks.len()
            invariant
                *yaml == Value::Hash(*h),
                i < h@.len(),
                h@[i as int].1 == Value::Array(*tasks),
                j <= tasks@.len(),
                parsed@.len() == j,
            decreases tasks.len() - j,
        {
            assert(!empty_groups(*yaml)) by {
                assert(yaml->Hash_0@[i as int].1->Array_0@.len() > 0);
            }
            let t = parse_task::<T>(&tasks[j])?;
            parsed.push(t);
            j += 1;
        }
        groups.push((h[i].0.clone(), parsed));
        i += 1;
    }
    Ok(groups)
}

/// Index `j` is the first group named `name`.
pub open spec fn first_group(groups: Seq<(String, Vec<(String, TaskEntity)>)>, name: Seq<char>, j: int) -> bool {
    &&& 0 <= j < groups.len()
    &&& groups[j].0@ == name
    &&& forall|k: int| 0 <= k < j ==> (#[trigger] groups[k]).0@ != name
}

pub open spec fn has_group(groups: Seq<(String, Vec<(String, TaskEntity)>)>, name: Seq<char>) -> bool {
    exists|j: int| 0 <= j < groups.len() && (#[trigger] groups[j]).0@ == name
}

/// Every name of `names` has a group.
pub open spec fn all_groups(groups: Seq<(String, Vec<(String, TaskEntity)>)>, names: Seq<String>) -> bool {
    forall|i: int| 0 <= i < names.len() ==> has_group(groups, (#[trigger] names[i])@)
}

/// Index `i` is the first name of `names` that has no group.
pub open spec fn first_missing(groups: Seq<(String, Vec<(String, TaskEntity)>)>, names: Seq<String>, i: int) -> bool {
    &&& 0 <= i < names.len()
    &&& !has_group(groups, names[i]@)
    &&& forall|k: int| 0 <= k < i ==> has_group(groups, (#[trigger] names[k])@)
}

fn find_group(groups: &TaskGroups, name: &str) -> (r: Option<usize>)
    ensures
        match r {
            Some(j) => first_group(groups@, name@, j as int),
            None => !has_group(groups@, name@),
        },
{
    let mut j: usize = 0;
    while j < groups.len()
        invariant
            j <= groups@.len(),
            forall|k: int| 0 <= k < j ==> (#[trigger] groups@[k]).0@ != name@,
        decreases groups.len() - j,
    {
        if str_eq(groups[j].0.as_str(), name) {
            return Some(j);
        }
        j += 1;
    }
    None
}

/// The groups that `taskgroup_names` name, in that order, by their index
/// in `taskgroups` (the first group of each name); an error names the
/// first name that has no group.
pub fn enlist_taskgroups(taskgroups: &TaskGroups, taskgroup_names: &[String]) -> (r: Result<Vec<usize>, Error>)
    ensures
        r is Ok <==> forall|i: int|
            0 <= i < taskgroup_names@.len() ==> has_group(taskgroups@, (#[trigger] taskgroup_names@[i])@),
        r is Ok ==> r->Ok_0@.len() == taskgroup_names@.len() && forall|i: int|
            0 <= i < taskgroup_names@.len() ==> first_group(
                taskgroups@,
                taskgroup_names@[i]@,
                #[trigger] r->Ok_0@[i] as int,
            ),
        r is Err ==> r->Err_0 is TaskGroupNotFound && exists|i: int|
            first_missing(taskgroups@, taskgroup_names@, i) && r->Err_0->TaskGroupNotFound_0@
                == (#[trigger] taskgroup_names@[i])@,
{
    let mut r: Vec<usize> = Vec::new();
    let mut i: usize = 0;
    while i < taskgroup_names.len()
        invariant
            i <= taskgroup_names@.len(),
            r@.len() == i,
            forall|k: int|
                0 <= k < i ==> has_group(taskgroups@, (#[trigger] taskgroup_names@[k])@) && first_group(
                    taskgroups@,
                    taskgroup_names@[k]@,
                    r@[k] as int,
                ),
        decreases taskgroup_names.len() - i,
    {
        match find_group(taskgroups, taskgroup_names[i].as_str()) {
            Some(j) => {
                assert(taskgroups@[j as int].0@ == taskgroup_names@[i as int]@);
                r.push(j);
            },
            None => {
                assert(first_missing(taskgroups@, taskgroup_names@, i as int));
                return Err(Error::TaskGroupNotFound(taskgroup_names[i].clone()));
            },
        }
        i += 1;
    }
    Ok(r)
}

/// Index `i` is the first scenario named `name`.
pub open spec fn first_named(scenarios: Seq<Scenario>, name: Seq<char>, i: int) -> bool {
    &&& 0 <= i < scenarios.len()
    &&& scenarios[i].name@ == name
    &&& forall|k: int| 0 <= k < i ==> (#[trigger] scenarios[k]).name@ != name
}

/// The scenario that a run selects: the first named `scenario` when a name
/// is given, else the first that matches the node.
pub open spec fn selected(scenarios: Seq<Scenario>, scenario: Option<Seq<char>>, node: NodeInformation, i: int) -> bool {
    match scenario {
        Some(n) => first_named(scenarios, n, i),
        None => first_match(scenarios, node, i),
    }
}

impl PlayBook {
    /// Compiles a playbook from its configuration value: a hash with
    /// `taskgroups` and `scenarios` only. `base` is the directory that the
    /// tasks' relative paths start from.
    pub fn from_value<T: TaskBuilder>(playbook: &Value, base: String, taskbuilders: &T) -> (r: Result<
        PlayBook,
        Error,
    >)
        ensures
            r is Ok ==> {
                let h = playbook->Hash_0@;
                &&& playbook is Hash
                &&& members_allowed(h, seq!["taskgroups", "scenarios"])
                &&& lookup(h, "scenarios"@) is Some && lookup(h, "scenarios"@)->0 is Array
                &&& r->Ok_0.scenarios@.len() == lookup(h, "scenarios"@)->0->Array_0@.len()
                &&& forall|i: int|
                    0 <= i < r->Ok_0.scenarios@.len() ==> valid_scenario(
                        lookup(h, "scenarios"@)->0->Array_0@[i],
                    ) && scenario_from(
                        lookup(h, "scenarios"@)->0->Array_0@[i],
                        #[trigger] r->Ok_0.scenarios@[i],
                    )
                &&& r->Ok_0.base@ == base@
                &&& lookup(h, "taskgroups"@) is Some && lookup(h, "taskgroups"@)->0 is Hash
                &&& r->Ok_0.taskgroups@.len() == lookup(h, "taskgroups"@)->0->Hash_0@.len()
                &&& forall|i: int|
                    0 <= i < r->Ok_0.taskgroups@.len() ==> (#[trigger] r->Ok_0.taskgroups@[i]).0@ == lookup(
                        h,
                        "taskgroups"@,
                    )->0->Hash_0@[i].0@ && r->Ok_0.taskgroups@[i].1@.len() == lookup(
                        h,
                        "taskgroups"@,
                    )->0->Hash_0@[i].1->Array_0@.len()
            },
            !(playbook is Hash) ==> r is Err && load_failed(r->Err_0, "invalid playbook"@),
            ({
                let h = playbook->Hash_0@;
                &&& playbook is Hash
                &&& members_allowed(h, seq!["taskgroups", "scenarios"])
                &&& lookup(h, "taskgroups"@) is Some && empty_groups(lookup(h, "taskgroups"@)->0)
                &&& lookup(h, "scenarios"@) is Some && lookup(h, "scenarios"@)->0 is Array
                &&& forall|i: int|
                    0 <= i < lookup(h, "scenarios"@)->0->Array_0@.len() ==> valid_scenario(
                        #[trigger] lookup(h, "scenarios"@)->0->Array_0@[i],
                    )
            }) ==> r is Ok,
            playbook is Hash && !members_allowed(playbook->Hash_0@, seq!["taskgroups", "scenarios"]) ==> r is Err
                && (r->Err_0 matches Error::UnrecognizedMembers { prefix: p, members: _ } && p is None),
            playbook is Hash && members_allowed(playbook->Hash_0@, seq!["taskgroups", "scenarios"]) && lookup(
                playbook->Hash_0@,
                "taskgroups"@,
            ) is None ==> r is Err && load_failed(r->Err_0, "taskgroups is not found"@),
            playbook is Hash && members_allowed(playbook->Hash_0@, seq!["taskgroups", "scenarios"]) && lookup(
                playbook->Hash_0@,
                "taskgroups"@,
            ) is Some && lookup(playbook->Hash_0@, "scenarios"@) is None ==> r is Err && load_failed(
                r->Err_0,
                "scenarios is not found"@,
            ),
    {
        let h = match playbook.as_hash() {
            Some(h) => h,
            None => {
                return Err(Error::PlaybookLoadFailed("invalid playbook".to_owned()));
            },
        };
        let allowed: [&str; 2] = ["taskgroups", "scenarios"];
        assert(allowed@ == seq!["taskgroups", "scenarios"]);
        if let Err(e) = verify_hash(h, &allowed, None) {
            return Err(e);
        }
        let taskgroups = match hash_get(h, "taskgroups") {
            Some(t) => t,
            None => {
                return Err(Error::PlaybookLoadFailed("taskgroups is not found".to_owned()));
            },
        };
        let scenarios = match hash_get(h, "scenarios") {
            Some(s) => s,
            None => {
                return Err(Error::PlaybookLoadFailed("scenarios is not found".to_owned()));
            },
        };
        let taskgroups = match parse_taskgroups::<T>(taskgroups) {
            Ok(g) => g,
            Err(e) => {
                return Err(e);
            },
        };
        let items = match scenarios.as_array() {
            Some(a) => a,
            None => {
                return Err(Error::InvalidPlaybook("scenario must be array".to_owned(), scenarios.duplicate()));
            },
        };
        let mut parsed: Vec<Scenario> = Vec::new();
        let mut i: usize = 0;
        while i < items.len()
            invariant
                *playbook == Value::Hash(*h),
                members_allowed(h@, seq!["taskgroups", "scenarios"]),
                lookup(h@, "taskgroups"@) is Some,
                lookup(h@, "scenarios"@) == Some(Value::Array(*items)),
                i <= items@.len(),
                parsed@.len() == i,
                forall|k: int| 0 <= k < i ==> valid_scenario(#[trigger] items@[k]),
                forall|k: int| 0 <= k < i ==> scenario_from(items@[k], #[trigger] parsed@[k]),
            decreases items.len() - i,
        {
            let s = match parse_scenario(&items[i]) {
                Ok(s) => s,
                Err(e) => {
                    assert(!valid_scenario(lookup(h@, "scenarios"@)->0->Array_0@[i as int]));
                    return Err(e);
                },
            };
            let ghost old_p = parsed@;
            parsed.push(s);
            assert forall|k: int| 0 <= k < i + 1 implies scenario_from(items@[k], #[trigger] parsed@[k]) by {
                if k < i {
                    assert(parsed@[k] == old_p[k]);
                }
            }
            i += 1;
        }
        Ok(PlayBook {
            taskgroups,
            base,
            task_ids: taskbuilders.ids(),
            serialize_ids: taskbuilders.serialize_ids(),
            scenarios: parsed,
        })
    }

    /// The selected scenario's name, and the indices of its task groups in
    /// order: the scenario named `scenario` when one is given, else the first
    /// that matches the node.
    pub fn deploys(&self, scenario: Option<&str>, node_info: &NodeInformation) -> (r: Result<
        (String, Vec<usize>),
        Error,
    >)
        ensures
            (forall|i: int| !selected(self.scenarios@, opt_view(scenario), *node_info, i)) ==> r
                == Err::<(String, Vec<usize>), Error>(Error::AnyScenarioDoesNotMatch),
            r is Ok ==> exists|i: int|
                selected(self.scenarios@, opt_view(scenario), *node_info, i) && {
                    let s = #[trigger] self.scenarios@[i];
                    &&& r->Ok_0.0@ == s.name@
                    &&& r->Ok_0.1@.len() == s.tasks@.len()
                    &&& forall|j: int|
                        0 <= j < s.tasks@.len() ==> first_group(
                            self.taskgroups@,
                            s.tasks@[j]@,
                            #[trigger] r->Ok_0.1@[j] as int,
                        )
                },
            r is Err ==> r->Err_0 is AnyScenarioDoesNotMatch || r->Err_0 is TaskGroupNotFound,
            forall|i: int|
                #[trigger] selected(self.scenarios@, opt_view(scenario), *node_info, i) ==> {
                    let s = self.scenarios@[i];
                    &&& all_groups(self.taskgroups@, s.tasks@) ==> r is Ok && r->Ok_0.0@ == s.name@
                    &&& !all_groups(self.taskgroups@, s.tasks@) ==> r is Err && r->Err_0 is TaskGroupNotFound
                        && exists|j: int|
                        first_missing(self.taskgroups@, s.tasks@, j) && r->Err_0->TaskGroupNotFound_0@
                            == (#[trigger] s.tasks@[j])@
                },
    {
        let chosen = match scenario {
            Some(name) => find_named(self.scenarios.as_slice(), name),
            None => first_matching(self.scenarios.as_slice(), node_info),
        };
        if chosen.is_none() {
            assert forall|k: int| !selected(self.scenarios@, opt_view(scenario), *node_info, k) by {
                if 0 <= k < self.scenarios@.len() {
                    let s = self.scenarios@[k];
                }
            }
        }
        let i = match chosen {
            Some(i) => i,
            None => {
                return Err(Error::AnyScenarioDoesNotMatch);
            },
        };
        assert(selected(self.scenarios@, opt_view(scenario), *node_info, i as int));
        proof {
            assert forall|j: int| #[trigger] selected(self.scenarios@, opt_view(scenario), *node_info, j) implies j
                == i by {
                lemma_selected_unique(self.scenarios@, opt_view(scenario), *node_info, i as int, j);
            }
        }
        let groups = enlist_taskgroups(&self.taskgroups, self.scenarios[i].tasks.as_slice())?;
        Ok((self.scenarios[i].name.clone(), groups))
    }
}

fn find_named(scenarios: &[Scenario], name: &str) -> (r: Option<usize>)
    ensures
        match r {
            Some(i) => first_named(scenarios@, name@, i as int),
            None => forall|k: int| 0 <= k < scenarios@.len() ==> (#[trigger] scenarios@[k]).name@ != name@,
        },
{
    let mut i: usize = 0;
    while i < scenarios.len()
        invariant
            i <= scenarios@.len(),
            forall|k: int| 0 <= k < i ==> (#[trigger] scenarios@[k]).name@ != name@,
        decreases scenarios.len() - i,
    {
        if str_eq(scenarios[i].name.as_str(), name) {
            return Some(i);
        }
        i += 1;
    }
    None
}

proof fn lemma_selected_unique(
    scenarios: Seq<Scenario>,
    scenario: Option<Seq<char>>,
    node: NodeInformation,
    i: int,
    j: int,
)
    requires
        selected(scenarios, scenario, node, i),
        selected(scenarios, scenario, node, j),
    ensures
        i == j,
{
    if i < j {
        assert(!selected(scenarios, scenario, node, j) || scenarios[i] != scenarios[i]) by {
            match scenario {
                Some(n) => assert(scenarios[i].name@ == n),
                None => assert(scenario_matches(scenarios[i], node)),
            }
        }
    } else if j < i {
        match scenario {
            Some(n) => assert(scenarios[j].name@ == n),
            None => assert(scenario_matches(scenarios[j], node)),
        }
    }
}

/// The view of an optional string.
pub open spec fn opt_view(s: Option<&str>) -> Option<Seq<char>> {
    match s {
        Some(x) => Some(x@),
        None => None,
    }
}

} // verus!
