//! Dotfile deployment: scenario selection, configuration parsing and
//! file-tree reconciliation.
use vstd::prelude::*;

pub mod ast;
pub mod playbook;
pub mod scenario;
pub mod scheduler;
pub mod tasks;
pub mod template;

verus! {

/// Errors that stop a run before any task.
#[derive(Debug)]
pub enum Error {
    /// Members of the configuration that are not recognized, under a prefix
    /// that tells where they were found.
    UnrecognizedMembers { prefix: Option<String>, members: Vec<(String, ast::Value)> },
    /// The playbook could not be loaded.
    PlaybookLoadFailed(String),
    /// A part of the playbook is invalid.
    InvalidPlaybook(String, ast::Value),
    /// A scenario names a task group that does not exist.
    TaskGroupNotFound(String),
    /// No scenario matches.
    AnyScenarioDoesNotMatch,
    /// A variable could not be resolved.
    CannotResolveVar(String),
    /// Facts about the node could not be collected.
    CannotCollectNodeInformation(String),
    /// The cache could not be loaded or stored.
    CannotLoadCache(String),
}

/// A task of one of the built-in kinds.
pub enum TaskEntity {
    Cargo(tasks::cargo::CargoTask),
    Cp(tasks::cp::CpTask),
    Env(tasks::env::EnvTask),
    Link(tasks::link::LinkTask),
    Sh(tasks::sh::ShTask),
    Wget(tasks::wget::WgetTask),
    Brew(tasks::brew::BrewTask),
}

/// What a task runs with. The cache that tasks of one kind share is kept
/// by whoever runs the tasks.
pub struct TaskContext {
    /// Directory that relative source paths start from.
    pub base: String,
    /// Whether to leave every mutation out.
    pub dryrun: bool,
    /// The selected scenario.
    pub scenario: String,
}

/// How much a run reports.
#[derive(Debug, Clone, PartialEq, Eq, Structural)]
pub enum VerboseLevel {
    /// Changed and failed tasks, and counts.
    Compact,
    /// Every task.
    ShowAllTask,
}

/// Error of one task.
#[derive(Debug)]
pub enum TaskError {
    /// An anticipated failure, with a message for the user.
    WellKnown(String),
    /// An unexpected fault, with its description.
    Unknown(String),
}

impl TaskEntity {
    /// A human-readable identity of the task.
    pub fn name(&self) -> (r: String)
        ensures
            r@ == match self {
                TaskEntity::Cargo(t) => tasks::cargo::task_name(*t),
                TaskEntity::Cp(t) => tasks::cp::task_name(*t),
                TaskEntity::Env(t) => tasks::env::task_name(*t),
                TaskEntity::Link(t) => tasks::link::task_name(*t),
                TaskEntity::Sh(t) => tasks::sh::task_name(*t),
                TaskEntity::Wget(t) => tasks::wget::task_name(*t),
                TaskEntity::Brew(t) => tasks::brew::task_name(*t),
            },
    {
        match self {
            TaskEntity::Cargo(t) => t.name(),
            TaskEntity::Cp(t) => t.name(),
            TaskEntity::Env(t) => t.name(),
            TaskEntity::Link(t) => t.name(),
            TaskEntity::Sh(t) => t.name(),
            TaskEntity::Wget(t) => t.name(),
            TaskEntity::Brew(t) => t.name(),
        }
    }
}

} // verus!
