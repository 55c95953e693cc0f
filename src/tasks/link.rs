//! The link task: a symbolic link at `dest` to `src`.
use vstd::prelude::*;
use crate::ast::{members_allowed, verify_hash, Value};
use crate::ast::lookup;
use crate::tasks::{has_str, load_failed, required_str, str_of, unrecognized};
use crate::{Error, TaskEntity};
use vstd::string::StringExecFns;

verus! {

pub struct LinkTask {
    pub src: String,
    pub dest: String,
}

/// Reads a link task from its configuration.
pub fn parse(obj: &Vec<(String, Value)>) -> (r: Result<TaskEntity, Error>)
    ensures
        r is Ok <==> members_allowed(obj@, seq!["type", "src", "dest"]) && has_str(obj@, "src"@)
            && has_str(obj@, "dest"@),
        r is Ok ==> r->Ok_0 is Link && r->Ok_0->Link_0.src@ == str_of(obj@, "src"@)
            && r->Ok_0->Link_0.dest@ == str_of(obj@, "dest"@),
        !members_allowed(obj@, seq!["type", "src", "dest"]) ==> r is Err && unrecognized(
            r->Err_0,
            "tasks.link"@,
            obj@,
            seq!["type", "src", "dest"],
        ),
        members_allowed(obj@, seq!["type", "src", "dest"]) && lookup(obj@, "src"@) is None ==> r is Err
            && load_failed(r->Err_0, "link.src is required"@),
{
    let allowed: [&str; 3] = ["type", "src", "dest"];
    assert(allowed@ == seq!["type", "src", "dest"]);
    if let Err(e) = verify_hash(obj, &allowed, Some("tasks.link")) {
        return Err(e);
    }
    let src = match required_str(obj, "src", "link.src is required", "link.src must be string") {
        Ok(v) => v,
        Err(e) => {
            return Err(e);
        },
    };
    let dest = match required_str(obj, "dest", "link.dest is required", "link.dest must be string") {
        Ok(v) => v,
        Err(e) => {
            return Err(e);
        },
    };
    Ok(TaskEntity::Link(LinkTask { src, dest }))
}

/// A human-readable identity of a task.
pub open spec fn task_name(t: LinkTask) -> Seq<char> {
    "link "@ + t.src@ + " => "@ + t.dest@
}

impl LinkTask {
    /// A human-readable identity of the task.
    pub fn name(&self) -> (r: String)
        ensures
            r@ == task_name(*self),
    {
        "link ".to_owned().concat(self.src.as_str()).concat(" => ").concat(self.dest.as_str())
    }
}

/// What is at a link's destination.
pub enum LinkState {
    Missing,
    /// A symbolic link, to this path.
    LinkTo(String),
    /// A directory (or a link to one).
    Dir,
    /// Anything else.
    Other,
}

/// How to bring a link's destination to point at its source.
pub enum LinkStep {
    /// It points there already.
    Done,
    /// Create the parent directories and the link.
    Create,
    /// Remove the directory (with what it holds), then create the link.
    ReplaceDir,
    /// Remove the entry, then create the link.
    ReplaceOther,
}

/// How to make the destination, now in state `current`, a link to
/// `target` (the source's canonical path).
pub fn link_step(target: &str, current: &LinkState) -> (r: LinkStep)
    ensures
        match current {
            LinkState::LinkTo(t) => if t@ == target@ {
                r is Done
            } else {
                r is ReplaceOther
            },
            LinkState::Missing => r is Create,
            LinkState::Dir => r is ReplaceDir,
            LinkState::Other => r is ReplaceOther,
        },
{
    match current {
        LinkState::LinkTo(t) => if crate::ast::str_eq(t.as_str(), target) {
            LinkStep::Done
        } else {
            LinkStep::ReplaceOther
        },
        LinkState::Missing => LinkStep::Create,
        LinkState::Dir => LinkStep::ReplaceDir,
        LinkState::Other => LinkStep::ReplaceOther,
    }
}

} // verus!
