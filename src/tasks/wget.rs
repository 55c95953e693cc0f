//! The wget task: a file downloaded to `dest`, checked by its SHA-256 digest.
use vstd::prelude::*;
use crate::ast::{hash_get, lookup, members_allowed, verify_hash, Value};
use crate::tasks::{check_sha256, sha256_hex_of, load_failed, unrecognized, digest_for, has_str, parse_sha256, required_str, sha256_from, str_of, valid_sha256, Sha256Set};
use crate::tasks::cp::message;
use crate::{Error, TaskEntity, TaskError};
use vstd::string::StringExecFns;

verus! {

pub struct WgetTask {
    pub sha256: Sha256Set,
    pub dest: String,
    pub url: String,
}

/// Reads a wget task from its configuration.
pub fn parse(obj: &Vec<(String, Value)>) -> (r: Result<TaskEntity, Error>)
    ensures
        r is Ok <==> members_allowed(obj@, seq!["type", "url", "dest", "sha256"]) && lookup(
            obj@,
            "sha256"@,
        ) is Some && valid_sha256(lookup(obj@, "sha256"@)->0) && has_str(obj@, "url"@) && has_str(
            obj@,
            "dest"@,
        ),
        r is Ok ==> r->Ok_0 is Wget && sha256_from(lookup(obj@, "sha256"@)->0, r->Ok_0->Wget_0.sha256)
            && r->Ok_0->Wget_0.url@ == str_of(obj@, "url"@) && r->Ok_0->Wget_0.dest@ == str_of(
            obj@,
            "dest"@,
        ),
        !members_allowed(obj@, seq!["type", "url", "dest", "sha256"]) ==> r is Err && unrecognized(
            r->Err_0,
            "tasks.wget"@,
            obj@,
            seq!["type", "url", "dest", "sha256"],
        ),
        members_allowed(obj@, seq!["type", "url", "dest", "sha256"]) && lookup(obj@, "sha256"@) is None
            ==> r is Err && load_failed(r->Err_0, "wget.sha256 is required"@),
        members_allowed(obj@, seq!["type", "url", "dest", "sha256"]) && lookup(obj@, "sha256"@) is Some
            && !valid_sha256(lookup(obj@, "sha256"@)->0) ==> r is Err && r->Err_0 is PlaybookLoadFailed,
{
    let allowed: [&str; 4] = ["type", "url", "dest", "sha256"];
    assert(allowed@ == seq!["type", "url", "dest", "sha256"]);
    if let Err(e) = verify_hash(obj, &allowed, Some("tasks.wget")) {
        return Err(e);
    }
    let sha256 = match hash_get(obj, "sha256") {
        Some(v) => match parse_sha256(v, "wget.sha256 must be hash or string", "wget.sha256.xxx must be string") {
            Ok(s) => s,
            Err(e) => {
                return Err(e);
            },
        },
        None => {
            return Err(Error::PlaybookLoadFailed("wget.sha256 is required".to_owned()));
        },
    };
    let url = match required_str(obj, "url", "wget.url is required", "wget.url must be string") {
        Ok(v) => v,
        Err(e) => {
            return Err(e);
        },
    };
    let dest = match required_str(obj, "dest", "wget.dest is required", "wget.dest must be string") {
        Ok(v) => v,
        Err(e) => {
            return Err(e);
        },
    };
    Ok(TaskEntity::Wget(WgetTask { sha256, url, dest }))
}

/// A human-readable identity of a task.
pub open spec fn task_name(t: WgetTask) -> Seq<char> {
    "wget "@ + t.url@
}

impl WgetTask {
    /// A human-readable identity of the task.
    pub fn name(&self) -> (r: String)
        ensures
            r@ == task_name(*self),
    {
        "wget ".to_owned().concat(self.url.as_str())
    }

    /// The digest that the file must have in scenario `scenario`.
    pub fn expected_digest(&self, scenario: &str) -> (r: Result<String, TaskError>)
        ensures
            match self.sha256 {
                Sha256Set::All(s) => r is Ok && r->Ok_0@ == s@,
                Sha256Set::Each(pairs) => match digest_for(pairs@, scenario@) {
                    Some(d) => r is Ok && r->Ok_0@ == d,
                    None => r is Err && r->Err_0 is WellKnown,
                },
            },
    {
        match self.sha256.get(scenario) {
            Some(d) => Ok(d.clone()),
            None => Err(
                TaskError::WellKnown("wget.sha256.".to_owned().concat(scenario).concat(" is not found")),
            ),
        }
    }
}

/// What a wget task does next.
pub enum WgetStep {
    /// The file there has the digest already: nothing changes.
    Done,
    /// Download the file.
    Download,
    /// Write the downloaded bytes there: the task changes it.
    Write,
    /// End the task with this error.
    Fail(TaskError),
}

/// The next step of a wget task that expects digest `expected`. Before the
/// download, `data` is what the destination holds (if it could be read);
/// after it (`downloaded`), the downloaded bytes.
pub fn wget_step(expected: &str, downloaded: bool, data: Option<&[u8]>) -> (r: WgetStep)
    ensures
        !downloaded ==> if data is Some && sha256_hex_of(data->0@) == expected@ {
            r is Done
        } else {
            r is Download
        },
        downloaded ==> if data is Some && sha256_hex_of(data->0@) == expected@ {
            r is Write
        } else {
            r is Fail && r->Fail_0 is WellKnown && message(r->Fail_0)
                == "inconsistent hash value of downloaded file"@
        },
{
    let matches = match data {
        Some(d) => check_sha256(expected, d),
        None => false,
    };
    if !downloaded {
        if matches {
            WgetStep::Done
        } else {
            WgetStep::Download
        }
    } else if matches {
        WgetStep::Write
    } else {
        WgetStep::Fail(TaskError::WellKnown("inconsistent hash value of downloaded file".to_owned()))
    }
}

} // verus!
