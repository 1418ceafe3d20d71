//! The decisions of the automation trigger service: whether a
//! published-repository event should fire a project's actions, and
//! what the status endpoints answer.

use vstd::prelude::*;

use crate::strutil::seq_contains_string;
use crate::strutil::vec_contains_string;
use crate::summary::ProjectSummary;
use crate::summary::all_packages_ok;
use crate::summary::all_published;

verus! {

/// How the trigger service authenticates against the build service:
/// plain credentials, or a directory of mounted secret files.
#[derive(Debug)]
pub enum ObsCredentials {
    Secret(String),
    Plain { login: String, password: String },
}

/// Where the job-execution service is reached, and the consumer
/// identity presented to it.
#[derive(Debug)]
pub struct ProwConfig {
    pub uri: String,
    pub consumer_type: String,
    pub consumer_number: String,
}

/// A pre-requisite checked before a project's actions run.
#[derive(Debug)]
pub enum Check {
    ProwJob { name: String },
}

/// An action run for a ready project.
#[derive(Debug)]
pub enum TriggerAction {
    ObsRelease,
    ProwJob { name: String, job_type: String },
}

/// The per-project trigger configuration.
#[derive(Debug)]
pub struct ProjectTriggers {
    pub name: String,
    pub actions: Vec<TriggerAction>,
    pub checks: Vec<Check>,
}

/// Whether a project is ready for its downstream automation: every
/// repository is published and every package status is acceptable.
pub fn is_ready(summary: &ProjectSummary) -> (r: bool)
    ensures
        r == (all_packages_ok(summary@) && all_published(summary@)),
{
    summary.is_all_packages_ok() && summary.is_all_published()
}

/// Whether a published-repository event should fire: the named
/// project is watched, and its summary shows it ready.
pub fn should_trigger(projects: &Vec<String>, project: &str, summary: &ProjectSummary) -> (r:
    bool)
    ensures
        r == (seq_contains_string(projects.deep_view(), project@) && all_packages_ok(summary@)
            && all_published(summary@)),
{
    if !vec_contains_string(projects, project) {
        return false;
    }
    is_ready(summary)
}

/// Whether the pre-requisite checks allow the actions to run: every
/// checked job list came back empty.  One pending or already-triggered
/// job anywhere skips the whole run.
pub fn checks_allow(results: &Vec<bool>) -> (r: bool)
    ensures
        r == forall|i: int| 0 <= i < results@.len() ==> #[trigger] results@[i],
{
    let mut i: usize = 0;
    while i < results.len()
        invariant
            0 <= i <= results@.len(),
            forall|j: int| 0 <= j < i ==> #[trigger] results@[j],
        decreases results@.len() - i,
    {
        if !results[i] {
            return false;
        }
        i = i + 1;
    }
    true
}

/// The status the project read-out answers: unknown projects are not
/// found, a summary that could not be fetched is a server fault, and
/// otherwise the project is reported with its readiness.
pub fn get_project_status(watched: bool, summary_fetched: bool) -> (r: u16)
    ensures
        !watched ==> r == 404,
        watched && !summary_fetched ==> r == 500,
        watched && summary_fetched ==> r == 200,
{
    if !watched {
        404
    } else if !summary_fetched {
        500
    } else {
        200
    }
}

/// The status a manual trigger request answers: unknown projects are
/// not found, a summary that could not be fetched is a server fault, a
/// project that is not ready is a conflict, and otherwise the outcome
/// of running the trigger decides between acceptance and a server
/// fault.
pub fn post_project_status(
    watched: bool,
    summary_fetched: bool,
    ready: bool,
    trigger_ok: bool,
) -> (r: u16)
    ensures
        !watched ==> r == 404,
        watched && !summary_fetched ==> r == 500,
        watched && summary_fetched && !ready ==> r == 409,
        watched && summary_fetched && ready && trigger_ok ==> r == 202,
        watched && summary_fetched && ready && !trigger_ok ==> r == 500,
{
    if !watched {
        404
    } else if !summary_fetched {
        500
    } else if !ready {
        409
    } else if trigger_ok {
        202
    } else {
        500
    }
}

} // verus!
