//! Pipeline states, folded from checks and statuses.

use vstd::prelude::*;
use vstd::string::*;

use crate::forge::Pipeline;
use crate::text::is_text;

verus! {

// ---------------------------------------------------------------------------
// Pipelines
// ---------------------------------------------------------------------------

/// One entry of a GitHub `statusCheckRollup`, as far as it is read: CheckRun
/// entries carry status and conclusion, StatusContext entries carry state.
#[derive(Debug)]
pub struct Check {
    pub status: Option<String>,
    pub conclusion: Option<String>,
    pub state: Option<String>,
}

/// The value of a [`Check`], with its text as characters.
pub struct CheckView {
    pub status: Option<Seq<char>>,
    pub conclusion: Option<Seq<char>>,
    pub state: Option<Seq<char>>,
}

impl DeepView for Check {
    type V = CheckView;

    open spec fn deep_view(&self) -> CheckView {
        CheckView {
            status: self.status.deep_view(),
            conclusion: self.conclusion.deep_view(),
            state: self.state.deep_view(),
        }
    }
}

impl CheckView {
    /// Still to run, or running.
    pub open spec fn pending(self) -> bool {
        ||| self.status == Some("QUEUED"@)
        ||| self.status == Some("IN_PROGRESS"@)
        ||| self.status == Some("WAITING"@)
        ||| self.status == Some("PENDING"@)
        ||| self.status == Some("REQUESTED"@)
        ||| self.state == Some("PENDING"@)
        ||| self.state == Some("EXPECTED"@)
    }

    pub open spec fn failed(self) -> bool {
        ||| self.conclusion == Some("FAILURE"@)
        ||| self.conclusion == Some("CANCELLED"@)
        ||| self.conclusion == Some("TIMED_OUT"@)
        ||| self.conclusion == Some("ACTION_REQUIRED"@)
        ||| self.conclusion == Some("STARTUP_FAILURE"@)
        ||| self.state == Some("FAILURE"@)
        ||| self.state == Some("ERROR"@)
    }

    pub open spec fn succeeded(self) -> bool {
        ||| self.status == Some("COMPLETED"@) && (self.conclusion == Some("SUCCESS"@)
            || self.conclusion == Some("NEUTRAL"@) || self.conclusion == Some("SKIPPED"@))
        ||| self.state == Some("SUCCESS"@)
    }
}

/// A GitHub rollup as one pipeline state: any failure fails it, else anything
/// still running keeps it busy, else the checks succeeded, unless one of them
/// has a shape that is none of these. An empty rollup, or none, is no
/// evidence at all.
pub open spec fn rollup_state(rollup: Option<Seq<CheckView>>) -> Pipeline {
    match rollup {
        None => Pipeline::Unknown,
        Some(checks) => if exists|i: int| 0 <= i < checks.len() && (#[trigger] checks[i]).failed() {
            Pipeline::Failed
        } else if exists|i: int| 0 <= i < checks.len() && (#[trigger] checks[i]).pending() {
            Pipeline::Busy
        } else if checks.len() > 0 && forall|i: int|
            0 <= i < checks.len() ==> (#[trigger] checks[i]).succeeded() {
            Pipeline::Succeeded
        } else {
            Pipeline::Unknown
        },
    }
}

impl Check {
    fn is_pending(&self) -> (r: bool)
        ensures
            r == self.deep_view().pending(),
    {
        is_text(&self.status, "QUEUED") || is_text(&self.status, "IN_PROGRESS") || is_text(
            &self.status,
            "WAITING",
        ) || is_text(&self.status, "PENDING") || is_text(&self.status, "REQUESTED") || is_text(
            &self.state,
            "PENDING",
        ) || is_text(&self.state, "EXPECTED")
    }

    fn is_failed(&self) -> (r: bool)
        ensures
            r == self.deep_view().failed(),
    {
        is_text(&self.conclusion, "FAILURE") || is_text(&self.conclusion, "CANCELLED") || is_text(
            &self.conclusion,
            "TIMED_OUT",
        ) || is_text(&self.conclusion, "ACTION_REQUIRED") || is_text(
            &self.conclusion,
            "STARTUP_FAILURE",
        ) || is_text(&self.state, "FAILURE") || is_text(&self.state, "ERROR")
    }

    fn is_succeeded(&self) -> (r: bool)
        ensures
            r == self.deep_view().succeeded(),
    {
        (is_text(&self.status, "COMPLETED") && (is_text(&self.conclusion, "SUCCESS") || is_text(
            &self.conclusion,
            "NEUTRAL",
        ) || is_text(&self.conclusion, "SKIPPED"))) || is_text(&self.state, "SUCCESS")
    }
}

/// Fold a GitHub `statusCheckRollup` into one pipeline state: any failure
/// fails it, else anything still running keeps it busy, else the checks
/// succeeded. An empty rollup is no evidence at all.
pub fn gh_pipeline(rollup: &Option<Vec<Check>>) -> (r: Pipeline)
    ensures
        r == rollup_state(rollup.deep_view()),
{
    let Some(checks) = rollup else {
        return Pipeline::Unknown;
    };
    let ghost all = checks.deep_view();
    assert(rollup.deep_view() == Some(all));
    let mut saw_pending = false;
    let mut saw_unknown = false;
    let mut i: usize = 0;
    while i < checks.len()
        invariant
            i <= checks@.len(),
            all == checks.deep_view(),
            rollup.deep_view() == Some(all),
            forall|j: int| 0 <= j < i ==> !(#[trigger] all[j]).failed(),
            saw_pending == exists|j: int| 0 <= j < i && (#[trigger] all[j]).pending(),
            saw_unknown ==> exists|j: int| 0 <= j < i && !(#[trigger] all[j]).succeeded(),
            !saw_pending && !saw_unknown ==> forall|j: int|
                0 <= j < i ==> (#[trigger] all[j]).succeeded(),
        decreases checks@.len() - i,
    {
        let check = &checks[i];
        assert(all[i as int] == checks@[i as int].deep_view());
        // A shape that is neither of these counts as unknown, not as success.
        if check.is_failed() {
            return Pipeline::Failed;
        }
        if check.is_pending() {
            saw_pending = true;
        } else if !check.is_succeeded() {
            saw_unknown = true;
        }
        i += 1;
    }
    if saw_pending {
        Pipeline::Busy
    } else if saw_unknown || checks.len() == 0 {
        Pipeline::Unknown
    } else {
        Pipeline::Succeeded
    }
}

/// A GitLab pipeline's status as a pipeline state.
pub open spec fn pipeline_state(status: Option<Seq<char>>) -> Pipeline {
    if status == Some("success"@) {
        Pipeline::Succeeded
    } else if status == Some("created"@) || status == Some("waiting_for_resource"@) || status
        == Some("preparing"@) || status == Some("pending"@) || status == Some("running"@) {
        Pipeline::Busy
    } else if status == Some("failed"@) {
        Pipeline::Failed
    } else {
        Pipeline::Unknown
    }
}

/// A GitLab `head_pipeline.status` as a pipeline state.
pub fn glab_pipeline(status: &Option<String>) -> (r: Pipeline)
    ensures
        r == pipeline_state(status.deep_view()),
{
    if is_text(status, "success") {
        Pipeline::Succeeded
    } else if is_text(status, "created") || is_text(status, "waiting_for_resource") || is_text(
        status,
        "preparing",
    ) || is_text(status, "pending") || is_text(status, "running") {
        Pipeline::Busy
    } else if is_text(status, "failed") {
        Pipeline::Failed
    } else {
        Pipeline::Unknown
    }
}

// ---------------------------------------------------------------------------
// What pipelines promise
// ---------------------------------------------------------------------------

/// A rollup has succeeded only where it holds checks and every one of them
/// succeeded: a shape that is not understood never counts as success.
pub proof fn law_success_is_proven(checks: Seq<CheckView>)
    requires
        rollup_state(Some(checks)) == Pipeline::Succeeded,
    ensures
        checks.len() > 0,
        forall|i: int|
            0 <= i < checks.len() ==> (#[trigger] checks[i]).succeeded() && !checks[i].failed()
                && !checks[i].pending(),
{
}

/// A rollup is folded by the texts of its entries. One that failed, was
/// cancelled, timed out, needs action or did not start fails the whole, and so
/// does a status context in failure or error; short of that one that waits or
/// runs keeps it busy; and it has succeeded only where every entry has: a
/// completed check that succeeded, was neutral or was skipped, or a status
/// context in success.
pub proof fn law_a_failed_check_fails_the_rollup(checks: Seq<CheckView>)
    ensures
        ({
            let r = rollup_state(Some(checks));
            let failed = |c: CheckView|
                c.conclusion == Some("FAILURE"@) || c.conclusion == Some("CANCELLED"@)
                    || c.conclusion == Some("TIMED_OUT"@) || c.conclusion == Some(
                    "ACTION_REQUIRED"@,
                ) || c.conclusion == Some("STARTUP_FAILURE"@) || c.state == Some("FAILURE"@)
                    || c.state == Some("ERROR"@);
            let waits = |c: CheckView|
                c.status == Some("QUEUED"@) || c.status == Some("IN_PROGRESS"@) || c.status == Some(
                    "WAITING"@,
                ) || c.status == Some("PENDING"@) || c.status == Some("REQUESTED"@) || c.state
                    == Some("PENDING"@) || c.state == Some("EXPECTED"@);
            let succeeded = |c: CheckView|
                (c.status == Some("COMPLETED"@) && (c.conclusion == Some("SUCCESS"@)
                    || c.conclusion == Some("NEUTRAL"@) || c.conclusion == Some("SKIPPED"@)))
                    || c.state == Some("SUCCESS"@);
            let any_failed = exists|i: int| 0 <= i < checks.len() && failed(#[trigger] checks[i]);
            let any_waits = exists|i: int| 0 <= i < checks.len() && waits(#[trigger] checks[i]);
            let all_succeeded = checks.len() > 0 && forall|i: int|
                0 <= i < checks.len() ==> succeeded(#[trigger] checks[i]);
            &&& r == Pipeline::Failed <==> any_failed
            &&& r == Pipeline::Busy <==> !any_failed && any_waits
            &&& r == Pipeline::Succeeded <==> !any_failed && !any_waits && all_succeeded
            &&& r == Pipeline::Unknown <==> !any_failed && !any_waits && !all_succeeded
        }),
        rollup_state(None) == Pipeline::Unknown,
{
}

/// A GitLab pipeline goes by its status: it has succeeded only on `success`,
/// failed only on `failed`, is busy until it has run, and is unknown on any
/// other word or none.
pub proof fn law_a_pipeline_goes_by_its_status(status: Seq<char>)
    ensures
        pipeline_state(Some(status)) == Pipeline::Succeeded <==> status == "success"@,
        pipeline_state(Some(status)) == Pipeline::Failed <==> status == "failed"@,
        pipeline_state(Some(status)) == Pipeline::Busy <==> status == "created"@ || status
            == "waiting_for_resource"@ || status == "preparing"@ || status == "pending"@ || status
            == "running"@,
        pipeline_state(None) == Pipeline::Unknown,
{
    reveal_strlit("success");
    reveal_strlit("failed");
    reveal_strlit("created");
    reveal_strlit("waiting_for_resource");
    reveal_strlit("preparing");
    reveal_strlit("pending");
    reveal_strlit("running");
    assert("success"@[0] == 's' && "failed"@[0] == 'f' && "created"@[0] == 'c'
        && "waiting_for_resource"@[0] == 'w' && "preparing"@[0] == 'p' && "pending"@[0] == 'p'
        && "running"@[0] == 'r');
}

}
