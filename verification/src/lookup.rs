//! Lookup tables mapping the remotes' symbolic codes to local identifiers.
//! The tables are seeded once and fixed, so here they are pure functions;
//! the reconciler resolves every code through them instead of querying per
//! row.

use vstd::prelude::*;
use vstd::string::StringExecFns;
use crate::strutil::str_eq;

verus! {

pub const PROVIDER_TYPE_GITHUB: i64 = 1;

pub const PROVIDER_TYPE_GITLAB: i64 = 2;

pub const ISSUE_STATE_OPEN: i64 = 1;

pub const ISSUE_STATE_CLOSED: i64 = 2;

pub const PR_STATE_OPEN: i64 = 1;

pub const PR_STATE_CLOSED: i64 = 2;

pub const PR_STATE_MERGED: i64 = 3;

pub const WF_STATUS_COMPLETED: i64 = 1;

pub const WF_STATUS_IN_PROGRESS: i64 = 2;

pub const WF_STATUS_QUEUED: i64 = 3;

pub const WF_STATUS_REQUESTED: i64 = 4;

pub const WF_STATUS_WAITING: i64 = 5;

pub const WF_STATUS_CANCELLED: i64 = 6;

pub const WF_STATUS_SUCCESS: i64 = 7;

pub const WF_STATUS_FAILURE: i64 = 8;

pub const WF_CONCLUSION_SUCCESS: i64 = 1;

pub const WF_CONCLUSION_FAILURE: i64 = 2;

pub const WF_CONCLUSION_CANCELLED: i64 = 3;

pub const WF_CONCLUSION_TIMED_OUT: i64 = 4;

pub const WF_CONCLUSION_SKIPPED: i64 = 5;

/// Local identifier of a provider kind code.
pub open spec fn spec_provider_type_id(code: Seq<char>) -> Option<i64> {
    if code == "github"@ {
        Some(PROVIDER_TYPE_GITHUB)
    } else if code == "gitlab"@ {
        Some(PROVIDER_TYPE_GITLAB)
    } else {
        None
    }
}

pub fn provider_type_id(code: &str) -> (r: Option<i64>)
    ensures
        r == spec_provider_type_id(code@),
{
    if str_eq(code, "github") {
        Some(PROVIDER_TYPE_GITHUB)
    } else if str_eq(code, "gitlab") {
        Some(PROVIDER_TYPE_GITLAB)
    } else {
        None
    }
}

/// Local identifier of an issue state code.
pub open spec fn spec_issue_state_id(code: Seq<char>) -> Option<i64> {
    if code == "open"@ || code == "opened"@ {
        Some(ISSUE_STATE_OPEN)
    } else if code == "closed"@ {
        Some(ISSUE_STATE_CLOSED)
    } else {
        None
    }
}

pub fn issue_state_id(code: &str) -> (r: Option<i64>)
    ensures
        r == spec_issue_state_id(code@),
{
    if str_eq(code, "open") || str_eq(code, "opened") {
        Some(ISSUE_STATE_OPEN)
    } else if str_eq(code, "closed") {
        Some(ISSUE_STATE_CLOSED)
    } else {
        None
    }
}

/// Symbolic code of an issue state identifier.
pub open spec fn spec_issue_state_code(id: i64) -> Seq<char> {
    if id == ISSUE_STATE_OPEN {
        "open"@
    } else if id == ISSUE_STATE_CLOSED {
        "closed"@
    } else {
        "unknown"@
    }
}

pub fn issue_state_code(id: i64) -> (r: String)
    ensures
        r@ == spec_issue_state_code(id),
{
    if id == ISSUE_STATE_OPEN {
        String::from_str("open")
    } else if id == ISSUE_STATE_CLOSED {
        String::from_str("closed")
    } else {
        String::from_str("unknown")
    }
}

/// Local identifier of a pull-request state code.
pub open spec fn spec_pr_state_id(code: Seq<char>) -> Option<i64> {
    if code == "open"@ || code == "opened"@ {
        Some(PR_STATE_OPEN)
    } else if code == "closed"@ {
        Some(PR_STATE_CLOSED)
    } else if code == "merged"@ {
        Some(PR_STATE_MERGED)
    } else {
        None
    }
}

pub fn pr_state_id(code: &str) -> (r: Option<i64>)
    ensures
        r == spec_pr_state_id(code@),
{
    if str_eq(code, "open") || str_eq(code, "opened") {
        Some(PR_STATE_OPEN)
    } else if str_eq(code, "closed") {
        Some(PR_STATE_CLOSED)
    } else if str_eq(code, "merged") {
        Some(PR_STATE_MERGED)
    } else {
        None
    }
}

/// Symbolic code of a pull-request state identifier.
pub open spec fn spec_pr_state_code(id: i64) -> Seq<char> {
    if id == PR_STATE_OPEN {
        "open"@
    } else if id == PR_STATE_CLOSED {
        "closed"@
    } else if id == PR_STATE_MERGED {
        "merged"@
    } else {
        "unknown"@
    }
}

pub fn pr_state_code(id: i64) -> (r: String)
    ensures
        r@ == spec_pr_state_code(id),
{
    if id == PR_STATE_OPEN {
        String::from_str("open")
    } else if id == PR_STATE_CLOSED {
        String::from_str("closed")
    } else if id == PR_STATE_MERGED {
        String::from_str("merged")
    } else {
        String::from_str("unknown")
    }
}

/// Local identifier of a workflow status code, without the fallback.
pub open spec fn spec_workflow_status_id(code: Seq<char>) -> Option<i64> {
    if code == "completed"@ {
        Some(WF_STATUS_COMPLETED)
    } else if code == "in_progress"@ || code == "running"@ || code == "pending"@ {
        Some(WF_STATUS_IN_PROGRESS)
    } else if code == "queued"@ || code == "created"@ {
        Some(WF_STATUS_QUEUED)
    } else if code == "requested"@ {
        Some(WF_STATUS_REQUESTED)
    } else if code == "waiting"@ {
        Some(WF_STATUS_WAITING)
    } else if code == "cancelled"@ || code == "canceled"@ {
        Some(WF_STATUS_CANCELLED)
    } else if code == "success"@ {
        Some(WF_STATUS_SUCCESS)
    } else if code == "failure"@ || code == "failed"@ {
        Some(WF_STATUS_FAILURE)
    } else {
        None
    }
}

/// Local identifier of a workflow status code; an unrecognized code falls
/// back to the in-progress identifier rather than failing the whole sync.
pub open spec fn spec_workflow_status_id_or_default(code: Seq<char>) -> i64 {
    match spec_workflow_status_id(code) {
        Some(id) => id,
        None => WF_STATUS_IN_PROGRESS,
    }
}

pub fn workflow_status_id(code: &str) -> (r: Option<i64>)
    ensures
        r == spec_workflow_status_id(code@),
{
    if str_eq(code, "completed") {
        Some(WF_STATUS_COMPLETED)
    } else if str_eq(code, "in_progress") || str_eq(code, "running") || str_eq(code, "pending") {
        Some(WF_STATUS_IN_PROGRESS)
    } else if str_eq(code, "queued") || str_eq(code, "created") {
        Some(WF_STATUS_QUEUED)
    } else if str_eq(code, "requested") {
        Some(WF_STATUS_REQUESTED)
    } else if str_eq(code, "waiting") {
        Some(WF_STATUS_WAITING)
    } else if str_eq(code, "cancelled") || str_eq(code, "canceled") {
        Some(WF_STATUS_CANCELLED)
    } else if str_eq(code, "success") {
        Some(WF_STATUS_SUCCESS)
    } else if str_eq(code, "failure") || str_eq(code, "failed") {
        Some(WF_STATUS_FAILURE)
    } else {
        None
    }
}

/// Symbolic code of a workflow status identifier.
pub open spec fn spec_workflow_status_code(id: i64) -> Seq<char> {
    if id == WF_STATUS_COMPLETED {
        "completed"@
    } else if id == WF_STATUS_IN_PROGRESS {
        "in_progress"@
    } else if id == WF_STATUS_QUEUED {
        "queued"@
    } else if id == WF_STATUS_REQUESTED {
        "requested"@
    } else if id == WF_STATUS_WAITING {
        "waiting"@
    } else if id == WF_STATUS_CANCELLED {
        "cancelled"@
    } else if id == WF_STATUS_SUCCESS {
        "success"@
    } else if id == WF_STATUS_FAILURE {
        "failure"@
    } else {
        "unknown"@
    }
}

pub fn workflow_status_code(id: i64) -> (r: String)
    ensures
        r@ == spec_workflow_status_code(id),
{
    if id == WF_STATUS_COMPLETED {
        String::from_str("completed")
    } else if id == WF_STATUS_IN_PROGRESS {
        String::from_str("in_progress")
    } else if id == WF_STATUS_QUEUED {
        String::from_str("queued")
    } else if id == WF_STATUS_REQUESTED {
        String::from_str("requested")
    } else if id == WF_STATUS_WAITING {
        String::from_str("waiting")
    } else if id == WF_STATUS_CANCELLED {
        String::from_str("cancelled")
    } else if id == WF_STATUS_SUCCESS {
        String::from_str("success")
    } else if id == WF_STATUS_FAILURE {
        String::from_str("failure")
    } else {
        String::from_str("unknown")
    }
}

/// Local identifier of a workflow conclusion code.
pub open spec fn spec_workflow_conclusion_id(code: Seq<char>) -> Option<i64> {
    if code == "success"@ {
        Some(WF_CONCLUSION_SUCCESS)
    } else if code == "failure"@ {
        Some(WF_CONCLUSION_FAILURE)
    } else if code == "cancelled"@ {
        Some(WF_CONCLUSION_CANCELLED)
    } else if code == "timed_out"@ {
        Some(WF_CONCLUSION_TIMED_OUT)
    } else if code == "skipped"@ {
        Some(WF_CONCLUSION_SKIPPED)
    } else {
        None
    }
}

pub fn workflow_conclusion_id(code: &str) -> (r: Option<i64>)
    ensures
        r == spec_workflow_conclusion_id(code@),
{
    if str_eq(code, "success") {
        Some(WF_CONCLUSION_SUCCESS)
    } else if str_eq(code, "failure") {
        Some(WF_CONCLUSION_FAILURE)
    } else if str_eq(code, "cancelled") {
        Some(WF_CONCLUSION_CANCELLED)
    } else if str_eq(code, "timed_out") {
        Some(WF_CONCLUSION_TIMED_OUT)
    } else if str_eq(code, "skipped") {
        Some(WF_CONCLUSION_SKIPPED)
    } else {
        None
    }
}

/// Symbolic code of a workflow conclusion identifier.
pub open spec fn spec_workflow_conclusion_code(id: i64) -> Seq<char> {
    if id == WF_CONCLUSION_SUCCESS {
        "success"@
    } else if id == WF_CONCLUSION_FAILURE {
        "failure"@
    } else if id == WF_CONCLUSION_CANCELLED {
        "cancelled"@
    } else if id == WF_CONCLUSION_TIMED_OUT {
        "timed_out"@
    } else if id == WF_CONCLUSION_SKIPPED {
        "skipped"@
    } else {
        "unknown"@
    }
}

pub fn workflow_conclusion_code(id: i64) -> (r: String)
    ensures
        r@ == spec_workflow_conclusion_code(id),
{
    if id == WF_CONCLUSION_SUCCESS {
        String::from_str("success")
    } else if id == WF_CONCLUSION_FAILURE {
        String::from_str("failure")
    } else if id == WF_CONCLUSION_CANCELLED {
        String::from_str("cancelled")
    } else if id == WF_CONCLUSION_TIMED_OUT {
        String::from_str("timed_out")
    } else if id == WF_CONCLUSION_SKIPPED {
        String::from_str("skipped")
    } else {
        String::from_str("unknown")
    }
}

} // verus!
