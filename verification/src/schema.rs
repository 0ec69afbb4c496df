//! Task protocol schema: the request/response message types of the three
//! operations and the task lifecycle rules.
use vstd::prelude::*;

use crate::circuit::CircuitType;
use crate::status::TaskStatus;

verus! {

/// The circuit version every proving service is expected to support.
pub const CIRCUIT_VERSION_0_13: &'static str = "v0.13.1";

/// A non-negative seconds value with fractional precision (a point in time
/// as seconds since the epoch, or a duration in seconds), held as whole
/// microseconds.
#[derive(Clone, Copy, Debug, PartialEq, Eq, Structural)]
pub struct TimeSec {
    pub micros: u64,
}

impl TimeSec {
    pub open spec fn spec_le(self, other: TimeSec) -> bool {
        self.micros <= other.micros
    }

    pub fn le(self, other: TimeSec) -> (r: bool)
        ensures
            r == self.spec_le(other),
    {
        self.micros <= other.micros
    }
}

/// Request of the verification-key operation.
pub struct GetVkRequest {
    pub circuit_type: CircuitType,
    pub circuit_version: String,
}

/// Response of the verification-key operation. A set `error` field reports an
/// application-level failure even when the transport succeeded.
pub struct GetVkResponse {
    pub vk: String,
    pub error: Option<String>,
}

impl GetVkResponse {
    /// Whether the service reported an application-level failure.
    pub fn has_error(&self) -> (r: bool)
        ensures
            r == (self.error is Some),
    {
        self.error.is_some()
    }
}

/// Request of the task-submission operation.
pub struct ProveRequest {
    pub circuit_type: CircuitType,
    pub circuit_version: String,
    pub hard_fork_name: String,
    pub input: String,
}

/// Request of the task-query operation.
pub struct QueryTaskRequest {
    pub task_id: String,
}

/// Response of the task-submission operation: a snapshot of the new task.
pub struct ProveResponse {
    pub task_id: String,
    pub circuit_type: CircuitType,
    pub circuit_version: String,
    pub hard_fork_name: String,
    pub status: TaskStatus,
    pub created_at: TimeSec,
    pub started_at: Option<TimeSec>,
    pub finished_at: Option<TimeSec>,
    pub compute_time_sec: Option<TimeSec>,
    pub input: Option<String>,
    pub proof: Option<String>,
    pub vk: Option<String>,
    pub error: Option<String>,
}

/// Response of the task-query operation: the then-current task snapshot.
pub struct QueryTaskResponse {
    pub task_id: String,
    pub circuit_type: CircuitType,
    pub circuit_version: String,
    pub hard_fork_name: String,
    pub status: TaskStatus,
    pub created_at: TimeSec,
    pub started_at: Option<TimeSec>,
    pub finished_at: Option<TimeSec>,
    pub compute_time_sec: Option<TimeSec>,
    pub input: Option<String>,
    pub proof: Option<String>,
    pub vk: Option<String>,
    pub error: Option<String>,
}

/// How far the reported compute time may drift from the difference of the
/// finish and start timestamps: one second, absorbing the wire form's
/// fractional rounding and the service's independent clock reads.
pub const COMPUTE_TIME_TOLERANCE_MICROS: u64 = 1000000;

/// The lifecycle rules of one task snapshot: which optional fields are
/// present in which status, and that the timestamps are ordered. A task is
/// `Queued` at submission, `Proving` once the service starts work (then
/// `started_at` is set), and ends in `Success` (proof and key present, no
/// error) or `Failed` (error present and non-empty, no proof or key); both
/// terminal states keep `started_at`, and set `finished_at` and
/// `compute_time_sec`, which approximates the span from start to finish.
pub open spec fn snapshot_wf(
    task_id: Seq<char>,
    status: TaskStatus,
    created_at: TimeSec,
    started_at: Option<TimeSec>,
    finished_at: Option<TimeSec>,
    compute_time_sec: Option<TimeSec>,
    proof: Option<Seq<char>>,
    vk: Option<Seq<char>>,
    error: Option<Seq<char>>,
) -> bool {
    &&& task_id.len() > 0
    &&& (match started_at {
        Some(s) => created_at.spec_le(s),
        None => true,
    })
    &&& (match (started_at, finished_at) {
        (Some(s), Some(f)) => s.spec_le(f),
        _ => true,
    })
    &&& (match (started_at, finished_at, compute_time_sec) {
        (Some(s), Some(f), Some(c)) => {
            let span = f.micros - s.micros;
            &&& c.micros - span <= COMPUTE_TIME_TOLERANCE_MICROS
            &&& span - c.micros <= COMPUTE_TIME_TOLERANCE_MICROS
        },
        _ => true,
    })
    &&& (match status {
        TaskStatus::Queued => {
            &&& started_at is None
            &&& finished_at is None
            &&& compute_time_sec is None
            &&& proof is None
            &&& vk is None
            &&& error is None
        },
        TaskStatus::Proving => {
            &&& started_at is Some
            &&& finished_at is None
            &&& compute_time_sec is None
            &&& proof is None
            &&& vk is None
            &&& error is None
        },
        TaskStatus::Success => {
            &&& started_at is Some
            &&& finished_at is Some
            &&& compute_time_sec is Some
            &&& proof is Some
            &&& vk is Some
            &&& error is None
        },
        TaskStatus::Failed => {
            &&& started_at is Some
            &&& finished_at is Some
            &&& compute_time_sec is Some
            &&& proof is None
            &&& vk is None
            &&& (match error {
                Some(e) => e.len() > 0,
                None => false,
            })
        },
    })
}

/// Spec-level option-of-view of an optional string field.
pub open spec fn opt_view(s: Option<String>) -> Option<Seq<char>> {
    match s {
        Some(v) => Some(v@),
        None => None,
    }
}

fn opt_string_present(s: &Option<String>) -> (r: bool)
    ensures
        r == (opt_view(*s) is Some),
{
    s.is_some()
}

fn opt_string_nonempty(s: &Option<String>) -> (r: bool)
    ensures
        r == (match opt_view(*s) {
            Some(e) => e.len() > 0,
            None => false,
        }),
{
    match s {
        Some(e) => e.as_str().unicode_len() > 0,
        None => false,
    }
}

fn check_snapshot(
    task_id: &String,
    status: TaskStatus,
    created_at: TimeSec,
    started_at: &Option<TimeSec>,
    finished_at: &Option<TimeSec>,
    compute_time_sec: &Option<TimeSec>,
    proof: &Option<String>,
    vk: &Option<String>,
    error: &Option<String>,
) -> (r: bool)
    ensures
        r == snapshot_wf(
            task_id@,
            status,
            created_at,
            *started_at,
            *finished_at,
            *compute_time_sec,
            opt_view(*proof),
            opt_view(*vk),
            opt_view(*error),
        ),
{
    if task_id.as_str().unicode_len() == 0 {
        return false;
    }
    if let Some(s) = started_at {
        if !created_at.le(*s) {
            return false;
        }
    }
    if let (Some(s), Some(f)) = (started_at, finished_at) {
        if !s.le(*f) {
            return false;
        }
        if let Some(c) = compute_time_sec {
            let span = f.micros - s.micros;
            let drift = if c.micros >= span {
                c.micros - span
            } else {
                span - c.micros
            };
            if drift > COMPUTE_TIME_TOLERANCE_MICROS {
                return false;
            }
        }
    }
    match status {
        TaskStatus::Queued => {
            started_at.is_none() && finished_at.is_none() && compute_time_sec.is_none()
                && !opt_string_present(proof) && !opt_string_present(vk) && !opt_string_present(
                error,
            )
        },
        TaskStatus::Proving => {
            started_at.is_some() && finished_at.is_none() && compute_time_sec.is_none()
                && !opt_string_present(proof) && !opt_string_present(vk) && !opt_string_present(
                error,
            )
        },
        TaskStatus::Success => {
            started_at.is_some() && finished_at.is_some() && compute_time_sec.is_some()
                && opt_string_present(proof) && opt_string_present(vk) && !opt_string_present(
                error,
            )
        },
        TaskStatus::Failed => {
            started_at.is_some() && finished_at.is_some() && compute_time_sec.is_some()
                && !opt_string_present(proof) && !opt_string_present(vk) && opt_string_nonempty(
                error,
            )
        },
    }
}

impl ProveResponse {
    /// The lifecycle rules applied to this snapshot.
    pub open spec fn wf(self) -> bool {
        snapshot_wf(
            self.task_id@,
            self.status,
            self.created_at,
            self.started_at,
            self.finished_at,
            self.compute_time_sec,
            opt_view(self.proof),
            opt_view(self.vk),
            opt_view(self.error),
        )
    }

    /// Checks this snapshot against the lifecycle rules.
    pub fn validate(&self) -> (r: bool)
        ensures
            r == self.wf(),
    {
        check_snapshot(
            &self.task_id,
            self.status,
            self.created_at,
            &self.started_at,
            &self.finished_at,
            &self.compute_time_sec,
            &self.proof,
            &self.vk,
            &self.error,
        )
    }

    /// Whether the service reported an application-level failure.
    pub fn has_error(&self) -> (r: bool)
        ensures
            r == (self.error is Some),
    {
        self.error.is_some()
    }
}

impl QueryTaskResponse {
    /// The lifecycle rules applied to this snapshot.
    pub open spec fn wf(self) -> bool {
        snapshot_wf(
            self.task_id@,
            self.status,
            self.created_at,
            self.started_at,
            self.finished_at,
            self.compute_time_sec,
            opt_view(self.proof),
            opt_view(self.vk),
            opt_view(self.error),
        )
    }

    /// Checks this snapshot against the lifecycle rules.
    pub fn validate(&self) -> (r: bool)
        ensures
            r == self.wf(),
    {
        check_snapshot(
            &self.task_id,
            self.status,
            self.created_at,
            &self.started_at,
            &self.finished_at,
            &self.compute_time_sec,
            &self.proof,
            &self.vk,
            &self.error,
        )
    }

    /// Whether the service reported an application-level failure.
    pub fn has_error(&self) -> (r: bool)
        ensures
            r == (self.error is Some),
    {
        self.error.is_some()
    }
}

/// A freshly submitted task: a well-formed snapshot in `Queued` status has a
/// non-empty task id, no start or finish time, and no error.
pub proof fn lemma_queued_snapshot(s: ProveResponse)
    requires
        s.wf(),
        s.status == TaskStatus::Queued,
    ensures
        s.task_id@.len() > 0,
        s.started_at is None,
        s.finished_at is None,
        s.error is None,
{
}

/// A completed task: a well-formed snapshot in `Success` status carries a
/// proof and a verification key, no error, and ordered timestamps.
pub proof fn lemma_success_snapshot(s: QueryTaskResponse)
    requires
        s.wf(),
        s.status == TaskStatus::Success,
    ensures
        s.proof is Some,
        s.vk is Some,
        s.error is None,
        s.started_at matches Some(st) && s.created_at.spec_le(st),
        s.started_at matches Some(st) && s.finished_at matches Some(f) && st.spec_le(f),
{
}

/// A failed task: a well-formed snapshot in `Failed` status carries a
/// non-empty error and no proof.
pub proof fn lemma_failed_snapshot(s: QueryTaskResponse)
    requires
        s.wf(),
        s.status == TaskStatus::Failed,
    ensures
        s.error matches Some(e) && e@.len() > 0,
        s.proof is None,
        s.vk is None,
{
}

} // verus!
