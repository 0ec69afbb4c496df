//! Task lifecycle status and its by-name wire representation.
use vstd::prelude::*;

use crate::DecodeError;
use crate::text::str_eq;

verus! {

/// Lifecycle of one proving task. `Queued` at submission, `Proving` once the
/// service starts work, then terminally `Success` or `Failed`.
#[derive(Clone, Copy, Debug, PartialEq, Eq, Structural)]
pub enum TaskStatus {
    Queued,
    Proving,
    Success,
    Failed,
}

impl TaskStatus {
    /// Wire name of this status (statuses are serialized by name, not number).
    pub open spec fn spec_name(self) -> Seq<char> {
        match self {
            TaskStatus::Queued => "Queued"@,
            TaskStatus::Proving => "Proving"@,
            TaskStatus::Success => "Success"@,
            TaskStatus::Failed => "Failed"@,
        }
    }

    /// Strict by-name decode: exactly the four variant names are accepted.
    pub open spec fn spec_from_name(s: Seq<char>) -> Option<TaskStatus> {
        if s == "Queued"@ {
            Some(TaskStatus::Queued)
        } else if s == "Proving"@ {
            Some(TaskStatus::Proving)
        } else if s == "Success"@ {
            Some(TaskStatus::Success)
        } else if s == "Failed"@ {
            Some(TaskStatus::Failed)
        } else {
            None
        }
    }

    pub fn name(self) -> (r: &'static str)
        ensures
            r@ == self.spec_name(),
    {
        match self {
            TaskStatus::Queued => "Queued",
            TaskStatus::Proving => "Proving",
            TaskStatus::Success => "Success",
            TaskStatus::Failed => "Failed",
        }
    }

    pub fn from_name(s: &str) -> (r: Result<Self, DecodeError>)
        ensures
            r matches Ok(t) ==> Self::spec_from_name(s@) == Some(t),
            r is Err ==> Self::spec_from_name(s@) is None,
    {
        if str_eq(s, "Queued") {
            Ok(TaskStatus::Queued)
        } else if str_eq(s, "Proving") {
            Ok(TaskStatus::Proving)
        } else if str_eq(s, "Success") {
            Ok(TaskStatus::Success)
        } else if str_eq(s, "Failed") {
            Ok(TaskStatus::Failed)
        } else {
            Err(DecodeError)
        }
    }
}

/// The by-name codec round-trips: the name of every status decodes back to
/// that status.
pub proof fn lemma_status_name_round_trip(t: TaskStatus)
    ensures
        TaskStatus::spec_from_name(t.spec_name()) == Some(t),
{
    reveal_strlit("Queued");
    reveal_strlit("Proving");
    reveal_strlit("Success");
    reveal_strlit("Failed");
    assert("Proving"@ != "Queued"@) by {
        assert("Proving"@.len() != "Queued"@.len());
    }
    assert("Success"@ != "Queued"@) by {
        assert("Success"@.len() != "Queued"@.len());
    }
    assert("Success"@ != "Proving"@) by {
        assert("Success"@[0] != "Proving"@[0]);
    }
    assert("Failed"@ != "Queued"@) by {
        assert("Failed"@[0] != "Queued"@[0]);
    }
    assert("Failed"@ != "Proving"@) by {
        assert("Failed"@.len() != "Proving"@.len());
    }
    assert("Failed"@ != "Success"@) by {
        assert("Failed"@.len() != "Success"@.len());
    }
}

} // verus!
