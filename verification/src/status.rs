//! Lifecycle states of a supervised process.

use vstd::prelude::*;

verus! {

/// The lifecycle state of one supervised process.
#[derive(Clone, Copy, PartialEq, Eq, Structural, Debug)]
pub enum ProcessStatus {
    /// A child is currently running (or a periodic run is in progress).
    Running,
    /// The process exited and no restart is pending.
    Stopped,
    /// A periodic process is sleeping until its next run.
    WaitingForPeriod,
    /// The last spawn failed or the child exited and a restart is pending.
    Failed,
    /// The operator stopped the process; auto-restart is suppressed.
    ManuallyStopped,
}

/// The label a status carries in list snapshots.
pub open spec fn status_label_spec(s: ProcessStatus) -> Seq<char> {
    match s {
        ProcessStatus::Running => "running"@,
        ProcessStatus::Stopped => "stopped"@,
        ProcessStatus::WaitingForPeriod => "waiting"@,
        ProcessStatus::Failed => "failed"@,
        ProcessStatus::ManuallyStopped => "manually_stopped"@,
    }
}

impl ProcessStatus {
    /// The stringified form reported by the list endpoint.
    pub fn as_str(&self) -> (r: &'static str)
        ensures
            r@ == status_label_spec(*self),
    {
        match self {
            ProcessStatus::Running => "running",
            ProcessStatus::Stopped => "stopped",
            ProcessStatus::WaitingForPeriod => "waiting",
            ProcessStatus::Failed => "failed",
            ProcessStatus::ManuallyStopped => "manually_stopped",
        }
    }
}

} // verus!
