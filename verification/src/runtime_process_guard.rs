//! Fail-closed ownership of the Java process behind one authority runtime.
//!
//! The record outlives a hard-killed controller. A later controller may reset
//! the runtime directory only once it has shown that the recorded Java
//! process is gone; a record without a Java PID is ambiguous and blocks the
//! reset. Reading and writing the record and probing a PID are I/O done by
//! the caller; the decisions are made here.
use vstd::prelude::*;
use crate::text::{decimal_spec, decimal_string};

verus! {

pub const RUNTIME_PROCESS_RECORD_VERSION: u16 = 1;

#[derive(Debug, Clone, Copy, PartialEq, Eq, Structural)]
pub struct RuntimeProcessRecord {
    pub version: u16,
    pub controller_pid: u32,
    pub java_pid: Option<u32>,
}

/// The ownership record of one runtime and the file it is kept in.
pub struct RuntimeProcessGuard {
    pub path: String,
    pub record: RuntimeProcessRecord,
}

impl RuntimeProcessGuard {
    /// A guard for a launch that has not spawned Java yet.
    pub fn pending(path: String, controller_pid: u32) -> (r: Self)
        ensures
            r.path@ == path@,
            r.record == (RuntimeProcessRecord {
                version: RUNTIME_PROCESS_RECORD_VERSION,
                controller_pid,
                java_pid: None,
            }),
    {
        RuntimeProcessGuard {
            path,
            record: RuntimeProcessRecord { version: RUNTIME_PROCESS_RECORD_VERSION, controller_pid, java_pid: None },
        }
    }

    /// Records the spawned Java PID; the caller persists `self.record`
    /// before it goes on, and reaps the child if that write fails.
    pub fn record_java(&mut self, pid: u32)
        ensures
            final(self).record.java_pid == Some(pid),
            final(self).record.version == old(self).record.version,
            final(self).record.controller_pid == old(self).record.controller_pid,
            final(self).path@ == old(self).path@,
    {
        self.record.java_pid = Some(pid);
    }
}

/// What a liveness probe of a PID found.
#[derive(Debug, Clone, Copy, PartialEq, Eq, Structural)]
pub enum Liveness {
    Alive,
    Gone,
    /// The probe itself failed.
    Unknown,
}

/// The outcome of sending signal 0 to a PID.
#[derive(Debug, Clone, Copy, PartialEq, Eq, Structural)]
pub enum SignalOutcome {
    Delivered,
    NoSuchProcess,
    PermissionDenied,
    OtherError,
}

/// A PID beyond `i32::MAX` cannot name a process that a signal reaches.
pub fn pid_can_be_signalled(pid: u32) -> (r: bool)
    ensures
        r == (pid <= i32::MAX),
{
    pid <= 0x7fff_ffff
}

/// A delivered signal or a permission error means a live process; no such
/// process means it is gone; any other error proves nothing.
pub fn liveness_of(outcome: SignalOutcome) -> (r: Liveness)
    ensures
        outcome == SignalOutcome::Delivered || outcome == SignalOutcome::PermissionDenied ==> r == Liveness::Alive,
        outcome == SignalOutcome::NoSuchProcess ==> r == Liveness::Gone,
        outcome == SignalOutcome::OtherError ==> r == Liveness::Unknown,
{
    match outcome {
        SignalOutcome::Delivered => Liveness::Alive,
        SignalOutcome::PermissionDenied => Liveness::Alive,
        SignalOutcome::NoSuchProcess => Liveness::Gone,
        SignalOutcome::OtherError => Liveness::Unknown,
    }
}

/// Whether dropping a guard may delete its record: only where no Java PID
/// was recorded or the recorded process is shown to be gone.
pub fn safe_to_remove(record: &RuntimeProcessRecord, probe: Liveness) -> (r: bool)
    ensures
        r == (record.java_pid is None || probe == Liveness::Gone),
{
    match record.java_pid {
        None => true,
        Some(_) => probe == Liveness::Gone,
    }
}

/// Why a previous record blocks a runtime reset.
#[derive(Debug, Clone, Copy, PartialEq, Eq, Structural)]
pub enum ProcessGuardError {
    UnsupportedVersion,
    /// The recorded Java process is still alive.
    StillAlive { pid: u32 },
    /// Whether the recorded Java process is alive could not be shown.
    LivenessUnknown { pid: u32 },
    /// A launch ended before its Java PID was durably recorded.
    AmbiguousLaunch,
}

impl ProcessGuardError {
    pub fn message(&self) -> (r: String)
        ensures
            self is UnsupportedVersion ==> r@
                == "runtime process record version is unsupported; refusing unsafe runtime reset"@,
            self matches ProcessGuardError::StillAlive { pid } ==> r@ == "previous Minecraft Java process PID "@
                + decimal_spec(pid as nat) + " is still alive; refusing to reset its runtime directory"@,
            self matches ProcessGuardError::LivenessUnknown { pid } ==> r@
                == "cannot prove whether previous Java PID "@ + decimal_spec(pid as nat) + " is still alive"@,
            self is AmbiguousLaunch ==> r@
                == "a previous authority launch ended before Java ownership was durably recorded; refusing to reset the runtime directory until the ambiguous launch is investigated"@,
    {
        match self {
            ProcessGuardError::UnsupportedVersion => String::from_str(
                "runtime process record version is unsupported; refusing unsafe runtime reset",
            ),
            ProcessGuardError::StillAlive { pid } => {
                let mut text = String::from_str("previous Minecraft Java process PID ");
                let digits = decimal_string(*pid as u64);
                text.append(digits.as_str());
                text.append(" is still alive; refusing to reset its runtime directory");
                text
            },
            ProcessGuardError::LivenessUnknown { pid } => {
                let mut text = String::from_str("cannot prove whether previous Java PID ");
                let digits = decimal_string(*pid as u64);
                text.append(digits.as_str());
                text.append(" is still alive");
                text
            },
            ProcessGuardError::AmbiguousLaunch => String::from_str(
                "a previous authority launch ended before Java ownership was durably recorded; refusing to reset the runtime directory until the ambiguous launch is investigated",
            ),
        }
    }
}

/// What a previous record asks of the caller before a reset.
#[derive(Debug, Clone, Copy, PartialEq, Eq, Structural)]
pub enum PreviousRecordStep {
    /// Probe this Java PID, then decide with `after_probe`.
    ProbeJava { pid: u32 },
    Refuse { error: ProcessGuardError },
}

/// The first decision on a previous record that was read and parsed.
pub fn inspect_previous_record(record: &RuntimeProcessRecord) -> (r: PreviousRecordStep)
    ensures
        record.version != RUNTIME_PROCESS_RECORD_VERSION ==> r == (PreviousRecordStep::Refuse {
            error: ProcessGuardError::UnsupportedVersion,
        }),
        record.version == RUNTIME_PROCESS_RECORD_VERSION && record.java_pid is None ==> r == (
        PreviousRecordStep::Refuse { error: ProcessGuardError::AmbiguousLaunch }),
        record.version == RUNTIME_PROCESS_RECORD_VERSION && record.java_pid is Some ==> r == (
        PreviousRecordStep::ProbeJava { pid: record.java_pid->0 }),
{
    if record.version != RUNTIME_PROCESS_RECORD_VERSION {
        return PreviousRecordStep::Refuse { error: ProcessGuardError::UnsupportedVersion };
    }
    match record.java_pid {
        Some(pid) => PreviousRecordStep::ProbeJava { pid },
        None => PreviousRecordStep::Refuse { error: ProcessGuardError::AmbiguousLaunch },
    }
}

/// After probing the recorded PID: the stale record may be cleared only
/// where the process is shown to be gone.
pub fn after_probe(pid: u32, probe: Liveness) -> (r: Result<(), ProcessGuardError>)
    ensures
        probe == Liveness::Gone ==> r is Ok,
        probe == Liveness::Alive ==> r == Err::<(), ProcessGuardError>(ProcessGuardError::StillAlive { pid }),
        probe == Liveness::Unknown ==> r == Err::<(), ProcessGuardError>(
            ProcessGuardError::LivenessUnknown { pid },
        ),
{
    match probe {
        Liveness::Gone => Ok(()),
        Liveness::Alive => Err(ProcessGuardError::StillAlive { pid }),
        Liveness::Unknown => Err(ProcessGuardError::LivenessUnknown { pid }),
    }
}

} // verus!
