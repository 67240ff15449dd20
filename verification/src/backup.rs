//! The job state machine and the decision step of the start sequence.
//!
//! A [`BackupJob`] is one cancellable unit of work bound to one mounted
//! filesystem. It runs as its own task: the task's loop waits for either the
//! periodic tick of its schedule or the one-shot cancellation signal and
//! feeds what arrived into [`BackupJob::step`]; the returned effect tells the
//! task what to do. `Stopped` is terminal — a stopped job is never reused; a
//! fresh job is built if the same device attaches again.

use vstd::prelude::*;

use crate::config::{BackupConfig, ConfigError};

verus! {

/// Lifecycle state of a job. There is no explicit starting state:
/// construction and spawning are one atomic step from the dispatcher's point
/// of view, so a job is observed `Running` from birth until it is `Stopped`.
#[derive(Debug, Clone, Copy, PartialEq, Eq, Structural)]
pub enum JobState {
    Running,
    Stopped,
}

/// What a job's task observed while waiting: the periodic tick of its work
/// schedule, or the cancellation signal.
#[derive(Debug, Clone, Copy, PartialEq, Eq, Structural)]
pub enum JobSignal {
    Tick,
    Cancel,
    /// The job's own work unit failed irrecoverably.
    WorkFailed,
}

/// What one step of the job asks its task to do next.
#[derive(Debug, Clone, Copy, PartialEq, Eq, Structural)]
pub enum JobEffect {
    /// Perform one unit of backup work and report progress.
    RunWorkUnit,
    /// The job has just stopped; leave the loop and release its resources.
    AckStopped,
    /// The job has just stopped because its work unit failed; report the
    /// failure to the dispatcher — per-device and non-fatal, never a crash.
    ReportFailure,
    /// Nothing: the job is already stopped.
    Nothing,
}

/// Why a mount attempt failed. Each failure is per-device and non-fatal.
#[derive(Debug, Clone, Copy, PartialEq, Eq, Structural)]
pub enum MountError {
    /// The caller is not allowed to mount this device.
    PermissionDenied,
    /// The filesystem is already mounted.
    AlreadyMounted,
    /// The device disappeared before it could be mounted.
    DeviceGone,
    /// The connection to the mount service failed.
    Transport,
}

/// Why a start sequence produced no job. Each case is per-device and
/// non-fatal: the device is skipped and the dispatcher keeps serving events.
#[derive(Debug, Clone, Copy, PartialEq, Eq, Structural)]
pub enum StartError {
    /// Mounting the filesystem failed.
    Mount(MountError),
    /// The volume's configuration could not be resolved.
    Config(ConfigError),
    /// The volume's configuration disables backups.
    BackupDisabled,
}

/// One cancellable background task bound to one mounted filesystem.
#[derive(Debug)]
pub struct BackupJob {
    /// The object path of the device this job backs up; the registry key.
    pub object_path: String,
    /// Where the filesystem is mounted.
    pub mountpoint: String,
    /// Where the job is in its lifecycle.
    pub state: JobState,
    /// How many work units the job has performed so far.
    pub ticks: u64,
}

/// The job after its cancellation signal: stopped, everything else as it was.
pub open spec fn spec_cancelled(j: BackupJob) -> BackupJob {
    BackupJob { state: JobState::Stopped, ..j }
}

/// The work-unit counter after one more tick; it saturates rather than wraps.
pub open spec fn spec_next_ticks(t: u64) -> u64 {
    if t < u64::MAX {
        (t + 1) as u64
    } else {
        t
    }
}

impl BackupJob {
    /// Builds a job for a freshly mounted filesystem. The new job is running
    /// and has done no work yet.
    pub fn new(object_path: String, mountpoint: String) -> (j: BackupJob)
        ensures
            j.object_path == object_path,
            j.mountpoint == mountpoint,
            j.state == JobState::Running,
            j.ticks == 0,
    {
        BackupJob { object_path, mountpoint, state: JobState::Running, ticks: 0 }
    }

    /// One step of the job's loop. A tick of a running job performs one work
    /// unit; the cancellation signal stops the job; a failed work unit stops
    /// the job and reports the failure instead of crashing anything; a
    /// stopped job reacts to nothing, so a dropped or repeated signal can
    /// never make it misbehave.
    pub fn step(&mut self, signal: JobSignal) -> (e: JobEffect)
        ensures
            match signal {
                JobSignal::Tick => {
                    if old(self).state == JobState::Running {
                        &&& *final(self) == BackupJob {
                            ticks: spec_next_ticks(old(self).ticks),
                            ..*old(self)
                        }
                        &&& e == JobEffect::RunWorkUnit
                    } else {
                        &&& *final(self) == *old(self)
                        &&& e == JobEffect::Nothing
                    }
                },
                JobSignal::Cancel => {
                    &&& *final(self) == spec_cancelled(*old(self))
                    &&& e == (if old(self).state == JobState::Running {
                        JobEffect::AckStopped
                    } else {
                        JobEffect::Nothing
                    })
                },
                JobSignal::WorkFailed => {
                    &&& *final(self) == spec_cancelled(*old(self))
                    &&& e == (if old(self).state == JobState::Running {
                        JobEffect::ReportFailure
                    } else {
                        JobEffect::Nothing
                    })
                },
            },
    {
        match signal {
            JobSignal::Tick => {
                if self.state == JobState::Running {
                    if self.ticks < u64::MAX {
                        self.ticks = self.ticks + 1;
                    }
                    JobEffect::RunWorkUnit
                } else {
                    JobEffect::Nothing
                }
            },
            JobSignal::Cancel => {
                let was_running = self.state == JobState::Running;
                self.state = JobState::Stopped;
                if was_running {
                    JobEffect::AckStopped
                } else {
                    JobEffect::Nothing
                }
            },
            JobSignal::WorkFailed => {
                let was_running = self.state == JobState::Running;
                self.state = JobState::Stopped;
                if was_running {
                    JobEffect::ReportFailure
                } else {
                    JobEffect::Nothing
                }
            },
        }
    }

    /// Stops the job. Safe to call in any state: cancelling an already
    /// stopped job changes nothing and cannot error or block.
    pub fn cancel(&mut self)
        ensures
            *final(self) == spec_cancelled(*old(self)),
    {
        self.state = JobState::Stopped;
    }
}

/// Cancellation is idempotent: cancelling a job that is already stopped
/// leaves it exactly as it was, so the registry may stop a job at most once
/// while later strays are harmless.
pub proof fn lemma_cancel_idempotent(j: BackupJob)
    ensures
        spec_cancelled(spec_cancelled(j)) == spec_cancelled(j),
        spec_cancelled(j).state == JobState::Stopped,
{
}

/// Decision step of the start sequence: a job is built exactly when the
/// mount succeeded, the configuration resolved, and it enables backups.
/// Every other outcome names the per-device reason no job was started.
pub fn evaluate_start(
    object_path: String,
    mount_result: Result<String, MountError>,
    config_result: Result<BackupConfig, ConfigError>,
) -> (r: Result<BackupJob, StartError>)
    ensures
        match mount_result {
            Err(m) => r == Result::<BackupJob, StartError>::Err(StartError::Mount(m)),
            Ok(mountpoint) => match config_result {
                Err(c) => r == Result::<BackupJob, StartError>::Err(StartError::Config(c)),
                Ok(config) => {
                    if config.do_backup {
                        &&& r matches Ok(j)
                        &&& j.object_path == object_path
                        &&& j.mountpoint == mountpoint
                        &&& j.state == JobState::Running
                        &&& j.ticks == 0
                    } else {
                        r == Result::<BackupJob, StartError>::Err(StartError::BackupDisabled)
                    }
                },
            },
        },
{
    match mount_result {
        Err(m) => Err(StartError::Mount(m)),
        Ok(mountpoint) => match config_result {
            Err(c) => Err(StartError::Config(c)),
            Ok(config) => {
                if config.do_backup {
                    Ok(BackupJob::new(object_path, mountpoint))
                } else {
                    Err(StartError::BackupDisabled)
                }
            },
        },
    }
}

} // verus!
