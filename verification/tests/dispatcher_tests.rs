use pbs_usb_backup_helper::backup::{
    evaluate_start, BackupJob, JobEffect, JobSignal, JobState, MountError, StartError,
};
use pbs_usb_backup_helper::config::{BackupConfig, ConfigError};
use pbs_usb_backup_helper::dispatcher::{Action, Dispatcher};

fn enabled_config() -> BackupConfig {
    let mut c = BackupConfig::default();
    c.do_backup = true;
    c
}

fn start_token(action: Action) -> u64 {
    match action {
        Action::StartSequence { token, .. } => token,
        _ => panic!("expected a start sequence to be ordered"),
    }
}

#[test]
fn attach_orders_start_sequence_for_device() {
    let mut d = Dispatcher::new();
    let act = d.on_attached("/org/freedesktop/UDisks2/block_devices/sdb1".to_string());
    match act {
        Action::StartSequence { object_path, .. } => {
            assert_eq!(object_path, "/org/freedesktop/UDisks2/block_devices/sdb1");
        }
        _ => panic!("expected a start sequence to be ordered"),
    }
    assert_eq!(d.live_job_count(), 0);
}

#[test]
fn disabled_config_leaves_registry_empty() {
    // Device attaches; mount succeeds; the volume's config disables backups.
    let mut d = Dispatcher::new();
    let sdb1 = "sdb1".to_string();
    let tok = start_token(d.on_attached(sdb1.clone()));
    let started = evaluate_start(
        sdb1.clone(),
        Ok("/mnt/sdb1".to_string()),
        Ok(BackupConfig::default()),
    );
    assert!(matches!(started, Err(StartError::BackupDisabled)));
    d.on_start_failed(tok);
    assert_eq!(d.registered_job(&sdb1), None);
    assert_eq!(d.live_job_count(), 0);
}

#[test]
fn enabled_config_registers_exactly_one_job() {
    // Device attaches; mount succeeds; config enables backups.
    let mut d = Dispatcher::new();
    let sdc1 = "sdc1".to_string();
    let tok = start_token(d.on_attached(sdc1.clone()));
    let started = evaluate_start(sdc1.clone(), Ok("/mnt/sdc1".to_string()), Ok(enabled_config()));
    let mut job = started.expect("an enabled volume must start a job");
    assert_eq!(job.state, JobState::Running);
    let act = d.on_job_ready(tok);
    assert!(matches!(act, Action::Nothing));
    assert_eq!(d.registered_job(&sdc1), Some(tok));
    assert_eq!(d.live_job_count(), 1);
    // After three tick periods the job is still running.
    for _ in 0..3 {
        assert_eq!(job.step(JobSignal::Tick), JobEffect::RunWorkUnit);
    }
    assert_eq!(job.state, JobState::Running);
    assert_eq!(job.ticks, 3);
}

#[test]
fn detach_stops_job_and_clears_registry() {
    let mut d = Dispatcher::new();
    let sdc1 = "sdc1".to_string();
    let tok = start_token(d.on_attached(sdc1.clone()));
    let mut job = evaluate_start(
        sdc1.clone(),
        Ok("/mnt/sdc1".to_string()),
        Ok(enabled_config()),
    )
    .unwrap();
    d.on_job_ready(tok);
    let act = d.on_detached(&sdc1);
    match act {
        Action::CancelAndJoin { token } => assert_eq!(token, tok),
        _ => panic!("detaching a device with a live job must cancel it"),
    }
    assert_eq!(job.step(JobSignal::Cancel), JobEffect::AckStopped);
    assert_eq!(job.state, JobState::Stopped);
    assert_eq!(d.registered_job(&sdc1), None);
    assert_eq!(d.live_job_count(), 0);
}

#[test]
fn mount_failure_is_per_device_and_dispatcher_continues() {
    let mut d = Dispatcher::new();
    let sdd1 = "sdd1".to_string();
    let tok = start_token(d.on_attached(sdd1.clone()));
    let started = evaluate_start(
        sdd1.clone(),
        Err::<String, MountError>(MountError::PermissionDenied),
        Err(ConfigError::Unreadable),
    );
    assert!(matches!(started, Err(StartError::Mount(MountError::PermissionDenied))));
    d.on_start_failed(tok);
    assert_eq!(d.registered_job(&sdd1), None);
    assert_eq!(d.live_job_count(), 0);
    // The dispatcher keeps serving other devices.
    let sde1 = "sde1".to_string();
    let tok2 = start_token(d.on_attached(sde1.clone()));
    d.on_job_ready(tok2);
    assert_eq!(d.registered_job(&sde1), Some(tok2));
    assert_eq!(d.live_job_count(), 1);
}

#[test]
fn detach_before_start_completes_discards_late_job() {
    // Attached(A) then Detached(A) before the start sequence finishes:
    // its late result must be discarded, never registered.
    let mut d = Dispatcher::new();
    let a = "A".to_string();
    let tok = start_token(d.on_attached(a.clone()));
    let act = d.on_detached(&a);
    assert!(matches!(act, Action::Nothing));
    let act = d.on_job_ready(tok);
    match act {
        Action::DiscardJob { token } => assert_eq!(token, tok),
        _ => panic!("a start result for a detached device must be discarded"),
    }
    assert_eq!(d.registered_job(&a), None);
    assert_eq!(d.live_job_count(), 0);
}

#[test]
fn quick_reattach_keeps_only_the_second_job() {
    // Attached(A), Detached(A), Attached(A): exactly one job lives, the one
    // of the second attachment; the first is discarded when it completes.
    let mut d = Dispatcher::new();
    let a = "A".to_string();
    let t1 = start_token(d.on_attached(a.clone()));
    d.on_detached(&a);
    let t2 = start_token(d.on_attached(a.clone()));
    assert_ne!(t1, t2);
    let act = d.on_job_ready(t1);
    assert!(matches!(act, Action::DiscardJob { token } if token == t1));
    let act = d.on_job_ready(t2);
    assert!(matches!(act, Action::Nothing));
    assert_eq!(d.registered_job(&a), Some(t2));
    assert_eq!(d.live_job_count(), 1);
}

#[test]
fn quick_reattach_other_arrival_order_keeps_only_the_second_job() {
    // Same race, but the second attachment's start finishes first.
    let mut d = Dispatcher::new();
    let a = "A".to_string();
    let t1 = start_token(d.on_attached(a.clone()));
    d.on_detached(&a);
    let t2 = start_token(d.on_attached(a.clone()));
    let act = d.on_job_ready(t2);
    assert!(matches!(act, Action::Nothing));
    let act = d.on_job_ready(t1);
    assert!(matches!(act, Action::DiscardJob { token } if token == t1));
    assert_eq!(d.registered_job(&a), Some(t2));
    assert_eq!(d.live_job_count(), 1);
}

#[test]
fn duplicate_attach_of_live_device_is_idempotent() {
    let mut d = Dispatcher::new();
    let a = "A".to_string();
    let tok = start_token(d.on_attached(a.clone()));
    d.on_job_ready(tok);
    let act = d.on_attached(a.clone());
    assert!(matches!(act, Action::Nothing));
    assert_eq!(d.registered_job(&a), Some(tok));
    assert_eq!(d.live_job_count(), 1);
}

#[test]
fn duplicate_attach_while_start_in_flight_supersedes_it() {
    let mut d = Dispatcher::new();
    let a = "A".to_string();
    let t1 = start_token(d.on_attached(a.clone()));
    let t2 = start_token(d.on_attached(a.clone()));
    assert_ne!(t1, t2);
    // The superseded start's result is discarded; the newer one registers.
    assert!(matches!(d.on_job_ready(t1), Action::DiscardJob { token } if token == t1));
    assert!(matches!(d.on_job_ready(t2), Action::Nothing));
    assert_eq!(d.registered_job(&a), Some(t2));
    assert_eq!(d.live_job_count(), 1);
}

#[test]
fn detach_of_unknown_device_is_idempotent() {
    let mut d = Dispatcher::new();
    let act = d.on_detached(&"never_seen".to_string());
    assert!(matches!(act, Action::Nothing));
    assert_eq!(d.live_job_count(), 0);
}

#[test]
fn shutdown_cancels_every_live_job_and_refuses_new_starts() {
    let mut d = Dispatcher::new();
    let a = "A".to_string();
    let b = "B".to_string();
    let ta = start_token(d.on_attached(a.clone()));
    let tb = start_token(d.on_attached(b.clone()));
    d.on_job_ready(ta);
    d.on_job_ready(tb);
    assert_eq!(d.live_job_count(), 2);
    let acts = d.shutdown();
    let mut cancelled: Vec<u64> = acts
        .into_iter()
        .map(|act| match act {
            Action::CancelAndJoin { token } => token,
            _ => panic!("shutdown must only order cancel-and-join"),
        })
        .collect();
    cancelled.sort();
    let mut expected = vec![ta, tb];
    expected.sort();
    assert_eq!(cancelled, expected);
    assert_eq!(d.live_job_count(), 0);
    assert!(d.is_shut_down());
    // No new starts after shutdown; late results are discarded.
    assert!(matches!(d.on_attached("C".to_string()), Action::Nothing));
    assert!(matches!(d.on_job_ready(99), Action::DiscardJob { token: 99 }));
}

#[test]
fn cancel_is_idempotent_on_a_stopped_job() {
    let mut job = BackupJob::new("sdc1".to_string(), "/mnt/sdc1".to_string());
    job.cancel();
    assert_eq!(job.state, JobState::Stopped);
    // Cancelling again must not error, panic or change anything.
    job.cancel();
    assert_eq!(job.state, JobState::Stopped);
    assert_eq!(job.step(JobSignal::Cancel), JobEffect::Nothing);
    assert_eq!(job.state, JobState::Stopped);
}

#[test]
fn failed_work_unit_stops_only_its_own_job() {
    let mut d = Dispatcher::new();
    let a = "A".to_string();
    let b = "B".to_string();
    let ta = start_token(d.on_attached(a.clone()));
    let tb = start_token(d.on_attached(b.clone()));
    d.on_job_ready(ta);
    d.on_job_ready(tb);
    // Job A's work unit fails irrecoverably: the job stops itself and the
    // failure is reported, never a crash.
    let mut job_a = BackupJob::new(a.clone(), "/mnt/A".to_string());
    assert_eq!(job_a.step(JobSignal::WorkFailed), JobEffect::ReportFailure);
    assert_eq!(job_a.state, JobState::Stopped);
    let act = d.on_job_failed(ta);
    assert!(matches!(act, Action::CancelAndJoin { token } if token == ta));
    // Only A left the registry; B keeps running.
    assert_eq!(d.registered_job(&a), None);
    assert_eq!(d.registered_job(&b), Some(tb));
    assert_eq!(d.live_job_count(), 1);
    // A repeated or stray failure report changes nothing.
    assert!(matches!(d.on_job_failed(ta), Action::Nothing));
    assert_eq!(job_a.step(JobSignal::WorkFailed), JobEffect::Nothing);
}

#[test]
fn stopped_job_ignores_ticks() {
    let mut job = BackupJob::new("sdc1".to_string(), "/mnt/sdc1".to_string());
    assert_eq!(job.step(JobSignal::Tick), JobEffect::RunWorkUnit);
    assert_eq!(job.step(JobSignal::Cancel), JobEffect::AckStopped);
    assert_eq!(job.step(JobSignal::Tick), JobEffect::Nothing);
    assert_eq!(job.ticks, 1);
    assert_eq!(job.state, JobState::Stopped);
}
