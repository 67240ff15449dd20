use pbs_usb_backup_helper::backup::{evaluate_start, JobState, MountError, StartError};
use pbs_usb_backup_helper::config::{
    resolve_config, BackupConfig, BackupType, ChangeDetectionMode, ConfigError,
    ConfigReadOutcome, CryptMode,
};
use pbs_usb_backup_helper::fs_detect::{classify_signal, FsEvent, RawSignal};

const FILESYSTEM_INTERFACE: &str = "org.freedesktop.UDisks2.Filesystem";

#[test]
fn default_config_is_the_safety_default() {
    let c = BackupConfig::default();
    assert!(!c.do_backup);
    assert_eq!(
        c.help_schema_url,
        "https://github.com/danya02/pbs-usb-backup-helper/blob/main/src/config.rs"
    );
    assert_eq!(c.repository, "pbs.example.internal:datastore");
    assert_eq!(c.change_detection_mode, ChangeDetectionMode::Metadata);
    assert_eq!(c.namespace, "");
    assert_eq!(c.crypt_mode, CryptMode::NoEncryption);
    assert_eq!(c.backup_id, "random_flash_drive");
    assert_eq!(c.pxar_name, "flash_drive");
    assert_eq!(c.backup_type, BackupType::Host);
}

#[test]
fn parsed_config_is_used_as_is() {
    let mut c = BackupConfig::default();
    c.do_backup = true;
    c.namespace = "usb".to_string();
    let r = resolve_config(ConfigReadOutcome::Parsed(c));
    assert!(!r.write_default);
    let c = r.result.unwrap();
    assert!(c.do_backup);
    assert_eq!(c.namespace, "usb");
}

#[test]
fn missing_config_yields_default_and_orders_a_write() {
    let r = resolve_config(ConfigReadOutcome::Missing);
    assert!(r.write_default);
    let c = r.result.unwrap();
    assert!(!c.do_backup);
    assert_eq!(c.repository, "pbs.example.internal:datastore");
}

#[test]
fn unreadable_config_is_a_per_volume_error() {
    let r = resolve_config(ConfigReadOutcome::Unreadable);
    assert!(!r.write_default);
    assert_eq!(r.result.unwrap_err(), ConfigError::Unreadable);
}

#[test]
fn malformed_config_is_a_per_volume_error() {
    let r = resolve_config(ConfigReadOutcome::Malformed);
    assert!(!r.write_default);
    assert_eq!(r.result.unwrap_err(), ConfigError::Malformed);
}

#[test]
fn interfaces_added_with_filesystem_is_an_attachment() {
    let sig = RawSignal::InterfacesAdded {
        object_path: "/org/freedesktop/UDisks2/block_devices/sdb1".to_string(),
        interfaces: vec![
            "org.freedesktop.UDisks2.Block".to_string(),
            FILESYSTEM_INTERFACE.to_string(),
        ],
    };
    match classify_signal(sig) {
        Some(FsEvent::FilesystemAdded(p)) => {
            assert_eq!(p, "/org/freedesktop/UDisks2/block_devices/sdb1");
        }
        _ => panic!("a filesystem interface must produce an attachment event"),
    }
}

#[test]
fn interfaces_added_without_filesystem_is_ignored() {
    let sig = RawSignal::InterfacesAdded {
        object_path: "/org/freedesktop/UDisks2/block_devices/sdb".to_string(),
        interfaces: vec!["org.freedesktop.UDisks2.Block".to_string()],
    };
    assert!(classify_signal(sig).is_none());
}

#[test]
fn losing_filesystem_among_other_interfaces_is_a_detachment() {
    // The device keeps other capabilities but loses the filesystem one: it
    // must still emit a detachment.
    let sig = RawSignal::InterfacesRemoved {
        object_path: "/org/freedesktop/UDisks2/block_devices/sdb1".to_string(),
        interfaces: vec![
            FILESYSTEM_INTERFACE.to_string(),
            "org.freedesktop.UDisks2.Partition".to_string(),
        ],
    };
    match classify_signal(sig) {
        Some(FsEvent::FilesystemRemoved(p)) => {
            assert_eq!(p, "/org/freedesktop/UDisks2/block_devices/sdb1");
        }
        _ => panic!("losing the filesystem interface must produce a detachment event"),
    }
}

#[test]
fn removal_without_filesystem_is_ignored() {
    let sig = RawSignal::InterfacesRemoved {
        object_path: "/org/freedesktop/UDisks2/block_devices/sdb".to_string(),
        interfaces: vec!["org.freedesktop.UDisks2.Partition".to_string()],
    };
    assert!(classify_signal(sig).is_none());
}

#[test]
fn empty_interface_list_is_ignored() {
    let sig = RawSignal::InterfacesAdded {
        object_path: "/whatever".to_string(),
        interfaces: vec![],
    };
    assert!(classify_signal(sig).is_none());
}

#[test]
fn other_signals_are_ignored() {
    assert!(classify_signal(RawSignal::Other).is_none());
}

#[test]
fn start_fails_on_each_mount_error() {
    for (err, want) in [
        (MountError::PermissionDenied, StartError::Mount(MountError::PermissionDenied)),
        (MountError::AlreadyMounted, StartError::Mount(MountError::AlreadyMounted)),
        (MountError::DeviceGone, StartError::Mount(MountError::DeviceGone)),
        (MountError::Transport, StartError::Mount(MountError::Transport)),
    ] {
        let r = evaluate_start("sdb1".to_string(), Err(err), Ok(BackupConfig::default()));
        assert_eq!(r.unwrap_err(), want);
    }
}

#[test]
fn start_fails_on_config_errors() {
    let r = evaluate_start(
        "sdb1".to_string(),
        Ok("/mnt/sdb1".to_string()),
        Err(ConfigError::Malformed),
    );
    assert_eq!(r.unwrap_err(), StartError::Config(ConfigError::Malformed));
    let r = evaluate_start(
        "sdb1".to_string(),
        Ok("/mnt/sdb1".to_string()),
        Err(ConfigError::Unreadable),
    );
    assert_eq!(r.unwrap_err(), StartError::Config(ConfigError::Unreadable));
}

#[test]
fn start_builds_a_running_job_for_an_enabled_volume() {
    let mut c = BackupConfig::default();
    c.do_backup = true;
    let j = evaluate_start("sdc1".to_string(), Ok("/mnt/sdc1".to_string()), Ok(c)).unwrap();
    assert_eq!(j.object_path, "sdc1");
    assert_eq!(j.mountpoint, "/mnt/sdc1");
    assert_eq!(j.state, JobState::Running);
    assert_eq!(j.ticks, 0);
}
