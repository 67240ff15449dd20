//! Per-volume backup configuration and the decision step of loading it.
//!
//! A configuration record lives in a well-known file on each mounted volume.
//! Reading and parsing that file is I/O and happens outside this library; the
//! outcome of the attempt is handed in as a [`ConfigReadOutcome`] and
//! [`resolve_config`] decides what the daemon does with it. A missing file is
//! replaced by the safety default (`do_backup = false`), so a first-time
//! volume never starts a job on its own.

use vstd::prelude::*;

verus! {

/// How the backup client detects changed files between runs.
#[derive(Debug, Clone, PartialEq, Eq, Structural)]
pub enum ChangeDetectionMode {
    Legacy,
    Data,
    Metadata,
}

/// Encryption applied to the stored data. Only plain storage is supported.
#[derive(Debug, Clone, PartialEq, Eq, Structural)]
pub enum CryptMode {
    NoEncryption,
}

/// The kind of backup group the data is stored under.
#[derive(Debug, Clone, PartialEq, Eq, Structural)]
pub enum BackupType {
    VirtualMachine,
    Container,
    Host,
}

/// Resolved configuration for one mounted filesystem. Immutable for the
/// lifetime of one job; only `do_backup` is read by the core, the remaining
/// fields are carried through to the backup client.
#[derive(Debug, Clone)]
pub struct BackupConfig {
    /// The URL to the source code file defining the config format.
    pub help_schema_url: String,
    /// If true, this filesystem will be considered for backups.
    pub do_backup: bool,
    /// The backup repository URL.
    pub repository: String,
    /// The change detection mode to use.
    pub change_detection_mode: ChangeDetectionMode,
    /// The namespace to store the data in; empty means the root namespace.
    pub namespace: String,
    /// The crypt-mode to use.
    pub crypt_mode: CryptMode,
    /// The backup ID; the backup group will be named "host/backup_id".
    pub backup_id: String,
    /// The name of the main backup archive on the server.
    pub pxar_name: String,
    /// The type of backup group.
    pub backup_type: BackupType,
}

/// Field-by-field description of the default configuration record: backups
/// are off, and the identification fields carry fixed placeholder values.
pub open spec fn is_default_config(c: BackupConfig) -> bool {
    &&& c.help_schema_url@
        == "https://github.com/danya02/pbs-usb-backup-helper/blob/main/src/config.rs"@
    &&& c.do_backup == false
    &&& c.repository@ == "pbs.example.internal:datastore"@
    &&& c.change_detection_mode == ChangeDetectionMode::Metadata
    &&& c.namespace@ == Seq::<char>::empty()
    &&& c.crypt_mode == CryptMode::NoEncryption
    &&& c.backup_id@ == "random_flash_drive"@
    &&& c.pxar_name@ == "flash_drive"@
    &&& c.backup_type == BackupType::Host
}

impl Default for BackupConfig {
    /// The safety default written to volumes that have no configuration file.
    fn default() -> (c: Self)
        ensures
            is_default_config(c),
    {
        BackupConfig {
            help_schema_url:
                "https://github.com/danya02/pbs-usb-backup-helper/blob/main/src/config.rs"
                .to_owned(),
            do_backup: false,
            repository: "pbs.example.internal:datastore".to_owned(),
            change_detection_mode: ChangeDetectionMode::Metadata,
            namespace: String::new(),
            crypt_mode: CryptMode::NoEncryption,
            backup_id: "random_flash_drive".to_owned(),
            pxar_name: "flash_drive".to_owned(),
            backup_type: BackupType::Host,
        }
    }
}

/// What one attempt to read and parse a volume's configuration file produced.
/// Produced by the I/O layer, consumed by [`resolve_config`].
pub enum ConfigReadOutcome {
    /// The file existed and parsed into a configuration record.
    Parsed(BackupConfig),
    /// No configuration file exists on the volume.
    Missing,
    /// The file exists but could not be read.
    Unreadable,
    /// The file was read but is not a valid configuration record.
    Malformed,
}

/// Why a volume's configuration could not be resolved.
#[derive(Debug, Clone, Copy, PartialEq, Eq, Structural)]
pub enum ConfigError {
    /// The configuration file exists but could not be read.
    Unreadable,
    /// The configuration file was read but could not be parsed.
    Malformed,
}

/// Result of [`resolve_config`]: the configuration to use, or the per-volume
/// error, plus whether a fresh default file must be written to the volume.
pub struct ConfigResolution {
    /// The resolved configuration, or why resolution failed.
    pub result: Result<BackupConfig, ConfigError>,
    /// True exactly when no file existed and the default must be written out.
    pub write_default: bool,
}

/// Decision step of loading a volume's configuration: an existing record is
/// used as parsed, a missing file yields the default record and an order to
/// write it out, and read or parse failures are per-volume errors.
pub fn resolve_config(outcome: ConfigReadOutcome) -> (r: ConfigResolution)
    ensures
        match outcome {
            ConfigReadOutcome::Parsed(c) => {
                &&& r.result == Result::<BackupConfig, ConfigError>::Ok(c)
                &&& !r.write_default
            },
            ConfigReadOutcome::Missing => {
                &&& r.result matches Ok(d) && is_default_config(d)
                &&& r.write_default
            },
            ConfigReadOutcome::Unreadable => {
                &&& r.result == Result::<BackupConfig, ConfigError>::Err(ConfigError::Unreadable)
                &&& !r.write_default
            },
            ConfigReadOutcome::Malformed => {
                &&& r.result == Result::<BackupConfig, ConfigError>::Err(ConfigError::Malformed)
                &&& !r.write_default
            },
        },
{
    match outcome {
        ConfigReadOutcome::Parsed(c) => ConfigResolution { result: Ok(c), write_default: false },
        ConfigReadOutcome::Missing => ConfigResolution {
            result: Ok(BackupConfig::default()),
            write_default: true,
        },
        ConfigReadOutcome::Unreadable => ConfigResolution {
            result: Err(ConfigError::Unreadable),
            write_default: false,
        },
        ConfigReadOutcome::Malformed => ConfigResolution {
            result: Err(ConfigError::Malformed),
            write_default: false,
        },
    }
}

} // verus!
