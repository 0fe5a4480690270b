use vstd::prelude::*;

use crate::store::{join_path, joined};
use crate::text::owned;

verus! {

/// Whether the original Codex files are backed up.
pub struct OriginalBackupStatus {
    pub exists: bool,
    pub created_at: Option<i64>,
    pub auth_json_backed_up: bool,
    pub config_toml_backed_up: bool,
}

/// What a backup holds of one file: a copy, or the fact that it was missing.
#[derive(Clone, Copy, Debug, PartialEq, Eq, Structural)]
pub enum BackupFileState {
    BackedUp,
    Missing,
}

/// The record of the original Codex files, written once.
pub struct OriginalBackupManifest {
    pub version: u32,
    pub created_at: i64,
    pub codex_home: String,
    pub auth_json: BackupFileState,
    pub config_toml: BackupFileState,
}

/// What restoring one file does.
#[derive(Clone, Copy, Debug, PartialEq, Eq, Structural)]
pub enum FileAction {
    /// Copy the backed-up file over the current one.
    CopyFromBackup,
    /// Remove the current file, which did not exist at backup time.
    Remove,
    /// Leave things as they are.
    Keep,
}

/// The backup directory under the application data directory.
pub fn default_original_backup_root(data_root: &str) -> (r: String)
    ensures
        r@ == joined(data_root@, "original-codex-backup"@),
{
    join_path(data_root, "original-codex-backup")
}

/// How a file is recorded: copied where it exists.
pub fn backup_state(source_exists: bool) -> (r: BackupFileState)
    ensures
        r == (if source_exists {
            BackupFileState::BackedUp
        } else {
            BackupFileState::Missing
        }),
{
    if source_exists {
        BackupFileState::BackedUp
    } else {
        BackupFileState::Missing
    }
}

/// How a file recorded in `state` is restored, given whether it exists now.
pub open spec fn restore_action_of(state: BackupFileState, target_exists: bool) -> FileAction {
    match state {
        BackupFileState::BackedUp => FileAction::CopyFromBackup,
        BackupFileState::Missing => if target_exists {
            FileAction::Remove
        } else {
            FileAction::Keep
        },
    }
}

/// How a file is restored from its record.
pub fn restore_action(state: BackupFileState, target_exists: bool) -> (r: FileAction)
    ensures
        r == restore_action_of(state, target_exists),
{
    match state {
        BackupFileState::BackedUp => FileAction::CopyFromBackup,
        BackupFileState::Missing => if target_exists {
            FileAction::Remove
        } else {
            FileAction::Keep
        },
    }
}

/// The contents of a file after `action`, given its current contents and
/// the backed-up copy (none where absent).
pub open spec fn file_after(action: FileAction, current: Option<Seq<u8>>, backup: Option<Seq<u8>>) -> Option<
    Seq<u8>,
> {
    match action {
        FileAction::CopyFromBackup => backup,
        FileAction::Remove => None,
        FileAction::Keep => current,
    }
}

/// Restoring a file from a backup taken of `original` gives `original`
/// back, whatever the file became meanwhile.
pub proof fn law_restore_returns_original(original: Option<Seq<u8>>, current: Option<Seq<u8>>)
    ensures
        ({
            let state = if original is Some {
                BackupFileState::BackedUp
            } else {
                BackupFileState::Missing
            };
            let action = match state {
                BackupFileState::BackedUp => FileAction::CopyFromBackup,
                BackupFileState::Missing => if current is Some {
                    FileAction::Remove
                } else {
                    FileAction::Keep
                },
            };
            file_after(action, current, original) == original
        }),
{
}

pub struct BackupStatusView {
    pub exists: bool,
    pub created_at: Option<i64>,
    pub auth_json_backed_up: bool,
    pub config_toml_backed_up: bool,
}

impl OriginalBackupStatus {
    pub open spec fn view(&self) -> BackupStatusView {
        BackupStatusView {
            exists: self.exists,
            created_at: self.created_at,
            auth_json_backed_up: self.auth_json_backed_up,
            config_toml_backed_up: self.config_toml_backed_up,
        }
    }
}

/// The status a manifest (none: no backup) reports.
pub open spec fn backup_status_of(m: Option<(i64, BackupFileState, BackupFileState)>) -> BackupStatusView {
    match m {
        None => BackupStatusView {
            exists: false,
            created_at: None,
            auth_json_backed_up: false,
            config_toml_backed_up: false,
        },
        Some((created_at, auth, config)) => BackupStatusView {
            exists: true,
            created_at: Some(created_at),
            auth_json_backed_up: auth == BackupFileState::BackedUp,
            config_toml_backed_up: config == BackupFileState::BackedUp,
        },
    }
}

pub open spec fn manifest_summary(m: Option<&OriginalBackupManifest>) -> Option<(i64, BackupFileState, BackupFileState)> {
    match m {
        Some(x) => Some((x.created_at, x.auth_json, x.config_toml)),
        None => None,
    }
}

fn status_from_manifest(manifest: Option<&OriginalBackupManifest>) -> (r: OriginalBackupStatus)
    ensures
        r.view() == backup_status_of(manifest_summary(manifest)),
{
    match manifest {
        None => OriginalBackupStatus {
            exists: false,
            created_at: None,
            auth_json_backed_up: false,
            config_toml_backed_up: false,
        },
        Some(m) => OriginalBackupStatus {
            exists: true,
            created_at: Some(m.created_at),
            auth_json_backed_up: m.auth_json == BackupFileState::BackedUp,
            config_toml_backed_up: m.config_toml == BackupFileState::BackedUp,
        },
    }
}

/// The backup status, given the backup's manifest (none where no backup was
/// made).
pub fn load_original_backup_status(manifest: Option<&OriginalBackupManifest>) -> (r: OriginalBackupStatus)
    ensures
        r.view() == backup_status_of(manifest_summary(manifest)),
{
    status_from_manifest(manifest)
}

/// The manifest for a backup made at `created_at` of the Codex home
/// `codex_home`, given which of its files existed.
pub fn new_manifest(created_at: i64, codex_home: &str, auth_exists: bool, config_exists: bool) -> (r:
    OriginalBackupManifest)
    ensures
        r.version == 1,
        r.created_at == created_at,
        r.codex_home@ == codex_home@,
        r.auth_json == (if auth_exists {
            BackupFileState::BackedUp
        } else {
            BackupFileState::Missing
        }),
        r.config_toml == (if config_exists {
            BackupFileState::BackedUp
        } else {
            BackupFileState::Missing
        }),
{
    OriginalBackupManifest {
        version: 1,
        created_at,
        codex_home: owned(codex_home),
        auth_json: backup_state(auth_exists),
        config_toml: backup_state(config_exists),
    }
}

/// What the status reads of a manifest: its time and the two file states.
pub open spec fn summary_of(m: OriginalBackupManifest) -> (i64, BackupFileState, BackupFileState) {
    (m.created_at, m.auth_json, m.config_toml)
}

/// The state a file is recorded in.
pub open spec fn state_for(exists: bool) -> BackupFileState {
    if exists {
        BackupFileState::BackedUp
    } else {
        BackupFileState::Missing
    }
}

/// The manifest summary after a backup request: the existing one, else a
/// new one made at `created_at` from which files exist.
pub open spec fn kept_backup(
    existing: Option<(i64, BackupFileState, BackupFileState)>,
    created_at: i64,
    auth_exists: bool,
    config_exists: bool,
) -> (i64, BackupFileState, BackupFileState) {
    match existing {
        Some(e) => e,
        None => (created_at, state_for(auth_exists), state_for(config_exists)),
    }
}

/// Once a backup has been requested, the status reports that the backup
/// exists, with the time and files of the manifest that was kept; a
/// manifest that existed before the request is the one reported.
pub proof fn law_status_after_backup(
    existing: Option<(i64, BackupFileState, BackupFileState)>,
    created_at: i64,
    auth_exists: bool,
    config_exists: bool,
)
    ensures
        ({
            let kept = kept_backup(existing, created_at, auth_exists, config_exists);
            let status = backup_status_of(Some(kept));
            &&& status.exists
            &&& status.created_at == Some(kept.0)
            &&& status.auth_json_backed_up == (kept.1 == BackupFileState::BackedUp)
            &&& status.config_toml_backed_up == (kept.2 == BackupFileState::BackedUp)
            &&& (existing matches Some(e) ==> kept == e)
            &&& (existing is None ==> status.created_at == Some(created_at) && status.auth_json_backed_up
                == auth_exists && status.config_toml_backed_up == config_exists)
        }),
{
}

/// Backing up the original `auth.json` and `config.toml` (their contents
/// `auth` and `config`, `None` where absent), asking for a backup again
/// later (the first manifest stays, and no file is copied again), then
/// restoring, gives both files back exactly as they were, whatever they
/// became meanwhile: a file that was absent at backup time is removed.
pub proof fn law_backup_then_restore(
    auth: Option<Seq<u8>>,
    config: Option<Seq<u8>>,
    created_at: i64,
    later: Option<(i64, bool, bool)>,
    auth_now: Option<Seq<u8>>,
    config_now: Option<Seq<u8>>,
)
    ensures
        ({
            let first = kept_backup(None, created_at, auth is Some, config is Some);
            let kept = match later {
                Some((t, a, c)) => kept_backup(Some(first), t, a, c),
                None => first,
            };
            &&& file_after(restore_action_of(kept.1, auth_now is Some), auth_now, auth) == auth
            &&& file_after(restore_action_of(kept.2, config_now is Some), config_now, config) == config
        }),
{
}

/// The manifest that stands after a request to back up the original files,
/// and whether it is new. A backup is taken once: an existing manifest is
/// kept as it is, whatever the files are now; only without one is a new
/// manifest made (and the files copied beside it).
pub fn original_backup_to_keep(
    existing: Option<OriginalBackupManifest>,
    created_at: i64,
    codex_home: &str,
    auth_exists: bool,
    config_exists: bool,
) -> (r: (OriginalBackupManifest, bool))
    ensures
        summary_of(r.0) == kept_backup(
            match existing {
                Some(m) => Some(summary_of(m)),
                None => None,
            },
            created_at,
            auth_exists,
            config_exists,
        ),
        match existing {
            Some(m) => r.0 == m && !r.1,
            None => {
                &&& r.1
                &&& r.0.version == 1
                &&& r.0.created_at == created_at
                &&& r.0.codex_home@ == codex_home@
                &&& r.0.auth_json == (if auth_exists {
                    BackupFileState::BackedUp
                } else {
                    BackupFileState::Missing
                })
                &&& r.0.config_toml == (if config_exists {
                    BackupFileState::BackedUp
                } else {
                    BackupFileState::Missing
                })
            },
        },
{
    match existing {
        Some(m) => (m, false),
        None => (new_manifest(created_at, codex_home, auth_exists, config_exists), true),
    }
}

} // verus!
