use vstd::prelude::*;
use crate::bins::VersionKey;
use crate::lock::{LockRecord, LockRecordView, ToolSpec};
use crate::manifest::Manifest;

verus! {

/// How a tool gets installed.
#[derive(Clone, Copy, PartialEq, Eq, Structural, Debug)]
pub enum InstallStrategy {
    BuildFromSource,
    DownloadPrebuilt,
}

/// The name a strategy is reported by.
pub fn install_strategy_name(strategy: InstallStrategy) -> (r: &'static str)
    ensures
        r@ == match strategy {
            InstallStrategy::BuildFromSource => "build-from-source"@,
            InstallStrategy::DownloadPrebuilt => "download-prebuilt"@,
        },
{
    match strategy {
        InstallStrategy::BuildFromSource => "build-from-source",
        InstallStrategy::DownloadPrebuilt => "download-prebuilt",
    }
}

/// How an install ended.
pub enum InstallOutcome {
    /// The version was installed already (and reinstalling was not forced).
    AlreadyInstalled,
    /// Another process installed the version while this one waited.
    InstalledConcurrently,
    /// The version was installed, with its lock record.
    Installed(LockRecord),
}

/// Whether an install of a version that is installed stops there: unless
/// reinstalling is forced.
pub open spec fn stops_installed(installed: bool, force: bool) -> bool {
    installed && !force
}

/// The lock record of an install, with the requirement it was resolved
/// from and the version it resolved to.
pub open spec fn resolved_record(record: LockRecordView, version: crate::bins::VersionKeyView, req: Seq<char>) -> LockRecordView {
    LockRecordView { version: Some(version), spec: Some(req), ..record }
}

/// Decide how an install begins: a version that is installed (before or,
/// once the install lock is held, by another process) is not installed
/// again, unless reinstalling is forced. `None` lets the installer run.
pub fn install_shortcut(installed: bool, installed_after_lock: bool, force: bool) -> (r: Option<InstallOutcome>)
    ensures
        stops_installed(installed, force) ==> r matches Some(InstallOutcome::AlreadyInstalled),
        !stops_installed(installed, force) && stops_installed(installed_after_lock, force)
            ==> r matches Some(InstallOutcome::InstalledConcurrently),
        !stops_installed(installed, force) && !stops_installed(installed_after_lock, force) ==> r is None,
{
    if installed && !force {
        return Some(InstallOutcome::AlreadyInstalled);
    }
    if installed_after_lock && !force {
        return Some(InstallOutcome::InstalledConcurrently);
    }
    None
}

/// The outcome of the installer: the lock record it produced takes the
/// spec's requirement and resolved version; none means the version was
/// installed already.
pub fn installer_outcome(record: Option<LockRecord>, version: &VersionKey, spec: &ToolSpec) -> (r: InstallOutcome)
    ensures
        match record {
            Some(rec) => r matches InstallOutcome::Installed(out) && out@ == resolved_record(rec@, version@, spec.req@),
            None => r is AlreadyInstalled,
        },
{
    match record {
        Some(mut rec) => {
            rec.version = Some(version.copy());
            rec.spec = Some(spec.req.clone());
            InstallOutcome::Installed(rec)
        },
        None => InstallOutcome::AlreadyInstalled,
    }
}

/// Whether an install was served from what was installed already.
pub fn cache_status(outcome: &InstallOutcome) -> (r: &'static str)
    ensures
        r@ == match outcome {
            InstallOutcome::Installed(_) => "miss"@,
            _ => "hit"@,
        },
{
    match outcome {
        InstallOutcome::Installed(_) => "miss",
        _ => "hit",
    }
}

/// Whether uninstalling a version removes every binary and shim of the
/// tool: when no version is installed, or this is the only one.
pub fn unlinks_everything(manifest: &Manifest, version: &str) -> (r: bool)
    requires
        manifest.wf(),
    ensures
        r == (manifest@.installed_versions.len() == 0 || manifest@.installed_versions == set![version@]),
{
    manifest.installed_count() == 0 || manifest.is_only_version(version)
}

/// What cleaning up a tool's temporary directory does with one of its
/// entries.
#[derive(Clone, Copy, PartialEq, Eq, Structural, Debug)]
pub enum CleanupAction {
    /// A directory that an install in progress holds a lock on.
    Skip,
    RemoveDir,
    RemoveFile,
}

/// Decide what cleaning up does with an entry: directories locked by an
/// install in progress are kept.
pub fn cleanup_action(is_dir: bool, locked: bool) -> (r: CleanupAction)
    ensures
        r == if is_dir {
            if locked {
                CleanupAction::Skip
            } else {
                CleanupAction::RemoveDir
            }
        } else {
            CleanupAction::RemoveFile
        },
{
    if is_dir {
        if locked {
            CleanupAction::Skip
        } else {
            CleanupAction::RemoveDir
        }
    } else {
        CleanupAction::RemoveFile
    }
}

} // verus!
