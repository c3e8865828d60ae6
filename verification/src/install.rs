use vstd::prelude::*;
use crate::checksum::{Checksum, ChecksumAlgorithm, ChecksumView};
use crate::locate::{encode_component, encoded_component, exe_file_name, exe_name, opt_text};
use crate::paths::{PathView, ProtoPath, join_path};
use crate::lock::{LockRecord, LockRecordView};

verus! {

/// Why an install or uninstall failed.
#[derive(Debug)]
pub enum ProtoInstallError {
    FailedInstall { tool: String, error: String },
    FailedUninstall { tool: String, error: String },
    InvalidChecksum { checksum: ProtoPath, download: ProtoPath },
    UnsupportedDownloadPrebuilt { tool: String },
    UnsupportedBuildFromSource { tool: String },
    RequiredInternetConnection,
}

/// How an install begins.
#[derive(PartialEq, Eq, Structural, Clone, Copy, Debug)]
pub enum InstallStart {
    /// The tool is already installed and reinstalling is not forced.
    AlreadyInstalled,
    /// The install goes ahead.
    Proceed,
}

/// Decide how an install begins: an installed tool is left as it is unless
/// reinstalling is forced; otherwise installing needs the network.
pub fn install_start(installed: bool, force: bool, offline: bool) -> (r: Result<InstallStart, ProtoInstallError>)
    ensures
        installed && !force ==> r matches Ok(InstallStart::AlreadyInstalled),
        !(installed && !force) && offline ==> r matches Err(ProtoInstallError::RequiredInternetConnection),
        !(installed && !force) && !offline ==> r matches Ok(InstallStart::Proceed),
{
    if installed && !force {
        return Ok(InstallStart::AlreadyInstalled);
    }
    if offline {
        return Err(ProtoInstallError::RequiredInternetConnection);
    }
    Ok(InstallStart::Proceed)
}

/// What a plugin's native install settles.
#[derive(PartialEq, Eq, Structural, Clone, Copy, Debug)]
pub enum NativeInstallOutcome {
    /// The plugin installed the tool.
    Installed,
    /// The plugin skipped the install; the other strategies apply.
    Continue,
}

/// Decide what a plugin's native install settles: installed, skipped (the
/// other strategies then apply), or failed with the plugin's error.
pub fn native_install_outcome(installed: bool, skip_install: bool, error: Option<String>, tool: &str) -> (r: Result<NativeInstallOutcome, ProtoInstallError>)
    ensures
        installed ==> r matches Ok(NativeInstallOutcome::Installed),
        !installed && skip_install ==> r matches Ok(NativeInstallOutcome::Continue),
        !installed && !skip_install ==> (r matches Err(ProtoInstallError::FailedInstall { tool: t, error: e })
            && t@ == tool@ && e@ == match error {
            Some(s) => s@,
            None => Seq::<char>::empty(),
        }),
{
    if installed {
        return Ok(NativeInstallOutcome::Installed);
    }
    if !skip_install {
        let e = match error {
            Some(s) => s,
            None => String::new(),
        };
        return Err(ProtoInstallError::FailedInstall { tool: tool.to_owned(), error: e });
    }
    Ok(NativeInstallOutcome::Continue)
}

/// How an install that ran a strategy ends.
pub enum InstallFinish {
    /// The strategy gave a record: verify it against the lockfile, then
    /// report it.
    Verify(LockRecord),
    /// The strategy failed: unlock the temporary directory, remove these
    /// directories in order (the install directory, then the temporary
    /// one), then report the error.
    CleanUp { remove: Vec<ProtoPath>, error: ProtoInstallError },
}

/// Decide how an install ends once its strategy ran: a record goes on to
/// be verified; a failure removes what the install left behind and is
/// reported as it came.
pub fn install_finish(result: Result<LockRecord, ProtoInstallError>, product_dir: ProtoPath, temp_dir: ProtoPath) -> (r:
    InstallFinish)
    ensures
        match result {
            Ok(rec) => r matches InstallFinish::Verify(x) && x@ == rec@,
            Err(e) => r matches InstallFinish::CleanUp { remove, error } && error == e
                && remove@.map_values(|p: ProtoPath| p@) == seq![product_dir@, temp_dir@],
        },
{
    match result {
        Ok(rec) => InstallFinish::Verify(rec),
        Err(e) => {
            let ghost pd = product_dir@;
            let ghost td = temp_dir@;
            let mut remove: Vec<ProtoPath> = Vec::new();
            remove.push(product_dir);
            remove.push(temp_dir);
            assert(remove@.map_values(|p: ProtoPath| p@) =~= seq![pd, td]);
            InstallFinish::CleanUp { remove, error: e }
        },
    }
}

/// Decide what a plugin's native uninstall settles: it fails when the
/// plugin neither uninstalled nor skipped.
pub fn native_uninstall_outcome(uninstalled: bool, skip_uninstall: bool, error: Option<String>, tool: &str) -> (r: Result<(), ProtoInstallError>)
    ensures
        uninstalled || skip_uninstall ==> r is Ok,
        !uninstalled && !skip_uninstall ==> (r matches Err(ProtoInstallError::FailedUninstall { tool: t, error: e })
            && t@ == tool@ && e@ == match error {
            Some(s) => s@,
            None => Seq::<char>::empty(),
        }),
{
    if !uninstalled && !skip_uninstall {
        let e = match error {
            Some(s) => s,
            None => String::new(),
        };
        return Err(ProtoInstallError::FailedUninstall { tool: tool.to_owned(), error: e });
    }
    Ok(())
}

/// A build from source needs the plugin's build instructions.
pub fn check_build_from_source(has_build_instructions: bool, tool: &str) -> (r: Result<(), ProtoInstallError>)
    ensures
        has_build_instructions ==> r is Ok,
        !has_build_instructions ==> (r matches Err(ProtoInstallError::UnsupportedBuildFromSource { tool: t }) && t@ == tool@),
{
    if !has_build_instructions {
        return Err(ProtoInstallError::UnsupportedBuildFromSource { tool: tool.to_owned() });
    }
    Ok(())
}

/// The checksum that a plugin provides for a prebuilt archive.
pub struct ProvidedChecksum {
    pub algo: ChecksumAlgorithm,
    pub hash: Option<String>,
    pub key: Option<String>,
}

/// What a plugin reports of a prebuilt archive.
pub struct DownloadPrebuiltOutput {
    pub archive_prefix: Option<String>,
    pub checksum: Option<ProvidedChecksum>,
    pub checksum_name: Option<String>,
    pub checksum_public_key: Option<String>,
    pub checksum_url: Option<String>,
    pub download_name: Option<String>,
    pub download_url: String,
    pub post_script: Option<String>,
}

/// How a prebuilt archive is verified.
pub enum ChecksumPlan {
    /// Download the checksum file from `url` as `file_name`, and verify
    /// with the public key, if any.
    Download { url: String, file_name: String, public_key: Option<String> },
    /// Write the provided hash to `file_name`, and verify with the public
    /// key, if any.
    Provided { file_name: String, contents: String, public_key: Option<String> },
    /// No checksum is available: record the archive's own SHA256 hash.
    Generate,
}

/// The abstract form of a checksum plan.
pub enum ChecksumPlanView {
    Download { url: Seq<char>, file_name: Seq<char>, public_key: Option<Seq<char>> },
    Provided { file_name: Seq<char>, contents: Seq<char>, public_key: Option<Seq<char>> },
    Generate,
}

impl View for ChecksumPlan {
    type V = ChecksumPlanView;

    open spec fn view(&self) -> ChecksumPlanView {
        match self {
            ChecksumPlan::Download { url, file_name, public_key } => ChecksumPlanView::Download {
                url: url@,
                file_name: file_name@,
                public_key: opt_text(*public_key),
            },
            ChecksumPlan::Provided { file_name, contents, public_key } => ChecksumPlanView::Provided {
                file_name: file_name@,
                contents: contents@,
                public_key: opt_text(*public_key),
            },
            ChecksumPlan::Generate => ChecksumPlanView::Generate,
        }
    }
}

/// The name of the file that a provided checksum is written to.
pub open spec fn provided_checksum_file(algo: ChecksumAlgorithm) -> Seq<char> {
    seq!['c', 'h', 'e', 'c', 'k', 's', 'u', 'm', '.'] + match algo {
        ChecksumAlgorithm::Minisign => seq!['m', 'i', 'n', 'i', 's', 'i', 'g', 'n'],
        ChecksumAlgorithm::Sha256 => seq!['s', 'h', 'a', '2', '5', '6'],
        ChecksumAlgorithm::Sha512 => seq!['s', 'h', 'a', '5', '1', '2'],
    }
}

/// How a prebuilt archive is verified: against the checksum file the plugin
/// points to (`checksum_url` after rewriting, named by the plugin or by its
/// URL), else against the checksum it provides, else not at all.
pub open spec fn checksum_plan_of(
    checksum_url: Option<Seq<char>>,
    checksum_name: Option<Seq<char>>,
    url_file_name: Seq<char>,
    provided: Option<(ChecksumAlgorithm, Option<Seq<char>>, Option<Seq<char>>)>,
    public_key: Option<Seq<char>>,
) -> ChecksumPlanView {
    match checksum_url {
        Some(url) => ChecksumPlanView::Download {
            url,
            file_name: match checksum_name {
                Some(n) => n,
                None => url_file_name,
            },
            public_key,
        },
        None => match provided {
            Some((algo, hash, key)) => ChecksumPlanView::Provided {
                file_name: provided_checksum_file(algo),
                contents: match hash {
                    Some(h) => h,
                    None => seq![],
                },
                public_key: match public_key {
                    Some(k) => Some(k),
                    None => key,
                },
            },
            None => ChecksumPlanView::Generate,
        },
    }
}

fn copy_opt(o: &Option<String>) -> (r: Option<String>)
    ensures
        opt_text(r) == opt_text(*o),
{
    match o {
        Some(s) => Some(s.clone()),
        None => None,
    }
}

/// Decide how a prebuilt archive is verified. `rewritten_checksum_url` is
/// the plugin's checksum URL after the configured rewrites, and
/// `url_file_name` the file name its URL ends with.
pub fn plan_checksum(
    output: &DownloadPrebuiltOutput,
    rewritten_checksum_url: Option<String>,
    url_file_name: String,
) -> (r: ChecksumPlan)
    ensures
        r@ == checksum_plan_of(
            opt_text(rewritten_checksum_url),
            opt_text(output.checksum_name),
            url_file_name@,
            match output.checksum {
                Some(c) => Some((c.algo, opt_text(c.hash), opt_text(c.key))),
                None => None,
            },
            opt_text(output.checksum_public_key),
        ),
{
    match rewritten_checksum_url {
        Some(url) => ChecksumPlan::Download {
            url,
            file_name: match &output.checksum_name {
                Some(n) => n.clone(),
                None => url_file_name,
            },
            public_key: copy_opt(&output.checksum_public_key),
        },
        None => match &output.checksum {
            Some(c) => {
                let name = match c.algo {
                    ChecksumAlgorithm::Minisign => "checksum.minisign",
                    ChecksumAlgorithm::Sha256 => "checksum.sha256",
                    ChecksumAlgorithm::Sha512 => "checksum.sha512",
                };
                proof {
                    reveal_strlit("checksum.minisign");
                    reveal_strlit("checksum.sha256");
                    reveal_strlit("checksum.sha512");
                    assert(name@ =~= provided_checksum_file(c.algo));
                }
                ChecksumPlan::Provided {
                    file_name: name.to_owned(),
                    contents: match &c.hash {
                        Some(h) => h.clone(),
                        None => String::new(),
                    },
                    public_key: match &output.checksum_public_key {
                        Some(k) => Some(k.clone()),
                        None => copy_opt(&c.key),
                    },
                }
            },
            None => ChecksumPlan::Generate,
        },
    }
}

/// The name a prebuilt archive is downloaded as: the plugin's, else the
/// file name its URL ends with.
pub fn download_file_name(download_name: &Option<String>, url_file_name: String) -> (r: String)
    ensures
        r@ == match download_name {
            Some(n) => n@,
            None => url_file_name@,
        },
{
    match download_name {
        Some(n) => n.clone(),
        None => url_file_name,
    }
}

/// Whether a file name ends with the extension of a supported archive.
pub uninterp spec fn is_archive_name(name: Seq<char>) -> bool;

/// `starbase_archive::is_supported_archive_extension` on a path made of the
/// file name: whether the name ends with `.` and one of the archive
/// extensions that the crate supports.
#[verifier::external_body]
fn is_supported_archive(file_name: &str) -> (r: bool)
    ensures
        r == is_archive_name(file_name@),
{
    starbase_archive::is_supported_archive_extension(std::path::Path::new(file_name))
}

/// How a downloaded prebuilt is unpacked.
pub enum UnpackPlan {
    /// The plugin unpacks it.
    Plugin,
    /// It is an archive: unpack it into the install directory.
    Archive,
    /// It is the executable itself: move it into the install directory at
    /// this path.
    MoveTo(ProtoPath),
}

/// The abstract form of an unpack plan.
pub enum UnpackPlanView {
    Plugin,
    Archive,
    MoveTo(PathView),
}

impl View for UnpackPlan {
    type V = UnpackPlanView;

    open spec fn view(&self) -> UnpackPlanView {
        match self {
            UnpackPlan::Plugin => UnpackPlanView::Plugin,
            UnpackPlan::Archive => UnpackPlanView::Archive,
            UnpackPlan::MoveTo(p) => UnpackPlanView::MoveTo(p@),
        }
    }
}

/// Decide how a downloaded prebuilt is unpacked: by the plugin when it can,
/// as an archive when its name says so, else as the tool's executable.
pub fn plan_unpack(has_unpack_func: bool, download_file_name: &str, product_dir: &ProtoPath, tool_file_name: &str) -> (r: UnpackPlan)
    ensures
        r@ == if has_unpack_func {
            UnpackPlanView::Plugin
        } else if is_archive_name(download_file_name@) {
            UnpackPlanView::Archive
        } else {
            UnpackPlanView::MoveTo(join_path(product_dir@, exe_file_name(encoded_component(tool_file_name@))))
        },
{
    if has_unpack_func {
        UnpackPlan::Plugin
    } else if is_supported_archive(download_file_name) {
        UnpackPlan::Archive
    } else {
        let encoded = encode_component(tool_file_name);
        let name = exe_name(encoded.as_str());
        UnpackPlan::MoveTo(product_dir.join_text(name.as_str()))
    }
}

/// A prebuilt install needs the plugin to report its archive.
pub fn check_download_prebuilt(has_download_func: bool, tool: &str) -> (r: Result<(), ProtoInstallError>)
    ensures
        has_download_func ==> r is Ok,
        !has_download_func ==> (r matches Err(ProtoInstallError::UnsupportedDownloadPrebuilt { tool: t }) && t@ == tool@),
{
    if !has_download_func {
        return Err(ProtoInstallError::UnsupportedDownloadPrebuilt { tool: tool.to_owned() });
    }
    Ok(())
}

/// The outcome of verifying a download: the generated checksum when the
/// verification passed, else the files did not match.
pub fn checksum_verdict(verified: bool, checksum: Checksum, checksum_file: ProtoPath, download_file: ProtoPath) -> (r: Result<Checksum, ProtoInstallError>)
    ensures
        verified ==> (r matches Ok(c) && c@ == checksum@),
        !verified ==> (r matches Err(ProtoInstallError::InvalidChecksum { checksum: c, download: d }) && c@
            == checksum_file@ && d@ == download_file@),
{
    if verified {
        Ok(checksum)
    } else {
        Err(ProtoInstallError::InvalidChecksum { checksum: checksum_file, download: download_file })
    }
}

/// The system package manager a build from source uses: the one the
/// config sets for the operating system (where it sets none, the package
/// manager is disabled), else the one the system has.
pub fn system_package_manager<T>(configured: Option<Option<T>>, detected: Option<T>) -> (r: Option<T>)
    ensures
        r == match configured {
            Some(c) => c,
            None => detected,
        },
{
    match configured {
        Some(c) => c,
        None => detected,
    }
}

/// A phase of an install, as it is reported to the caller.
pub enum InstallPhase {
    Native,
    Download { url: String, file: String },
    Verify { url: String, file: String },
    Unpack { file: String },
    InstallDeps,
    CheckRequirements,
    ExecuteInstructions,
    CloneRepository { url: String },
}

/// The abstract form of a reported phase of a prebuilt install.
pub enum PrebuiltPhaseView {
    Download(Seq<char>, Seq<char>),
    Verify(Seq<char>, Seq<char>),
    Unpack(Seq<char>),
    Other,
}

pub open spec fn phase_view(p: InstallPhase) -> PrebuiltPhaseView {
    match p {
        InstallPhase::Download { url, file } => PrebuiltPhaseView::Download(url@, file@),
        InstallPhase::Verify { url, file } => PrebuiltPhaseView::Verify(url@, file@),
        InstallPhase::Unpack { file } => PrebuiltPhaseView::Unpack(file@),
        _ => PrebuiltPhaseView::Other,
    }
}

/// The phases a prebuilt install reports, in order: the download of the
/// archive; the download of its checksum file, when the checksum comes
/// from a URL; and the unpacking, when the plugin or the archive format
/// unpacks it.
pub open spec fn prebuilt_phases_spec(
    download_url: Seq<char>,
    download_file: Seq<char>,
    checksum: ChecksumPlanView,
    unpack: UnpackPlanView,
) -> Seq<PrebuiltPhaseView> {
    seq![PrebuiltPhaseView::Download(download_url, download_file)] + match checksum {
        ChecksumPlanView::Download { url, file_name, .. } => seq![PrebuiltPhaseView::Verify(url, file_name)],
        _ => seq![],
    } + match unpack {
        UnpackPlanView::MoveTo(_) => seq![],
        _ => seq![PrebuiltPhaseView::Unpack(download_file)],
    }
}

/// The phases a prebuilt install reports (see `prebuilt_phases_spec`).
pub fn prebuilt_phases(download_url: &String, download_file: &String, checksum: &ChecksumPlan, unpack: &UnpackPlan) -> (r:
    Vec<InstallPhase>)
    ensures
        r@.map_values(|p: InstallPhase| phase_view(p)) == prebuilt_phases_spec(
            download_url@,
            download_file@,
            checksum@,
            unpack@,
        ),
{
    let mut phases: Vec<InstallPhase> = Vec::new();
    phases.push(InstallPhase::Download { url: download_url.clone(), file: download_file.clone() });
    let ghost first = phases@.map_values(|p: InstallPhase| phase_view(p));
    assert(first =~= seq![PrebuiltPhaseView::Download(download_url@, download_file@)]);
    match checksum {
        ChecksumPlan::Download { url, file_name, .. } => {
            phases.push(InstallPhase::Verify { url: url.clone(), file: file_name.clone() });
        },
        _ => {},
    }
    let ghost second = phases@.map_values(|p: InstallPhase| phase_view(p));
    assert(second =~= first + match checksum@ {
        ChecksumPlanView::Download { url, file_name, .. } => seq![PrebuiltPhaseView::Verify(url, file_name)],
        _ => seq![],
    });
    match unpack {
        UnpackPlan::MoveTo(_) => {},
        _ => {
            phases.push(InstallPhase::Unpack { file: download_file.clone() });
        },
    }
    assert(phases@.map_values(|p: InstallPhase| phase_view(p)) =~= second + match unpack@ {
        UnpackPlanView::MoveTo(_) => seq![],
        _ => seq![PrebuiltPhaseView::Unpack(download_file@)],
    });
    phases
}

/// The lock record of a prebuilt install: the record the tool creates,
/// with the archive's URL as its source and the verified (or generated)
/// checksum, in its textual form.
pub fn prebuilt_record(base: &LockRecord, source: String, checksum: String) -> (r: LockRecord)
    ensures
        r@ == (LockRecordView { source: Some(source@), checksum: Some(checksum@), ..base@ }),
{
    let mut record = base.copy();
    record.source = Some(source);
    record.checksum = Some(checksum);
    record
}

} // verus!
