use vstd::prelude::*;
use crate::bins::{VersionKey, VersionKeyView, lemma_push_to_set, versions_view};
use crate::context::{ContextView, ToolContext, opt_string_clone, opt_string_eq};
use crate::paths::{PathView, ProtoPath};

verus! {

pub open spec fn opt_text(o: Option<String>) -> Option<Seq<char>> {
    match o {
        Some(s) => Some(s@),
        None => None,
    }
}

pub open spec fn opt_version(o: Option<VersionKey>) -> Option<VersionKeyView> {
    match o {
        Some(v) => Some(v@),
        None => None,
    }
}

/// The abstract form of a lock record.
pub struct LockRecordView {
    pub backend: Option<Seq<char>>,
    pub spec: Option<Seq<char>>,
    pub version: Option<VersionKeyView>,
    pub checksum: Option<Seq<char>>,
    pub source: Option<Seq<char>>,
    pub os: Option<Seq<char>>,
    pub arch: Option<Seq<char>>,
}

/// A record of an installed tool version in a lockfile: the requirement it
/// was resolved from, the version it resolved to, the checksum of what was
/// downloaded and from where, and the system it was installed on.
pub struct LockRecord {
    pub backend: Option<String>,
    /// The requirement, in its textual form.
    pub spec: Option<String>,
    pub version: Option<VersionKey>,
    /// The checksum, in its textual form (`<algorithm>:<hash>`).
    pub checksum: Option<String>,
    pub source: Option<String>,
    pub os: Option<String>,
    pub arch: Option<String>,
}

impl View for LockRecord {
    type V = LockRecordView;

    open spec fn view(&self) -> LockRecordView {
        LockRecordView {
            backend: opt_text(self.backend),
            spec: opt_text(self.spec),
            version: opt_version(self.version),
            checksum: opt_text(self.checksum),
            source: opt_text(self.source),
            os: opt_text(self.os),
            arch: opt_text(self.arch),
        }
    }
}

fn opt_version_eq(a: &Option<VersionKey>, b: &Option<VersionKey>) -> (r: bool)
    ensures
        r == (opt_version(*a) == opt_version(*b)),
{
    match (a, b) {
        (Some(x), Some(y)) => x.equals(y),
        (None, None) => true,
        _ => false,
    }
}

fn opt_version_copy(a: &Option<VersionKey>) -> (r: Option<VersionKey>)
    ensures
        opt_version(r) == opt_version(*a),
{
    match a {
        Some(v) => Some(v.copy()),
        None => None,
    }
}

fn opt_copy(a: &Option<String>) -> (r: Option<String>)
    ensures
        opt_text(r) == opt_text(*a),
{
    let r = opt_string_clone(a);
    r
}

fn opt_eq(a: &Option<String>, b: &Option<String>) -> (r: bool)
    ensures
        r == (opt_text(*a) == opt_text(*b)),
{
    opt_string_eq(a, b)
}

impl LockRecord {
    /// A copy of the record.
    pub fn copy(&self) -> (r: LockRecord)
        ensures
            r@ == self@,
    {
        LockRecord {
            backend: opt_copy(&self.backend),
            spec: opt_copy(&self.spec),
            version: opt_version_copy(&self.version),
            checksum: opt_copy(&self.checksum),
            source: opt_copy(&self.source),
            os: opt_copy(&self.os),
            arch: opt_copy(&self.arch),
        }
    }
}

/// How a tool's installs are recorded in lockfiles.
pub struct LockOptions {
    /// Records are kept regardless of operating system and architecture.
    pub ignore_os_arch: bool,
    /// Installs are not recorded at all.
    pub no_record: bool,
}

/// Whether an optional system value of a record admits the current one: a
/// record without one (written before it was recorded) admits any.
pub open spec fn admits(recorded: Option<Seq<char>>, current: Option<Seq<char>>) -> bool {
    match (recorded, current) {
        (Some(r), Some(c)) => r == c,
        _ => true,
    }
}

/// Whether a record matches the provided backend, requirement, operating
/// system and architecture: the backend must be the same; a provided
/// requirement must be the record's; and unless the operating system and
/// architecture are ignored, those that both sides name must agree.
pub open spec fn matches_with(
    record: LockRecordView,
    backend: Option<Seq<char>>,
    spec: Option<Seq<char>>,
    os: Option<Seq<char>>,
    arch: Option<Seq<char>>,
    ignore_os_arch: bool,
) -> bool {
    &&& record.backend == backend
    &&& (spec matches Some(s) ==> record.spec == Some(s))
    &&& (ignore_os_arch || (admits(record.os, os) && admits(record.arch, arch)))
}

/// Whether two records stand for the same lock entry.
pub open spec fn matches_record(record: LockRecordView, other: LockRecordView, ignore_os_arch: bool) -> bool {
    matches_with(record, other.backend, other.spec, other.os, other.arch, ignore_os_arch)
}

impl LockRecord {
    /// Whether the record matches the provided backend, requirement,
    /// operating system and architecture.
    pub fn is_match_with(
        &self,
        backend: &Option<String>,
        spec: &Option<String>,
        os: &Option<String>,
        arch: &Option<String>,
        options: &LockOptions,
    ) -> (r: bool)
        ensures
            r == matches_with(
                self@,
                opt_text(*backend),
                opt_text(*spec),
                opt_text(*os),
                opt_text(*arch),
                options.ignore_os_arch,
            ),
    {
        if !opt_eq(&self.backend, backend) {
            return false;
        }
        if let Some(s) = spec {
            match &self.spec {
                Some(own) => {
                    if *own != *s {
                        return false;
                    }
                },
                None => {
                    return false;
                },
            }
        }
        if options.ignore_os_arch {
            return true;
        }
        let os_ok = match (&self.os, os) {
            (Some(a), Some(b)) => *a == *b,
            _ => true,
        };
        let arch_ok = match (&self.arch, arch) {
            (Some(a), Some(b)) => *a == *b,
            _ => true,
        };
        os_ok && arch_ok
    }

    /// Whether this record and another stand for the same lock entry.
    pub fn is_match(&self, other: &LockRecord, options: &LockOptions) -> (r: bool)
        ensures
            r == matches_record(self@, other@, options.ignore_os_arch),
    {
        self.is_match_with(&other.backend, &other.spec, &other.os, &other.arch, options)
    }
}

/// The first position whose element satisfies `p`.
pub open spec fn first_where<A>(s: Seq<A>, p: spec_fn(A) -> bool) -> Option<int>
    decreases s.len(),
{
    if s.len() == 0 {
        None
    } else {
        match first_where(s.drop_last(), p) {
            Some(i) => Some(i),
            None => if p(s.last()) {
                Some(s.len() - 1)
            } else {
                None
            },
        }
    }
}

pub proof fn lemma_first_where<A>(s: Seq<A>, p: spec_fn(A) -> bool, i: int)
    requires
        0 <= i <= s.len(),
        forall|j: int| 0 <= j < i ==> !p(#[trigger] s[j]),
        i < s.len() ==> p(s[i]),
    ensures
        first_where(s, p) == if i < s.len() {
            Some(i)
        } else {
            None::<int>
        },
    decreases s.len(),
{
    if s.len() > 0 {
        let init = s.drop_last();
        if i < s.len() - 1 {
            assert forall|j: int| 0 <= j < i implies !p(#[trigger] init[j]) by {
                assert(init[j] == s[j]);
            }
            assert(init[i] == s[i]);
            lemma_first_where(init, p, i);
        } else {
            assert forall|j: int| 0 <= j < init.len() implies !p(#[trigger] init[j]) by {
                assert(init[j] == s[j]);
            }
            lemma_first_where(init, p, init.len() as int);
            if i == s.len() {
                assert(!p(s[s.len() - 1]));
            }
        }
    }
}

/// The elements that satisfy `p`, in order.
pub open spec fn keep_where<A>(s: Seq<A>, p: spec_fn(A) -> bool) -> Seq<A>
    decreases s.len(),
{
    if s.len() == 0 {
        seq![]
    } else if p(s.last()) {
        keep_where(s.drop_last(), p).push(s.last())
    } else {
        keep_where(s.drop_last(), p)
    }
}

pub open spec fn records_view(v: Seq<LockRecord>) -> Seq<LockRecordView> {
    v.map_values(|r: LockRecord| r@)
}

/// The entry of a tool in a lockfile: `None` when the lockfile holds no
/// records for it.
pub open spec fn entry_view(e: Option<Vec<LockRecord>>) -> Option<Seq<LockRecordView>> {
    match e {
        Some(v) => Some(records_view(v@)),
        None => None,
    }
}

/// Which lockfile a locker reads and writes.
pub enum LockSource {
    /// The lockfile owned by the config at this path.
    ConfigFile(ProtoPath),
    /// The lockfile owned by the closest config that defines a version for
    /// the tool.
    ClosestConfig,
}

/// A mismatch between an install and its lock record.
#[derive(Debug)]
pub enum ProtoLockError {
    MismatchedChecksum { checksum: String, lockfile_checksum: String },
    MismatchedChecksumWithSource {
        checksum: String,
        lockfile_checksum: String,
        source_url: String,
    },
    MismatchedArch { arch: String, lockfile_arch: String },
    MismatchedOs { os: String, lockfile_os: String },
}

/// The abstract form of a lock error.
pub enum LockErrorView {
    MismatchedChecksum { checksum: Seq<char>, lockfile_checksum: Seq<char> },
    MismatchedChecksumWithSource {
        checksum: Seq<char>,
        lockfile_checksum: Seq<char>,
        source_url: Seq<char>,
    },
    MismatchedArch { arch: Seq<char>, lockfile_arch: Seq<char> },
    MismatchedOs { os: Seq<char>, lockfile_os: Seq<char> },
}

impl View for ProtoLockError {
    type V = LockErrorView;

    open spec fn view(&self) -> LockErrorView {
        match self {
            ProtoLockError::MismatchedChecksum { checksum, lockfile_checksum } =>
                LockErrorView::MismatchedChecksum {
                checksum: checksum@,
                lockfile_checksum: lockfile_checksum@,
            },
            ProtoLockError::MismatchedChecksumWithSource {
                checksum,
                lockfile_checksum,
                source_url,
            } => LockErrorView::MismatchedChecksumWithSource {
                checksum: checksum@,
                lockfile_checksum: lockfile_checksum@,
                source_url: source_url@,
            },
            ProtoLockError::MismatchedArch { arch, lockfile_arch } => LockErrorView::MismatchedArch {
                arch: arch@,
                lockfile_arch: lockfile_arch@,
            },
            ProtoLockError::MismatchedOs { os, lockfile_os } => LockErrorView::MismatchedOs {
                os: os@,
                lockfile_os: lockfile_os@,
            },
        }
    }
}

/// The text written in place of a missing checksum.
pub open spec fn missing_text() -> Seq<char> {
    seq!['(', 'm', 'i', 's', 's', 'i', 'n', 'g', ')']
}

/// The checksum mismatch between an install and its lock record.
pub open spec fn checksum_mismatch(
    install: LockRecordView,
    actual: Seq<char>,
    expected: Seq<char>,
) -> LockErrorView {
    match install.source {
        Some(s) => LockErrorView::MismatchedChecksumWithSource {
            checksum: actual,
            lockfile_checksum: expected,
            source_url: s,
        },
        None => LockErrorView::MismatchedChecksum { checksum: actual, lockfile_checksum: expected },
    }
}

/// The outcome of verifying an install against its lock record: installs
/// by another backend are not compared; then the checksums, then the
/// operating systems, then the architectures must agree.
pub open spec fn verify_outcome(install: LockRecordView, locked: LockRecordView) -> Option<LockErrorView> {
    if install.backend != locked.backend {
        None
    } else if install.checksum is Some && locked.checksum is Some && install.checksum
        != locked.checksum {
        Some(checksum_mismatch(install, install.checksum->0, locked.checksum->0))
    } else if install.checksum is None && locked.checksum is Some && install.source
        == locked.source {
        Some(checksum_mismatch(install, missing_text(), locked.checksum->0))
    } else if install.os is Some && locked.os is Some && install.os != locked.os {
        Some(LockErrorView::MismatchedOs { os: install.os->0, lockfile_os: locked.os->0 })
    } else if install.arch is Some && locked.arch is Some && install.arch != locked.arch {
        Some(LockErrorView::MismatchedArch { arch: install.arch->0, lockfile_arch: locked.arch->0 })
    } else {
        None
    }
}

/// A tool version to install or run: its requirement, the version it
/// resolved to, and the lock record it resolved from, if any.
pub struct ToolSpec {
    pub req: String,
    pub version: Option<VersionKey>,
    pub version_locked: Option<LockRecord>,
}

pub open spec fn locks_view(v: Seq<(VersionKey, LockRecord)>) -> Seq<(VersionKeyView, LockRecordView)> {
    v.map_values(|e: (VersionKey, LockRecord)| (e.0@, e.1@))
}

/// Whether a manifest entry is the one of the version.
pub open spec fn keyed_by(v: VersionKeyView) -> spec_fn((VersionKeyView, LockRecordView)) -> bool {
    |e: (VersionKeyView, LockRecordView)| e.0 == v
}

/// The lock record that applies to a spec: the one it resolved from, else
/// the one the tool's manifest keeps for its version.
pub open spec fn resolved_locked_record(
    version_locked: Option<LockRecordView>,
    version: Option<VersionKeyView>,
    manifest_locks: Seq<(VersionKeyView, LockRecordView)>,
) -> Option<LockRecordView> {
    match version_locked {
        Some(r) => Some(r),
        None => match version {
            Some(v) => match first_where(manifest_locks, keyed_by(v)) {
                Some(i) => Some(manifest_locks[i].1),
                None => None,
            },
            None => None,
        },
    }
}

/// The record after it took the place of a matching one: it keeps the
/// higher version, and the system it was installed on (or none, when the
/// system is ignored).
pub open spec fn merged_record(
    existing: LockRecordView,
    record: LockRecordView,
    os: Seq<char>,
    arch: Seq<char>,
    ignore_os_arch: bool,
) -> LockRecordView {
    let kept = if existing.version is Some && record.version is Some && record.version->0.order
        >= existing.version->0.order {
        record
    } else {
        existing
    };
    if ignore_os_arch {
        LockRecordView { os: None, arch: None, ..kept }
    } else {
        LockRecordView {
            os: if kept.os is Some {
                kept.os
            } else {
                Some(os)
            },
            arch: if kept.arch is Some {
                kept.arch
            } else {
                Some(arch)
            },
            ..kept
        }
    }
}

/// Whether a record stands for the same lock entry as `record`.
pub open spec fn matching(record: LockRecordView, ignore_os_arch: bool) -> spec_fn(LockRecordView) -> bool {
    |e: LockRecordView| matches_record(e, record, ignore_os_arch)
}

/// The records after inserting one: it merges into the first record that
/// matches it, else it is added.
pub open spec fn inserted_records(
    records: Seq<LockRecordView>,
    record: LockRecordView,
    os: Seq<char>,
    arch: Seq<char>,
    ignore_os_arch: bool,
) -> Seq<LockRecordView> {
    match first_where(records, matching(record, ignore_os_arch)) {
        Some(i) => records.update(i, merged_record(records[i], record, os, arch, ignore_os_arch)),
        None => records.push(record),
    }
}

/// The abstract form of a locker.
pub struct LockerView {
    pub context: ContextView,
    pub ignore_os_arch: bool,
    pub no_record: bool,
    pub os: Seq<char>,
    pub arch: Seq<char>,
    pub config_path: Option<PathView>,
}

/// Manages the records of one tool in a lockfile. The lockfile is loaded
/// and saved by the caller; the locker decides what it holds.
pub struct Locker {
    context: ToolContext,
    options: LockOptions,
    os: String,
    arch: String,
    config_path: Option<ProtoPath>,
}

impl View for Locker {
    type V = LockerView;

    closed spec fn view(&self) -> LockerView {
        LockerView {
            context: self.context@,
            ignore_os_arch: self.options.ignore_os_arch,
            no_record: self.options.no_record,
            os: self.os@,
            arch: self.arch@,
            config_path: match self.config_path {
                Some(p) => Some(p@),
                None => None,
            },
        }
    }
}


/// Whether a record counts among the versions locked for this system.
pub open spec fn counts_for(record: LockRecordView, l: LockerView) -> bool {
    &&& record.backend == l.context.backend
    &&& (record.os matches Some(o) ==> o == l.os)
    &&& (record.arch matches Some(a) ==> a == l.arch)
    &&& record.version is Some
}

/// The versions that the records lock for the locker's system.
pub open spec fn locked_versions(rs: Seq<LockRecordView>, l: LockerView) -> Set<VersionKeyView> {
    Set::new(
        |v: VersionKeyView|
            exists|k: int| 0 <= k < rs.len() && counts_for(#[trigger] rs[k], l) && rs[k].version == Some(v),
    )
}

proof fn lemma_locked_versions_step(rs: Seq<LockRecordView>, l: LockerView, i: int)
    requires
        0 <= i < rs.len(),
    ensures
        locked_versions(rs.subrange(0, i + 1), l) == if counts_for(rs[i], l) {
            locked_versions(rs.subrange(0, i), l).insert(rs[i].version->0)
        } else {
            locked_versions(rs.subrange(0, i), l)
        },
{
    let a = rs.subrange(0, i);
    let b = rs.subrange(0, i + 1);
    assert forall|v: VersionKeyView| locked_versions(b, l).contains(v) <==> (if counts_for(rs[i], l) {
        locked_versions(a, l).insert(rs[i].version->0)
    } else {
        locked_versions(a, l)
    }).contains(v) by {
        if locked_versions(b, l).contains(v) {
            let k = choose|k: int| 0 <= k < b.len() && counts_for(#[trigger] b[k], l) && b[k].version == Some(v);
            if k < i {
                assert(a[k] == b[k]);
            }
        }
        if locked_versions(a, l).contains(v) {
            let k = choose|k: int| 0 <= k < a.len() && counts_for(#[trigger] a[k], l) && a[k].version == Some(v);
            assert(b[k] == a[k]);
        }
        if counts_for(rs[i], l) && v == rs[i].version->0 {
            assert(b[i] == rs[i]);
        }
    }
    if counts_for(rs[i], l) {
        assert(locked_versions(b, l) =~= locked_versions(a, l).insert(rs[i].version->0));
    } else {
        assert(locked_versions(b, l) =~= locked_versions(a, l));
    }
}

impl Locker {
    /// A locker for the lockfile that applies to the tool: the one owned by
    /// the closest config that defines a version for it.
    pub fn new(context: ToolContext, options: LockOptions, os: String, arch: String) -> (r: Locker)
        ensures
            r@ == (LockerView {
                context: context@,
                ignore_os_arch: options.ignore_os_arch,
                no_record: options.no_record,
                os: os@,
                arch: arch@,
                config_path: None,
            }),
    {
        Locker { context, options, os, arch, config_path: None }
    }

    /// A locker for the lockfile owned by the config at the provided path,
    /// whichever config defines a version for the tool.
    pub fn for_config(
        context: ToolContext,
        options: LockOptions,
        os: String,
        arch: String,
        config_path: ProtoPath,
    ) -> (r: Locker)
        ensures
            r@ == (LockerView {
                context: context@,
                ignore_os_arch: options.ignore_os_arch,
                no_record: options.no_record,
                os: os@,
                arch: arch@,
                config_path: Some(config_path@),
            }),
    {
        Locker { context, options, os, arch, config_path: Some(config_path) }
    }

    /// The lockfile to read.
    pub fn load_lock(&self) -> (r: LockSource)
        ensures
            match (r, self@.config_path) {
                (LockSource::ConfigFile(p), Some(c)) => p@ == c,
                (LockSource::ClosestConfig, None) => true,
                _ => false,
            },
    {
        match &self.config_path {
            Some(p) => LockSource::ConfigFile(p.copy()),
            None => LockSource::ClosestConfig,
        }
    }

    /// The lockfile to write.
    pub fn load_lock_mut(&self) -> (r: LockSource)
        ensures
            match (r, self@.config_path) {
                (LockSource::ConfigFile(p), Some(c)) => p@ == c,
                (LockSource::ClosestConfig, None) => true,
                _ => false,
            },
    {
        self.load_lock()
    }

    /// The resolved versions that the tool's records lock for this
    /// operating system and architecture (each once).
    pub fn get_locked_versions(&self, entry: &Option<Vec<LockRecord>>) -> (r: Vec<VersionKey>)
        ensures
            forall|i: int, j: int|
                0 <= i < r@.len() && 0 <= j < r@.len() && i != j ==> #[trigger] r@[i]@
                    != #[trigger] r@[j]@,
            versions_view(r@).to_set() == match entry_view(*entry) {
                Some(rs) => locked_versions(rs, self@),
                None => Set::empty(),
            },
    {
        let mut out: Vec<VersionKey> = Vec::new();
        match entry {
            None => {
                assert(versions_view(out@).to_set() =~= Set::empty());
                return out;
            },
            Some(records) => {
                let ghost rs = records_view(records@);
                let mut i: usize = 0;
                assert(versions_view(out@).to_set() =~= locked_versions(rs.subrange(0, 0), self@));
                while i < records.len()
                    invariant
                        i <= records@.len(),
                        rs == records_view(records@),
                        *entry == Some(*records),
                        forall|a: int, b: int|
                            0 <= a < out@.len() && 0 <= b < out@.len() && a != b
                                ==> #[trigger] out@[a]@ != #[trigger] out@[b]@,
                        versions_view(out@).to_set() == locked_versions(rs.subrange(0, i as int), self@),
                    decreases records@.len() - i,
                {
                    proof {
                        lemma_locked_versions_step(rs, self@, i as int);
                    }
                    let rec = &records[i];
                    let os_ok = match &rec.os {
                        Some(o) => *o == self.os,
                        None => true,
                    };
                    let arch_ok = match &rec.arch {
                        Some(a) => *a == self.arch,
                        None => true,
                    };
                    if opt_eq(&rec.backend, &self.context.backend) && os_ok && arch_ok {
                        if let Some(v) = &rec.version {
                            let mut seen = false;
                            let mut j: usize = 0;
                            while j < out.len()
                                invariant
                                    j <= out@.len(),
                                    seen == exists|a: int| 0 <= a < j && #[trigger] out@[a]@ == v@,
                                decreases out@.len() - j,
                            {
                                if out[j].equals(v) {
                                    seen = true;
                                }
                                j = j + 1;
                            }
                            let ghost before = out@;
                            if !seen {
                                out.push(v.copy());
                                proof {
                                    assert forall|a: int, b: int|
                                        0 <= a < out@.len() && 0 <= b < out@.len() && a != b implies #[trigger] out@[a]@
                                        != #[trigger] out@[b]@ by {
                                        if a < before.len() && b < before.len() {
                                            assert(out@[a] == before[a] && out@[b] == before[b]);
                                        } else if a < before.len() {
                                            assert(out@[a] == before[a]);
                                        } else {
                                            assert(out@[b] == before[b]);
                                        }
                                    }
                                    assert(versions_view(out@) =~= versions_view(before).push(v@));
                                    lemma_push_to_set(versions_view(before), v@);
                                }
                            } else {
                                proof {
                                    let a = choose|a: int| 0 <= a < before.len() && #[trigger] before[a]@ == v@;
                                    assert(versions_view(before)[a] == v@);
                                    assert(versions_view(before).to_set().insert(v@) =~= versions_view(before).to_set());
                                }
                            }
                        }
                    }
                    i = i + 1;
                }
                assert(rs.subrange(0, rs.len() as int) =~= rs);
            },
        }
        out
    }
}


/// Whether a record matches the tool's backend, the requirement and the
/// locker's system, and locks a version.
pub open spec fn resolves_to(l: LockerView, req: Seq<char>) -> spec_fn(LockRecordView) -> bool {
    |e: LockRecordView|
        matches_with(e, l.context.backend, Some(req), Some(l.os), Some(l.arch), l.ignore_os_arch)
            && e.version is Some
}

/// The first record that matches the tool's backend, the requirement and
/// the locker's system, and locks a version.
pub open spec fn resolved_record(rs: Seq<LockRecordView>, l: LockerView, req: Seq<char>) -> Option<LockRecordView> {
    match first_where(rs, resolves_to(l, req)) {
        Some(i) => Some(rs[i]),
        None => None,
    }
}

pub open spec fn opt_record(o: Option<LockRecord>) -> Option<LockRecordView> {
    match o {
        Some(r) => Some(r@),
        None => None,
    }
}

impl Locker {
    /// The lock record that applies to a spec: the one it resolved from,
    /// else the one the tool's manifest keeps for its resolved version.
    pub fn get_resolved_locked_record(
        &self,
        spec: &ToolSpec,
        manifest_locks: &Vec<(VersionKey, LockRecord)>,
    ) -> (r: Option<LockRecord>)
        ensures
            opt_record(r) == resolved_locked_record(
                opt_record(spec.version_locked),
                opt_version(spec.version),
                locks_view(manifest_locks@),
            ),
    {
        if let Some(record) = &spec.version_locked {
            return Some(record.copy());
        }
        match &spec.version {
            Some(version) => {
                let ghost ls = locks_view(manifest_locks@);
                let ghost p = keyed_by(version@);
                let mut i: usize = 0;
                while i < manifest_locks.len()
                    invariant
                        i <= manifest_locks@.len(),
                        ls == locks_view(manifest_locks@),
                        p == keyed_by(version@),
                        opt_version(spec.version) == Some(version@),
                        spec.version_locked is None,
                        forall|j: int| 0 <= j < i ==> !p(#[trigger] ls[j]),
                    decreases manifest_locks@.len() - i,
                {
                    if manifest_locks[i].0.equals(version) {
                        proof {
                            lemma_first_where(ls, p, i as int);
                            assert(ls[i as int].1 == manifest_locks@[i as int].1@);
                        }
                        return Some(manifest_locks[i].1.copy());
                    }
                    assert(!p(ls[i as int]));
                    i = i + 1;
                }
                proof {
                    lemma_first_where(ls, p, ls.len() as int);
                }
                None
            },
            None => None,
        }
    }

    /// The first record of the tool that matches the requirement on this
    /// system and locks a version.
    pub fn resolve_locked_record(&self, entry: &Option<Vec<LockRecord>>, req: &String) -> (r: Option<LockRecord>)
        ensures
            opt_record(r) == match entry_view(*entry) {
                Some(rs) => resolved_record(rs, self@, req@),
                None => None,
            },
    {
        match entry {
            None => None,
            Some(records) => {
                let ghost rs = records_view(records@);
                let ghost l = self@;
                let ghost p = resolves_to(l, req@);
                let want = Some(req.clone());
                let os = Some(self.os.clone());
                let arch = Some(self.arch.clone());
                let mut i: usize = 0;
                while i < records.len()
                    invariant
                        i <= records@.len(),
                        rs == records_view(records@),
                        l == self@,
                        opt_text(want) == Some(req@),
                        opt_text(os) == Some(l.os),
                        opt_text(arch) == Some(l.arch),
                        p == resolves_to(l, req@),
                        *entry == Some(*records),
                        forall|j: int| 0 <= j < i ==> !p(#[trigger] rs[j]),
                    decreases records@.len() - i,
                {
                    let matched = records[i].is_match_with(&self.context.backend, &want, &os, &arch, &self.options);
                    if matched && records[i].version.is_some() {
                        proof {
                            lemma_first_where(rs, p, i as int);
                            assert(rs[i as int] == records@[i as int]@);
                        }
                        return Some(records[i].copy());
                    }
                    assert(!p(rs[i as int]));
                    i = i + 1;
                }
                proof {
                    lemma_first_where(rs, p, rs.len() as int);
                }
                None
            },
        }
    }

    /// Verify that an install is legitimate by comparing it to the lock
    /// record that applies to its spec. Without such a record there is
    /// nothing to compare.
    pub fn verify_locked_record(
        &self,
        spec: &ToolSpec,
        manifest_locks: &Vec<(VersionKey, LockRecord)>,
        install_record: &LockRecord,
    ) -> (r: Result<(), ProtoLockError>)
        ensures
            match resolved_locked_record(
                opt_record(spec.version_locked),
                opt_version(spec.version),
                locks_view(manifest_locks@),
            ) {
                None => r is Ok,
                Some(locked) => match (r, verify_outcome(install_record@, locked)) {
                    (Ok(_), None) => true,
                    (Err(e), Some(v)) => e@ == v,
                    _ => false,
                },
            },
    {
        let locked = match self.get_resolved_locked_record(spec, manifest_locks) {
            Some(l) => l,
            None => {
                return Ok(());
            },
        };
        Self::compare_records(install_record, &locked)
    }

    /// Compare an install with the lock record that applies to it.
    pub fn compare_records(install_record: &LockRecord, locked: &LockRecord) -> (r: Result<(), ProtoLockError>)
        ensures
            match (r, verify_outcome(install_record@, locked@)) {
                (Ok(_), None) => true,
                (Err(e), Some(v)) => e@ == v,
                _ => false,
            },
    {
        if !opt_eq(&install_record.backend, &locked.backend) {
            return Ok(());
        }
        match (&install_record.checksum, &locked.checksum) {
            (Some(ir), Some(lr)) => {
                if *ir != *lr {
                    return Err(Self::mismatch(install_record, ir.clone(), lr.clone()));
                }
            },
            (None, Some(lr)) => {
                if opt_eq(&install_record.source, &locked.source) {
                    let missing = "(missing)";
                    proof {
                        reveal_strlit("(missing)");
                        assert(missing@ =~= missing_text());
                    }
                    return Err(Self::mismatch(install_record, missing.to_owned(), lr.clone()));
                }
            },
            _ => {},
        }
        if let (Some(l_os), Some(r_os)) = (&install_record.os, &locked.os) {
            if *l_os != *r_os {
                return Err(ProtoLockError::MismatchedOs { os: l_os.clone(), lockfile_os: r_os.clone() });
            }
        }
        if let (Some(l_arch), Some(r_arch)) = (&install_record.arch, &locked.arch) {
            if *l_arch != *r_arch {
                return Err(
                    ProtoLockError::MismatchedArch { arch: l_arch.clone(), lockfile_arch: r_arch.clone() },
                );
            }
        }
        Ok(())
    }

    fn mismatch(install_record: &LockRecord, actual: String, expected: String) -> (r: ProtoLockError)
        ensures
            r@ == checksum_mismatch(install_record@, actual@, expected@),
    {
        match &install_record.source {
            Some(source) => ProtoLockError::MismatchedChecksumWithSource {
                checksum: actual,
                lockfile_checksum: expected,
                source_url: source.clone(),
            },
            None => ProtoLockError::MismatchedChecksum { checksum: actual, lockfile_checksum: expected },
        }
    }
}

/// An install always verifies against a lock record equal to its own.
pub proof fn lemma_record_verifies_against_itself(record: LockRecordView)
    ensures
        verify_outcome(record, record) is None,
{
}

/// The records of an entry, none when there is no entry.
pub open spec fn entry_records(e: Option<Seq<LockRecordView>>) -> Seq<LockRecordView> {
    match e {
        Some(rs) => rs,
        None => seq![],
    }
}

/// Whether a record is one of the version's on this system.
pub open spec fn locks_version(
    l: LockerView,
    v: VersionKeyView,
    req: Seq<char>,
) -> spec_fn(LockRecordView) -> bool {
    |e: LockRecordView|
        matches_with(e, l.context.backend, Some(req), Some(l.os), Some(l.arch), l.ignore_os_arch)
            && e.version == Some(v)
}

/// Whether a record was resolved from the requirement (on any system).
pub open spec fn from_spec(l: LockerView, req: Seq<char>) -> spec_fn(LockRecordView) -> bool {
    |e: LockRecordView| e.backend == l.context.backend && e.spec == Some(req)
}

pub open spec fn negate<A>(p: spec_fn(A) -> bool) -> spec_fn(A) -> bool {
    |e: A| !p(e)
}

/// The entry after removing some records: `None` when none remain.
pub open spec fn entry_of(rs: Seq<LockRecordView>) -> Option<Seq<LockRecordView>> {
    if rs.len() == 0 {
        None
    } else {
        Some(rs)
    }
}

/// A record moved to a new requirement and version: its checksum and
/// source only stay when the version is unchanged.
pub open spec fn migrated_record(r: LockRecordView, new_spec: Seq<char>, v: VersionKeyView) -> LockRecordView {
    let same = r.version == Some(v);
    LockRecordView {
        checksum: if same {
            r.checksum
        } else {
            None
        },
        source: if same {
            r.source
        } else {
            None
        },
        spec: Some(new_spec),
        version: Some(v),
        ..r
    }
}

/// The kept records after adding each migrated one, unless an equivalent
/// record is already there.
pub open spec fn add_migrated(
    kept: Seq<LockRecordView>,
    migrated: Seq<LockRecordView>,
    new_spec: Seq<char>,
    v: VersionKeyView,
    ignore_os_arch: bool,
) -> Seq<LockRecordView>
    decreases migrated.len(),
{
    if migrated.len() == 0 {
        kept
    } else {
        let acc = add_migrated(kept, migrated.drop_last(), new_spec, v, ignore_os_arch);
        let rec = migrated_record(migrated.last(), new_spec, v);
        if exists|k: int| 0 <= k < acc.len() && matches_record(#[trigger] acc[k], rec, ignore_os_arch) {
            acc
        } else {
            acc.push(rec)
        }
    }
}

impl Locker {
    /// Record an install in the tool's entry, unless installs are not
    /// recorded. Returns whether the lockfile must be saved.
    pub fn insert_record_into_lockfile(&self, entry: &mut Option<Vec<LockRecord>>, record: &LockRecord) -> (saved: bool)
        ensures
            saved == !self@.no_record,
            self@.no_record ==> entry_view(*final(entry)) == entry_view(*old(entry)),
            !self@.no_record ==> entry_view(*final(entry)) == Some(
                inserted_records(
                    entry_records(entry_view(*old(entry))),
                    record@,
                    self@.os,
                    self@.arch,
                    self@.ignore_os_arch,
                ),
            ),
    {
        if self.options.no_record {
            return false;
        }
        let mut records = match entry.take() {
            Some(v) => v,
            None => Vec::new(),
        };
        let ghost rs = records_view(records@);
        assert(rs == entry_records(entry_view(*old(entry))));
        let ghost p = matching(record@, self@.ignore_os_arch);
        let mut i: usize = 0;
        let mut found: Option<usize> = None;
        while i < records.len()
            invariant_except_break
                found is None,
            invariant
                i <= records@.len(),
                rs == records_view(records@),
                p == matching(record@, self@.ignore_os_arch),
                forall|j: int| 0 <= j < i ==> !p(#[trigger] rs[j]),
            ensures
                found matches Some(k) ==> k == i && i < rs.len() && p(rs[k as int]),
                found is None ==> i == rs.len(),
            decreases records@.len() - i,
        {
            if records[i].is_match(record, &self.options) {
                found = Some(i);
                assert(p(rs[i as int]));
                break;
            }
            assert(!p(rs[i as int]));
            i = i + 1;
        }
        match found {
            Some(idx) => {
                proof {
                    lemma_first_where(rs, p, idx as int);
                }
                let mut existing = records[idx].copy();
                let replace = match (&record.version, &existing.version) {
                    (Some(rv), Some(ev)) => rv.order >= ev.order,
                    _ => false,
                };
                if replace {
                    existing = record.copy();
                }
                if self.options.ignore_os_arch {
                    existing.os = None;
                    existing.arch = None;
                } else {
                    if existing.os.is_none() {
                        existing.os = Some(self.os.clone());
                    }
                    if existing.arch.is_none() {
                        existing.arch = Some(self.arch.clone());
                    }
                }
                assert(existing@ == merged_record(rs[idx as int], record@, self@.os, self@.arch, self@.ignore_os_arch));
                records.set(idx, existing);
                assert(records_view(records@) =~= rs.update(
                    idx as int,
                    merged_record(rs[idx as int], record@, self@.os, self@.arch, self@.ignore_os_arch),
                ));
            },
            None => {
                proof {
                    lemma_first_where(rs, p, rs.len() as int);
                }
                records.push(record.copy());
                assert(records_view(records@) =~= rs.push(record@));
            },
        }
        *entry = Some(records);
        true
    }

    /// Remove the tool's entry. Returns whether there was one (and the
    /// lockfile must be saved).
    pub fn remove_from_lockfile(&self, entry: &mut Option<Vec<LockRecord>>) -> (saved: bool)
        ensures
            saved == old(entry).is_some(),
            final(entry).is_none(),
    {
        let saved = entry.is_some();
        *entry = None;
        saved
    }
}

proof fn lemma_keep_step<A>(s: Seq<A>, p: spec_fn(A) -> bool, i: int)
    requires
        0 <= i < s.len(),
    ensures
        keep_where(s.subrange(0, i + 1), p) == if p(s[i]) {
            keep_where(s.subrange(0, i), p).push(s[i])
        } else {
            keep_where(s.subrange(0, i), p)
        },
{
    assert(s.subrange(0, i + 1).drop_last() =~= s.subrange(0, i));
    assert(s.subrange(0, i + 1).last() == s[i]);
}

proof fn lemma_keep_len<A>(s: Seq<A>, p: spec_fn(A) -> bool)
    ensures
        keep_where(s, p).len() <= s.len(),
        keep_where(s, p).len() == s.len() ==> keep_where(s, p) == s,
    decreases s.len(),
{
    if s.len() > 0 {
        lemma_keep_len(s.drop_last(), p);
        if keep_where(s, p).len() == s.len() {
            assert(p(s.last()));
            assert(s.drop_last().push(s.last()) =~= s);
        }
    }
}

impl Locker {
    /// Remove the records of a resolved version on this system (whose
    /// requirement is the version itself). Returns whether the lockfile must
    /// be saved; an entry left without records is removed.
    pub fn remove_version_from_lockfile(
        &self,
        entry: &mut Option<Vec<LockRecord>>,
        version: &VersionKey,
    ) -> (saved: bool)
        ensures
            match entry_view(*old(entry)) {
                None => !saved && entry_view(*final(entry)) is None,
                Some(rs) => {
                    let kept = keep_where(rs, negate(locks_version(self@, version@, version@.text)));
                    if kept.len() == rs.len() && kept.len() > 0 {
                        !saved && entry_view(*final(entry)) == Some(rs)
                    } else {
                        saved && entry_view(*final(entry)) == entry_of(kept)
                    }
                },
            },
    {
        let records = match entry.take() {
            Some(v) => v,
            None => {
                return false;
            },
        };
        let ghost rs = records_view(records@);
        let ghost l = self@;
        let version_req = &version.text;
        let ghost keep = negate(locks_version(l, version@, version_req@));
        let want = Some(version_req.clone());
        let os = Some(self.os.clone());
        let arch = Some(self.arch.clone());
        let mut kept: Vec<LockRecord> = Vec::new();
        let mut i: usize = 0;
        while i < records.len()
            invariant
                i <= records@.len(),
                rs == records_view(records@),
                l == self@,
                opt_text(want) == Some(version_req@),
                opt_text(os) == Some(l.os),
                opt_text(arch) == Some(l.arch),
                keep == negate(locks_version(l, version@, version_req@)),
                records_view(kept@) == keep_where(rs.subrange(0, i as int), keep),
            decreases records@.len() - i,
        {
            proof {
                lemma_keep_step(rs, keep, i as int);
            }
            let matched = records[i].is_match_with(&self.context.backend, &want, &os, &arch, &self.options);
            let same = match &records[i].version {
                Some(v) => v.equals(version),
                None => false,
            };
            if !(matched && same) {
                let ghost before = kept@;
                kept.push(records[i].copy());
                assert(records_view(kept@) =~= records_view(before).push(rs[i as int]));
            }
            i = i + 1;
        }
        assert(rs.subrange(0, rs.len() as int) =~= rs);
        proof {
            lemma_keep_len(rs, keep);
        }
        if kept.len() == records.len() && kept.len() > 0 {
            *entry = Some(records);
            return false;
        }
        if kept.len() == 0 {
            *entry = None;
        } else {
            *entry = Some(kept);
        }
        true
    }

    /// Remove the records resolved from a requirement, on every system.
    /// Returns whether any was removed (and the lockfile must be saved); an
    /// entry left without records is removed.
    pub fn remove_spec_from_lockfile(&self, entry: &mut Option<Vec<LockRecord>>, spec: &String) -> (saved: bool)
        ensures
            match entry_view(*old(entry)) {
                None => !saved && entry_view(*final(entry)) is None,
                Some(rs) => {
                    let kept = keep_where(rs, negate(from_spec(self@, spec@)));
                    if kept.len() == rs.len() {
                        !saved && entry_view(*final(entry)) == Some(rs)
                    } else {
                        saved && entry_view(*final(entry)) == entry_of(kept)
                    }
                },
            },
    {
        let records = match entry.take() {
            Some(v) => v,
            None => {
                return false;
            },
        };
        let ghost rs = records_view(records@);
        let ghost keep = negate(from_spec(self@, spec@));
        let mut kept: Vec<LockRecord> = Vec::new();
        let mut i: usize = 0;
        while i < records.len()
            invariant
                i <= records@.len(),
                rs == records_view(records@),
                keep == negate(from_spec(self@, spec@)),
                records_view(kept@) == keep_where(rs.subrange(0, i as int), keep),
            decreases records@.len() - i,
        {
            proof {
                lemma_keep_step(rs, keep, i as int);
            }
            let same_spec = match &records[i].spec {
                Some(sp) => *sp == *spec,
                None => false,
            };
            if !(opt_eq(&records[i].backend, &self.context.backend) && same_spec) {
                let ghost before = kept@;
                kept.push(records[i].copy());
                assert(records_view(kept@) =~= records_view(before).push(rs[i as int]));
            }
            i = i + 1;
        }
        assert(rs.subrange(0, rs.len() as int) =~= rs);
        proof {
            lemma_keep_len(rs, keep);
        }
        if kept.len() == records.len() {
            *entry = Some(records);
            return false;
        }
        if kept.len() == 0 {
            *entry = None;
        } else {
            *entry = Some(kept);
        }
        true
    }
}

impl Locker {
    /// Move the records resolved from `old_spec` to `new_spec` and
    /// `new_version`, on every system. A moved record whose version changes
    /// loses its checksum and source; one for which an equivalent record is
    /// already kept is dropped. Returns whether the lockfile must be saved.
    pub fn update_spec_in_lockfile(
        &self,
        entry: &mut Option<Vec<LockRecord>>,
        old_spec: &String,
        new_spec: &String,
        new_version: &VersionKey,
    ) -> (saved: bool)
        ensures
            (self@.no_record || old_spec@ == new_spec@ || entry_view(*old(entry)) is None) ==> !saved
                && entry_view(*final(entry)) == entry_view(*old(entry)),
            !(self@.no_record || old_spec@ == new_spec@) ==> match entry_view(*old(entry)) {
                None => true,
                Some(rs) => {
                    let migrated = keep_where(rs, from_spec(self@, old_spec@));
                    let kept = keep_where(rs, negate(from_spec(self@, old_spec@)));
                    if migrated.len() == 0 {
                        !saved && entry_view(*final(entry)) == Some(rs)
                    } else {
                        saved && entry_view(*final(entry)) == Some(
                            add_migrated(kept, migrated, new_spec@, new_version@, self@.ignore_os_arch),
                        )
                    }
                },
            },
    {
        if self.options.no_record || *old_spec == *new_spec {
            return false;
        }
        let records = match entry.take() {
            Some(v) => v,
            None => {
                return false;
            },
        };
        let ghost rs = records_view(records@);
        let ghost mig = from_spec(self@, old_spec@);
        let ghost keep = negate(from_spec(self@, old_spec@));
        let mut kept: Vec<LockRecord> = Vec::new();
        let mut migrated: Vec<LockRecord> = Vec::new();
        let mut i: usize = 0;
        while i < records.len()
            invariant
                i <= records@.len(),
                rs == records_view(records@),
                mig == from_spec(self@, old_spec@),
                keep == negate(from_spec(self@, old_spec@)),
                records_view(kept@) == keep_where(rs.subrange(0, i as int), keep),
                records_view(migrated@) == keep_where(rs.subrange(0, i as int), mig),
            decreases records@.len() - i,
        {
            proof {
                lemma_keep_step(rs, keep, i as int);
                lemma_keep_step(rs, mig, i as int);
            }
            let same_spec = match &records[i].spec {
                Some(sp) => *sp == *old_spec,
                None => false,
            };
            if opt_eq(&records[i].backend, &self.context.backend) && same_spec {
                let ghost before = migrated@;
                migrated.push(records[i].copy());
                assert(records_view(migrated@) =~= records_view(before).push(rs[i as int]));
            } else {
                let ghost before = kept@;
                kept.push(records[i].copy());
                assert(records_view(kept@) =~= records_view(before).push(rs[i as int]));
            }
            i = i + 1;
        }
        assert(rs.subrange(0, rs.len() as int) =~= rs);
        if migrated.len() == 0 {
            *entry = Some(records);
            return false;
        }
        let ghost ms = records_view(migrated@);
        let ghost start = records_view(kept@);
        let mut j: usize = 0;
        while j < migrated.len()
            invariant
                j <= migrated@.len(),
                ms == records_view(migrated@),
                records_view(kept@) == add_migrated(
                    start,
                    ms.subrange(0, j as int),
                    new_spec@,
                    new_version@,
                    self@.ignore_os_arch,
                ),
            decreases migrated@.len() - j,
        {
            let mut record = migrated[j].copy();
            let same = match &record.version {
                Some(v) => v.equals(new_version),
                None => false,
            };
            if !same {
                record.checksum = None;
                record.source = None;
            }
            record.spec = Some(new_spec.clone());
            record.version = Some(new_version.copy());
            let ghost rec = migrated_record(ms[j as int], new_spec@, new_version@);
            assert(record@ == rec);
            let ghost acc = records_view(kept@);
            let mut present = false;
            let mut k: usize = 0;
            while k < kept.len()
                invariant
                    k <= kept@.len(),
                    acc == records_view(kept@),
                    record@ == rec,
                    present == exists|x: int| 0 <= x < k && matches_record(#[trigger] acc[x], rec, self@.ignore_os_arch),
                decreases kept@.len() - k,
            {
                if kept[k].is_match(&record, &self.options) {
                    present = true;
                }
                assert(acc[k as int] == kept@[k as int]@);
                k = k + 1;
            }
            proof {
                assert(ms.subrange(0, j + 1).drop_last() =~= ms.subrange(0, j as int));
                assert(ms.subrange(0, j + 1).last() == ms[j as int]);
            }
            if !present {
                kept.push(record);
                assert(records_view(kept@) =~= acc.push(rec));
            }
            j = j + 1;
        }
        assert(ms.subrange(0, ms.len() as int) =~= ms);
        *entry = Some(kept);
        true
    }
}

} // verus!
