use vstd::prelude::*;
use crate::hashing::{sha256_hex_of_text, sha256_hex_text};
use crate::paths::{PathView, ProtoPath, render_path, root_part, spec_parent, spec_starts_with};
use crate::text::{chars_of, push_char};

verus! {

/// The trust state of a config file.
///
/// A config that is not owned by the user, like one in a cloned repository,
/// can execute code on the host through its security-sensitive settings.
/// These settings are only applied once the config has been trusted.
#[derive(Clone, Copy, PartialEq, Eq, Structural, Debug)]
pub enum ProtoConfigTrust {
    /// The config is owned by the user, or has no security-sensitive settings.
    NotRequired,
    /// The security-sensitive settings are applied.
    Trusted,
    /// The security-sensitive settings have been ignored.
    Untrusted,
}

impl Default for ProtoConfigTrust {
    fn default() -> (r: Self)
        ensures
            r == ProtoConfigTrust::NotRequired,
    {
        ProtoConfigTrust::NotRequired
    }
}

/// Why a config file is trusted.
pub enum ProtoTrustSource {
    /// All configs are trusted, as we're running in CI.
    Ci,
    /// Within a directory listed in `PROTO_TRUSTED_PATHS`.
    TrustedPath(ProtoPath),
    /// The config file itself, or a directory it's within, was trusted.
    Record(ProtoPath),
}

/// The abstract form of a trust source.
pub enum TrustSourceView {
    Ci,
    TrustedPath(PathView),
    Record(PathView),
}

impl View for ProtoTrustSource {
    type V = TrustSourceView;

    open spec fn view(&self) -> TrustSourceView {
        match self {
            ProtoTrustSource::Ci => TrustSourceView::Ci,
            ProtoTrustSource::TrustedPath(p) => TrustSourceView::TrustedPath(p@),
            ProtoTrustSource::Record(p) => TrustSourceView::Record(p@),
        }
    }
}

/// What was found in the trust record file of a path: the path that the
/// record names, or `None` when it is missing or cannot be read.
pub struct TrustRecordEntry {
    pub path: ProtoPath,
    pub stored: Option<ProtoPath>,
}

pub open spec fn opt_path_view(p: Option<ProtoPath>) -> Option<PathView> {
    match p {
        Some(q) => Some(q@),
        None => None,
    }
}

pub open spec fn records_view(records: Seq<TrustRecordEntry>) -> Seq<(PathView, Option<PathView>)> {
    records.map_values(|e: TrustRecordEntry| (e.path@, opt_path_view(e.stored)))
}

/// A path has a record when its record file names that very path.
pub open spec fn has_record(records: Seq<(PathView, Option<PathView>)>, p: PathView) -> bool {
    exists|i: int| 0 <= i < records.len() && #[trigger] records[i].0 == p && records[i].1 == Some(p)
}

/// The closest of the path and its ancestors that has a record.
pub open spec fn first_recorded(records: Seq<(PathView, Option<PathView>)>, p: PathView) -> Option<PathView>
    decreases p.len(),
{
    if has_record(records, p) {
        Some(p)
    } else {
        match spec_parent(p) {
            None => None,
            Some(q) => if q.len() < p.len() { first_recorded(records, q) } else { None },
        }
    }
}

/// The first listed directory that contains the path, from index `i` on.
pub open spec fn first_containing(dirs: Seq<PathView>, p: PathView, i: int) -> Option<PathView>
    decreases dirs.len() - i,
{
    if i < 0 || i >= dirs.len() {
        None
    } else if spec_starts_with(p, dirs[i]) {
        Some(dirs[i])
    } else {
        first_containing(dirs, p, i + 1)
    }
}

/// The abstract form of a trust store.
pub struct TrustStoreView {
    pub dir: PathView,
    pub trust_all: bool,
    pub trusted_paths: Seq<PathView>,
}

/// Why a config at the (normalized) path is trusted, in order: all configs
/// are trusted; it is within a trusted path; the file or one of its
/// directories, closest first, has a record.
pub open spec fn trust_source_of(
    store: TrustStoreView,
    config_path: PathView,
    records: Seq<(PathView, Option<PathView>)>,
) -> Option<TrustSourceView> {
    if store.trust_all {
        Some(TrustSourceView::Ci)
    } else {
        match first_containing(store.trusted_paths, config_path, 0) {
            Some(d) => Some(TrustSourceView::TrustedPath(d)),
            None => match first_recorded(records, config_path) {
                Some(d) => Some(TrustSourceView::Record(d)),
                None => None,
            },
        }
    }
}

/// `key` is one of the comma separated entries of `list`.
pub open spec fn is_list_entry(list: Seq<char>, key: Seq<char>) -> bool {
    &&& forall|j: int| 0 <= j < key.len() ==> key[j] != ','
    &&& exists|i: int|
        0 <= i && i + key.len() <= list.len() && (i == 0 || list[i - 1] == ',') && (i
            + key.len() == list.len() || list[i + key.len()] == ',') && #[trigger] list.subrange(
            i,
            i + key.len(),
        ) == key
}

/// Whether `key` is one of the comma separated entries of `list`, as in
/// `list.split(',').any(|entry| entry == key)`.
pub fn is_listed(list: &str, key: &str) -> (r: bool)
    ensures
        r == is_list_entry(list@, key@),
{
    let l = chars_of(list);
    let k = chars_of(key);
    let mut j: usize = 0;
    while j < k.len()
        invariant
            j <= k@.len(),
            k@ == key@,
            forall|m: int| 0 <= m < j ==> k@[m] != ',',
        decreases k@.len() - j,
    {
        if k[j] == ',' {
            assert(k@[j as int] == ',');
            return false;
        }
        j = j + 1;
    }
    // Walk the entries, each starting after a comma
    let n = l.len();
    let mut start: usize = 0;
    loop
        invariant
            start <= n == l@.len(),
            k@ == key@,
            l@ == list@,
            start == 0 || l@[start - 1] == ',',
            forall|m: int| 0 <= m < k@.len() ==> k@[m] != ',',
            forall|i: int|
                0 <= i < start && (i == 0 || l@[i - 1] == ',') && i + k@.len() <= l@.len() && (i
                    + k@.len() == l@.len() || l@[i + k@.len()] == ',') ==> #[trigger] l@.subrange(
                    i,
                    i + k@.len(),
                ) != k@,
        decreases n - start,
    {
        // Find the end of this entry
        let mut end = start;
        while end < n && l[end] != ','
            invariant
                start <= end <= n == l@.len(),
                forall|m: int| start <= m < end ==> l@[m] != ',',
            decreases n - end,
        {
            end = end + 1;
        }
        // Compare the entry with the key
        let mut eq = end - start == k.len();
        if eq {
            let mut m: usize = 0;
            while m < k.len()
                invariant
                    end - start == k@.len(),
                    k@ == key@,
                    l@ == list@,
                    start <= end <= n == l@.len(),
                    m <= k@.len(),
                    eq ==> forall|q: int| 0 <= q < m ==> l@[start + q] == k@[q],
                    !eq ==> exists|q: int| 0 <= q < m && l@[start + q] != k@[q],
                decreases k@.len() - m,
            {
                if l[start + m] != k[m] {
                    eq = false;
                }
                m = m + 1;
            }
        }
        assert(end == n || l@[end as int] == ',');
        if eq {
            assert(l@.subrange(start as int, start + k@.len()) =~= k@);
            assert(start + k@.len() == l@.len() || l@[start + k@.len()] == ',');
            return true;
        }
        proof {
            assert forall|i: int|
                0 <= i < end + 1 && (i == 0 || l@[i - 1] == ',') && i + k@.len() <= l@.len() && (i
                    + k@.len() == l@.len() || l@[i + k@.len()] == ',') implies #[trigger] l@.subrange(
                i,
                i + k@.len(),
            ) != k@ by {
                if i >= start {
                    if i > start {
                        assert(l@[i - 1] != ',');
                    } else {
                        let sub = l@.subrange(i, i + k@.len());
                        if i + k@.len() < end {
                            assert(l@[i + k@.len()] != ',');
                        } else if i + k@.len() > end {
                            assert(sub[end - i] == l@[end as int]);
                            assert(end < n);
                            if sub == k@ {
                                assert(k@[end - i] != ',');
                            }
                        } else {
                            if !eq && end - start == k@.len() {
                                let q = choose|q: int| 0 <= q < k@.len() && l@[start + q] != k@[q];
                                assert(sub[q] == l@[start + q]);
                            }
                            if end - start != k@.len() {
                                assert(sub.len() == k@.len());
                            }
                        }
                    }
                }
            }
        }
        if end >= n {
            proof {
                assert forall|i: int|
                    0 <= i && i + k@.len() <= l@.len() && (i == 0 || l@[i - 1] == ',') && (i
                        + k@.len() == l@.len() || l@[i + k@.len()] == ',') implies #[trigger] l@.subrange(
                    i,
                    i + k@.len(),
                ) != k@ by {
                    assert(i < end + 1);
                }
            }
            return false;
        }
        start = end + 1;
    }
}

/// Determines which config files are trusted. A config is trusted when the
/// user has trusted the file itself or a directory it's within, when it's
/// within a directory listed in `PROTO_TRUSTED_PATHS`, or when running in CI.
pub struct ProtoTrustStore {
    /// Directory of trust records: `~/.proto/trust`.
    pub dir: ProtoPath,
    /// Trust all config files, regardless of their settings.
    pub trust_all: bool,
    /// Trust all config files within these directories.
    pub trusted_paths: Vec<ProtoPath>,
}

impl View for ProtoTrustStore {
    type V = TrustStoreView;

    open spec fn view(&self) -> TrustStoreView {
        TrustStoreView {
            dir: self.dir@,
            trust_all: self.trust_all,
            trusted_paths: self.trusted_paths@.map_values(|p: ProtoPath| p@),
        }
    }
}

/// The path of the trust record of a path: `<dir>/<sha256 of the path>.json`.
pub open spec fn record_path_of(dir: PathView, p: PathView) -> PathView {
    dir.push(sha256_hex_of_text(render_path(p)) + seq!['.', 'j', 's', 'o', 'n'])
}

/// Hash a path, for use as an identifier: the SHA-256 digest of its
/// textual form.
pub fn hash_path(path: &ProtoPath) -> (r: String)
    ensures
        r@ == sha256_hex_of_text(render_path(path@)),
{
    let text = path.render();
    sha256_hex_text(text.as_str())
}

impl ProtoTrustStore {
    /// Create a trust store. `activated` lists the variables that a previous
    /// shell activation applied (`_PROTO_ACTIVATED_ENV`), which must not
    /// influence trust; `trusted_path_entries` are the normalized entries of
    /// `PROTO_TRUSTED_PATHS` (empty paths are skipped), and `is_ci` tells
    /// whether the process runs in CI.
    pub fn new(
        dir: ProtoPath,
        activated: &str,
        trusted_path_entries: Vec<ProtoPath>,
        is_ci: bool,
    ) -> (r: ProtoTrustStore)
        ensures
            r.dir@ == dir@,
            r.trust_all == (!is_list_entry(activated@, seq!['C', 'I']) && is_ci),
            is_list_entry(activated@, "PROTO_TRUSTED_PATHS"@) ==> r@.trusted_paths.len() == 0,
            !is_list_entry(activated@, "PROTO_TRUSTED_PATHS"@) ==> r@.trusted_paths
                == trusted_path_entries@.map_values(|p: ProtoPath| p@).filter(
                |p: PathView| p.len() > 0,
            ),
    {
        let key = "PROTO_TRUSTED_PATHS";
        let ci_key = "CI";
        proof {
            reveal_strlit("CI");
        }
        assert(ci_key@ =~= seq!['C', 'I']);
        let use_paths = !is_listed(activated, key);
        let mut trusted_paths: Vec<ProtoPath> = Vec::new();
        let ghost entries = trusted_path_entries@.map_values(|p: ProtoPath| p@);
        if use_paths {
            let mut i: usize = 0;
            while i < trusted_path_entries.len()
                invariant
                    i <= trusted_path_entries@.len(),
                    entries == trusted_path_entries@.map_values(|p: ProtoPath| p@),
                    trusted_paths@.map_values(|p: ProtoPath| p@) == entries.subrange(0, i as int).filter(
                        |p: PathView| p.len() > 0,
                    ),
                decreases trusted_path_entries@.len() - i,
            {
                let entry = &trusted_path_entries[i];
                let ghost before = trusted_paths@.map_values(|p: ProtoPath| p@);
                proof {
                    reveal_with_fuel(Seq::<_>::filter, 1);
                    assert(entries.subrange(0, i + 1).drop_last() =~= entries.subrange(0, i as int));
                }
                if !entry.is_empty() {
                    trusted_paths.push(entry.copy());
                    assert(trusted_paths@.map_values(|p: ProtoPath| p@) =~= before.push(entries[i as int]));
                } else {
                    assert(trusted_paths@.map_values(|p: ProtoPath| p@) =~= before);
                }
                i = i + 1;
            }
            assert(entries.subrange(0, trusted_path_entries@.len() as int) =~= entries);
        }
        let ci_listed = is_listed(activated, ci_key);
        let r = ProtoTrustStore { dir, trust_all: !ci_listed && is_ci, trusted_paths };
        proof {
            if !use_paths {
                assert(r@.trusted_paths =~= Seq::<PathView>::empty());
            }
        }
        r
    }

    /// Trust all config files within the provided (normalized) directory.
    pub fn add_trusted_path(&mut self, dir: ProtoPath)
        ensures
            final(self)@ == (TrustStoreView {
                trusted_paths: old(self)@.trusted_paths.push(dir@),
                ..old(self)@
            }),
    {
        let ghost before = self@;
        self.trusted_paths.push(dir);
        assert(self@.trusted_paths =~= before.trusted_paths.push(dir@));
    }

    /// The path of the trust record of the provided path.
    pub fn get_record_path(&self, path: &ProtoPath) -> (r: ProtoPath)
        ensures
            r@ == record_path_of(self.dir@, path@),
    {
        let mut name = hash_path(path);
        let ghost hash = name@;
        push_char(&mut name, '.');
        push_char(&mut name, 'j');
        push_char(&mut name, 's');
        push_char(&mut name, 'o');
        push_char(&mut name, 'n');
        assert(name@ =~= hash + seq!['.', 'j', 's', 'o', 'n']);
        self.dir.join(name)
    }

    /// Whether the record file read for `path` names that very path.
    pub fn has_record(path: &ProtoPath, records: &Vec<TrustRecordEntry>) -> (r: bool)
        ensures
            r == has_record(records_view(records@), path@),
    {
        let ghost rv = records_view(records@);
        let mut i: usize = 0;
        while i < records.len()
            invariant
                i <= records@.len(),
                rv == records_view(records@),
                forall|j: int| 0 <= j < i ==> !(rv[j].0 == path@ && rv[j].1 == Some(path@)),
            decreases records@.len() - i,
        {
            let e = &records[i];
            if e.path.equals(path) {
                match &e.stored {
                    Some(stored) => {
                        if stored.equals(path) {
                            assert(rv[i as int].0 == path@ && rv[i as int].1 == Some(path@));
                            return true;
                        }
                    },
                    None => {},
                }
            }
            i = i + 1;
        }
        false
    }

    /// Why the provided (normalized) config file is trusted, or `None` if it
    /// is not. `records` holds what was read from the record files of the
    /// file and of its directories.
    pub fn get_trust_source(&self, config_path: &ProtoPath, records: &Vec<TrustRecordEntry>) -> (r:
        Option<ProtoTrustSource>)
        ensures
            match r {
                Some(s) => trust_source_of(self@, config_path@, records_view(records@)) == Some(s@),
                None => trust_source_of(self@, config_path@, records_view(records@)) is None,
            },
    {
        if self.trust_all {
            return Some(ProtoTrustSource::Ci);
        }
        let ghost dirs = self@.trusted_paths;
        let mut i: usize = 0;
        while i < self.trusted_paths.len()
            invariant
                i <= self.trusted_paths@.len(),
                !self.trust_all,
                dirs == self@.trusted_paths,
                first_containing(dirs, config_path@, 0) == first_containing(dirs, config_path@, i as int),
            decreases self.trusted_paths@.len() - i,
        {
            if config_path.starts_with(&self.trusted_paths[i]) {
                assert(dirs[i as int] == self.trusted_paths@[i as int]@);
                return Some(ProtoTrustSource::TrustedPath(self.trusted_paths[i].copy()));
            }
            i = i + 1;
        }
        let ghost rv = records_view(records@);
        // The file itself, then each of its directories, closest first
        let mut current = config_path.copy();
        loop
            invariant
                rv == records_view(records@),
                first_containing(dirs, config_path@, 0) is None,
                dirs == self@.trusted_paths,
                !self.trust_all,
                first_recorded(rv, config_path@) == first_recorded(rv, current@),
            decreases current@.len(),
        {
            if Self::has_record(&current, records) {
                return Some(ProtoTrustSource::Record(current));
            }
            match current.parent() {
                Some(q) => {
                    current = q;
                },
                None => {
                    return None;
                },
            }
        }
    }

    /// Whether the provided (normalized) config file is trusted.
    pub fn is_trusted(&self, config_path: &ProtoPath, records: &Vec<TrustRecordEntry>) -> (r: bool)
        ensures
            r == trust_source_of(self@, config_path@, records_view(records@)) is Some,
    {
        self.get_trust_source(config_path, records).is_some()
    }
}

/// The path itself or one of the directories reached from it through
/// `parent`: a component-wise prefix, other than the empty prefix of an
/// absolute path.
pub open spec fn is_ancestor_or_self(p: PathView, d: PathView) -> bool {
    &&& spec_starts_with(p, d)
    &&& (d.len() >= 1 || !(p.len() > 0 && p[0] == root_part()))
}

proof fn lemma_first_containing(dirs: Seq<PathView>, p: PathView, i: int)
    requires
        0 <= i <= dirs.len(),
    ensures
        first_containing(dirs, p, i) is Some <==> exists|j: int|
            i <= j < dirs.len() && spec_starts_with(p, #[trigger] dirs[j]),
    decreases dirs.len() - i,
{
    if i < dirs.len() {
        lemma_first_containing(dirs, p, i + 1);
    }
}

proof fn lemma_first_recorded(records: Seq<(PathView, Option<PathView>)>, p: PathView)
    ensures
        first_recorded(records, p) is Some <==> exists|d: PathView|
            #[trigger] has_record(records, d) && is_ancestor_or_self(p, d),
    decreases p.len(),
{
    if has_record(records, p) {
        assert(is_ancestor_or_self(p, p));
    } else {
        match spec_parent(p) {
            None => {
                assert forall|d: PathView| #[trigger] has_record(records, d) implies !is_ancestor_or_self(p, d) by {
                    if is_ancestor_or_self(p, d) {
                        if d.len() == p.len() {
                            assert(d =~= p);
                        }
                    }
                }
            },
            Some(q) => {
                assert(q =~= p.drop_last());
                lemma_first_recorded(records, q);
                assert forall|d: PathView| #[trigger] has_record(records, d) implies (
                is_ancestor_or_self(p, d) <==> is_ancestor_or_self(q, d)) by {
                    if is_ancestor_or_self(p, d) {
                        if d.len() == p.len() {
                            assert(d =~= p);
                        }
                        assert(spec_starts_with(q, d));
                    }
                    if is_ancestor_or_self(q, d) {
                        assert forall|i: int| 0 <= i < d.len() implies #[trigger] p[i] == d[i] by {
                            assert(q[i] == p[i]);
                        }
                        assert(spec_starts_with(p, d));
                        if q.len() > 0 {
                            assert(q[0] == p[0]);
                        }
                    }
                }
            },
        }
    }
}

/// A config is trusted exactly when all configs are trusted, when it lies
/// within a trusted path, or when the config file itself or one of its
/// directories has been trusted (has a record). Trusting a directory
/// therefore trusts every config within it, at any depth, while trusting a
/// file trusts that file alone.
pub proof fn lemma_trusted_iff(
    store: TrustStoreView,
    config_path: PathView,
    records: Seq<(PathView, Option<PathView>)>,
)
    ensures
        trust_source_of(store, config_path, records) is Some <==> {
            ||| store.trust_all
            ||| exists|j: int|
                0 <= j < store.trusted_paths.len() && spec_starts_with(
                    config_path,
                    #[trigger] store.trusted_paths[j],
                )
            ||| exists|d: PathView| #[trigger] has_record(records, d) && is_ancestor_or_self(config_path, d)
        },
{
    lemma_first_containing(store.trusted_paths, config_path, 0);
    lemma_first_recorded(records, config_path);
}

/// The records read from the trust directory without the record of a
/// path (its record file removed).
pub open spec fn without_record(records: Seq<(PathView, Option<PathView>)>, p: PathView) -> Seq<
    (PathView, Option<PathView>),
>
    decreases records.len(),
{
    if records.len() == 0 {
        seq![]
    } else {
        let rest = without_record(records.drop_last(), p);
        if records.last().0 == p {
            rest
        } else {
            rest.push(records.last())
        }
    }
}

/// Whether the record file of a path exists (readable or not).
pub open spec fn record_exists(records: Seq<(PathView, Option<PathView>)>, p: PathView) -> bool {
    exists|i: int| 0 <= i < records.len() && #[trigger] records[i].0 == p
}

proof fn lemma_without_record(records: Seq<(PathView, Option<PathView>)>, p: PathView)
    ensures
        !record_exists(without_record(records, p), p),
        forall|q: PathView| q != p ==> (#[trigger] has_record(without_record(records, p), q) <==> has_record(records, q)),
    decreases records.len(),
{
    if records.len() > 0 {
        let prev = records.drop_last();
        lemma_without_record(prev, p);
        let rest = without_record(prev, p);
        let x = records.last();
        let r = without_record(records, p);
        if x.0 == p {
            assert(r == rest);
        }
        if x.0 != p {
            assert(r == rest.push(x));
            if record_exists(r, p) {
                let i = choose|i: int| 0 <= i < r.len() && #[trigger] r[i].0 == p;
                assert(rest[i].0 == p);
            }
        }
        assert forall|q: PathView| q != p implies (#[trigger] has_record(r, q) <==> has_record(records, q)) by {
            if has_record(records, q) {
                let i = choose|i: int| 0 <= i < records.len() && #[trigger] records[i].0 == q && records[i].1 == Some(q);
                if i < prev.len() {
                    assert(prev[i] == records[i]);
                    assert(has_record(prev, q));
                    assert(has_record(rest, q));
                    let j = choose|j: int| 0 <= j < rest.len() && #[trigger] rest[j].0 == q && rest[j].1 == Some(q);
                    if x.0 != p {
                        assert(r[j] == rest[j]);
                    }
                } else {
                    assert(r[rest.len() as int] == x);
                }
            }
            if has_record(r, q) {
                let i = choose|i: int| 0 <= i < r.len() && #[trigger] r[i].0 == q && r[i].1 == Some(q);
                if x.0 != p && i == rest.len() {
                    assert(records[records.len() - 1] == x);
                } else {
                    assert(rest[i] == r[i]);
                    assert(has_record(rest, q));
                    assert(has_record(prev, q));
                    let j = choose|j: int| 0 <= j < prev.len() && #[trigger] prev[j].0 == q && prev[j].1 == Some(q);
                    assert(records[j] == prev[j]);
                }
            }
        }
    }
}

fn drop_record(records: &mut Vec<TrustRecordEntry>, path: &ProtoPath) -> (existed: bool)
    ensures
        records_view(final(records)@) == without_record(records_view(old(records)@), path@),
        existed == record_exists(records_view(old(records)@), path@),
{
    let ghost rv = records_view(records@);
    let mut kept: Vec<TrustRecordEntry> = Vec::new();
    let mut existed = false;
    let mut i: usize = 0;
    while i < records.len()
        invariant
            i <= records@.len(),
            rv == records_view(records@),
            records_view(kept@) == without_record(rv.subrange(0, i as int), path@),
            existed == record_exists(rv.subrange(0, i as int), path@),
        decreases records@.len() - i,
    {
        let ghost sub = rv.subrange(0, i + 1);
        assert(sub.drop_last() =~= rv.subrange(0, i as int));
        assert(sub.last() == rv[i as int]);
        let e = &records[i];
        if e.path.equals(path) {
            existed = true;
            assert(sub[i as int].0 == path@);
        } else {
            let ghost before = records_view(kept@);
            let stored = match &e.stored {
                Some(s) => Some(s.copy()),
                None => None,
            };
            kept.push(TrustRecordEntry { path: e.path.copy(), stored });
            assert(records_view(kept@) =~= before.push(rv[i as int]));
            proof {
                if record_exists(rv.subrange(0, i as int), path@) {
                    let k = choose|k: int| 0 <= k < i && #[trigger] rv.subrange(0, i as int)[k].0 == path@;
                    assert(sub[k].0 == path@);
                }
                if record_exists(sub, path@) {
                    let k = choose|k: int| 0 <= k < sub.len() && #[trigger] sub[k].0 == path@;
                    assert(rv.subrange(0, i as int)[k].0 == path@);
                }
            }
        }
        i = i + 1;
    }
    assert(rv.subrange(0, rv.len() as int) =~= rv);
    *records = kept;
    existed
}

impl ProtoTrustStore {
    /// Trust a (normalized) config file or directory: its record file, at
    /// the returned path, is written to hold the path, so that the records
    /// read afterwards hold that record in place of any earlier one.
    pub fn trust(&self, path: &ProtoPath, records: &mut Vec<TrustRecordEntry>) -> (file: ProtoPath)
        ensures
            file@ == record_path_of(self.dir@, path@),
            records_view(final(records)@) == without_record(records_view(old(records)@), path@).push(
                (path@, Some(path@)),
            ),
    {
        drop_record(records, path);
        let ghost before = records_view(records@);
        records.push(TrustRecordEntry { path: path.copy(), stored: Some(path.copy()) });
        assert(records_view(records@) =~= before.push((path@, Some(path@))));
        self.get_record_path(path)
    }

    /// Remove trust for a (normalized) config file or directory: when its
    /// record file exists, it is removed (the returned path) and the path
    /// was trusted; otherwise nothing changes.
    pub fn untrust(&self, path: &ProtoPath, records: &mut Vec<TrustRecordEntry>) -> (removed: Option<ProtoPath>)
        ensures
            removed is Some <==> record_exists(records_view(old(records)@), path@),
            removed matches Some(f) ==> f@ == record_path_of(self.dir@, path@),
            records_view(final(records)@) == without_record(records_view(old(records)@), path@),
    {
        if drop_record(records, path) {
            Some(self.get_record_path(path))
        } else {
            None
        }
    }
}

/// Trusting a path gives it a record, and untrusting it takes the record
/// away, whatever records there were; the records of other paths stay as
/// they were either way.
pub proof fn lemma_trust_untrust(records: Seq<(PathView, Option<PathView>)>, p: PathView)
    ensures
        has_record(without_record(records, p).push((p, Some(p))), p),
        !has_record(without_record(records, p), p),
        !record_exists(without_record(records, p), p),
        forall|q: PathView|
            q != p ==> (#[trigger] has_record(without_record(records, p).push((p, Some(p))), q) <==> has_record(
                records,
                q,
            )),
        forall|q: PathView| q != p ==> (#[trigger] has_record(without_record(records, p), q) <==> has_record(records, q)),
{
    lemma_without_record(records, p);
    let w = without_record(records, p);
    let t = w.push((p, Some(p)));
    assert(t[w.len() as int] == (p, Some(p)));
    assert(t[w.len() as int].0 == p && t[w.len() as int].1 == Some(p));
    assert(has_record(t, p));
    if has_record(w, p) {
        let i = choose|i: int| 0 <= i < w.len() && #[trigger] w[i].0 == p && w[i].1 == Some(p);
        assert(record_exists(w, p));
    }
    assert forall|q: PathView| q != p implies (#[trigger] has_record(t, q) <==> has_record(records, q)) by {
        if has_record(t, q) {
            let i = choose|i: int| 0 <= i < t.len() && #[trigger] t[i].0 == q && t[i].1 == Some(q);
            assert(i < w.len());
            assert(w[i] == t[i]);
            assert(has_record(w, q));
        }
        if has_record(w, q) {
            let i = choose|i: int| 0 <= i < w.len() && #[trigger] w[i].0 == q && w[i].1 == Some(q);
            assert(t[i] == w[i]);
        }
    }
}

} // verus!
