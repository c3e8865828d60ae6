use vstd::prelude::*;
use crate::assoc::{assoc_map, keys_distinct, lemma_assoc_dom, lemma_assoc_index, lemma_assoc_push, lemma_assoc_update};
use crate::paths::{PathView, ProtoPath};
use crate::text::str_eq;

verus! {

/// What the manifest keeps of an installed version.
#[derive(Clone, Copy, PartialEq, Eq, Structural, Debug)]
pub struct ManifestVersion {
    pub no_clean: bool,
    pub installed_at: u128,
    pub last_used_at: Option<u128>,
}

impl Default for ManifestVersion {
    fn default() -> (r: ManifestVersion)
        ensures
            r == (ManifestVersion { no_clean: false, installed_at: 0, last_used_at: None }),
    {
        ManifestVersion { no_clean: false, installed_at: 0, last_used_at: None }
    }
}

pub open spec fn entries_of(v: Seq<(String, ManifestVersion)>) -> Seq<(Seq<char>, ManifestVersion)> {
    v.map_values(|e: (String, ManifestVersion)| (e.0@, e.1))
}

pub open spec fn names_of(v: Seq<String>) -> Seq<Seq<char>> {
    v.map_values(|s: String| s@)
}

/// The abstract form of a manifest.
pub struct ManifestView {
    pub default_version: Option<Seq<char>>,
    pub installed_versions: Set<Seq<char>>,
    pub versions: Map<Seq<char>, ManifestVersion>,
}

/// The installed versions of a tool, the version used by default, and
/// when each version was installed and last used.
pub struct Manifest {
    pub aliases: Vec<(String, String)>,
    pub default_version: Option<String>,
    installed_versions: Vec<String>,
    pub shim_version: u8,
    versions: Vec<(String, ManifestVersion)>,
    pub path: ProtoPath,
}

impl View for Manifest {
    type V = ManifestView;

    closed spec fn view(&self) -> ManifestView {
        ManifestView {
            default_version: match self.default_version {
                Some(s) => Some(s@),
                None => None,
            },
            installed_versions: names_of(self.installed_versions@).to_set(),
            versions: assoc_map(entries_of(self.versions@)),
        }
    }
}

/// The manifest after installing a version: the version becomes installed
/// with a fresh entry, and, when none is set, the default version is the
/// provided one or else this version.
pub open spec fn inserted(m: ManifestView, version: Seq<char>, default_version: Option<Seq<char>>, installed_at: u128, no_clean: bool) -> ManifestView {
    ManifestView {
        default_version: if m.default_version is None {
            Some(
                match default_version {
                    Some(d) => d,
                    None => version,
                },
            )
        } else {
            m.default_version
        },
        installed_versions: m.installed_versions.insert(version),
        versions: m.versions.insert(
            version,
            ManifestVersion { no_clean, installed_at, last_used_at: None },
        ),
    }
}

/// The manifest after removing a version: it is no longer installed and
/// loses its entry; the default version is unset when it was this version
/// or no version remains.
pub open spec fn removed(m: ManifestView, version: Seq<char>) -> ManifestView {
    let installed = m.installed_versions.remove(version);
    ManifestView {
        default_version: if (installed.len() == 0 && m.default_version is Some) || m.default_version == Some(
            version,
        ) {
            None
        } else {
            m.default_version
        },
        installed_versions: installed,
        versions: m.versions.remove(version),
    }
}

/// Removing a version uninstalls it alone and forgets its entry; the
/// default version is kept when it is another version and some other
/// version stays installed, and is unset when it was the removed one.
pub proof fn lemma_remove_version_keeps_default(m: ManifestView, version: Seq<char>)
    requires
        m.installed_versions.finite(),
    ensures
        !removed(m, version).installed_versions.contains(version),
        forall|w: Seq<char>| w != version ==> (#[trigger] removed(m, version).installed_versions.contains(w)
            <==> m.installed_versions.contains(w)),
        !removed(m, version).versions.dom().contains(version),
        forall|w: Seq<char>| w != version ==> (#[trigger] removed(m, version).versions.dom().contains(w)
            ==> removed(m, version).versions[w] == m.versions[w]),
        m.default_version == Some(version) ==> removed(m, version).default_version is None,
        (m.default_version != Some(version) && exists|w: Seq<char>| w != version
            && #[trigger] m.installed_versions.contains(w)) ==> removed(m, version).default_version
            == m.default_version,
{
    let installed = m.installed_versions.remove(version);
    if exists|w: Seq<char>| w != version && #[trigger] m.installed_versions.contains(w) {
        let w = choose|w: Seq<char>| w != version && #[trigger] m.installed_versions.contains(w);
        assert(installed.contains(w));
        if installed.len() == 0 {
            vstd::set_lib::lemma_set_empty_equivalency_len(installed);
            assert(installed =~= Set::empty());
            assert(false);
        }
    }
}

/// The manifest after a version was used at `at`.
pub open spec fn used_at(m: ManifestView, version: Seq<char>, at: u128) -> ManifestView {
    ManifestView {
        versions: m.versions.insert(
            version,
            if m.versions.dom().contains(version) {
                ManifestVersion { last_used_at: Some(at), ..m.versions[version] }
            } else {
                ManifestVersion { no_clean: false, installed_at: 0, last_used_at: Some(at) }
            },
        ),
        ..m
    }
}


/// What the manifest keeps of a version after a sync: its entry, or a
/// default one.
pub open spec fn kept_entry(m: ManifestView, version: Seq<char>) -> ManifestVersion {
    if m.versions.dom().contains(version) {
        m.versions[version]
    } else {
        ManifestVersion { no_clean: false, installed_at: 0, last_used_at: None }
    }
}

/// The manifest after the plugin synced its versions: exactly the listed
/// versions are installed, each keeping its entry (or a default one); the
/// default version stays.
pub open spec fn synced(m: ManifestView, versions: Seq<Seq<char>>) -> ManifestView {
    ManifestView {
        default_version: m.default_version,
        installed_versions: versions.to_set(),
        versions: Map::new(|k: Seq<char>| versions.contains(k), |k: Seq<char>| kept_entry(m, k)),
    }
}

fn names_contain(v: &Vec<String>, t: &String) -> (r: bool)
    ensures
        r == names_of(v@).contains(t@),
{
    let ghost nv = names_of(v@);
    let mut i: usize = 0;
    while i < v.len()
        invariant
            i <= v@.len(),
            nv == names_of(v@),
            forall|j: int| 0 <= j < i ==> nv[j] != t@,
        decreases v@.len() - i,
    {
        if v[i] == *t {
            assert(nv[i as int] == t@);
            return true;
        }
        i = i + 1;
    }
    false
}

impl Manifest {
    /// Where the manifest is stored.
    pub closed spec fn stored_at(&self) -> PathView {
        self.path@
    }

    /// The version aliases the manifest holds.
    pub closed spec fn aliases_view(&self) -> Seq<(Seq<char>, Seq<char>)> {
        self.aliases@.map_values(|a: (String, String)| (a.0@, a.1@))
    }

    /// The parts of the manifest that recording versions leaves alone:
    /// where it is stored, its aliases and its shim version.
    pub open spec fn same_frame(&self, other: &Manifest) -> bool {
        &&& self.stored_at() == other.stored_at()
        &&& self.aliases_view() == other.aliases_view()
        &&& self.shims_version() == other.shims_version()
    }

    /// How many version aliases the manifest holds.
    pub closed spec fn alias_count(&self) -> nat {
        self.aliases@.len()
    }

    /// The version of the shims that the manifest records.
    pub closed spec fn shims_version(&self) -> u8 {
        self.shim_version
    }

    /// No version is listed twice.
    pub closed spec fn wf(&self) -> bool {
        &&& keys_distinct(entries_of(self.versions@))
        &&& forall|i: int, j: int|
            0 <= i < self.installed_versions@.len() && 0 <= j < self.installed_versions@.len() && i != j
                ==> #[trigger] self.installed_versions@[i]@ != #[trigger] self.installed_versions@[j]@
    }

    /// An empty manifest stored at `path`.
    pub fn new(path: ProtoPath) -> (r: Manifest)
        ensures
            r.wf(),
            r@.default_version is None,
            r@.installed_versions == Set::<Seq<char>>::empty(),
            r@.versions == Map::<Seq<char>, ManifestVersion>::empty(),
            r.stored_at() == path@,
            r.alias_count() == 0,
            r.shims_version() == 0,
    {
        let r = Manifest {
            aliases: Vec::new(),
            default_version: None,
            installed_versions: Vec::new(),
            shim_version: 0,
            versions: Vec::new(),
            path,
        };
        assert(names_of(r.installed_versions@).to_set() =~= Set::empty());
        assert(entries_of(r.versions@) =~= Seq::<(Seq<char>, ManifestVersion)>::empty());
        r
    }

    fn find_entry(&self, version: &str) -> (r: Option<usize>)
        ensures
            match r {
                Some(i) => i < self.versions@.len() && self.versions@[i as int].0@ == version@,
                None => !assoc_map(entries_of(self.versions@)).dom().contains(version@),
            },
    {
        let ghost e = entries_of(self.versions@);
        let mut i: usize = 0;
        while i < self.versions.len()
            invariant
                i <= self.versions@.len(),
                e == entries_of(self.versions@),
                forall|j: int| 0 <= j < i ==> e[j].0 != version@,
            decreases self.versions@.len() - i,
        {
            if str_eq(self.versions[i].0.as_str(), version) {
                return Some(i);
            }
            i = i + 1;
        }
        proof {
            lemma_assoc_dom(e, version@);
        }
        None
    }

    fn set_entry(&mut self, version: &str, value: ManifestVersion)
        requires
            old(self).wf(),
        ensures
            final(self).same_frame(&*old(self)),
            final(self).wf(),
            final(self)@ == (ManifestView { versions: old(self)@.versions.insert(version@, value), ..old(self)@ }),
            final(self).installed_versions == old(self).installed_versions,
    {
        let ghost e = entries_of(self.versions@);
        match self.find_entry(version) {
            Some(i) => {
                proof {
                    lemma_assoc_update(e, i as int, value);
                }
                self.versions.set(i, (version.to_owned(), value));
                assert(entries_of(self.versions@) =~= e.update(i as int, (e[i as int].0, value)));
            },
            None => {
                proof {
                    lemma_assoc_push(e, version@, value);
                }
                self.versions.push((version.to_owned(), value));
                assert(entries_of(self.versions@) =~= e.push((version@, value)));
            },
        }
    }

    /// Whether a version is installed.
    pub fn is_installed(&self, version: &str) -> (r: bool)
        ensures
            r == self@.installed_versions.contains(version@),
    {
        let ghost nv = names_of(self.installed_versions@);
        let mut i: usize = 0;
        while i < self.installed_versions.len()
            invariant
                i <= self.installed_versions@.len(),
                nv == names_of(self.installed_versions@),
                forall|j: int| 0 <= j < i ==> nv[j] != version@,
            decreases self.installed_versions@.len() - i,
        {
            if str_eq(self.installed_versions[i].as_str(), version) {
                assert(nv[i as int] == version@);
                return true;
            }
            i = i + 1;
        }
        false
    }

    /// The installed versions, each once.
    pub fn installed_versions(&self) -> (r: &Vec<String>)
        requires
            self.wf(),
        ensures
            names_of(r@).to_set() == self@.installed_versions,
            forall|i: int, j: int| 0 <= i < r@.len() && 0 <= j < r@.len() && i != j ==> #[trigger] r@[i]@ != #[trigger] r@[j]@,
    {
        &self.installed_versions
    }

    /// What the manifest keeps of each version, each version once.
    pub fn versions(&self) -> (r: &Vec<(String, ManifestVersion)>)
        requires
            self.wf(),
        ensures
            keys_distinct(entries_of(r@)),
            assoc_map(entries_of(r@)) == self@.versions,
    {
        &self.versions
    }

    /// The number of installed versions.
    pub fn installed_count(&self) -> (r: usize)
        requires
            self.wf(),
        ensures
            r == self@.installed_versions.len(),
    {
        proof {
            let nv = names_of(self.installed_versions@);
            assert(nv.no_duplicates()) by {
                assert forall|i: int, j: int| 0 <= i < nv.len() && 0 <= j < nv.len() && i != j implies nv[i] != nv[j] by {
                    assert(nv[i] == self.installed_versions@[i]@ && nv[j] == self.installed_versions@[j]@);
                }
            }
            nv.unique_seq_to_set();
        }
        self.installed_versions.len()
    }

    /// Whether the version is the only one installed.
    pub fn is_only_version(&self, version: &str) -> (r: bool)
        requires
            self.wf(),
        ensures
            r == (self@.installed_versions == set![version@]),
    {
        let r = self.installed_versions.len() == 1 && str_eq(self.installed_versions[0].as_str(), version);
        proof {
            let nv = names_of(self.installed_versions@);
            if r {
                assert(nv =~= seq![version@]);
                assert(nv.to_set() =~= set![version@]) by {
                    assert forall|x: Seq<char>| nv.to_set().contains(x) <==> set![version@].contains(x) by {
                        if x == version@ {
                            assert(nv[0] == x);
                        }
                    }
                }
            } else {
                if nv.to_set() == set![version@] {
                    assert(nv.to_set().contains(version@));
                    let k = choose|k: int| 0 <= k < nv.len() && nv[k] == version@;
                    if nv.len() != 1 {
                        let other = if k == 0 { 1int } else { 0int };
                        if other < nv.len() {
                            assert(nv.to_set().contains(nv[other]));
                            assert(self.installed_versions@[other]@ != self.installed_versions@[k]@);
                        }
                    } else {
                        assert(nv[0] == version@);
                    }
                }
            }
        }
        r
    }

    /// What the manifest keeps of a version, if anything.
    pub fn get_version(&self, version: &str) -> (r: Option<ManifestVersion>)
        requires
            self.wf(),
        ensures
            match r {
                Some(v) => self@.versions.dom().contains(version@) && self@.versions[version@] == v,
                None => !self@.versions.dom().contains(version@),
            },
    {
        match self.find_entry(version) {
            Some(i) => {
                proof {
                    lemma_assoc_index(entries_of(self.versions@), i as int);
                }
                Some(self.versions[i].1)
            },
            None => None,
        }
    }

    /// Record a version installed at `installed_at`.
    pub fn insert_version_at(&mut self, version: &str, default_version: Option<String>, installed_at: u128, no_clean: bool)
        requires
            old(self).wf(),
        ensures
            final(self).same_frame(&*old(self)),
            final(self).wf(),
            final(self)@ == inserted(
                old(self)@,
                version@,
                crate::config::opt_text(default_version),
                installed_at,
                no_clean,
            ),
    {
        if self.default_version.is_none() {
            self.default_version = Some(
                match default_version {
                    Some(d) => d,
                    None => version.to_owned(),
                },
            );
        }
        if !self.is_installed(version) {
            let ghost before = self.installed_versions@;
            self.installed_versions.push(version.to_owned());
            proof {
                assert(names_of(self.installed_versions@) =~= names_of(before).push(version@));
                crate::bins::lemma_push_to_set(names_of(before), version@);
                assert forall|i: int, j: int|
                    0 <= i < self.installed_versions@.len() && 0 <= j < self.installed_versions@.len() && i != j implies #[trigger] self.installed_versions@[i]@
                    != #[trigger] self.installed_versions@[j]@ by {
                    if i < before.len() && j < before.len() {
                    } else if i < before.len() {
                        assert(names_of(before)[i] == before[i]@);
                    } else {
                        assert(names_of(before)[j] == before[j]@);
                    }
                }
            }
        } else {
            assert(names_of(self.installed_versions@).to_set().insert(version@) =~= names_of(self.installed_versions@).to_set());
        }
        self.set_entry(version, ManifestVersion { no_clean, installed_at, last_used_at: None });
    }

    /// Record a version installed now.
    pub fn insert_version(&mut self, version: &str, default_version: Option<String>, no_clean: bool)
        requires
            old(self).wf(),
        ensures
            final(self).same_frame(&*old(self)),
            final(self).wf(),
            exists|at: u128| final(self)@ == #[trigger] inserted(
                old(self)@,
                version@,
                crate::config::opt_text(default_version),
                at,
                no_clean,
            ),
    {
        let at = now_ms();
        self.insert_version_at(version, default_version, at, no_clean);
    }

    /// Forget a version.
    pub fn remove_version(&mut self, version: &str)
        requires
            old(self).wf(),
        ensures
            final(self).same_frame(&*old(self)),
            final(self).wf(),
            final(self)@ == removed(old(self)@, version@),
    {
        let ghost old_view = self@;
        let mut kept: Vec<String> = Vec::new();
        let ghost nv = names_of(self.installed_versions@);
        let mut i: usize = 0;
        while i < self.installed_versions.len()
            invariant
                i <= self.installed_versions@.len(),
                nv == names_of(self.installed_versions@),
                names_of(kept@).to_set() == nv.subrange(0, i as int).to_set().remove(version@),
                forall|a: int| 0 <= a < kept@.len() ==> exists|b: int| 0 <= b < i && #[trigger] kept@[a]@ == nv[b],
                forall|a: int, b: int|
                    0 <= a < kept@.len() && 0 <= b < kept@.len() && a != b ==> #[trigger] kept@[a]@ != #[trigger] kept@[b]@,
                forall|a: int, b: int|
                    0 <= a < nv.len() && 0 <= b < nv.len() && a != b ==> #[trigger] nv[a] != #[trigger] nv[b],
            decreases self.installed_versions@.len() - i,
        {
            let ghost before = kept@;
            assert(nv.subrange(0, i + 1) =~= nv.subrange(0, i as int).push(nv[i as int]));
            proof {
                crate::bins::lemma_push_to_set(nv.subrange(0, i as int), nv[i as int]);
            }
            if !str_eq(self.installed_versions[i].as_str(), version) {
                kept.push(self.installed_versions[i].clone());
                proof {
                    assert(names_of(kept@) =~= names_of(before).push(nv[i as int]));
                    crate::bins::lemma_push_to_set(names_of(before), nv[i as int]);
                    assert(names_of(kept@).to_set() =~= nv.subrange(0, i + 1).to_set().remove(version@));
                    assert forall|a: int| 0 <= a < kept@.len() implies exists|b: int| 0 <= b < i + 1 && #[trigger] kept@[a]@ == nv[b] by {
                        if a < before.len() {
                            let b = choose|b: int| 0 <= b < i && #[trigger] before[a]@ == nv[b];
                            assert(kept@[a]@ == nv[b]);
                        } else {
                            assert(kept@[a]@ == nv[i as int]);
                        }
                    }
                    assert forall|a: int, b: int|
                        0 <= a < kept@.len() && 0 <= b < kept@.len() && a != b implies #[trigger] kept@[a]@ != #[trigger] kept@[b]@ by {
                        if a < before.len() && b < before.len() {
                        } else if a < before.len() {
                            let c = choose|c: int| 0 <= c < i && #[trigger] before[a]@ == nv[c];
                            assert(nv[c] != nv[i as int]);
                        } else if b < before.len() {
                            let c = choose|c: int| 0 <= c < i && #[trigger] before[b]@ == nv[c];
                            assert(nv[c] != nv[i as int]);
                        }
                    }
                }
            } else {
                assert(names_of(kept@).to_set() =~= nv.subrange(0, i + 1).to_set().remove(version@));
                assert forall|a: int| 0 <= a < kept@.len() implies exists|b: int| 0 <= b < i + 1 && #[trigger] kept@[a]@ == nv[b] by {
                    let b = choose|b: int| 0 <= b < i && #[trigger] kept@[a]@ == nv[b];
                    assert(kept@[a]@ == nv[b]);
                }
            }
            i = i + 1;
        }
        assert(nv.subrange(0, nv.len() as int) =~= nv);
        self.installed_versions = kept;
        let ghost installed = names_of(self.installed_versions@).to_set();
        proof {
            crate::manifest::lemma_distinct_len(names_of(self.installed_versions@));
        }
        let empty = self.installed_versions.len() == 0;
        let is_default = match &self.default_version {
            Some(d) => str_eq(d.as_str(), version),
            None => false,
        };
        if (empty && self.default_version.is_some()) || is_default {
            self.default_version = None;
        }
        let ghost e = entries_of(self.versions@);
        let mut rest: Vec<(String, ManifestVersion)> = Vec::new();
        let mut j: usize = 0;
        while j < self.versions.len()
            invariant
                j <= self.versions@.len(),
                e == entries_of(self.versions@),
                keys_distinct(e),
                keys_distinct(entries_of(rest@)),
                assoc_map(entries_of(rest@)) == assoc_map(e.subrange(0, j as int)).remove(version@),
                forall|a: int| 0 <= a < rest@.len() ==> exists|b: int| 0 <= b < j && #[trigger] entries_of(rest@)[a].0 == e[b].0,
            decreases self.versions@.len() - j,
        {
            let ghost before = entries_of(rest@);
            assert(e.subrange(0, j + 1) =~= e.subrange(0, j as int).push(e[j as int]));
            assert(e.subrange(0, j + 1).drop_last() =~= e.subrange(0, j as int));
            if !str_eq(self.versions[j].0.as_str(), version) {
                rest.push((self.versions[j].0.clone(), self.versions[j].1));
                proof {
                    assert(entries_of(rest@) =~= before.push(e[j as int]));
                    assert(before.push(e[j as int]).drop_last() =~= before);
                    assert(assoc_map(entries_of(rest@)) =~= assoc_map(e.subrange(0, j + 1)).remove(version@));
                    assert forall|a: int, b: int|
                        0 <= a < entries_of(rest@).len() && 0 <= b < entries_of(rest@).len() && a != b implies #[trigger] entries_of(rest@)[a].0
                        != #[trigger] entries_of(rest@)[b].0 by {
                        if a < before.len() && b < before.len() {
                            assert(entries_of(rest@)[a] == before[a] && entries_of(rest@)[b] == before[b]);
                        } else if a < before.len() {
                            assert(entries_of(rest@)[a] == before[a]);
                            let c = choose|c: int| 0 <= c < j && #[trigger] before[a].0 == e[c].0;
                            assert(e[c].0 != e[j as int].0);
                        } else if b < before.len() {
                            assert(entries_of(rest@)[b] == before[b]);
                            let c = choose|c: int| 0 <= c < j && #[trigger] before[b].0 == e[c].0;
                            assert(e[c].0 != e[j as int].0);
                        }
                    }
                    assert forall|a: int| 0 <= a < rest@.len() implies exists|b: int| 0 <= b < j + 1 && #[trigger] entries_of(rest@)[a].0 == e[b].0 by {
                        if a < before.len() {
                            assert(entries_of(rest@)[a] == before[a]);
                            let c = choose|c: int| 0 <= c < j && #[trigger] before[a].0 == e[c].0;
                            assert(entries_of(rest@)[a].0 == e[c].0);
                        } else {
                            assert(entries_of(rest@)[a].0 == e[j as int].0);
                        }
                    }
                }
            } else {
                proof {
                    assert(assoc_map(entries_of(rest@)) =~= assoc_map(e.subrange(0, j + 1)).remove(version@));
                    assert forall|a: int| 0 <= a < rest@.len() implies exists|b: int| 0 <= b < j + 1 && #[trigger] entries_of(rest@)[a].0 == e[b].0 by {
                        let c = choose|c: int| 0 <= c < j && #[trigger] entries_of(rest@)[a].0 == e[c].0;
                        assert(entries_of(rest@)[a].0 == e[c].0);
                    }
                }
            }
            j = j + 1;
        }
        assert(e.subrange(0, e.len() as int) =~= e);
        self.versions = rest;
        assert(self@.installed_versions == old_view.installed_versions.remove(version@));
        assert(self@.versions == old_view.versions.remove(version@));
    }

    /// Sync the installed versions with those the plugin reports: exactly
    /// these are installed, each keeping its entry (or a default one).
    pub fn sync_versions(&mut self, versions: &Vec<String>)
        requires
            old(self).wf(),
        ensures
            final(self).same_frame(&*old(self)),
            final(self).wf(),
            final(self)@ == synced(old(self)@, names_of(versions@)),
    {
        let ghost m = self@;
        let ghost vs = names_of(versions@);
        let mut installed: Vec<String> = Vec::new();
        let mut entries: Vec<(String, ManifestVersion)> = Vec::new();
        let mut i: usize = 0;
        assert(names_of(installed@).to_set() =~= vs.subrange(0, 0).to_set());
        assert(assoc_map(entries_of(entries@)) =~= Map::new(
            |k: Seq<char>| vs.subrange(0, 0).contains(k),
            |k: Seq<char>| kept_entry(m, k),
        ));
        while i < versions.len()
            invariant
                i <= versions@.len(),
                m == self@,
                self.wf(),
                vs == names_of(versions@),
                names_of(installed@).to_set() == vs.subrange(0, i as int).to_set(),
                forall|a: int, b: int|
                    0 <= a < installed@.len() && 0 <= b < installed@.len() && a != b
                        ==> #[trigger] installed@[a]@ != #[trigger] installed@[b]@,
                keys_distinct(entries_of(entries@)),
                assoc_map(entries_of(entries@)) == Map::new(
                    |k: Seq<char>| vs.subrange(0, i as int).contains(k),
                    |k: Seq<char>| kept_entry(m, k),
                ),
            decreases versions@.len() - i,
        {
            let v = &versions[i];
            let ghost prefix = vs.subrange(0, i as int);
            let ghost next = vs.subrange(0, i + 1);
            assert(next =~= prefix.push(v@));
            proof {
                vstd::seq_lib::seq_to_set_is_finite(prefix);
                assert(next.to_set() =~= prefix.to_set().insert(v@)) by {
                    assert forall|x: Seq<char>| next.to_set().contains(x) <==> prefix.to_set().insert(v@).contains(x) by {
                        if next.contains(x) {
                            let j = choose|j: int| 0 <= j < next.len() && next[j] == x;
                            if j < prefix.len() {
                                assert(prefix[j] == x);
                            }
                        }
                        if prefix.contains(x) {
                            let j = choose|j: int| 0 <= j < prefix.len() && prefix[j] == x;
                            assert(next[j] == x);
                        }
                        if x == v@ {
                            assert(next[i as int] == x);
                        }
                    }
                }
            }
            if !names_contain(&installed, v) {
                let ghost before = installed@;
                installed.push(v.clone());
                proof {
                    assert(names_of(installed@) =~= names_of(before).push(v@));
                    assert(names_of(installed@).to_set() =~= names_of(before).to_set().insert(v@)) by {
                        let nb = names_of(before);
                        let ni = names_of(installed@);
                        assert forall|x: Seq<char>| ni.to_set().contains(x) <==> nb.to_set().insert(v@).contains(x) by {
                            if ni.contains(x) {
                                let j = choose|j: int| 0 <= j < ni.len() && ni[j] == x;
                                if j < nb.len() {
                                    assert(nb[j] == x);
                                }
                            }
                            if nb.contains(x) {
                                let j = choose|j: int| 0 <= j < nb.len() && nb[j] == x;
                                assert(ni[j] == x);
                            }
                            if x == v@ {
                                assert(ni[nb.len() as int] == x);
                            }
                        }
                    }
                    assert forall|a: int, b: int|
                        0 <= a < installed@.len() && 0 <= b < installed@.len() && a != b implies #[trigger] installed@[a]@
                        != #[trigger] installed@[b]@ by {
                        if a == before.len() {
                            assert(names_of(before)[b] == installed@[b]@);
                            assert(names_of(before).contains(installed@[b]@));
                        } else if b == before.len() {
                            assert(names_of(before)[a] == installed@[a]@);
                            assert(names_of(before).contains(installed@[a]@));
                        } else {
                            assert(installed@[a] == before[a] && installed@[b] == before[b]);
                        }
                    }
                }
                let value = match self.find_entry(v.as_str()) {
                    Some(j) => {
                        proof {
                            lemma_assoc_index(entries_of(self.versions@), j as int);
                        }
                        self.versions[j].1
                    },
                    None => ManifestVersion { no_clean: false, installed_at: 0, last_used_at: None },
                };
                proof {
                    let e = entries_of(entries@);
                    assert(!prefix.contains(v@)) by {
                        if prefix.contains(v@) {
                            assert(prefix.to_set().contains(v@));
                            assert(names_of(before).to_set().contains(v@));
                        }
                    }
                    assert(!assoc_map(e).dom().contains(v@));
                    lemma_assoc_push(e, v@, value);
                }
                let ghost ebefore = entries@;
                entries.push((v.clone(), value));
                assert(entries_of(entries@) =~= entries_of(ebefore).push((v@, value)));
                assert(assoc_map(entries_of(entries@)) =~= Map::new(
                    |k: Seq<char>| next.contains(k),
                    |k: Seq<char>| kept_entry(m, k),
                ));
            } else {
                proof {
                    assert(prefix.contains(v@)) by {
                        assert(names_of(installed@).to_set().contains(v@));
                        assert(prefix.to_set().contains(v@));
                    }
                    assert(assoc_map(entries_of(entries@)) =~= Map::new(
                        |k: Seq<char>| next.contains(k),
                        |k: Seq<char>| kept_entry(m, k),
                    ));
                    assert(names_of(installed@).to_set() =~= next.to_set());
                }
            }
            i = i + 1;
        }
        assert(vs.subrange(0, vs.len() as int) =~= vs);
        self.installed_versions = installed;
        self.versions = entries;
        assert(self@.installed_versions =~= synced(m, vs).installed_versions);
        assert(self@.versions =~= synced(m, vs).versions);
    }

    /// Record that a version was used at `at`.
    pub fn track_used_at_time(&mut self, version: &str, at: u128)
        requires
            old(self).wf(),
        ensures
            final(self).same_frame(&*old(self)),
            final(self).wf(),
            final(self)@ == used_at(old(self)@, version@, at),
    {
        let ghost e = entries_of(self.versions@);
        let value = match self.find_entry(version) {
            Some(i) => {
                proof {
                    lemma_assoc_index(e, i as int);
                }
                ManifestVersion { last_used_at: Some(at), ..self.versions[i].1 }
            },
            None => ManifestVersion { no_clean: false, installed_at: 0, last_used_at: Some(at) },
        };
        self.set_entry(version, value);
    }

    /// Record that a version was used now.
    pub fn track_used_at(&mut self, version: &str)
        requires
            old(self).wf(),
        ensures
            final(self).same_frame(&*old(self)),
            final(self).wf(),
            exists|at: u128| final(self)@ == #[trigger] used_at(old(self)@, version@, at),
    {
        let at = now_ms();
        self.track_used_at_time(version, at);
    }
}

fn now_ms() -> u128 {
    crate::helpers::now()
}

proof fn lemma_distinct_len(s: Seq<Seq<char>>)
    ensures
        s.len() == 0 <==> s.to_set().len() == 0,
{
    vstd::seq_lib::seq_to_set_is_finite(s);
    if s.len() > 0 {
        assert(s.to_set().contains(s[0]));
        if s.to_set().len() == 0 {
            s.to_set().lemma_len0_is_empty();
            assert(!Set::<Seq<char>>::empty().contains(s[0]));
        }
    } else {
        assert(s.to_set() =~= Set::empty());
    }
}

/// Removing a version that installing added gives back the installed
/// versions and the entries there were.
pub proof fn lemma_remove_undoes_insert(
    m: ManifestView,
    version: Seq<char>,
    default_version: Option<Seq<char>>,
    installed_at: u128,
    no_clean: bool,
)
    requires
        !m.installed_versions.contains(version),
        !m.versions.dom().contains(version),
    ensures
        removed(inserted(m, version, default_version, installed_at, no_clean), version).installed_versions == m.installed_versions,
        removed(inserted(m, version, default_version, installed_at, no_clean), version).versions == m.versions,
{
    assert(m.installed_versions.insert(version).remove(version) =~= m.installed_versions);
    assert(m.versions.insert(version, ManifestVersion { no_clean, installed_at, last_used_at: None }).remove(version) =~= m.versions);
}

/// Syncing twice with the same versions changes nothing more: the second
/// sync keeps what the first one kept.
pub proof fn lemma_sync_idempotent(m: ManifestView, versions: Seq<Seq<char>>)
    ensures
        synced(synced(m, versions), versions) == synced(m, versions),
{
    let once = synced(m, versions);
    assert(synced(once, versions).versions =~= once.versions);
}

/// After a sync, exactly the listed versions are installed and each has an
/// entry, the one it had before when it had one.
pub proof fn lemma_sync_keeps_entries(m: ManifestView, versions: Seq<Seq<char>>, v: Seq<char>)
    requires
        versions.contains(v),
    ensures
        synced(m, versions).installed_versions.contains(v),
        synced(m, versions).versions.dom().contains(v),
        m.versions.dom().contains(v) ==> synced(m, versions).versions[v] == m.versions[v],
{
}

} // verus!
