use vstd::prelude::*;
use crate::assoc::{assoc_map, keys_distinct, lemma_assoc_dom, lemma_assoc_index, lemma_assoc_push, lemma_assoc_update};
use crate::context::{ContextView, ToolContext, context_text};
use crate::paths::{PathView, ProtoPath};

verus! {

pub open spec fn strings_view(v: Seq<String>) -> Seq<Seq<char>> {
    v.map_values(|s: String| s@)
}

pub open spec fn pairs_view(v: Seq<(String, String)>) -> Set<(Seq<char>, Seq<char>)> {
    v.map_values(|p: (String, String)| (p.0@, p.1@)).to_set()
}

/// The abstract form of a shim entry.
pub struct ShimView {
    pub after_args: Seq<Seq<char>>,
    pub alt_exe: Option<bool>,
    pub before_args: Seq<Seq<char>>,
    pub context: Option<ContextView>,
    pub env_vars: Set<(Seq<char>, Seq<char>)>,
}

/// An entry of the shims registry: how the shim of an executable runs it.
pub struct Shim {
    pub after_args: Vec<String>,
    pub alt_exe: Option<bool>,
    pub before_args: Vec<String>,
    /// The tool that owns a secondary executable; `None` for the primary
    /// executable of the tool whose id is the executable's name.
    pub context: Option<ToolContext>,
    /// Environment variables, as distinct names with their values.
    pub env_vars: Vec<(String, String)>,
}

impl View for Shim {
    type V = ShimView;

    open spec fn view(&self) -> ShimView {
        ShimView {
            after_args: strings_view(self.after_args@),
            alt_exe: self.alt_exe,
            before_args: strings_view(self.before_args@),
            context: match self.context {
                Some(c) => Some(c@),
                None => None,
            },
            env_vars: pairs_view(self.env_vars@),
        }
    }
}

/// Whether two lists of strings are equal.
pub fn strings_eq(a: &Vec<String>, b: &Vec<String>) -> (r: bool)
    ensures
        r == (strings_view(a@) == strings_view(b@)),
{
    if a.len() != b.len() {
        assert(strings_view(a@).len() != strings_view(b@).len());
        return false;
    }
    let mut i: usize = 0;
    while i < a.len()
        invariant
            a@.len() == b@.len(),
            i <= a@.len(),
            forall|j: int| 0 <= j < i ==> a@[j]@ == b@[j]@,
        decreases a@.len() - i,
    {
        if a[i] != b[i] {
            assert(strings_view(a@)[i as int] != strings_view(b@)[i as int]);
            return false;
        }
        i = i + 1;
    }
    assert(strings_view(a@) =~= strings_view(b@));
    true
}

/// A copy of a list of strings.
pub fn strings_clone(a: &Vec<String>) -> (r: Vec<String>)
    ensures
        strings_view(r@) == strings_view(a@),
{
    let mut r: Vec<String> = Vec::new();
    let mut i: usize = 0;
    while i < a.len()
        invariant
            i <= a@.len(),
            r@.len() == i,
            forall|j: int| 0 <= j < i ==> r@[j]@ == a@[j]@,
        decreases a@.len() - i,
    {
        r.push(a[i].clone());
        i = i + 1;
    }
    assert(strings_view(r@) =~= strings_view(a@));
    r
}

/// Whether every pair of `a` occurs in `b`.
fn pairs_within(a: &Vec<(String, String)>, b: &Vec<(String, String)>) -> (r: bool)
    ensures
        r == pairs_view(a@).subset_of(pairs_view(b@)),
{
    let ghost sa = a@.map_values(|p: (String, String)| (p.0@, p.1@));
    let ghost sb = b@.map_values(|p: (String, String)| (p.0@, p.1@));
    let mut i: usize = 0;
    while i < a.len()
        invariant
            i <= a@.len(),
            sa == a@.map_values(|p: (String, String)| (p.0@, p.1@)),
            sb == b@.map_values(|p: (String, String)| (p.0@, p.1@)),
            forall|x: int| 0 <= x < i ==> sb.contains(#[trigger] sa[x]),
        decreases a@.len() - i,
    {
        let mut found = false;
        let mut j: usize = 0;
        while j < b.len()
            invariant
                i < a@.len(),
                j <= b@.len(),
                sa == a@.map_values(|p: (String, String)| (p.0@, p.1@)),
                sb == b@.map_values(|p: (String, String)| (p.0@, p.1@)),
                found ==> sb.contains(sa[i as int]),
                !found ==> forall|y: int| 0 <= y < j ==> sb[y] != sa[i as int],
            decreases b@.len() - j,
        {
            if a[i].0 == b[j].0 && a[i].1 == b[j].1 {
                assert(sb[j as int] == sa[i as int]);
                found = true;
            }
            j = j + 1;
        }
        if !found {
            proof {
                assert(pairs_view(a@).contains(sa[i as int]));
                if pairs_view(b@).contains(sa[i as int]) {
                    let y = choose|y: int| 0 <= y < sb.len() && sb[y] == sa[i as int];
                    assert(sb[y] != sa[i as int]);
                }
            }
            return false;
        }
        i = i + 1;
    }
    proof {
        assert forall|x: (Seq<char>, Seq<char>)| pairs_view(a@).contains(x) implies pairs_view(b@).contains(x) by {
            let k = choose|k: int| 0 <= k < sa.len() && sa[k] == x;
            assert(sb.contains(sa[k]));
        }
    }
    true
}

/// A copy of a list of pairs of strings.
pub fn pairs_clone(a: &Vec<(String, String)>) -> (r: Vec<(String, String)>)
    ensures
        r@.map_values(|p: (String, String)| (p.0@, p.1@)) == a@.map_values(
            |p: (String, String)| (p.0@, p.1@),
        ),
{
    let mut r: Vec<(String, String)> = Vec::new();
    let mut i: usize = 0;
    while i < a.len()
        invariant
            i <= a@.len(),
            r@.len() == i,
            forall|j: int| 0 <= j < i ==> r@[j].0@ == a@[j].0@ && r@[j].1@ == a@[j].1@,
        decreases a@.len() - i,
    {
        r.push((a[i].0.clone(), a[i].1.clone()));
        i = i + 1;
    }
    assert(r@.map_values(|p: (String, String)| (p.0@, p.1@)) =~= a@.map_values(
        |p: (String, String)| (p.0@, p.1@),
    ));
    r
}

impl Shim {
    /// The entry of a tool's primary executable, with no arguments or
    /// variables.
    pub fn primary() -> (r: Shim)
        ensures
            r@ == (ShimView {
                after_args: seq![],
                alt_exe: None,
                before_args: seq![],
                context: None,
                env_vars: Set::empty(),
            }),
    {
        let r = Shim {
            after_args: Vec::new(),
            alt_exe: None,
            before_args: Vec::new(),
            context: None,
            env_vars: Vec::new(),
        };
        assert(r@.after_args =~= seq![]);
        assert(r@.before_args =~= seq![]);
        assert(r@.env_vars =~= Set::empty());
        r
    }

    /// The entry of a secondary executable owned by the provided tool.
    pub fn secondary(context: ToolContext) -> (r: Shim)
        ensures
            r@ == (ShimView {
                after_args: seq![],
                alt_exe: None,
                before_args: seq![],
                context: Some(context@),
                env_vars: Set::empty(),
            }),
    {
        let mut r = Shim::primary();
        r.context = Some(context);
        r
    }

    /// A copy of the entry.
    pub fn copy(&self) -> (r: Shim)
        ensures
            r@ == self@,
    {
        Shim {
            after_args: strings_clone(&self.after_args),
            alt_exe: self.alt_exe,
            before_args: strings_clone(&self.before_args),
            context: match &self.context {
                Some(c) => Some(c.copy()),
                None => None,
            },
            env_vars: pairs_clone(&self.env_vars),
        }
    }

    /// Whether two entries are equal.
    pub fn equals(&self, other: &Shim) -> (r: bool)
        ensures
            r == (self@ == other@),
    {
        let ctx_eq = match (&self.context, &other.context) {
            (Some(a), Some(b)) => a.equals(b),
            (None, None) => true,
            _ => false,
        };
        let r = strings_eq(&self.after_args, &other.after_args) && self.alt_exe == other.alt_exe
            && strings_eq(&self.before_args, &other.before_args) && ctx_eq && pairs_within(
            &self.env_vars,
            &other.env_vars,
        ) && pairs_within(&other.env_vars, &self.env_vars);
        proof {
            if r {
                assert(self@.env_vars =~= other@.env_vars);
            }
            if self@ == other@ {
                assert(self@.env_vars.subset_of(other@.env_vars));
            }
        }
        r
    }
}

/// The abstract form of a conflict.
pub enum ShimConflictView {
    Ignored { owner: Seq<char>, provider: Seq<char> },
    Reclaimed { provider: Seq<char> },
}

/// A cross-tool conflict detected while updating the shims registry. An
/// entry's owner is the tool referenced by its `context`, or, when it has
/// none, the primary tool whose id matches the executable name.
pub enum ShimConflict {
    /// The incoming executable loses to the tool that already owns the
    /// name, and is ignored.
    Ignored { owner: String, provider: String },
    /// A primary tool reclaims its own name from a prior secondary provider.
    Reclaimed { provider: String },
}

impl View for ShimConflict {
    type V = ShimConflictView;

    open spec fn view(&self) -> ShimConflictView {
        match self {
            ShimConflict::Ignored { owner, provider } => ShimConflictView::Ignored {
                owner: owner@,
                provider: provider@,
            },
            ShimConflict::Reclaimed { provider } => ShimConflictView::Reclaimed {
                provider: provider@,
            },
        }
    }
}

/// The conflict between an incoming entry and the existing one for the
/// executable `name`, under "the primary tool owns its name" precedence.
pub open spec fn conflict_of(name: Seq<char>, incoming: ShimView, existing: ShimView) -> Option<
    ShimConflictView,
> {
    match (incoming.context, existing.context) {
        (Some(provider), None) => Some(
            ShimConflictView::Ignored { owner: name, provider: context_text(provider) },
        ),
        (Some(provider), Some(owner)) => if provider != owner {
            Some(
                ShimConflictView::Ignored {
                    owner: context_text(owner),
                    provider: context_text(provider),
                },
            )
        } else {
            None
        },
        (None, Some(provider)) => Some(ShimConflictView::Reclaimed { provider: context_text(provider) }),
        (None, None) => None,
    }
}

/// Determine whether an incoming shim entry conflicts with the existing
/// one. Returns `None` when both entries resolve to the same owner.
pub fn detect_shim_conflict(name: &str, incoming: &Shim, existing: &Shim) -> (r: Option<
    ShimConflict,
>)
    ensures
        match r {
            Some(c) => conflict_of(name@, incoming@, existing@) == Some(c@),
            None => conflict_of(name@, incoming@, existing@) is None,
        },
{
    match (&incoming.context, &existing.context) {
        (Some(provider), None) => Some(
            ShimConflict::Ignored { owner: name.to_owned(), provider: provider.as_text() },
        ),
        (Some(provider), Some(owner)) => {
            if !provider.equals(owner) {
                Some(ShimConflict::Ignored { owner: owner.as_text(), provider: provider.as_text() })
            } else {
                None
            }
        },
        (None, Some(provider)) => Some(ShimConflict::Reclaimed { provider: provider.as_text() }),
        (None, None) => None,
    }
}

/// The registry after applying one entry, and whether it changed: an equal
/// entry and an ignored conflict leave it as it is.
pub open spec fn apply_update(m: Map<Seq<char>, ShimView>, key: Seq<char>, value: ShimView) -> (
    Map<Seq<char>, ShimView>,
    bool,
) {
    if m.dom().contains(key) {
        if m[key] == value {
            (m, false)
        } else if conflict_of(key, value, m[key]) matches Some(ShimConflictView::Ignored { .. }) {
            (m, false)
        } else {
            (m.insert(key, value), true)
        }
    } else {
        (m.insert(key, value), true)
    }
}

pub open spec fn shim_entries_view(v: Seq<(String, Shim)>) -> Seq<(Seq<char>, ShimView)> {
    v.map_values(|e: (String, Shim)| (e.0@, e.1@))
}

/// Shim entries keyed by executable name.
pub struct ShimsMap {
    entries: Vec<(String, Shim)>,
}

impl ShimsMap {
    /// No name occurs twice.
    pub closed spec fn wf(&self) -> bool {
        keys_distinct(shim_entries_view(self.entries@))
    }

    /// The entries, by name.
    pub closed spec fn map(&self) -> Map<Seq<char>, ShimView> {
        assoc_map(shim_entries_view(self.entries@))
    }

    /// The entries in the order they are held.
    pub closed spec fn entries_view(&self) -> Seq<(Seq<char>, ShimView)> {
        shim_entries_view(self.entries@)
    }

    pub proof fn lemma_entries(&self)
        requires
            self.wf(),
        ensures
            keys_distinct(self.entries_view()),
            assoc_map(self.entries_view()) == self.map(),
    {
    }

    /// An empty map.
    pub fn new() -> (r: ShimsMap)
        ensures
            r.wf(),
            r.map() == Map::<Seq<char>, ShimView>::empty(),
            r.entries_view().len() == 0,
    {
        let r = ShimsMap { entries: Vec::new() };
        assert(shim_entries_view(r.entries@) =~= Seq::<(Seq<char>, ShimView)>::empty());
        r
    }

    /// The number of entries.
    pub fn len(&self) -> (r: usize)
        requires
            self.wf(),
        ensures
            r == self.map().dom().len(),
            r == self.entries_view().len(),
    {
        proof {
            self.lemma_len();
        }
        self.entries.len()
    }

    proof fn lemma_len(&self)
        requires
            self.wf(),
        ensures
            self.map().dom().len() == self.entries@.len(),
            self.map().dom().finite(),
        decreases self.entries@.len(),
    {
        let e = shim_entries_view(self.entries@);
        lemma_assoc_len(e);
    }

    /// Whether the map is empty.
    pub fn is_empty(&self) -> (r: bool)
        requires
            self.wf(),
        ensures
            r == (self.map().dom().len() == 0),
    {
        self.len() == 0
    }

    /// The position of the entry for `key`.
    fn find(&self, key: &str) -> (r: Option<usize>)
        requires
            self.wf(),
        ensures
            match r {
                Some(i) => i < self.entries@.len() && self.entries@[i as int].0@ == key@,
                None => !self.map().dom().contains(key@),
            },
    {
        let ghost e = shim_entries_view(self.entries@);
        let mut i: usize = 0;
        while i < self.entries.len()
            invariant
                i <= self.entries@.len(),
                e == shim_entries_view(self.entries@),
                forall|j: int| 0 <= j < i ==> e[j].0 != key@,
            decreases self.entries@.len() - i,
        {
            if crate::text::str_eq(self.entries[i].0.as_str(), key) {
                return Some(i);
            }
            i = i + 1;
        }
        proof {
            lemma_assoc_dom(e, key@);
        }
        None
    }

    /// The entry for `key`.
    pub fn get(&self, key: &str) -> (r: Option<&Shim>)
        requires
            self.wf(),
        ensures
            match r {
                Some(s) => self.map().dom().contains(key@) && self.map()[key@] == s@,
                None => !self.map().dom().contains(key@),
            },
    {
        match self.find(key) {
            Some(i) => {
                proof {
                    lemma_assoc_index(shim_entries_view(self.entries@), i as int);
                }
                Some(&self.entries[i].1)
            },
            None => None,
        }
    }

    /// Set the entry for `key`.
    pub fn insert(&mut self, key: String, value: Shim)
        requires
            old(self).wf(),
        ensures
            final(self).wf(),
            final(self).map() == old(self).map().insert(key@, value@),
    {
        let ghost k = key@;
        let ghost v = value@;
        match self.find(key.as_str()) {
            Some(i) => {
                proof {
                    lemma_assoc_update(shim_entries_view(self.entries@), i as int, v);
                }
                let ghost old_e = shim_entries_view(self.entries@);
                self.entries.set(i, (key, value));
                assert(shim_entries_view(self.entries@) =~= old_e.update(i as int, (old_e[i as int].0, v)));
            },
            None => {
                proof {
                    lemma_assoc_push(shim_entries_view(self.entries@), k, v);
                }
                let ghost old_e = shim_entries_view(self.entries@);
                self.entries.push((key, value));
                assert(shim_entries_view(self.entries@) =~= old_e.push((k, v)));
            },
        }
    }

    /// Remove every entry.
    pub fn clear(&mut self)
        ensures
            final(self).wf(),
            final(self).map() == Map::<Seq<char>, ShimView>::empty(),
    {
        self.entries.clear();
        assert(shim_entries_view(self.entries@) =~= Seq::<(Seq<char>, ShimView)>::empty());
    }

    /// The name and entry at a position, in the order they are held.
    pub fn entry_at(&self, i: usize) -> (r: (&String, &Shim))
        requires
            self.wf(),
            i < self.entries_view().len(),
        ensures
            (r.0@, r.1@) == self.entries_view()[i as int],
    {
        (&self.entries[i].0, &self.entries[i].1)
    }
}

proof fn lemma_assoc_len<V>(e: Seq<(Seq<char>, V)>)
    requires
        keys_distinct(e),
    ensures
        assoc_map(e).dom().len() == e.len(),
        assoc_map(e).dom().finite(),
    decreases e.len(),
{
    if e.len() > 0 {
        let init = e.drop_last();
        assert(keys_distinct(init)) by {
            assert forall|a: int, b: int|
                0 <= a < init.len() && 0 <= b < init.len() && a != b implies #[trigger] init[a].0
                    != #[trigger] init[b].0 by {
                assert(init[a] == e[a] && init[b] == e[b]);
            }
        }
        lemma_assoc_len(init);
        lemma_assoc_dom(init, e.last().0);
        if assoc_map(init).dom().contains(e.last().0) {
            let i = choose|i: int| 0 <= i < init.len() && #[trigger] init[i].0 == e.last().0;
            assert(e[i].0 == e[e.len() - 1].0);
        }
    } else {
        assert(assoc_map(e).dom() =~= Set::empty());
    }
}

/// Apply a single shim entry to the map, enforcing "the primary tool owns
/// its name" precedence so that the outcome doesn't depend on install
/// order. Returns true if the map was modified.
pub fn apply_shim_update(shims: &mut ShimsMap, key: &str, value: &Shim) -> (r: bool)
    requires
        old(shims).wf(),
    ensures
        final(shims).wf(),
        (final(shims).map(), r) == apply_update(old(shims).map(), key@, value@),
{
    match shims.get(key) {
        Some(current) => {
            if current.equals(value) {
                return false;
            }
            match detect_shim_conflict(key, value, current) {
                Some(ShimConflict::Ignored { .. }) => {
                    return false;
                },
                _ => {},
            }
        },
        None => {},
    }
    shims.insert(key.to_owned(), value.copy());
    true
}

/// The registry after applying each of the entries in turn, and whether
/// any application changed it.
pub open spec fn apply_all(
    m: Map<Seq<char>, ShimView>,
    updates: Seq<(Seq<char>, ShimView)>,
) -> (Map<Seq<char>, ShimView>, bool)
    decreases updates.len(),
{
    if updates.len() == 0 {
        (m, false)
    } else {
        let (m1, d1) = apply_all(m, updates.drop_last());
        let (m2, d2) = apply_update(m1, updates.last().0, updates.last().1);
        (m2, d1 || d2)
    }
}

/// The shims registry: entries loaded from `registry.json`, and the
/// updates made since.
pub struct ShimRegistry {
    shims: ShimsMap,
    changed: ShimsMap,
    path: ProtoPath,
}

impl ShimRegistry {
    pub closed spec fn wf(&self) -> bool {
        self.shims.wf() && self.changed.wf()
    }

    /// The entries as last loaded or saved.
    pub closed spec fn shims_map(&self) -> Map<Seq<char>, ShimView> {
        self.shims.map()
    }

    /// Where the registry file lives.
    pub closed spec fn path_view(&self) -> PathView {
        self.path@
    }

    /// The entries as last loaded or saved.
    pub fn shims(&self) -> (r: &ShimsMap)
        ensures
            r.map() == self.shims_map(),
            self.wf() ==> r.wf(),
    {
        &self.shims
    }

    /// Where the registry file lives.
    pub fn path(&self) -> (r: &ProtoPath)
        ensures
            r@ == self.path_view(),
    {
        &self.path
    }

    /// The updates made since the registry was loaded or saved.
    pub closed spec fn changed_map(&self) -> Map<Seq<char>, ShimView> {
        self.changed.map()
    }

    pub closed spec fn changed_entries(&self) -> Seq<(Seq<char>, ShimView)> {
        self.changed.entries_view()
    }

    /// A registry holding the entries read from the file at `path`.
    pub fn load(shims: ShimsMap, path: ProtoPath) -> (r: ShimRegistry)
        requires
            shims.wf(),
        ensures
            r.wf(),
            r.shims_map() == shims.map(),
            r.changed_map() == Map::<Seq<char>, ShimView>::empty(),
            r.path_view() == path@,
    {
        ShimRegistry { shims, changed: ShimsMap::new(), path }
    }

    /// The entry for `key`: the latest update, else the loaded entry.
    pub fn get(&self, key: &str) -> (r: Option<&Shim>)
        requires
            self.wf(),
        ensures
            match r {
                Some(s) => if self.changed_map().dom().contains(key@) {
                    self.changed_map()[key@] == s@
                } else {
                    self.shims_map().dom().contains(key@) && self.shims_map()[key@] == s@
                },
                None => !self.changed_map().dom().contains(key@) && !self.shims_map().dom().contains(key@),
            },
    {
        match self.changed.get(key) {
            Some(s) => Some(s),
            None => self.shims.get(key),
        }
    }

    /// Apply an entry, and remember it when it changed the registry.
    pub fn update(&mut self, key: String, value: Shim)
        requires
            old(self).wf(),
        ensures
            final(self).wf(),
            final(self).path_view() == old(self).path_view(),
            final(self).shims_map() == apply_update(old(self).shims_map(), key@, value@).0,
            final(self).changed_map() == if apply_update(old(self).shims_map(), key@, value@).1 {
                old(self).changed_map().insert(key@, value@)
            } else {
                old(self).changed_map()
            },
    {
        if apply_shim_update(&mut self.shims, key.as_str(), &value) {
            self.changed.insert(key, value);
        }
    }

    /// Whether there are updates to save.
    pub fn has_changes(&self) -> (r: bool)
        requires
            self.wf(),
        ensures
            r == (self.changed_map().dom().len() > 0),
    {
        !self.changed.is_empty()
    }

    /// Merge the updates into a fresh read of the registry file, so that a
    /// stale snapshot can't erase entries written by another install since
    /// the registry was loaded. Returns the merged entries, and whether they
    /// differ from the fresh read (the file must then be written).
    pub fn merge_changes(&self, fresh: ShimsMap) -> (r: (ShimsMap, bool))
        requires
            self.wf(),
            fresh.wf(),
        ensures
            r.0.wf(),
            (r.0.map(), r.1) == apply_all(fresh.map(), self.changed_entries()),
    {
        let mut merged = fresh;
        let mut dirty = false;
        let ghost start = merged.map();
        let ghost updates = self.changed.entries_view();
        let mut i: usize = 0;
        while i < self.changed.len()
            invariant
                self.wf(),
                merged.wf(),
                updates == self.changed.entries_view(),
                i <= updates.len(),
                (merged.map(), dirty) == apply_all(start, updates.subrange(0, i as int)),
            decreases updates.len() - i,
        {
            let (k, v) = self.changed.entry_at(i);
            let d = apply_shim_update(&mut merged, k.as_str(), v);
            proof {
                assert(updates.subrange(0, i + 1).drop_last() =~= updates.subrange(0, i as int));
                assert(updates.subrange(0, i + 1).last() == updates[i as int]);
            }
            dirty = dirty || d;
            i = i + 1;
        }
        assert(updates.subrange(0, updates.len() as int) =~= updates);
        (merged, dirty)
    }

    /// Record that the merged entries were saved: they become the loaded
    /// entries, and no updates remain.
    pub fn finish_save(&mut self, merged: ShimsMap)
        requires
            old(self).wf(),
            merged.wf(),
        ensures
            final(self).wf(),
            final(self).path_view() == old(self).path_view(),
            final(self).shims_map() == merged.map(),
            final(self).changed_map() == Map::<Seq<char>, ShimView>::empty(),
    {
        self.shims = merged;
        self.changed.clear();
    }
}


/// A tool's primary executable always takes its own name: after applying a
/// primary entry, the registry holds exactly that entry for the name.
pub proof fn lemma_primary_takes_its_name(m: Map<Seq<char>, ShimView>, key: Seq<char>, primary: ShimView)
    requires
        primary.context is None,
    ensures
        apply_update(m, key, primary).0 == m.insert(key, primary),
{
    if m.dom().contains(key) && m[key] == primary {
        assert(m.insert(key, primary) =~= m);
    }
}

/// A secondary executable never displaces the primary tool of the same
/// name: the registry is left as it was, and reported unchanged.
pub proof fn lemma_secondary_never_displaces_primary(
    m: Map<Seq<char>, ShimView>,
    key: Seq<char>,
    secondary: ShimView,
)
    requires
        secondary.context is Some,
        m.dom().contains(key),
        m[key].context is None,
    ensures
        apply_update(m, key, secondary) == (m, false),
{
}

/// Between two tools providing the same secondary executable, the first one
/// keeps it.
pub proof fn lemma_first_secondary_wins(m: Map<Seq<char>, ShimView>, key: Seq<char>, later: ShimView)
    requires
        m.dom().contains(key),
        m[key].context is Some,
        later.context is Some,
        later.context != m[key].context,
    ensures
        apply_update(m, key, later) == (m, false),
{
}

/// Applying the same entry twice changes nothing the second time.
pub proof fn lemma_update_idempotent(m: Map<Seq<char>, ShimView>, key: Seq<char>, value: ShimView)
    ensures
        apply_update(apply_update(m, key, value).0, key, value) == (apply_update(m, key, value).0, false),
{
}

/// The outcome doesn't depend on install order: whether a tool's primary
/// executable or another tool's secondary executable of the same name is
/// applied first, the registry ends holding the primary entry, and nothing
/// else changes.
pub proof fn lemma_primary_secondary_order_independent(
    m: Map<Seq<char>, ShimView>,
    key: Seq<char>,
    primary: ShimView,
    secondary: ShimView,
)
    requires
        primary.context is None,
        secondary.context is Some,
    ensures
        apply_update(apply_update(m, key, primary).0, key, secondary).0 == m.insert(key, primary),
        apply_update(apply_update(m, key, secondary).0, key, primary).0 == m.insert(key, primary),
{
    lemma_primary_takes_its_name(m, key, primary);
    lemma_secondary_never_displaces_primary(m.insert(key, primary), key, secondary);
    let m1 = apply_update(m, key, secondary).0;
    lemma_primary_takes_its_name(m1, key, primary);
    assert(m1.insert(key, primary) =~= m.insert(key, primary));
}

/// Applying a run of updates leaves every name that none of them mentions
/// as it was.
pub proof fn lemma_apply_all_keeps_other_names(
    m: Map<Seq<char>, ShimView>,
    updates: Seq<(Seq<char>, ShimView)>,
    key: Seq<char>,
)
    requires
        forall|i: int| 0 <= i < updates.len() ==> #[trigger] updates[i].0 != key,
    ensures
        apply_all(m, updates).0.dom().contains(key) == m.dom().contains(key),
        m.dom().contains(key) ==> apply_all(m, updates).0[key] == m[key],
    decreases updates.len(),
{
    if updates.len() > 0 {
        let init = updates.drop_last();
        assert forall|i: int| 0 <= i < init.len() implies #[trigger] init[i].0 != key by {
            assert(init[i] == updates[i]);
        }
        lemma_apply_all_keeps_other_names(m, init, key);
        assert(updates[updates.len() - 1].0 != key);
    }
}

impl ShimRegistry {
    /// Saving never erases what another install wrote since this registry
    /// was loaded: in the merge of the updates into a fresh read of the
    /// file, every name that was not updated here keeps its fresh entry.
    pub proof fn lemma_merge_keeps_other_installs(&self, fresh: Map<Seq<char>, ShimView>, key: Seq<char>)
        requires
            self.wf(),
            !self.changed_map().dom().contains(key),
        ensures
            apply_all(fresh, self.changed_entries()).0.dom().contains(key) == fresh.dom().contains(key),
            fresh.dom().contains(key) ==> apply_all(fresh, self.changed_entries()).0[key] == fresh[key],
    {
        let e = self.changed.entries_view();
        lemma_assoc_dom(e, key);
        assert forall|i: int| 0 <= i < e.len() implies #[trigger] e[i].0 != key by {
            if e[i].0 == key {
                assert(self.changed.map().dom().contains(key));
            }
        }
        lemma_apply_all_keeps_other_names(fresh, e, key);
    }
}

} // verus!
