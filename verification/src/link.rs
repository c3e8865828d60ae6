use vstd::prelude::*;
use crate::bins::{VersionKey, VersionKeyView};
use crate::context::{ContextView, ToolContext};
use crate::locate::{
    ArgsSpec, ArgsSpecView, ExecutableConfigView, ExecutableLocation, LocationView, copy_pairs,
    encode_component, encoded_component, locations_view, normalize_separators, native_separators,
    pairs_text, paths_view, texts,
};
use crate::paths::{PathView, ProtoPath, join_path};
use crate::shims::{Shim, ShimRegistry, ShimView, pairs_view, strings_view};
use crate::text::{chars_of, push_str};

verus! {

#[verifier::external_type_specification]
#[verifier::external_body]
pub struct ExShellParseError(shell_words::ParseError);

/// The words of a shell command line, or `None` when its quoting is
/// unbalanced.
pub uninterp spec fn shell_words_of(s: Seq<char>) -> Option<Seq<Seq<char>>>;

/// `shell_words::split`: the words of a command line under POSIX shell
/// quoting rules, or an error for a missing closing quote. The result is
/// claimed to be a function of the text alone.
#[verifier::external_body]
fn shell_split(s: &str) -> (r: Result<Vec<String>, shell_words::ParseError>)
    ensures
        match r {
            Ok(v) => shell_words_of(s@) == Some(texts(v@)),
            Err(_) => shell_words_of(s@) is None,
        },
{
    shell_words::split(s)
}

/// The version of the shims that this proto creates.
pub open spec fn current_shim_version() -> u8 {
    20
}

/// `proto_shim::SHIM_VERSION`, which its source defines as 20.
#[verifier::external_body]
pub(crate) fn shim_version() -> (r: u8)
    ensures
        r == current_shim_version(),
{
    proto_shim::SHIM_VERSION
}

/// Why linking failed.
#[derive(Debug)]
pub enum ProtoLinkError {
    /// Shim arguments given as text could not be split into words.
    FailedArgsParse { args: String },
}

/// The arguments that a shim passes, or the text that could not be split.
pub open spec fn shim_args(a: Option<ArgsSpecView>) -> Result<Seq<Seq<char>>, Seq<char>> {
    match a {
        None => Ok(seq![]),
        Some(ArgsSpecView::List(v)) => Ok(v),
        Some(ArgsSpecView::Text(t)) => match shell_words_of(t) {
            Some(v) => Ok(v),
            None => Err(t),
        },
    }
}

/// The tool that a shim entry names as its owner: a secondary executable,
/// or one whose name is not the tool's id, names the tool; so does every
/// executable of a tool that requires a backend.
pub open spec fn shim_owner(name: Seq<char>, config: ExecutableConfigView, context: ContextView) -> Option<ContextView> {
    if !config.primary || name != context.id || context.backend is Some {
        Some(context)
    } else {
        None
    }
}

/// The registry entry of a shim, or the text of arguments that could not be
/// split.
pub open spec fn shim_entry_of(name: Seq<char>, config: ExecutableConfigView, context: ContextView) -> Result<ShimView, Seq<char>> {
    match shim_args(config.shim_before_args) {
        Err(t) => Err(t),
        Ok(before) => match shim_args(config.shim_after_args) {
            Err(t) => Err(t),
            Ok(after) => Ok(
                ShimView {
                    after_args: after,
                    alt_exe: if (!config.primary || name != context.id) && config.exe_path is Some {
                        Some(true)
                    } else {
                        None
                    },
                    before_args: before,
                    context: shim_owner(name, config, context),
                    env_vars: match config.shim_env_vars {
                        Some(v) => v.to_set(),
                        None => Set::empty(),
                    },
                },
            ),
        },
    }
}

fn args_of(a: &Option<ArgsSpec>) -> (r: Result<Vec<String>, String>)
    ensures
        match (r, shim_args(crate::locate::opt_args(*a))) {
            (Ok(v), Ok(w)) => strings_view(v@) == w,
            (Err(t), Err(u)) => t@ == u,
            _ => false,
        },
{
    match a {
        None => {
            let v: Vec<String> = Vec::new();
            assert(strings_view(v@) =~= Seq::<Seq<char>>::empty());
            Ok(v)
        },
        Some(ArgsSpec::List(v)) => {
            let c = crate::shims::strings_clone(v);
            assert(strings_view(v@) =~= texts(v@));
            Ok(c)
        },
        Some(ArgsSpec::Text(t)) => match shell_split(t.as_str()) {
            Ok(v) => {
                assert(strings_view(v@) =~= texts(v@));
                Ok(v)
            },
            Err(_) => Err(t.clone()),
        },
    }
}

/// The registry entry of a shim for an executable of the tool.
pub fn shim_entry_for(name: &String, config: &crate::locate::ExecutableConfig, context: &ToolContext) -> (r: Result<Shim, ProtoLinkError>)
    ensures
        match (r, shim_entry_of(name@, config@, context@)) {
            (Ok(s), Ok(v)) => s@ == v,
            (Err(ProtoLinkError::FailedArgsParse { args }), Err(t)) => args@ == t,
            _ => false,
        },
{
    let before = match args_of(&config.shim_before_args) {
        Ok(v) => v,
        Err(t) => {
            return Err(ProtoLinkError::FailedArgsParse { args: t });
        },
    };
    let after = match args_of(&config.shim_after_args) {
        Ok(v) => v,
        Err(t) => {
            return Err(ProtoLinkError::FailedArgsParse { args: t });
        },
    };
    let mut entry = Shim::primary();
    entry.before_args = before;
    entry.after_args = after;
    if let Some(vars) = &config.shim_env_vars {
        entry.env_vars = copy_pairs(vars);
        assert(pairs_view(entry.env_vars@) =~= pairs_text(vars@).to_set());
    }
    let secondary = !config.primary || !crate::text::str_eq(name.as_str(), context.id.as_str());
    if secondary {
        entry.context = Some(context.copy());
        if config.exe_path.is_some() {
            entry.alt_exe = Some(true);
        }
    }
    if context.backend.is_some() && entry.context.is_none() {
        entry.context = Some(context.copy());
    }
    Ok(entry)
}

/// The abstract state of a shims registry: the entries as loaded, and the
/// updates made since.
pub struct RegistryState {
    pub shims: Map<Seq<char>, ShimView>,
    pub changed: Map<Seq<char>, ShimView>,
}

/// The registry after an update.
pub open spec fn registry_update(st: RegistryState, key: Seq<char>, value: ShimView) -> RegistryState {
    let (m, changed) = crate::shims::apply_update(st.shims, key, value);
    RegistryState {
        shims: m,
        changed: if changed {
            st.changed.insert(key, value)
        } else {
            st.changed
        },
    }
}

/// The entry the registry holds for a name.
pub open spec fn registry_get(st: RegistryState, key: Seq<char>) -> Option<ShimView> {
    if st.changed.dom().contains(key) {
        Some(st.changed[key])
    } else if st.shims.dom().contains(key) {
        Some(st.shims[key])
    } else {
        None
    }
}

/// Linking the shims of a tool, one after another: each shim's entry is
/// recorded in the registry, and its file is to be created when creation is
/// forced or it does not exist. Stops at the first shim whose arguments
/// cannot be split.
pub open spec fn link_shims_fold(
    locs: Seq<LocationView>,
    exists: Seq<bool>,
    force_create: bool,
    context: ContextView,
    st: RegistryState,
) -> (Result<Seq<PathView>, Seq<char>>, RegistryState)
    decreases locs.len(),
{
    if locs.len() == 0 {
        (Ok(seq![]), st)
    } else {
        let (r, st1) = link_shims_fold(locs.drop_last(), exists, force_create, context, st);
        let i = locs.len() - 1;
        match r {
            Err(t) => (Err(t), st1),
            Ok(paths) => match shim_entry_of(locs[i].name, locs[i].config, context) {
                Err(t) => (Err(t), st1),
                Ok(e) => (
                    Ok(
                        if force_create || !(i < exists.len() && exists[i]) {
                            paths.push(locs[i].path)
                        } else {
                            paths
                        },
                    ),
                    registry_update(st1, locs[i].name, e),
                ),
            },
        }
    }
}

pub open spec fn state_of(reg: &ShimRegistry) -> RegistryState {
    RegistryState { shims: reg.shims_map(), changed: reg.changed_map() }
}

/// Record the shims of a tool in the registry and settle which shim files
/// to create: all of them when creation is forced or the manifest's shims
/// are of an older version, else those that do not exist (`exists`, by
/// position). Returns the shim files to create.
pub fn link_shims(
    registry: &mut ShimRegistry,
    shims: &Vec<ExecutableLocation>,
    exists: &Vec<bool>,
    force: bool,
    manifest_shim_version: u8,
    context: &ToolContext,
) -> (r: Result<Vec<ProtoPath>, ProtoLinkError>)
    requires
        old(registry).wf(),
    ensures
        final(registry).wf(),
        final(registry).path_view() == old(registry).path_view(),
        shims@.len() == 0 ==> (r matches Ok(v) && v@.len() == 0) && state_of(&*final(registry)) == state_of(&*old(registry)),
        shims@.len() > 0 ==> {
            let (want, st) = link_shims_fold(
                locations_view(shims@),
                exists@,
                force || manifest_shim_version != current_shim_version(),
                context@,
                state_of(&*old(registry)),
            );
            &&& state_of(&*final(registry)) == st
            &&& match (r, want) {
                (Ok(v), Ok(w)) => paths_view(v@) == w,
                (Err(ProtoLinkError::FailedArgsParse { args }), Err(t)) => args@ == t,
                _ => false,
            }
        },
{
    if shims.len() == 0 {
        return Ok(Vec::new());
    }
    let force_create = force || manifest_shim_version != shim_version();
    let ghost lv = locations_view(shims@);
    let ghost start = state_of(&*registry);
    let mut to_create: Vec<ProtoPath> = Vec::new();
    let mut i: usize = 0;
    assert(lv.subrange(0, 0) =~= Seq::<LocationView>::empty());
    assert(paths_view(to_create@) =~= Seq::<PathView>::empty());
    while i < shims.len()
        invariant
            i <= shims@.len(),
            lv == locations_view(shims@),
            registry.wf(),
            registry.path_view() == old(registry).path_view(),
            start == state_of(&*old(registry)),
            force_create == (force || manifest_shim_version != current_shim_version()),
            link_shims_fold(lv.subrange(0, i as int), exists@, force_create, context@, start) == (
                Ok::<Seq<PathView>, Seq<char>>(paths_view(to_create@)),
                state_of(&*registry),
            ),
        decreases shims@.len() - i,
    {
        assert(lv.subrange(0, i + 1).drop_last() =~= lv.subrange(0, i as int));
        assert(lv.subrange(0, i + 1)[i as int] == shims@[i as int]@);
        let shim = &shims[i];
        let entry = match shim_entry_for(&shim.name, &shim.config, context) {
            Ok(e) => e,
            Err(err) => {
                proof {
                    lemma_fold_err_stays(lv, exists@, force_create, context@, start, i as int + 1);
                }
                return Err(err);
            },
        };
        let missing = !(i < exists.len() && exists[i]);
        if force_create || missing {
            let ghost before = to_create@;
            to_create.push(shim.path.copy());
            assert(paths_view(to_create@) =~= paths_view(before).push(shim.path@));
        }
        registry.update(shim.name.clone(), entry);
        i = i + 1;
    }
    assert(lv.subrange(0, lv.len() as int) =~= lv);
    Ok(to_create)
}

proof fn lemma_fold_err_stays(
    lv: Seq<LocationView>,
    exists: Seq<bool>,
    force_create: bool,
    context: ContextView,
    st: RegistryState,
    k: int,
)
    requires
        1 <= k <= lv.len(),
        link_shims_fold(lv.subrange(0, k), exists, force_create, context, st).0 is Err,
    ensures
        link_shims_fold(lv, exists, force_create, context, st) == link_shims_fold(lv.subrange(0, k), exists, force_create, context, st),
    decreases lv.len() - k,
{
    if k < lv.len() {
        assert(lv.subrange(0, k + 1).drop_last() =~= lv.subrange(0, k));
        lemma_fold_err_stays(lv, exists, force_create, context, st, k + 1);
    } else {
        assert(lv.subrange(0, k) =~= lv);
    }
}

/// The abstract form of an inventory.
pub struct InventoryView {
    pub dir: PathView,
    pub version_suffix: Option<Seq<char>>,
}

/// Where a tool's versions are installed: one directory per version within
/// `dir`, named by the version (and a suffix the tool may ask for).
pub struct Inventory {
    pub dir: ProtoPath,
    pub version_suffix: Option<String>,
}

impl View for Inventory {
    type V = InventoryView;

    open spec fn view(&self) -> InventoryView {
        InventoryView {
            dir: self.dir@,
            version_suffix: match self.version_suffix {
                Some(s) => Some(s@),
                None => None,
            },
        }
    }
}

/// The directory a version is installed to.
pub open spec fn product_dir_of(inv: InventoryView, version: VersionKeyView) -> PathView {
    let name = match inv.version_suffix {
        Some(s) => version.text + s,
        None => version.text,
    };
    join_path(inv.dir, encoded_component(name))
}

impl Inventory {
    /// The directory a version is installed to.
    pub fn get_product_dir(&self, version: &VersionKey) -> (r: ProtoPath)
        ensures
            r@ == product_dir_of(self@, version@),
    {
        let mut name = version.text.clone();
        if let Some(suffix) = &self.version_suffix {
            push_str(&mut name, suffix.as_str());
        }
        let encoded = encode_component(name.as_str());
        self.dir.join_text(encoded.as_str())
    }
}

/// How long the cached list of a tool's remote versions is read: twelve
/// hours, in milliseconds.
pub open spec fn remote_versions_ttl() -> int {
    43_200_000int
}

/// Whether the cached list of remote versions is read without asking the
/// network: caching is on (and not disabled for this run) and the cache
/// was modified within the last twelve hours. (When it is not, the cache
/// is still read when offline.)
pub fn remote_versions_cache_fresh(disable_cache: bool, cache_enabled: bool, modified_ms: Option<u128>, now_ms: u128) -> (r: bool)
    ensures
        r == (!disable_cache && cache_enabled && match modified_ms {
            Some(t) => t + remote_versions_ttl() > now_ms,
            None => false,
        }),
{
    if disable_cache || !cache_enabled {
        return false;
    }
    match modified_ms {
        Some(t) => {
            if now_ms < 43_200_000 {
                true
            } else {
                t > now_ms - 43_200_000
            }
        },
        None => false,
    }
}

/// The path of a binary's source: within the directory of its version,
/// the executable's link path, else its path.
pub open spec fn bin_source_of(inv: InventoryView, bin: LocationView) -> Option<PathView> {
    match bin.version {
        None => None,
        Some(v) => match bin.config.exe_link_path {
            Some(p) => Some(join_path(product_dir_of(inv, v), native_separators(p))),
            None => match bin.config.exe_path {
                Some(p) => Some(join_path(product_dir_of(inv, v), native_separators(p))),
                None => None,
            },
        },
    }
}

pub open spec fn opt_paths(v: Seq<Option<ProtoPath>>) -> Seq<Option<PathView>> {
    v.map_values(|o: Option<ProtoPath>| match o {
        Some(p) => Some(p@),
        None => None,
    })
}

fn bin_source(bin: &ExecutableLocation, inventory: &Inventory) -> (r: Option<ProtoPath>)
    ensures
        match (r, bin_source_of(inventory@, bin@)) {
            (Some(p), Some(q)) => p@ == q,
            (None, None) => true,
            _ => false,
        },
{
    match &bin.version {
        None => None,
        Some(v) => {
            let exe = match &bin.config.exe_link_path {
                Some(p) => Some(p),
                None => bin.config.exe_path.as_ref(),
            };
            match exe {
                Some(p) => Some(inventory.get_product_dir(v).join_text(normalize_separators(p.as_str()).as_str())),
                None => None,
            }
        },
    }
}

/// The source of each binary, by position.
pub fn bin_sources(bins: &Vec<ExecutableLocation>, inventory: &Inventory) -> (r: Vec<Option<ProtoPath>>)
    ensures
        opt_paths(r@) == locations_view(bins@).map_values(|b: LocationView| bin_source_of(inventory@, b)),
{
    let ghost want = locations_view(bins@).map_values(|b: LocationView| bin_source_of(inventory@, b));
    let mut out: Vec<Option<ProtoPath>> = Vec::new();
    let mut i: usize = 0;
    while i < bins.len()
        invariant
            i <= bins@.len(),
            want == locations_view(bins@).map_values(|b: LocationView| bin_source_of(inventory@, b)),
            opt_paths(out@) == want.subrange(0, i as int),
        decreases bins@.len() - i,
    {
        let src = bin_source(&bins[i], inventory);
        let ghost before = out@;
        out.push(src);
        assert(want[i as int] == bin_source_of(inventory@, bins@[i as int]@));
        assert(opt_paths(out@) =~= opt_paths(before).push(want[i as int]));
        assert(want.subrange(0, i + 1) =~= want.subrange(0, i as int).push(want[i as int]));
        i = i + 1;
    }
    assert(want.subrange(0, want.len() as int) =~= want);
    out
}

/// Whether the registry lets the tool own a binary: an entry names its
/// owner, or, without one, the primary tool whose id is the name.
pub open spec fn owns_bin(entry: Option<ShimView>, context: ContextView, name: Seq<char>) -> bool {
    match entry {
        None => true,
        Some(e) => match e.context {
            Some(owner) => owner == context,
            None => context.id == name,
        },
    }
}

/// The links to create, in order: a binary that has a version and a
/// source, is not owned by another tool, whose source exists, and that
/// does not exist yet (unless linking is forced).
pub open spec fn bins_to_link_spec(
    bins: Seq<LocationView>,
    sources: Seq<Option<PathView>>,
    st: RegistryState,
    context: ContextView,
    input_exists: Seq<bool>,
    output_exists: Seq<bool>,
    force: bool,
) -> Seq<(PathView, PathView)>
    decreases bins.len(),
{
    if bins.len() == 0 {
        seq![]
    } else {
        let i = bins.len() - 1;
        let acc = bins_to_link_spec(bins.drop_last(), sources, st, context, input_exists, output_exists, force);
        let b = bins[i];
        if b.version is Some && owns_bin(registry_get(st, b.name), context, b.name) && i < sources.len()
            && sources[i] is Some && i < input_exists.len() && input_exists[i] && (force || !(i
            < output_exists.len() && output_exists[i])) {
            acc.push((sources[i]->0, b.path))
        } else {
            acc
        }
    }
}

pub open spec fn links_view(v: Seq<(ProtoPath, ProtoPath)>) -> Seq<(PathView, PathView)> {
    v.map_values(|e: (ProtoPath, ProtoPath)| (e.0@, e.1@))
}

fn owns(registry: &ShimRegistry, context: &ToolContext, name: &String) -> (r: bool)
    requires
        registry.wf(),
    ensures
        r == owns_bin(registry_get(state_of(registry), name@), context@, name@),
{
    match registry.get(name.as_str()) {
        None => true,
        Some(e) => match &e.context {
            Some(owner) => owner.equals(context),
            None => crate::text::str_eq(context.id.as_str(), name.as_str()),
        },
    }
}

/// Settle which binaries to link to their sources (`sources`, by position):
/// each as a pair of source and binary path.
pub fn bins_to_link(
    bins: &Vec<ExecutableLocation>,
    sources: &Vec<Option<ProtoPath>>,
    registry: &ShimRegistry,
    context: &ToolContext,
    input_exists: &Vec<bool>,
    output_exists: &Vec<bool>,
    force: bool,
) -> (r: Vec<(ProtoPath, ProtoPath)>)
    requires
        registry.wf(),
    ensures
        links_view(r@) == bins_to_link_spec(
            locations_view(bins@),
            opt_paths(sources@),
            state_of(registry),
            context@,
            input_exists@,
            output_exists@,
            force,
        ),
{
    let ghost lv = locations_view(bins@);
    let mut out: Vec<(ProtoPath, ProtoPath)> = Vec::new();
    let mut i: usize = 0;
    assert(links_view(out@) =~= Seq::<(PathView, PathView)>::empty());
    while i < bins.len()
        invariant
            i <= bins@.len(),
            registry.wf(),
            lv == locations_view(bins@),
            links_view(out@) == bins_to_link_spec(
                lv.subrange(0, i as int),
                opt_paths(sources@),
                state_of(registry),
                context@,
                input_exists@,
                output_exists@,
                force,
            ),
        decreases bins@.len() - i,
    {
        assert(lv.subrange(0, i + 1).drop_last() =~= lv.subrange(0, i as int));
        assert(lv.subrange(0, i + 1)[i as int] == bins@[i as int]@);
        let bin = &bins[i];
        if bin.version.is_some() && owns(registry, context, &bin.name) && i < sources.len() {
            if let Some(src) = &sources[i] {
                assert(opt_paths(sources@)[i as int] == Some(src@));
                let input_ok = i < input_exists.len() && input_exists[i];
                let output_there = i < output_exists.len() && output_exists[i];
                if input_ok && (force || !output_there) {
                    let ghost before = out@;
                    out.push((src.copy(), bin.path.copy()));
                    assert(links_view(out@) =~= links_view(before).push((src@, bin.path@)));
                }
            } else {
                assert(opt_paths(sources@)[i as int] is None);
            }
        }
        i = i + 1;
    }
    assert(lv.subrange(0, lv.len() as int) =~= lv);
    out
}

/// A change to a binary once a version no longer occupies its buckets.
pub enum BinChange {
    /// The bucket no longer exists: remove the binary.
    Unlink(ProtoPath),
    /// The bucket went to another version: point the binary at its source.
    Repoint { bin: ProtoPath, source: ProtoPath },
}

/// The abstract form of a binary change.
pub enum BinChangeView {
    Unlink(PathView),
    Repoint { bin: PathView, source: PathView },
}

impl View for BinChange {
    type V = BinChangeView;

    open spec fn view(&self) -> BinChangeView {
        match self {
            BinChange::Unlink(p) => BinChangeView::Unlink(p@),
            BinChange::Repoint { bin, source } => BinChangeView::Repoint { bin: bin@, source: source@ },
        }
    }
}

/// The last binary at a path.
pub open spec fn last_at_path(bins: Seq<LocationView>, p: PathView) -> Option<LocationView>
    decreases bins.len(),
{
    if bins.len() == 0 {
        None
    } else if bins.last().path == p {
        Some(bins.last())
    } else {
        last_at_path(bins.drop_last(), p)
    }
}

/// What becomes of a binary located before a version was removed, given
/// the binaries located after: removed when its path is no longer
/// located; pointed at the source of the binary now at its path when that
/// one belongs to another version (and has a source); else left as it is.
pub open spec fn bin_change_of(old: LocationView, news: Seq<LocationView>, inv: InventoryView) -> Option<BinChangeView> {
    match last_at_path(news, old.path) {
        None => Some(BinChangeView::Unlink(old.path)),
        Some(nb) => if nb.version != old.version {
            match bin_source_of(inv, nb) {
                Some(src) => Some(BinChangeView::Repoint { bin: nb.path, source: src }),
                None => None,
            }
        } else {
            None
        },
    }
}

/// The changes for each binary located before, in order.
pub open spec fn bin_changes_of(olds: Seq<LocationView>, news: Seq<LocationView>, inv: InventoryView) -> Seq<BinChangeView>
    decreases olds.len(),
{
    if olds.len() == 0 {
        seq![]
    } else {
        let r = bin_changes_of(olds.drop_last(), news, inv);
        match bin_change_of(olds.last(), news, inv) {
            Some(c) => r.push(c),
            None => r,
        }
    }
}

pub open spec fn changes_view(v: Seq<BinChange>) -> Seq<BinChangeView> {
    v.map_values(|c: BinChange| c@)
}

fn opt_version_eq(a: &Option<VersionKey>, b: &Option<VersionKey>) -> (r: bool)
    ensures
        r == (match a {
            Some(x) => Some(x@),
            None => None::<VersionKeyView>,
        } == match b {
            Some(x) => Some(x@),
            None => None::<VersionKeyView>,
        }),
{
    match (a, b) {
        (Some(x), Some(y)) => x.equals(y),
        (None, None) => true,
        _ => false,
    }
}

fn find_last_at_path(bins: &Vec<ExecutableLocation>, p: &ProtoPath) -> (r: Option<usize>)
    ensures
        match (r, last_at_path(locations_view(bins@), p@)) {
            (Some(i), Some(b)) => i < bins@.len() && bins@[i as int]@ == b,
            (None, None) => true,
            _ => false,
        },
{
    let ghost lv = locations_view(bins@);
    let mut k: usize = bins.len();
    assert(lv.subrange(0, k as int) =~= lv);
    while k > 0
        invariant
            k <= bins@.len(),
            lv == locations_view(bins@),
            last_at_path(lv, p@) == last_at_path(lv.subrange(0, k as int), p@),
        decreases k,
    {
        let ghost pre = lv.subrange(0, k as int);
        assert(pre.drop_last() =~= lv.subrange(0, k - 1));
        assert(pre.last() == bins@[k - 1]@);
        if bins[k - 1].path.equals(p) {
            return Some(k - 1);
        }
        k = k - 1;
    }
    None
}

/// Once a version leaves its buckets: the changes to the binaries located
/// before (`old_bins`), given those located after (`new_bins`), in order.
pub fn bins_to_relink(
    old_bins: &Vec<ExecutableLocation>,
    new_bins: &Vec<ExecutableLocation>,
    inventory: &Inventory,
) -> (r: Vec<BinChange>)
    ensures
        changes_view(r@) == bin_changes_of(locations_view(old_bins@), locations_view(new_bins@), inventory@),
{
    let ghost ov = locations_view(old_bins@);
    let ghost nv = locations_view(new_bins@);
    let mut out: Vec<BinChange> = Vec::new();
    let mut i: usize = 0;
    while i < old_bins.len()
        invariant
            i <= old_bins@.len(),
            ov == locations_view(old_bins@),
            nv == locations_view(new_bins@),
            changes_view(out@) == bin_changes_of(ov.subrange(0, i as int), nv, inventory@),
        decreases old_bins@.len() - i,
    {
        let old = &old_bins[i];
        let ghost before = changes_view(out@);
        proof {
            assert(ov.subrange(0, i + 1).drop_last() =~= ov.subrange(0, i as int));
            assert(ov.subrange(0, i + 1).last() == old@);
        }
        match find_last_at_path(new_bins, &old.path) {
            None => {
                out.push(BinChange::Unlink(old.path.copy()));
                assert(changes_view(out@) =~= before.push(BinChangeView::Unlink(old@.path)));
            },
            Some(j) => {
                let nb = &new_bins[j];
                if !opt_version_eq(&nb.version, &old.version) {
                    match bin_source(nb, inventory) {
                        Some(src) => {
                            out.push(BinChange::Repoint { bin: nb.path.copy(), source: src });
                            assert(changes_view(out@) =~= before.push(
                                BinChangeView::Repoint { bin: nb@.path, source: bin_source_of(inventory@, nb@)->0 },
                            ));
                        },
                        None => {},
                    }
                }
            },
        }
        i = i + 1;
    }
    assert(ov.subrange(0, ov.len() as int) =~= ov);
    out
}

/// The value of a text of decimal digits.
pub open spec fn digits_value(s: Seq<char>) -> int
    decreases s.len(),
{
    if s.len() == 0 {
        0
    } else {
        digits_value(s.drop_last()) * 10 + (s.last() as u32 - '0' as u32)
    }
}

pub open spec fn all_digits(s: Seq<char>) -> bool {
    forall|i: int| 0 <= i < s.len() ==> '0' <= #[trigger] s[i] <= '9'
}

/// What reading a number of milliseconds gives (as `u128::from_str`
/// does): the value of a non-empty run of decimal digits, optionally after
/// a `+`, when it fits in 128 bits.
pub open spec fn used_at_value(s: Seq<char>) -> Option<u128> {
    let digits = if s.len() > 0 && s[0] == '+' { s.drop_first() } else { s };
    if digits.len() > 0 && all_digits(digits) && digits_value(digits) <= u128::MAX {
        Some(digits_value(digits) as u128)
    } else {
        None
    }
}

proof fn lemma_digits_value_nonneg(s: Seq<char>)
    requires
        all_digits(s),
    ensures
        digits_value(s) >= 0,
    decreases s.len(),
{
    if s.len() > 0 {
        lemma_digits_value_nonneg(s.drop_last());
    }
}

proof fn lemma_digits_value_grows(s: Seq<char>, k: int)
    requires
        all_digits(s),
        0 <= k <= s.len(),
    ensures
        digits_value(s) >= digits_value(s.subrange(0, k)),
    decreases s.len() - k,
{
    if k < s.len() {
        lemma_digits_value_grows(s, k + 1);
        let pre = s.subrange(0, k + 1);
        assert(pre.drop_last() =~= s.subrange(0, k));
        lemma_digits_value_nonneg(s.subrange(0, k));
    } else {
        assert(s.subrange(0, k) =~= s);
    }
}

/// When a version was last used, from the contents of its `.last-used`
/// file; `None` when they are not a number.
pub fn parse_used_at(contents: &str) -> (r: Option<u128>)
    ensures
        r == used_at_value(contents@),
{
    let cs = chars_of(contents);
    let start: usize = if cs.len() > 0 && cs[0] == '+' { 1 } else { 0 };
    let ghost digits = if cs@.len() > 0 && cs@[0] == '+' { cs@.drop_first() } else { cs@ };
    assert(digits =~= cs@.subrange(start as int, cs@.len() as int));
    if start == cs.len() {
        return None;
    }
    let mut value: u128 = 0;
    let mut i: usize = start;
    while i < cs.len()
        invariant
            cs@ == contents@,
            start <= i <= cs@.len(),
            digits == cs@.subrange(start as int, cs@.len() as int),
            digits == (if contents@.len() > 0 && contents@[0] == '+' {
                contents@.drop_first()
            } else {
                contents@
            }),
            digits.len() > 0,
            all_digits(cs@.subrange(start as int, i as int)),
            value == digits_value(cs@.subrange(start as int, i as int)),
        decreases cs@.len() - i,
    {
        let c = cs[i];
        let ghost pre = cs@.subrange(start as int, i as int);
        let ghost next = cs@.subrange(start as int, i + 1);
        assert(next.drop_last() =~= pre);
        if !('0' <= c && c <= '9') {
            assert(!all_digits(digits)) by {
                assert(digits[i - start] == c);
            }
            return None;
        }
        assert(all_digits(next)) by {
            assert forall|j: int| 0 <= j < next.len() implies '0' <= #[trigger] next[j] <= '9' by {
                if j < pre.len() {
                    assert(next[j] == pre[j]);
                }
            }
        }
        let d = (c as u32 - '0' as u32) as u128;
        match value.checked_mul(10) {
            None => {
                proof {
                    if all_digits(digits) {
                        lemma_digits_value_grows(digits, i - start + 1);
                        assert(digits.subrange(0, i - start + 1) =~= next);
                        lemma_digits_value_nonneg(pre);
                    }
                }
                return None;
            },
            Some(m) => match m.checked_add(d) {
                None => {
                    proof {
                        if all_digits(digits) {
                            lemma_digits_value_grows(digits, i - start + 1);
                            assert(digits.subrange(0, i - start + 1) =~= next);
                        }
                    }
                    return None;
                },
                Some(v) => {
                    value = v;
                },
            },
        }
        i = i + 1;
    }
    Some(value)
}

} // verus!
