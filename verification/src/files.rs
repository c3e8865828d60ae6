use vstd::prelude::*;
use crate::context::{ContextView, ToolContext};
use crate::paths::{PathView, ProtoPath, spec_parent};
use crate::text::push_str;
use crate::trust::ProtoConfigTrust;

verus! {

/// Where a config lives.
#[derive(Clone, Copy, PartialEq, Eq, Structural, Debug)]
pub enum PinLocation {
    /// Proto's own global config.
    Global,
    /// A config in the current directory or one of its ancestors.
    Local,
    /// The config in the user's home directory.
    User,
}

/// A config file of a directory.
pub struct ProtoConfigFile {
    pub exists: bool,
    pub path: ProtoPath,
    /// The tools whose versions the config pins, each with the version
    /// requirement it pins.
    pub versions: Vec<(ToolContext, String)>,
    /// Whether the config's sibling lockfile is enabled and loaded.
    pub locked: bool,
    /// Whether the config's security-sensitive settings are applied.
    pub trust: ProtoConfigTrust,
    /// The security-sensitive settings of the config.
    pub sensitive: Vec<String>,
    /// The plugins that the config configures but that were ignored, as
    /// the config is not trusted.
    pub untrusted_plugins: Option<UntrustedPlugins>,
}

/// The plugins that an untrusted config configures.
pub struct UntrustedPlugins {
    /// Backends whose settings name a plugin.
    pub backend_configs: Vec<String>,
    /// Backends listed among the config's plugins.
    pub plugin_backends: Vec<String>,
    /// Tools whose settings name a plugin.
    pub tool_configs: Vec<ToolContext>,
    /// Tools listed among the config's plugins (current and legacy lists).
    pub plugin_tools: Vec<String>,
}

/// The kind of a plugin.
#[derive(Clone, Copy, PartialEq, Eq, Structural, Debug)]
pub enum PluginType {
    Backend,
    Tool,
}

/// Version pins in their abstract form.
pub open spec fn pins_view(v: Seq<(ToolContext, String)>) -> Seq<(ContextView, Seq<char>)> {
    v.map_values(|p: (ToolContext, String)| (p.0@, p.1@))
}

/// Whether the pins hold one for the tool.
pub open spec fn pins_tool(v: Seq<(ContextView, Seq<char>)>, c: ContextView) -> bool {
    exists|i: int| 0 <= i < v.len() && #[trigger] v[i].0 == c
}

pub open spec fn texts_of(v: Seq<String>) -> Seq<Seq<char>> {
    v.map_values(|s: String| s@)
}

pub open spec fn contexts_of(v: Seq<ToolContext>) -> Seq<ContextView> {
    v.map_values(|c: ToolContext| c@)
}

/// Whether a plugin for the tool was configured in the config but ignored,
/// as the config is not trusted: for a backend plugin of a tool with a
/// backend, the backend's settings or plugins list name it; otherwise the
/// tool's settings or plugins lists do.
pub open spec fn untrusted_plugin(u: Option<UntrustedPlugins>, c: ContextView, ty: PluginType) -> bool {
    match u {
        None => false,
        Some(p) => if ty == PluginType::Backend && c.backend is Some {
            texts_of(p.backend_configs@).contains(c.backend->0) || texts_of(p.plugin_backends@).contains(c.backend->0)
        } else {
            contexts_of(p.tool_configs@).contains(c) || texts_of(p.plugin_tools@).contains(c.id)
        },
    }
}

fn has_text(v: &Vec<String>, t: &String) -> (r: bool)
    ensures
        r == texts_of(v@).contains(t@),
{
    let ghost tv = texts_of(v@);
    let mut i: usize = 0;
    while i < v.len()
        invariant
            i <= v@.len(),
            tv == texts_of(v@),
            forall|j: int| 0 <= j < i ==> tv[j] != t@,
        decreases v@.len() - i,
    {
        if v[i] == *t {
            assert(tv[i as int] == t@);
            return true;
        }
        i = i + 1;
    }
    false
}

fn has_context(v: &Vec<ToolContext>, c: &ToolContext) -> (r: bool)
    ensures
        r == contexts_of(v@).contains(c@),
{
    let ghost cv = contexts_of(v@);
    let mut i: usize = 0;
    while i < v.len()
        invariant
            i <= v@.len(),
            cv == contexts_of(v@),
            forall|j: int| 0 <= j < i ==> cv[j] != c@,
        decreases v@.len() - i,
    {
        if v[i].equals(c) {
            assert(cv[i as int] == c@);
            return true;
        }
        i = i + 1;
    }
    false
}

/// The tools that pins name, each once, in the order they are first
/// pinned.
pub open spec fn pinned_tools(pins: Seq<(ContextView, Seq<char>)>) -> Seq<ContextView>
    decreases pins.len(),
{
    if pins.len() == 0 {
        seq![]
    } else {
        let r = pinned_tools(pins.drop_last());
        if r.contains(pins.last().0) {
            r
        } else {
            r.push(pins.last().0)
        }
    }
}

/// The requirements that pins give a tool, each once, in the order they
/// are first pinned.
pub open spec fn pinned_reqs(pins: Seq<(ContextView, Seq<char>)>, c: ContextView) -> Seq<Seq<char>>
    decreases pins.len(),
{
    if pins.len() == 0 {
        seq![]
    } else {
        let r = pinned_reqs(pins.drop_last(), c);
        if pins.last().0 == c && !r.contains(pins.last().1) {
            r.push(pins.last().1)
        } else {
            r
        }
    }
}

/// Each pinned tool with the requirements pinned for it.
pub open spec fn config_specs(pins: Seq<(ContextView, Seq<char>)>) -> Seq<(ContextView, Seq<Seq<char>>)> {
    pinned_tools(pins).map_values(|c: ContextView| (c, pinned_reqs(pins, c)))
}

pub open spec fn specs_view(v: Seq<(ToolContext, Vec<String>)>) -> Seq<(ContextView, Seq<Seq<char>>)> {
    v.map_values(|e: (ToolContext, Vec<String>)| (e.0@, texts_of(e.1@)))
}

fn reqs_for(pins: &Vec<(ToolContext, String)>, c: &ToolContext) -> (r: Vec<String>)
    ensures
        texts_of(r@) == pinned_reqs(pins_view(pins@), c@),
{
    let ghost pv = pins_view(pins@);
    let mut reqs: Vec<String> = Vec::new();
    let mut i: usize = 0;
    assert(texts_of(reqs@) =~= seq![]);
    while i < pins.len()
        invariant
            i <= pins@.len(),
            pv == pins_view(pins@),
            texts_of(reqs@) == pinned_reqs(pv.subrange(0, i as int), c@),
        decreases pins@.len() - i,
    {
        proof {
            assert(pv.subrange(0, i + 1).drop_last() =~= pv.subrange(0, i as int));
            assert(pv.subrange(0, i + 1).last() == pv[i as int]);
        }
        if pins[i].0.equals(c) && !has_text(&reqs, &pins[i].1) {
            let ghost before = texts_of(reqs@);
            reqs.push(pins[i].1.clone());
            assert(texts_of(reqs@) =~= before.push(pv[i as int].1));
        }
        i = i + 1;
    }
    assert(pv.subrange(0, pv.len() as int) =~= pv);
    reqs
}

impl ProtoConfigFile {
    /// The version requirements that the config pins for each tool: each
    /// tool once, with each of its requirements once (both in the order
    /// they are first pinned).
    pub fn get_config_specs(&self) -> (r: Vec<(ToolContext, Vec<String>)>)
        ensures
            specs_view(r@) == config_specs(pins_view(self.versions@)),
    {
        let ghost pv = pins_view(self.versions@);
        let mut tools: Vec<ToolContext> = Vec::new();
        let mut i: usize = 0;
        assert(contexts_of(tools@) =~= seq![]);
        while i < self.versions.len()
            invariant
                i <= self.versions@.len(),
                pv == pins_view(self.versions@),
                contexts_of(tools@) == pinned_tools(pv.subrange(0, i as int)),
            decreases self.versions@.len() - i,
        {
            proof {
                assert(pv.subrange(0, i + 1).drop_last() =~= pv.subrange(0, i as int));
                assert(pv.subrange(0, i + 1).last() == pv[i as int]);
            }
            if !has_context(&tools, &self.versions[i].0) {
                let ghost before = contexts_of(tools@);
                tools.push(self.versions[i].0.copy());
                assert(contexts_of(tools@) =~= before.push(pv[i as int].0));
            }
            i = i + 1;
        }
        assert(pv.subrange(0, pv.len() as int) =~= pv);
        let ghost all = config_specs(pv);
        let mut out: Vec<(ToolContext, Vec<String>)> = Vec::new();
        let mut j: usize = 0;
        assert(specs_view(out@) =~= all.subrange(0, 0));
        while j < tools.len()
            invariant
                j <= tools@.len(),
                pv == pins_view(self.versions@),
                contexts_of(tools@) == pinned_tools(pv),
                all == config_specs(pv),
                specs_view(out@) == all.subrange(0, j as int),
            decreases tools@.len() - j,
        {
            let reqs = reqs_for(&self.versions, &tools[j]);
            let ghost before = specs_view(out@);
            out.push((tools[j].copy(), reqs));
            proof {
                assert(all[j as int] == (tools@[j as int]@, pinned_reqs(pv, tools@[j as int]@)));
                assert(specs_view(out@) =~= before.push(all[j as int]));
                assert(all.subrange(0, j + 1) =~= all.subrange(0, j as int).push(all[j as int]));
            }
            j = j + 1;
        }
        assert(all.subrange(0, all.len() as int) =~= all);
        out
    }

    /// Whether a plugin for the tool was configured in this config, but was
    /// ignored because the config is not trusted.
    pub fn has_untrusted_plugin(&self, context: &ToolContext, ty: PluginType) -> (r: bool)
        ensures
            r == untrusted_plugin(self.untrusted_plugins, context@, ty),
    {
        let u = match &self.untrusted_plugins {
            None => {
                return false;
            },
            Some(u) => u,
        };
        if ty == PluginType::Backend {
            if let Some(id) = &context.backend {
                return has_text(&u.backend_configs, id) || has_text(&u.plugin_backends, id);
            }
        }
        has_context(&u.tool_configs, context) || has_text(&u.plugin_tools, &context.id)
    }
}

/// The config files of one directory, by precedence.
pub struct ProtoDirEntry {
    pub path: ProtoPath,
    pub location: PinLocation,
    pub configs: Vec<ProtoConfigFile>,
}

/// A config file and the files it was loaded with: whether it exists, where
/// it lives, and its lockfile.
pub struct ProtoFiles {
    pub exists: bool,
    pub location: PinLocation,
    pub lockfile_path: Option<ProtoPath>,
    pub config_path: ProtoPath,
}

/// The abstract form of a config file.
pub struct ConfigFileView {
    pub exists: bool,
    pub path: PathView,
    pub versions: Seq<(ContextView, Seq<char>)>,
    pub locked: bool,
    pub trust: ProtoConfigTrust,
    pub sensitive_count: nat,
}

pub open spec fn file_view(f: ProtoConfigFile) -> ConfigFileView {
    ConfigFileView {
        exists: f.exists,
        path: f.path@,
        versions: pins_view(f.versions@),
        locked: f.locked,
        trust: f.trust,
        sensitive_count: f.sensitive@.len(),
    }
}

/// The abstract form of a directory's entry.
pub struct DirEntryView {
    pub location: PinLocation,
    pub configs: Seq<ConfigFileView>,
}

pub open spec fn entries_view(v: Seq<ProtoDirEntry>) -> Seq<DirEntryView> {
    v.map_values(|d: ProtoDirEntry| DirEntryView { location: d.location, configs: d.configs@.map_values(|f: ProtoConfigFile| file_view(f)) })
}

/// The config files of the directories, from the closest directory out.
pub open spec fn all_files(entries: Seq<DirEntryView>) -> Seq<ConfigFileView>
    decreases entries.len(),
{
    if entries.len() == 0 {
        seq![]
    } else {
        all_files(entries.drop_last()) + entries.last().configs
    }
}

/// The first existing config that defines a version of the tool.
pub open spec fn first_defining(files: Seq<ConfigFileView>, c: ContextView) -> Option<ConfigFileView>
    decreases files.len(),
{
    if files.len() == 0 {
        None
    } else if files[0].exists && pins_tool(files[0].versions, c) {
        Some(files[0])
    } else {
        first_defining(files.drop_first(), c)
    }
}

/// The last existing config of a directory.
pub open spec fn last_existing(files: Seq<ConfigFileView>) -> Option<ConfigFileView>
    decreases files.len(),
{
    if files.len() == 0 {
        None
    } else if files.last().exists {
        Some(files.last())
    } else {
        last_existing(files.drop_last())
    }
}

/// The first local directory with an existing config, and its last one.
pub open spec fn closest_local(entries: Seq<DirEntryView>) -> Option<ConfigFileView>
    decreases entries.len(),
{
    if entries.len() == 0 {
        None
    } else if entries[0].location == PinLocation::Local && last_existing(entries[0].configs) is Some {
        last_existing(entries[0].configs)
    } else {
        closest_local(entries.drop_first())
    }
}

/// The config that owns a tool's lock records: the closest config that
/// defines a version of the tool, else, for an ad-hoc install, the base
/// config of the closest local directory with a config; either only when
/// its lockfile is enabled.
pub open spec fn locked_config(entries: Seq<DirEntryView>, c: ContextView) -> Option<ConfigFileView> {
    match first_defining(all_files(entries), c) {
        Some(f) => if f.locked {
            Some(f)
        } else {
            None
        },
        None => match closest_local(entries) {
            Some(f) => if f.locked {
                Some(f)
            } else {
                None
            },
            None => None,
        },
    }
}


/// A flag given by (directory, file) position; `false` where none is given.
pub open spec fn flag_at(flags: Seq<Vec<bool>>, d: int, f: int) -> bool {
    0 <= d < flags.len() && 0 <= f < flags[d]@.len() && flags[d]@[f]
}

/// The trust of a config file once trust is applied: a local config that
/// exists, has security-sensitive settings and is not owned by the user is
/// trusted when it has been trusted, else untrusted; any other keeps its
/// trust.
pub open spec fn applied_trust(location: PinLocation, file: ConfigFileView, trusted: bool, owned: bool) -> ProtoConfigTrust {
    if location == PinLocation::Local && file.exists && file.sensitive_count > 0 && !owned {
        if trusted {
            ProtoConfigTrust::Trusted
        } else {
            ProtoConfigTrust::Untrusted
        }
    } else {
        file.trust
    }
}

/// A directory's entry after trust is applied to its files.
pub open spec fn dir_with_trust(
    dir: DirEntryView,
    d: int,
    trusted: Seq<Vec<bool>>,
    owned: Seq<Vec<bool>>,
) -> DirEntryView {
    DirEntryView {
        location: dir.location,
        configs: Seq::new(
            dir.configs.len(),
            |f: int|
                ConfigFileView {
                    trust: applied_trust(dir.location, dir.configs[f], flag_at(trusted, d, f), flag_at(owned, d, f)),
                    ..dir.configs[f]
                },
        ),
    }
}

/// The configs a merged config is made of.
#[derive(Clone, Copy, PartialEq, Eq, Structural, Debug)]
pub enum ConfigScope {
    /// The global configs only.
    Global,
    /// The configs of one directory.
    Local,
    /// Every config.
    All,
    /// Every config but the global ones.
    AllWithoutGlobal,
}

/// Whether a directory's configs are part of a merged config of the scope.
pub open spec fn in_scope(scope: ConfigScope, location: PinLocation, dir: PathView, cwd: PathView) -> bool {
    match scope {
        ConfigScope::Global => location == PinLocation::Global,
        ConfigScope::Local => dir == cwd,
        ConfigScope::All => true,
        ConfigScope::AllWithoutGlobal => location != PinLocation::Global,
    }
}

/// The positions of the first `n` files of directory `d` that satisfy
/// `keep`, in order.
pub open spec fn file_positions(d: int, n: int, keep: spec_fn(int, int) -> bool) -> Seq<(int, int)>
    decreases n,
{
    if n <= 0 {
        seq![]
    } else {
        let r = file_positions(d, n - 1, keep);
        if keep(d, n - 1) {
            r.push((d, n - 1))
        } else {
            r
        }
    }
}

/// The positions of the files of the first `k` directories that satisfy
/// `keep`, in order.
pub open spec fn positions_upto(entries: Seq<ProtoDirEntry>, k: int, keep: spec_fn(int, int) -> bool) -> Seq<(int, int)>
    decreases k,
{
    if k <= 0 {
        seq![]
    } else {
        positions_upto(entries, k - 1, keep) + file_positions(k - 1, entries[k - 1].configs@.len() as int, keep)
    }
}

/// Whether a file is part of a merged config of the scope.
pub open spec fn scope_keeps(entries: Seq<ProtoDirEntry>, scope: ConfigScope, cwd: PathView) -> spec_fn(int, int) -> bool {
    |d: int, f: int| in_scope(scope, entries[d].location, entries[d].path@, cwd)
}

/// Whether a file's security-sensitive settings were ignored.
pub open spec fn untrusted_keeps(entries: Seq<ProtoDirEntry>) -> spec_fn(int, int) -> bool {
    |d: int, f: int| entries[d].configs@[f].trust == ProtoConfigTrust::Untrusted
}

pub open spec fn positions_view(v: Seq<(usize, usize)>) -> Seq<(int, int)> {
    v.map_values(|p: (usize, usize)| (p.0 as int, p.1 as int))
}

/// The context of proto's own version pin.
pub open spec fn proto_context() -> ContextView {
    ContextView { id: seq!['p', 'r', 'o', 't', 'o'], backend: None }
}

/// The pins without proto's own.
pub open spec fn without_proto(v: Seq<(ContextView, Seq<char>)>) -> Seq<(ContextView, Seq<char>)> {
    v.filter(|p: (ContextView, Seq<char>)| p.0 != proto_context())
}

/// The config files of a project, by directory from the closest out.
pub struct ProtoFileManager {
    pub entries: Vec<ProtoDirEntry>,
}

fn defines(f: &ProtoConfigFile, c: &ToolContext) -> (r: bool)
    ensures
        r == pins_tool(file_view(*f).versions, c@),
{
    let ghost vv = pins_view(f.versions@);
    let mut i: usize = 0;
    while i < f.versions.len()
        invariant
            i <= f.versions@.len(),
            vv == pins_view(f.versions@),
            forall|j: int| 0 <= j < i ==> vv[j].0 != c@,
        decreases f.versions@.len() - i,
    {
        if f.versions[i].0.equals(c) {
            assert(vv[i as int].0 == c@);
            return true;
        }
        i = i + 1;
    }
    false
}

proof fn lemma_all_files_step(entries: Seq<DirEntryView>, k: int)
    requires
        0 <= k < entries.len(),
    ensures
        all_files(entries.subrange(0, k + 1)) == all_files(entries.subrange(0, k)) + entries[k].configs,
{
    assert(entries.subrange(0, k + 1).drop_last() =~= entries.subrange(0, k));
}

proof fn lemma_first_defining_append(a: Seq<ConfigFileView>, b: Seq<ConfigFileView>, c: ContextView)
    ensures
        first_defining(a + b, c) == match first_defining(a, c) {
            Some(f) => Some(f),
            None => first_defining(b, c),
        },
    decreases a.len(),
{
    if a.len() > 0 {
        assert((a + b).drop_first() =~= a.drop_first() + b);
        lemma_first_defining_append(a.drop_first(), b, c);
    } else {
        assert(a + b =~= b);
    }
}

impl ProtoFileManager {
    /// The config that owns a tool's lock records, as (directory, file)
    /// positions.
    pub fn get_locked_config(&self, context: &ToolContext) -> (r: Option<(usize, usize)>)
        ensures
            match (r, locked_config(entries_view(self.entries@), context@)) {
                (Some((d, f)), Some(v)) => d < self.entries@.len() && f < self.entries@[d as int].configs@.len()
                    && file_view(self.entries@[d as int].configs@[f as int]) == v,
                (None, None) => true,
                _ => false,
            },
    {
        let ghost ev = entries_view(self.entries@);
        let mut d: usize = 0;
        assert(ev.subrange(0, ev.len() as int) =~= ev);
        while d < self.entries.len()
            invariant
                d <= self.entries@.len(),
                ev == entries_view(self.entries@),
                first_defining(all_files(ev), context@) == first_defining(
                    all_files(ev.subrange(d as int, ev.len() as int)),
                    context@,
                ),
            decreases self.entries@.len() - d,
        {
            let configs = &self.entries[d].configs;
            let ghost cv = configs@.map_values(|f: ProtoConfigFile| file_view(f));
            let ghost tail = all_files(ev.subrange(d + 1, ev.len() as int));
            assert(ev[d as int].configs == cv);
            proof {
                let s = ev.subrange(d as int, ev.len() as int);
                lemma_all_files_cons(s);
                assert(s.drop_first() =~= ev.subrange(d + 1, ev.len() as int));
                assert(s[0] == ev[d as int]);
                assert(cv.subrange(0, cv.len() as int) =~= cv);
            }
            let mut f: usize = 0;
            while f < configs.len()
                invariant
                    f <= configs@.len(),
                    d < self.entries@.len(),
                    ev == entries_view(self.entries@),
                    configs@ == self.entries@[d as int].configs@,
                    cv == configs@.map_values(|x: ProtoConfigFile| file_view(x)),
                    first_defining(all_files(ev), context@) == first_defining(
                        cv.subrange(f as int, cv.len() as int) + tail,
                        context@,
                    ),
                decreases configs@.len() - f,
            {
                let ghost rest = cv.subrange(f as int, cv.len() as int) + tail;
                assert(rest[0] == cv[f as int]);
                assert(rest.drop_first() =~= cv.subrange(f + 1, cv.len() as int) + tail);
                if configs[f].exists && defines(&configs[f], context) {
                    if configs[f].locked {
                        return Some((d, f));
                    } else {
                        return None;
                    }
                }
                f = f + 1;
            }
            assert(cv.subrange(cv.len() as int, cv.len() as int) + tail =~= tail);
            d = d + 1;
        }
        assert(ev.subrange(ev.len() as int, ev.len() as int) =~= Seq::<DirEntryView>::empty());
        let mut k: usize = 0;
        assert(ev.subrange(0, ev.len() as int) =~= ev);
        while k < self.entries.len()
            invariant
                k <= self.entries@.len(),
                ev == entries_view(self.entries@),
                first_defining(all_files(ev), context@) is None,
                closest_local(ev) == closest_local(ev.subrange(k as int, ev.len() as int)),
            decreases self.entries@.len() - k,
        {
            let ghost rest = ev.subrange(k as int, ev.len() as int);
            assert(rest[0] == ev[k as int]);
            assert(rest.drop_first() =~= ev.subrange(k + 1, ev.len() as int));
            let entry = &self.entries[k];
            if entry.location == PinLocation::Local {
                let ghost cv = entry.configs@.map_values(|f: ProtoConfigFile| file_view(f));
                assert(ev[k as int].configs == cv);
                let mut f: usize = entry.configs.len();
                assert(cv.subrange(0, f as int) =~= cv);
                while f > 0
                    invariant
                        f <= entry.configs@.len(),
                        k < self.entries@.len(),
                        ev == entries_view(self.entries@),
                        entry.configs@ == self.entries@[k as int].configs@,
                        ev[k as int].location == PinLocation::Local,
                        ev[k as int].configs == cv,
                        first_defining(all_files(ev), context@) is None,
                        closest_local(ev) == closest_local(ev.subrange(k as int, ev.len() as int)),
                        cv == entry.configs@.map_values(|x: ProtoConfigFile| file_view(x)),
                        last_existing(cv) == last_existing(cv.subrange(0, f as int)),
                    decreases f,
                {
                    assert(cv.subrange(0, f as int).drop_last() =~= cv.subrange(0, f - 1));
                    assert(cv.subrange(0, f as int).last() == cv[f - 1]);
                    if entry.configs[f - 1].exists {
                        assert(ev.subrange(k as int, ev.len() as int)[0] == ev[k as int]);
                        if entry.configs[f - 1].locked {
                            return Some((k, f - 1));
                        } else {
                            return None;
                        }
                    }
                    f = f - 1;
                }
            }
            k = k + 1;
        }
        None
    }
}

impl ProtoFileManager {
    /// Apply trust to the local configs: one that exists, has
    /// security-sensitive settings and is not owned by the user is trusted
    /// when it has been trusted, else its security-sensitive settings are
    /// ignored. `trusted` and `owned` are given by (directory, file)
    /// position.
    pub fn apply_trust(&mut self, trusted: &Vec<Vec<bool>>, owned: &Vec<Vec<bool>>)
        ensures
            final(self).entries@.len() == old(self).entries@.len(),
            forall|d: int| 0 <= d < old(self).entries@.len() ==> {
                &&& #[trigger] entries_view(final(self).entries@)[d] == dir_with_trust(
                    entries_view(old(self).entries@)[d],
                    d,
                    trusted@,
                    owned@,
                )
                &&& final(self).entries@[d].path@ == old(self).entries@[d].path@
            },
    {
        let ghost start = entries_view(self.entries@);
        let n = self.entries.len();
        let mut d: usize = 0;
        while d < n
            invariant
                n == self.entries@.len(),
                n == old(self).entries@.len(),
                start == entries_view(old(self).entries@),
                d <= n,
                forall|k: int| 0 <= k < n ==> self.entries@[k].path@ == old(self).entries@[k].path@,
                forall|k: int| d <= k < n ==> #[trigger] entries_view(self.entries@)[k] == start[k],
                forall|k: int| 0 <= k < d ==> #[trigger] entries_view(self.entries@)[k] == dir_with_trust(
                    start[k],
                    k,
                    trusted@,
                    owned@,
                ),
            decreases n - d,
        {
            let m = self.entries[d].configs.len();
            let local = self.entries[d].location == PinLocation::Local;
            let ghost dir = start[d as int];
            assert(entries_view(self.entries@)[d as int] == dir);
            let mut f: usize = 0;
            while f < m
                invariant
                    n == self.entries@.len(),
                    d < n,
                    m == self.entries@[d as int].configs@.len(),
                    dir == start[d as int],
                    dir.configs.len() == m,
                    local == (dir.location == PinLocation::Local),
                    self.entries@[d as int].location == dir.location,
                    f <= m,
                    forall|k: int| 0 <= k < n ==> self.entries@[k].path@ == old(self).entries@[k].path@,
                    forall|k: int| d < k < n ==> #[trigger] entries_view(self.entries@)[k] == start[k],
                    forall|k: int| 0 <= k < d ==> #[trigger] entries_view(self.entries@)[k] == dir_with_trust(
                        start[k],
                        k,
                        trusted@,
                        owned@,
                    ),
                    forall|g: int| f <= g < m ==> #[trigger] entries_view(self.entries@)[d as int].configs[g] == dir.configs[g],
                    forall|g: int| 0 <= g < f ==> #[trigger] entries_view(self.entries@)[d as int].configs[g]
                        == dir_with_trust(dir, d as int, trusted@, owned@).configs[g],
                decreases m - f,
            {
                let is_trusted = d < trusted.len() && f < trusted[d].len() && trusted[d][f];
                let is_owned = d < owned.len() && f < owned[d].len() && owned[d][f];
                let file = &self.entries[d].configs[f];
                let t = if local && file.exists && file.sensitive.len() > 0 && !is_owned {
                    if is_trusted {
                        ProtoConfigTrust::Trusted
                    } else {
                        ProtoConfigTrust::Untrusted
                    }
                } else {
                    file.trust
                };
                let ghost before = self.entries@;
                self.entries[d].configs[f].trust = t;
                proof {
                    assert forall|k: int| 0 <= k < n && k != d implies #[trigger] entries_view(self.entries@)[k]
                        == entries_view(before)[k] by {
                        assert(self.entries@[k] == before[k]);
                    }
                    assert forall|g: int| 0 <= g < m && g != f implies #[trigger] entries_view(self.entries@)[d as int].configs[g]
                        == entries_view(before)[d as int].configs[g] by {
                        assert(self.entries@[d as int].configs@[g] == before[d as int].configs@[g]);
                    }
                    let now_file = self.entries@[d as int].configs@[f as int];
                    let was_file = before[d as int].configs@[f as int];
                    assert(entries_view(before)[d as int].configs[f as int] == dir.configs[f as int]);
                    assert(file_view(was_file) == dir.configs[f as int]);
                    assert(now_file.exists == was_file.exists && now_file.locked == was_file.locked);
                    assert(now_file.path == was_file.path && now_file.versions == was_file.versions);
                    assert(now_file.sensitive == was_file.sensitive && now_file.trust == t);
                    assert(entries_view(self.entries@)[d as int].configs[f as int] == dir_with_trust(dir, d as int, trusted@, owned@).configs[f as int]);
                }
                f = f + 1;
            }
            proof {
                assert(entries_view(self.entries@)[d as int].configs =~= dir_with_trust(dir, d as int, trusted@, owned@).configs);
            }
            d = d + 1;
        }
    }
}

/// A selection of config files.
pub enum Selection {
    Scope(ConfigScope),
    Untrusted,
}

pub open spec fn selection_keeps(entries: Seq<ProtoDirEntry>, sel: Selection, cwd: PathView) -> spec_fn(int, int) -> bool {
    match sel {
        Selection::Scope(s) => scope_keeps(entries, s, cwd),
        Selection::Untrusted => untrusted_keeps(entries),
    }
}

fn scope_has(scope: ConfigScope, entry: &ProtoDirEntry, cwd: &ProtoPath) -> (r: bool)
    ensures
        r == in_scope(scope, entry.location, entry.path@, cwd@),
{
    match scope {
        ConfigScope::Global => entry.location == PinLocation::Global,
        ConfigScope::Local => entry.path.equals(cwd),
        ConfigScope::All => true,
        ConfigScope::AllWithoutGlobal => entry.location != PinLocation::Global,
    }
}

impl ProtoFileManager {
    fn select_positions(&self, sel: &Selection, cwd: &ProtoPath) -> (r: Vec<(usize, usize)>)
        ensures
            positions_view(r@) == positions_upto(self.entries@, self.entries@.len() as int, selection_keeps(self.entries@, *sel, cwd@)),
    {
        let ghost keep = selection_keeps(self.entries@, *sel, cwd@);
        let mut out: Vec<(usize, usize)> = Vec::new();
        let mut d: usize = 0;
        while d < self.entries.len()
            invariant
                d <= self.entries@.len(),
                keep == selection_keeps(self.entries@, *sel, cwd@),
                positions_view(out@) == positions_upto(self.entries@, d as int, keep),
            decreases self.entries@.len() - d,
        {
            let m = self.entries[d].configs.len();
            let mut f: usize = 0;
            while f < m
                invariant
                    d < self.entries@.len(),
                    m == self.entries@[d as int].configs@.len(),
                    f <= m,
                    keep == selection_keeps(self.entries@, *sel, cwd@),
                    positions_view(out@) == positions_upto(self.entries@, d as int, keep) + file_positions(d as int, f as int, keep),
                decreases m - f,
            {
                let k = match sel {
                    Selection::Scope(s) => scope_has(*s, &self.entries[d], cwd),
                    Selection::Untrusted => self.entries[d].configs[f].trust == ProtoConfigTrust::Untrusted,
                };
                let ghost before = positions_view(out@);
                if k {
                    out.push((d, f));
                    assert(positions_view(out@) =~= before.push((d as int, f as int)));
                }
                assert(keep(d as int, f as int) == k);
                f = f + 1;
            }
            assert(positions_upto(self.entries@, d + 1, keep) == positions_upto(self.entries@, d as int, keep) + file_positions(d as int, m as int, keep));
            d = d + 1;
        }
        out
    }

    /// The positions (directory, file) of the config files that a merged
    /// config of the scope is made of, in order. `cwd` is the directory a
    /// local config belongs to.
    pub fn get_config_files_in_scope(&self, scope: ConfigScope, cwd: &ProtoPath) -> (r: Vec<(usize, usize)>)
        ensures
            positions_view(r@) == positions_upto(self.entries@, self.entries@.len() as int, scope_keeps(self.entries@, scope, cwd@)),
    {
        self.select_positions(&Selection::Scope(scope), cwd)
    }

    /// The positions of the config files whose security-sensitive settings
    /// were ignored, as they have not been trusted.
    pub fn get_untrusted_config_files(&self) -> (r: Vec<(usize, usize)>)
        ensures
            positions_view(r@) == positions_upto(self.entries@, self.entries@.len() as int, untrusted_keeps(self.entries@)),
    {
        let cwd = ProtoPath::empty();
        self.select_positions(&Selection::Untrusted, &cwd)
    }
}

/// A directory's entry after proto's own version pins are removed: only
/// configs outside the local directories lose them.
pub open spec fn dir_without_proto_pins(dir: DirEntryView) -> DirEntryView {
    if dir.location == PinLocation::Local {
        dir
    } else {
        DirEntryView {
            location: dir.location,
            configs: Seq::new(
                dir.configs.len(),
                |f: int| ConfigFileView { versions: without_proto(dir.configs[f].versions), ..dir.configs[f] },
            ),
        }
    }
}

fn is_proto_context(c: &ToolContext) -> (r: bool)
    ensures
        r == (c@ == proto_context()),
{
    let proto = "proto";
    proof {
        reveal_strlit("proto");
        assert(proto@ =~= proto_context().id);
    }
    c.backend.is_none() && crate::text::str_eq(c.id.as_str(), proto)
}

fn versions_without_proto(v: &Vec<(ToolContext, String)>) -> (r: Vec<(ToolContext, String)>)
    ensures
        pins_view(r@) == without_proto(pins_view(v@)),
{
    let ghost cv = pins_view(v@);
    let mut out: Vec<(ToolContext, String)> = Vec::new();
    let mut i: usize = 0;
    while i < v.len()
        invariant
            i <= v@.len(),
            cv == pins_view(v@),
            pins_view(out@) == without_proto(cv.subrange(0, i as int)),
        decreases v@.len() - i,
    {
        proof {
            reveal_with_fuel(Seq::<_>::filter, 1);
            assert(cv.subrange(0, i + 1).drop_last() =~= cv.subrange(0, i as int));
        }
        let ghost before = pins_view(out@);
        if !is_proto_context(&v[i].0) {
            out.push((v[i].0.copy(), v[i].1.clone()));
            assert(pins_view(out@) =~= before.push(cv[i as int]));
        } else {
            assert(pins_view(out@) =~= before);
        }
        i = i + 1;
    }
    assert(cv.subrange(0, v@.len() as int) =~= cv);
    out
}

impl ProtoFileManager {
    /// Remove proto's own version pins from the configs outside the local
    /// directories.
    pub fn remove_proto_pins(&mut self)
        ensures
            final(self).entries@.len() == old(self).entries@.len(),
            forall|d: int| 0 <= d < old(self).entries@.len() ==> {
                &&& #[trigger] entries_view(final(self).entries@)[d] == dir_without_proto_pins(
                    entries_view(old(self).entries@)[d],
                )
                &&& final(self).entries@[d].path@ == old(self).entries@[d].path@
            },
    {
        let ghost start = entries_view(self.entries@);
        let n = self.entries.len();
        let mut d: usize = 0;
        while d < n
            invariant
                n == self.entries@.len(),
                n == old(self).entries@.len(),
                start == entries_view(old(self).entries@),
                d <= n,
                forall|k: int| 0 <= k < n ==> self.entries@[k].path@ == old(self).entries@[k].path@,
                forall|k: int| d <= k < n ==> #[trigger] entries_view(self.entries@)[k] == start[k],
                forall|k: int| 0 <= k < d ==> #[trigger] entries_view(self.entries@)[k] == dir_without_proto_pins(start[k]),
            decreases n - d,
        {
            let ghost dir = start[d as int];
            assert(entries_view(self.entries@)[d as int] == dir);
            if self.entries[d].location != PinLocation::Local {
                let m = self.entries[d].configs.len();
                let mut f: usize = 0;
                while f < m
                    invariant
                        n == self.entries@.len(),
                        d < n,
                        m == self.entries@[d as int].configs@.len(),
                        dir == start[d as int],
                        dir.configs.len() == m,
                        dir.location != PinLocation::Local,
                        self.entries@[d as int].location == dir.location,
                        f <= m,
                        forall|k: int| 0 <= k < n ==> self.entries@[k].path@ == old(self).entries@[k].path@,
                        forall|k: int| d < k < n ==> #[trigger] entries_view(self.entries@)[k] == start[k],
                        forall|k: int| 0 <= k < d ==> #[trigger] entries_view(self.entries@)[k] == dir_without_proto_pins(start[k]),
                        forall|g: int| f <= g < m ==> #[trigger] entries_view(self.entries@)[d as int].configs[g] == dir.configs[g],
                        forall|g: int| 0 <= g < f ==> #[trigger] entries_view(self.entries@)[d as int].configs[g]
                            == dir_without_proto_pins(dir).configs[g],
                    decreases m - f,
                {
                    let kept = versions_without_proto(&self.entries[d].configs[f].versions);
                    let ghost before = self.entries@;
                    let ghost kept_view = pins_view(kept@);
                    self.entries[d].configs[f].versions = kept;
                    proof {
                        assert forall|k: int| 0 <= k < n && k != d implies #[trigger] entries_view(self.entries@)[k]
                            == entries_view(before)[k] by {
                            assert(self.entries@[k] == before[k]);
                        }
                        assert forall|g: int| 0 <= g < m && g != f implies #[trigger] entries_view(self.entries@)[d as int].configs[g]
                            == entries_view(before)[d as int].configs[g] by {
                            assert(self.entries@[d as int].configs@[g] == before[d as int].configs@[g]);
                        }
                        let now_file = self.entries@[d as int].configs@[f as int];
                        let was_file = before[d as int].configs@[f as int];
                        assert(entries_view(before)[d as int].configs[f as int] == dir.configs[f as int]);
                        assert(file_view(was_file) == dir.configs[f as int]);
                        assert(now_file.exists == was_file.exists && now_file.locked == was_file.locked);
                        assert(now_file.path == was_file.path && now_file.trust == was_file.trust);
                        assert(now_file.sensitive == was_file.sensitive);
                        assert(pins_view(now_file.versions@) == kept_view);
                        assert(entries_view(self.entries@)[d as int].configs[f as int] == dir_without_proto_pins(dir).configs[f as int]);
                    }
                    f = f + 1;
                }
                proof {
                    assert(entries_view(self.entries@)[d as int].configs =~= dir_without_proto_pins(dir).configs);
                }
            }
            d = d + 1;
        }
    }
}

proof fn lemma_all_files_prefix(entries: Seq<DirEntryView>, k: int)
    requires
        0 <= k <= entries.len(),
    ensures
        all_files(entries) == all_files(entries.subrange(0, k)) + all_files(entries.subrange(k, entries.len() as int)),
    decreases entries.len() - k,
{
    if k < entries.len() {
        lemma_all_files_prefix(entries, k + 1);
        lemma_all_files_step(entries, k);
        lemma_all_files_cons(entries.subrange(k, entries.len() as int));
        assert(entries.subrange(k, entries.len() as int).drop_first() =~= entries.subrange(k + 1, entries.len() as int));
        assert(entries.subrange(k, entries.len() as int)[0] == entries[k]);
    } else {
        assert(entries.subrange(0, k) =~= entries);
        assert(entries.subrange(k, entries.len() as int) =~= Seq::<DirEntryView>::empty());
    }
}

proof fn lemma_all_files_cons(entries: Seq<DirEntryView>)
    requires
        entries.len() > 0,
    ensures
        all_files(entries) == entries[0].configs + all_files(entries.drop_first()),
    decreases entries.len(),
{
    if entries.len() == 1 {
        assert(entries.drop_last() =~= Seq::<DirEntryView>::empty());
        assert(entries.drop_first() =~= Seq::<DirEntryView>::empty());
        assert(all_files(entries) =~= entries[0].configs + all_files(entries.drop_first()));
    } else {
        lemma_all_files_cons(entries.drop_last());
        assert(entries.drop_last().drop_first() =~= entries.drop_first().drop_last());
        assert(entries.drop_first().last() == entries.last());
        assert(entries.drop_last()[0] == entries[0]);
    }
}

/// Trust is decided afresh: applying it a second time with the same
/// answers changes nothing.
pub proof fn lemma_apply_trust_idempotent(dir: DirEntryView, d: int, trusted: Seq<Vec<bool>>, owned: Seq<Vec<bool>>)
    ensures
        dir_with_trust(dir_with_trust(dir, d, trusted, owned), d, trusted, owned) == dir_with_trust(dir, d, trusted, owned),
{
    let once = dir_with_trust(dir, d, trusted, owned);
    assert(dir_with_trust(once, d, trusted, owned).configs =~= once.configs);
}

/// Removing proto's pins a second time changes nothing.
pub proof fn lemma_remove_proto_pins_idempotent(dir: DirEntryView)
    ensures
        dir_without_proto_pins(dir_without_proto_pins(dir)) == dir_without_proto_pins(dir),
{
    let once = dir_without_proto_pins(dir);
    if dir.location != PinLocation::Local {
        assert forall|f: int| 0 <= f < once.configs.len() implies without_proto(#[trigger] once.configs[f].versions)
            == once.configs[f].versions by {
            let v = dir.configs[f].versions;
            assert(without_proto(without_proto(v)) =~= without_proto(v)) by {
                lemma_filter_twice(v);
            }
        }
        assert(dir_without_proto_pins(once).configs =~= once.configs);
    }
}

proof fn lemma_filter_twice(v: Seq<(ContextView, Seq<char>)>)
    ensures
        without_proto(without_proto(v)) == without_proto(v),
    decreases v.len(),
{
    reveal_with_fuel(Seq::<_>::filter, 1);
    if v.len() > 0 {
        lemma_filter_twice(v.drop_last());
        let w = without_proto(v.drop_last());
        if v.last().0 != proto_context() {
            assert(without_proto(v) == w.push(v.last()));
            assert(w.push(v.last()).drop_last() =~= w);
        }
    }
}

/// The directories whose configs are loaded, with their locations: the
/// start directory and its ancestors, closest first, up to the end
/// directory (the user's, which ends the walk) or the root.
pub open spec fn dirs_upward(start: PathView, end: Option<PathView>) -> Seq<(PathView, PinLocation)>
    decreases start.len(),
{
    let is_end = end == Some(start);
    let here = (start, if is_end { PinLocation::User } else { PinLocation::Local });
    if is_end {
        seq![here]
    } else {
        match spec_parent(start) {
            None => seq![here],
            Some(p) => seq![here] + dirs_upward(p, end),
        }
    }
}

pub open spec fn dirs_view(v: Seq<(ProtoPath, PinLocation)>) -> Seq<(PathView, PinLocation)> {
    v.map_values(|e: (ProtoPath, PinLocation)| (e.0@, e.1))
}

/// The directories whose configs are loaded, closest first.
pub fn dirs_to_load(start: &ProtoPath, end: Option<&ProtoPath>) -> (r: Vec<(ProtoPath, PinLocation)>)
    ensures
        dirs_view(r@) == dirs_upward(start@, match end {
            Some(e) => Some(e@),
            None => None,
        }),
{
    let ghost end_view = match end {
        Some(e) => Some(e@),
        None => None::<PathView>,
    };
    let mut out: Vec<(ProtoPath, PinLocation)> = Vec::new();
    let mut current = start.copy();
    loop
        invariant
            dirs_upward(start@, end_view) == dirs_view(out@) + dirs_upward(current@, end_view),
            end_view == match end {
                Some(e) => Some(e@),
                None => None::<PathView>,
            },
        decreases current@.len(),
    {
        let is_end = match end {
            Some(e) => e.equals(&current),
            None => false,
        };
        let location = if is_end { PinLocation::User } else { PinLocation::Local };
        let ghost before = dirs_view(out@);
        let ghost cur = current@;
        if is_end {
            out.push((current, location));
            assert(dirs_view(out@) =~= before + dirs_upward(cur, end_view));
            return out;
        }
        match current.parent() {
            None => {
                out.push((current, location));
                assert(dirs_view(out@) =~= before + dirs_upward(cur, end_view));
                return out;
            },
            Some(p) => {
                out.push((current, location));
                assert(dirs_view(out@) =~= before.push((cur, location)));
                assert(dirs_upward(cur, end_view) == seq![(cur, location)] + dirs_upward(p@, end_view));
                assert(before + dirs_upward(cur, end_view) =~= before.push((cur, location)) + dirs_upward(p@, end_view));
                current = p;
            },
        }
    }
}

/// The config and lockfile paths of a directory, by precedence: those of
/// the environment (`.prototools.<env>` and `.protolock.<env>`) when one
/// is set, then the base ones.
pub open spec fn config_paths_of(dir: PathView, env: Option<Seq<char>>) -> Seq<(PathView, PathView)> {
    let base = (dir.push(".prototools"@), dir.push(".protolock"@));
    match env {
        Some(e) => seq![(dir.push(".prototools."@ + e), dir.push(".protolock."@ + e)), base],
        None => seq![base],
    }
}

pub open spec fn path_pairs_view(v: Seq<(ProtoPath, ProtoPath)>) -> Seq<(PathView, PathView)> {
    v.map_values(|e: (ProtoPath, ProtoPath)| (e.0@, e.1@))
}

/// The config and lockfile paths of a directory, by precedence.
pub fn config_paths(dir: &ProtoPath, env: Option<&str>) -> (r: Vec<(ProtoPath, ProtoPath)>)
    ensures
        path_pairs_view(r@) == config_paths_of(dir@, match env {
            Some(e) => Some(e@),
            None => None,
        }),
{
    let mut out: Vec<(ProtoPath, ProtoPath)> = Vec::new();
    if let Some(e) = env {
        let mut config_name = ".prototools.".to_owned();
        push_str(&mut config_name, e);
        let mut lock_name = ".protolock.".to_owned();
        push_str(&mut lock_name, e);
        out.push((dir.join(config_name), dir.join(lock_name)));
    }
    out.push((dir.join(".prototools".to_owned()), dir.join(".protolock".to_owned())));
    assert(path_pairs_view(out@) =~= config_paths_of(dir@, match env {
        Some(e) => Some(e@),
        None => None,
    }));
    out
}

/// The lockfile setting that applies to the config at position `i` of a
/// directory (by precedence): its own, else the one of the config it
/// layers on (the next one).
pub open spec fn lockfile_setting(settings: Seq<Option<bool>>, i: int) -> Option<bool>
    decreases settings.len() - i,
{
    if i < 0 || i >= settings.len() {
        None
    } else {
        match settings[i] {
            Some(b) => Some(b),
            None => lockfile_setting(settings, i + 1),
        }
    }
}

/// Whether a config's lockfile is used: only for an existing local config
/// whose lockfile setting (own or inherited) is on. The lockfiles of the
/// other configs are stale.
pub open spec fn uses_lockfile(location: PinLocation, exists: bool, settings: Seq<Option<bool>>, i: int) -> bool {
    location == PinLocation::Local && exists && lockfile_setting(settings, i) == Some(true)
}

/// Which configs of a directory use their lockfile, by position.
/// `exists` and `settings` (the `lockfile` setting each config writes)
/// are given by precedence.
pub fn lockfiles_in_use(location: PinLocation, exists: &Vec<bool>, settings: &Vec<Option<bool>>) -> (r: Vec<bool>)
    requires
        exists@.len() == settings@.len(),
    ensures
        r@.len() == settings@.len(),
        forall|i: int| 0 <= i < r@.len() ==> #[trigger] r@[i] == uses_lockfile(location, exists@[i], settings@, i),
{
    let n = settings.len();
    let mut out: Vec<bool> = Vec::new();
    let mut k: usize = 0;
    while k < n
        invariant
            n == settings@.len(),
            n == exists@.len(),
            k <= n,
            out@.len() == k,
        decreases n - k,
    {
        out.push(false);
        k = k + 1;
    }
    let mut inherited: Option<bool> = None;
    let mut i: usize = n;
    while i > 0
        invariant
            n == settings@.len(),
            n == exists@.len(),
            out@.len() == n,
            i <= n,
            inherited == lockfile_setting(settings@, i as int),
            forall|j: int| i <= j < n ==> #[trigger] out@[j] == uses_lockfile(location, exists@[j], settings@, j),
        decreases i,
    {
        let j = i - 1;
        let effective = match settings[j] {
            Some(b) => Some(b),
            None => inherited,
        };
        inherited = effective;
        let used = location == PinLocation::Local && exists[j] && effective == Some(true);
        out.set(j, used);
        i = j;
    }
    out
}

/// Which configs are loaded.
#[derive(Clone, Copy, PartialEq, Eq, Structural, Debug)]
pub enum ConfigMode {
    /// The global config only.
    Global,
    /// The config of the working directory only.
    Local,
    /// The configs of the working directory and its ancestors.
    Upwards,
    /// Those and the global config.
    UpwardsGlobal,
}

impl Default for ConfigMode {
    fn default() -> (r: ConfigMode)
        ensures
            r == ConfigMode::UpwardsGlobal,
    {
        ConfigMode::UpwardsGlobal
    }
}

impl ConfigMode {
    /// Whether the global config is loaded.
    pub fn includes_global(&self) -> (r: bool)
        ensures
            r == (*self == ConfigMode::Global || *self == ConfigMode::UpwardsGlobal),
    {
        match self {
            ConfigMode::Global | ConfigMode::UpwardsGlobal => true,
            _ => false,
        }
    }

    /// Whether only the working directory's config is loaded.
    pub fn only_local(&self) -> (r: bool)
        ensures
            r == (*self == ConfigMode::Local),
    {
        match self {
            ConfigMode::Local => true,
            _ => false,
        }
    }

    /// The configs that the merged config of the mode is made of.
    pub fn scope(&self) -> (r: ConfigScope)
        ensures
            r == match *self {
                ConfigMode::Global => ConfigScope::Global,
                ConfigMode::Local => ConfigScope::Local,
                ConfigMode::Upwards => ConfigScope::AllWithoutGlobal,
                ConfigMode::UpwardsGlobal => ConfigScope::All,
            },
    {
        match self {
            ConfigMode::Global => ConfigScope::Global,
            ConfigMode::Local => ConfigScope::Local,
            ConfigMode::Upwards => ConfigScope::AllWithoutGlobal,
            ConfigMode::UpwardsGlobal => ConfigScope::All,
        }
    }
}

/// Whether a directory's configs are among those a mode loads: global ones
/// only when the mode includes them, and only the working directory's when
/// the mode is local.
pub open spec fn mode_loads(mode: ConfigMode, location: PinLocation, dir: PathView, cwd: PathView) -> bool {
    !((!(mode == ConfigMode::Global || mode == ConfigMode::UpwardsGlobal) && location == PinLocation::Global)
        || (mode == ConfigMode::Local && dir != cwd))
}

pub open spec fn mode_keeps(entries: Seq<ProtoDirEntry>, mode: ConfigMode, cwd: PathView) -> spec_fn(int, int) -> bool {
    |d: int, f: int| mode_loads(mode, entries[d].location, entries[d].path@, cwd)
}

impl ProtoFileManager {
    /// The positions of the config files that the mode loads, in order.
    pub fn load_config_files(&self, mode: ConfigMode, cwd: &ProtoPath) -> (r: Vec<(usize, usize)>)
        ensures
            positions_view(r@) == positions_upto(self.entries@, self.entries@.len() as int, mode_keeps(self.entries@, mode, cwd@)),
    {
        let ghost keep = mode_keeps(self.entries@, mode, cwd@);
        let global = mode.includes_global();
        let local = mode.only_local();
        let mut out: Vec<(usize, usize)> = Vec::new();
        let mut d: usize = 0;
        while d < self.entries.len()
            invariant
                d <= self.entries@.len(),
                keep == mode_keeps(self.entries@, mode, cwd@),
                global == (mode == ConfigMode::Global || mode == ConfigMode::UpwardsGlobal),
                local == (mode == ConfigMode::Local),
                positions_view(out@) == positions_upto(self.entries@, d as int, keep),
            decreases self.entries@.len() - d,
        {
            let entry = &self.entries[d];
            let loads = !((!global && entry.location == PinLocation::Global) || (local && !entry.path.equals(cwd)));
            let m = entry.configs.len();
            let mut f: usize = 0;
            while f < m
                invariant
                    d < self.entries@.len(),
                    m == self.entries@[d as int].configs@.len(),
                    f <= m,
                    keep == mode_keeps(self.entries@, mode, cwd@),
                    loads == mode_loads(mode, self.entries@[d as int].location, self.entries@[d as int].path@, cwd@),
                    positions_view(out@) == positions_upto(self.entries@, d as int, keep) + file_positions(d as int, f as int, keep),
                decreases m - f,
            {
                let ghost before = positions_view(out@);
                if loads {
                    out.push((d, f));
                    assert(positions_view(out@) =~= before.push((d as int, f as int)));
                }
                assert(keep(d as int, f as int) == loads);
                f = f + 1;
            }
            assert(positions_upto(self.entries@, d + 1, keep) == positions_upto(self.entries@, d as int, keep) + file_positions(d as int, m as int, keep));
            d = d + 1;
        }
        out
    }
}

} // verus!
