use vstd::prelude::*;
use crate::paths::{ProtoPath, join_path};
use crate::text::str_eq;

verus! {

/// Information about a person.
pub struct PluginPerson {
    pub name: String,
    pub email: Option<String>,
    pub url: Option<String>,
}

/// Information about an author: their name, or an object of additional
/// fields.
pub enum PluginAuthor {
    String(String),
    Object(PluginPerson),
}

impl PluginAuthor {
    /// The author's name.
    pub fn get_name(&self) -> (r: &str)
        ensures
            r@ == match self {
                PluginAuthor::String(name) => name@,
                PluginAuthor::Object(person) => person.name@,
            },
    {
        match self {
            PluginAuthor::String(name) => name.as_str(),
            PluginAuthor::Object(person) => person.name.as_str(),
        }
    }
}

/// The registries that plugins are listed in.
#[derive(Clone, Copy, PartialEq, Eq, Structural, Debug)]
pub enum RegistryKind {
    /// Plugins maintained by the community.
    Community,
    /// The built-in plugins.
    Internal,
    /// Third-party plugins.
    External,
}

/// Where a registry's data is cached (within the store's cache
/// directory) and where it is fetched from.
pub open spec fn registry_source_of(kind: RegistryKind) -> (Seq<char>, Seq<char>) {
    match kind {
        RegistryKind::Community => (
            "registry/community-plugins.json"@,
            "https://raw.githubusercontent.com/moonrepo/proto/master/registry/data/community.json"@,
        ),
        RegistryKind::Internal => (
            "registry/internal-plugins.json"@,
            "https://raw.githubusercontent.com/moonrepo/proto/master/registry/data/built-in.json"@,
        ),
        RegistryKind::External => (
            "registry/external-plugins.json"@,
            "https://raw.githubusercontent.com/moonrepo/proto/master/registry/data/third-party.json"@,
        ),
    }
}

/// Where a registry's data is cached, and the URL it is fetched from.
pub fn registry_source(kind: RegistryKind, cache_dir: &ProtoPath) -> (r: (ProtoPath, String))
    ensures
        r.0@ == join_path(cache_dir@, registry_source_of(kind).0),
        r.1@ == registry_source_of(kind).1,
{
    let (file, url) = match kind {
        RegistryKind::Community => (
            "registry/community-plugins.json",
            "https://raw.githubusercontent.com/moonrepo/proto/master/registry/data/community.json",
        ),
        RegistryKind::Internal => (
            "registry/internal-plugins.json",
            "https://raw.githubusercontent.com/moonrepo/proto/master/registry/data/built-in.json",
        ),
        RegistryKind::External => (
            "registry/external-plugins.json",
            "https://raw.githubusercontent.com/moonrepo/proto/master/registry/data/third-party.json",
        ),
    };
    (cache_dir.join_text(file), url.to_owned())
}

/// How long a registry's cached data is read: a day, in milliseconds.
pub open spec fn registry_ttl() -> int {
    86_400_000int
}

/// Whether a registry's cached data is read rather than fetched: it exists
/// and was modified within the last day.
pub fn registry_cache_fresh(exists: bool, modified_ms: u128, now_ms: u128) -> (r: bool)
    ensures
        r == (exists && modified_ms + registry_ttl() > now_ms),
{
    if !exists {
        return false;
    }
    if now_ms < 86_400_000 {
        true
    } else {
        modified_ms > now_ms - 86_400_000
    }
}

/// The first plugin of a registry listed under the identifier.
pub open spec fn first_with_id(ids: Seq<Seq<char>>, id: Seq<char>, i: int) -> Option<int>
    decreases ids.len() - i,
{
    if i < 0 || i >= ids.len() {
        None
    } else if ids[i] == id {
        Some(i)
    } else {
        first_with_id(ids, id, i + 1)
    }
}

/// The position of the first plugin listed under the identifier, given
/// the identifiers of a registry's plugins in order.
pub fn find_plugin(ids: &Vec<String>, id: &str) -> (r: Option<usize>)
    ensures
        match (r, first_with_id(ids@.map_values(|s: String| s@), id@, 0)) {
            (Some(i), Some(j)) => i == j,
            (None, None) => true,
            _ => false,
        },
{
    let ghost iv = ids@.map_values(|s: String| s@);
    let mut i: usize = 0;
    while i < ids.len()
        invariant
            i <= ids@.len(),
            iv == ids@.map_values(|s: String| s@),
            first_with_id(iv, id@, 0) == first_with_id(iv, id@, i as int),
        decreases ids@.len() - i,
    {
        if str_eq(ids[i].as_str(), id) {
            return Some(i);
        }
        i = i + 1;
    }
    None
}

/// The OCI registry that the built-in plugins are pulled from.
pub struct RegistryConfig {
    pub auth: bool,
    pub default: bool,
    pub registry: String,
    pub namespace: Option<String>,
}

/// A variable's value when it is set and not empty, else the default.
pub open spec fn non_empty_or(value: Option<&str>, default: Seq<char>) -> Seq<char> {
    match value {
        Some(v) => if v@.len() > 0 { v@ } else { default },
        None => default,
    }
}

fn non_empty_or_exec(value: Option<&str>, default: &str) -> (r: String)
    ensures
        r@ == non_empty_or(value, default@),
{
    match value {
        Some(v) => if v.unicode_len() > 0 { v.to_owned() } else { default.to_owned() },
        None => default.to_owned(),
    }
}

/// The registry of the built-in plugins, from `PROTO_BUILTIN_REGISTRY_HOST`
/// and `PROTO_BUILTIN_REGISTRY_NAMESPACE` (`None` when unset; an empty one
/// counts as unset), which default to `ghcr.io` and `moonrepo`, and from
/// whether `PROTO_BUILTIN_REGISTRY_AUTH` and
/// `PROTO_BUILTIN_REGISTRY_DEFAULT` are enabled.
pub fn get_builtin_registry(host: Option<&str>, namespace: Option<&str>, auth: bool, default: bool) -> (r:
    RegistryConfig)
    ensures
        r.auth == auth,
        r.default == default,
        r.registry@ == non_empty_or(host, "ghcr.io"@),
        r.namespace matches Some(n) && n@ == non_empty_or(namespace, "moonrepo"@),
{
    let registry = non_empty_or_exec(host, "ghcr.io");
    let namespace = non_empty_or_exec(namespace, "moonrepo");
    RegistryConfig { auth, default, registry, namespace: Some(namespace) }
}

} // verus!
