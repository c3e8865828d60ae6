use vstd::prelude::*;
use crate::locate::{encode_component, encoded_component};
use crate::paths::{PathView, ProtoPath, join_path};

verus! {

/// The directories of proto's store.
pub struct Store {
    pub dir: ProtoPath,
    pub backends_dir: ProtoPath,
    pub bin_dir: ProtoPath,
    pub builders_dir: ProtoPath,
    pub cache_dir: ProtoPath,
    pub inventory_dir: ProtoPath,
    pub plugins_dir: ProtoPath,
    pub shims_dir: ProtoPath,
    pub temp_dir: ProtoPath,
}

/// A directory of the store, by name.
pub open spec fn within_store(dir: PathView, name: Seq<char>) -> PathView {
    dir.push(name)
}

impl Store {
    /// The store at `dir`. Temporary files go to `custom_temp_dir`
    /// (`PROTO_TEMP_DIR`) when it is set, else to `temp` within the store.
    pub fn new(dir: &ProtoPath, custom_temp_dir: Option<ProtoPath>) -> (r: Store)
        ensures
            r.dir@ == dir@,
            r.backends_dir@ == within_store(dir@, "backends"@),
            r.bin_dir@ == within_store(dir@, "bin"@),
            r.builders_dir@ == within_store(dir@, "builders"@),
            r.cache_dir@ == within_store(dir@, "cache"@),
            r.inventory_dir@ == within_store(dir@, "tools"@),
            r.plugins_dir@ == within_store(dir@, "plugins"@),
            r.shims_dir@ == within_store(dir@, "shims"@),
            r.temp_dir@ == match custom_temp_dir {
                Some(t) => t@,
                None => within_store(dir@, "temp"@),
            },
    {
        let temp_dir = match custom_temp_dir {
            Some(t) => t,
            None => dir.join("temp".to_owned()),
        };
        Store {
            dir: dir.copy(),
            backends_dir: dir.join("backends".to_owned()),
            bin_dir: dir.join("bin".to_owned()),
            builders_dir: dir.join("builders".to_owned()),
            cache_dir: dir.join("cache".to_owned()),
            inventory_dir: dir.join("tools".to_owned()),
            plugins_dir: dir.join("plugins".to_owned()),
            shims_dir: dir.join("shims".to_owned()),
            temp_dir,
        }
    }

    /// Where a tool's versions are installed, and where its temporary files
    /// go: its encoded identifier within the inventory and temporary
    /// directories.
    pub fn tool_dirs(&self, id: &str) -> (r: (ProtoPath, ProtoPath))
        ensures
            r.0@ == join_path(self.inventory_dir@, encoded_component(id@)),
            r.1@ == join_path(self.temp_dir@, encoded_component(id@)),
    {
        let name = encode_component(id);
        (self.inventory_dir.join_text(name.as_str()), self.temp_dir.join_text(name.as_str()))
    }

    /// The file that keeps the store's identifier.
    pub fn id_file(&self) -> (r: ProtoPath)
        ensures
            r@ == within_store(self.dir@, "id"@),
    {
        self.dir.join("id".to_owned())
    }

    /// The file that keeps the preferred shell profile.
    pub fn profile_file(&self) -> (r: ProtoPath)
        ensures
            r@ == within_store(self.dir@, "profile"@),
    {
        self.dir.join("profile".to_owned())
    }
}

} // verus!
