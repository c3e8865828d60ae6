use vstd::prelude::*;
use crate::paths::{PathView, ProtoPath, spec_starts_with};
use crate::files::PinLocation;
use crate::assoc::{assoc_map, keys_distinct};

verus! {

/// Why proto's environment could not be set up.
#[derive(Clone, Copy, PartialEq, Eq, Structural, Debug)]
pub enum ProtoEnvError {
    /// The user's home directory could not be determined.
    MissingHomeDir,
    /// The current working directory could not be determined.
    MissingWorkingDir,
}

/// The home directory, which proto requires.
pub fn require_home_dir(home: Option<ProtoPath>) -> (r: Result<ProtoPath, ProtoEnvError>)
    ensures
        match home {
            Some(h) => r matches Ok(p) && p@ == h@,
            None => r matches Err(ProtoEnvError::MissingHomeDir),
        },
{
    match home {
        Some(h) => Ok(h),
        None => Err(ProtoEnvError::MissingHomeDir),
    }
}

/// The working directory, which proto requires.
pub fn require_working_dir(cwd: Option<ProtoPath>) -> (r: Result<ProtoPath, ProtoEnvError>)
    ensures
        match cwd {
            Some(c) => r matches Ok(p) && p@ == c@,
            None => r matches Err(ProtoEnvError::MissingWorkingDir),
        },
{
    match cwd {
        Some(c) => Ok(c),
        None => Err(ProtoEnvError::MissingWorkingDir),
    }
}

pub open spec fn tilde() -> Seq<char> {
    seq!['~']
}

/// Where proto keeps its store: `PROTO_HOME`, else `proto` within
/// `XDG_DATA_HOME`, else `.proto` within the home directory; a store path
/// that starts with a `~` component is within the home directory.
pub open spec fn store_root_of(home: PathView, proto_home: Option<PathView>, xdg_data_home: Option<PathView>) -> PathView {
    let root = match proto_home {
        Some(p) => p,
        None => match xdg_data_home {
            Some(x) => x.push(seq!['p', 'r', 'o', 't', 'o']),
            None => home.push(seq!['.', 'p', 'r', 'o', 't', 'o']),
        },
    };
    if root.len() > 0 && root[0] == tilde() {
        home + root.drop_first()
    } else {
        root
    }
}

/// Where proto keeps its store, from the home directory and the
/// `PROTO_HOME` and `XDG_DATA_HOME` paths (when set).
pub fn store_root(home: &ProtoPath, proto_home: Option<ProtoPath>, xdg_data_home: Option<ProtoPath>) -> (r: ProtoPath)
    ensures
        r@ == store_root_of(
            home@,
            match proto_home {
                Some(p) => Some(p@),
                None => None,
            },
            match xdg_data_home {
                Some(x) => Some(x@),
                None => None,
            },
        ),
{
    proof {
        reveal_strlit("proto");
        reveal_strlit(".proto");
        assert("proto"@ =~= seq!['p', 'r', 'o', 't', 'o']);
        assert(".proto"@ =~= seq!['.', 'p', 'r', 'o', 't', 'o']);
    }
    let root = match proto_home {
        Some(p) => p,
        None => match xdg_data_home {
            Some(x) => x.join("proto".to_owned()),
            None => home.join(".proto".to_owned()),
        },
    };
    let starts_tilde = root.parts.len() > 0 && crate::text::str_eq(root.parts[0].as_str(), "~");
    proof {
        reveal_strlit("~");
        assert("~"@ =~= tilde());
        assert(root.parts@.len() > 0 ==> root@[0] == root.parts@[0]@);
    }
    if starts_tilde {
        let mut out = home.copy();
        let ghost head = out@;
        let mut i: usize = 1;
        while i < root.parts.len()
            invariant
                1 <= i <= root.parts@.len(),
                out@ == head + root@.subrange(1, i as int),
            decreases root.parts@.len() - i,
        {
            let ghost before = out@;
            out.parts.push(root.parts[i].clone());
            assert(out@ =~= before.push(root@[i as int]));
            assert(root@.subrange(1, i + 1) =~= root@.subrange(1, i as int).push(root@[i as int]));
            i = i + 1;
        }
        assert(root@.subrange(1, root@.len() as int) =~= root@.drop_first());
        out
    } else {
        root
    }
}

/// The directory of the config that a pin location names: the store for
/// the global config, the working directory for a local one, the home
/// directory for the user's.
pub fn get_config_dir<'a>(pin: PinLocation, store_dir: &'a ProtoPath, working_dir: &'a ProtoPath, home_dir: &'a ProtoPath) -> (r: &'a ProtoPath)
    ensures
        r@ == match pin {
            PinLocation::Global => store_dir@,
            PinLocation::Local => working_dir@,
            PinLocation::User => home_dir@,
        },
{
    match pin {
        PinLocation::Global => store_dir,
        PinLocation::Local => working_dir,
        PinLocation::User => home_dir,
    }
}

/// Where the upward search for configs stops: at the home directory, but
/// only when the working directory is within it.
pub fn config_search_end(working_dir: &ProtoPath, home_dir: &ProtoPath) -> (r: Option<ProtoPath>)
    ensures
        spec_starts_with(working_dir@, home_dir@) ==> (r matches Some(h) && h@ == home_dir@),
        !spec_starts_with(working_dir@, home_dir@) ==> r is None,
{
    if working_dir.starts_with(home_dir) {
        Some(home_dir.copy())
    } else {
        None
    }
}

/// The virtual paths that plugins see: the working directory as `/cwd`,
/// the store as `/proto` and the home directory as `/userhome` (a later
/// one wins where two are the same directory).
pub open spec fn virtual_paths_of(working_dir: PathView, store_dir: PathView, home_dir: PathView) -> Map<PathView, Seq<char>> {
    Map::<PathView, Seq<char>>::empty().insert(working_dir, "/cwd"@).insert(store_dir, "/proto"@).insert(home_dir, "/userhome"@)
}

pub open spec fn virtual_entries(v: Seq<(ProtoPath, String)>) -> Seq<(PathView, Seq<char>)> {
    v.map_values(|e: (ProtoPath, String)| (e.0@, e.1@))
}

fn put_virtual(v: &mut Vec<(ProtoPath, String)>, dir: &ProtoPath, name: &str)
    requires
        keys_distinct(virtual_entries(old(v)@)),
    ensures
        keys_distinct(virtual_entries(final(v)@)),
        assoc_map(virtual_entries(final(v)@)) == assoc_map(virtual_entries(old(v)@)).insert(dir@, name@),
{
    let ghost e = virtual_entries(v@);
    let mut i: usize = 0;
    while i < v.len()
        invariant
            i <= v@.len(),
            e == virtual_entries(v@),
            v@ == old(v)@,
            keys_distinct(e),
            forall|j: int| 0 <= j < i ==> e[j].0 != dir@,
        decreases v@.len() - i,
    {
        if v[i].0.equals(dir) {
            proof {
                assert(e[i as int].0 == dir@);
                crate::assoc::lemma_assoc_update(e, i as int, name@);
            }
            v.set(i, (dir.copy(), name.to_owned()));
            assert(virtual_entries(v@) =~= e.update(i as int, (e[i as int].0, name@)));
            return;
        }
        i = i + 1;
    }
    proof {
        crate::assoc::lemma_assoc_dom(e, dir@);
        crate::assoc::lemma_assoc_push(e, dir@, name@);
    }
    v.push((dir.copy(), name.to_owned()));
    assert(virtual_entries(v@) =~= e.push((dir@, name@)));
}

/// The virtual paths that plugins see, each real directory once.
pub fn get_virtual_paths(working_dir: &ProtoPath, store_dir: &ProtoPath, home_dir: &ProtoPath) -> (r: Vec<(ProtoPath, String)>)
    ensures
        keys_distinct(virtual_entries(r@)),
        assoc_map(virtual_entries(r@)) == virtual_paths_of(working_dir@, store_dir@, home_dir@),
{
    let mut v: Vec<(ProtoPath, String)> = Vec::new();
    assert(virtual_entries(v@) =~= Seq::<(PathView, Seq<char>)>::empty());
    assert(assoc_map(virtual_entries(v@)) =~= Map::<PathView, Seq<char>>::empty());
    put_virtual(&mut v, working_dir, "/cwd");
    put_virtual(&mut v, store_dir, "/proto");
    put_virtual(&mut v, home_dir, "/userhome");
    v
}

} // verus!
