//! Where the editor's control sockets are looked for.
use vstd::prelude::*;
use crate::path::{joined, push_segment};

verus! {

/// The environment settings that decide where sockets live, as raw bytes.
#[derive(Debug, Clone, Default)]
pub struct Configuration {
    /// The per-user runtime directory, where set.
    pub runtime_dir: Option<Vec<u8>>,
    /// The temporary directory, where set.
    pub temp_dir: Option<Vec<u8>>,
    /// The user's name, where set.
    pub user: Option<Vec<u8>>,
}

/// `nvim.`, the prefix of the editor's directory and socket names.
pub open spec fn name_prefix() -> Seq<u8> {
    seq![110u8, 118u8, 105u8, 109u8, 46u8]
}

/// `*`, one directory of any name.
pub open spec fn any_directory() -> Seq<u8> {
    seq![42u8]
}

/// `nvim.*.0`, the name of a server's socket.
pub open spec fn socket_name_pattern() -> Seq<u8> {
    seq![110u8, 118u8, 105u8, 109u8, 46u8, 42u8, 46u8, 48u8]
}

/// The directory under which sockets are placed: the runtime directory if
/// set, else `<temp>/nvim.<user>` if both of those are set, else none.
pub open spec fn base_directory(c: Configuration) -> Option<Seq<u8>> {
    match c.runtime_dir {
        Some(r) => Some(r@),
        None => match (c.temp_dir, c.user) {
            (Some(t), Some(u)) => Some(joined(t@, name_prefix() + u@)),
            _ => None,
        },
    }
}

/// The glob pattern `<base>/*/nvim.*.0` for a base directory.
pub open spec fn pattern_under(base: Seq<u8>) -> Seq<u8> {
    joined(joined(base, any_directory()), socket_name_pattern())
}

/// The glob pattern that matches the sockets, if the configuration gives a
/// base directory.
pub open spec fn socket_pattern(c: Configuration) -> Option<Seq<u8>> {
    match base_directory(c) {
        Some(b) => Some(pattern_under(b)),
        None => None,
    }
}

/// Builds the glob pattern that the candidate sockets match.
///
/// Returns `None` exactly when the configuration names neither a runtime
/// directory nor both a temporary directory and a user.
pub fn get_nvim_glob(config: &Configuration) -> (r: Option<Vec<u8>>)
    ensures
        r.is_some() == socket_pattern(*config).is_some(),
        r.is_some() ==> r.unwrap()@ == socket_pattern(*config).unwrap(),
{
    let mut path: Vec<u8>;
    match &config.runtime_dir {
        Some(r) => {
            path = Vec::new();
            crate::path::append_bytes(&mut path, r.as_slice());
            assert(path@ =~= r@);
        },
        None => match (&config.temp_dir, &config.user) {
            (Some(t), Some(u)) => {
                path = Vec::new();
                crate::path::append_bytes(&mut path, t.as_slice());
                assert(path@ =~= t@);
                let mut segment: Vec<u8> = vec![110u8, 118u8, 105u8, 109u8, 46u8];
                assert(segment@ =~= name_prefix());
                crate::path::append_bytes(&mut segment, u.as_slice());
                push_segment(&mut path, segment.as_slice());
            },
            _ => {
                return None;
            },
        },
    }
    let ghost base = path@;
    let star: Vec<u8> = vec![42u8];
    assert(star@ =~= any_directory());
    push_segment(&mut path, star.as_slice());
    let name: Vec<u8> = vec![110u8, 118u8, 105u8, 109u8, 46u8, 42u8, 46u8, 48u8];
    assert(name@ =~= socket_name_pattern());
    push_segment(&mut path, name.as_slice());
    assert(base_directory(*config) == Some(base));
    Some(path)
}

/// The entries of a glob expansion that could be read, in their order.
pub open spec fn readable(entries: Seq<Option<Vec<u8>>>) -> Seq<Seq<u8>>
    decreases entries.len(),
{
    if entries.len() == 0 {
        Seq::empty()
    } else {
        let rest = readable(entries.drop_last());
        match entries.last() {
            Some(p) => rest.push(p@),
            None => rest,
        }
    }
}

/// Keeps the entries of a glob expansion that could be read (`Some`),
/// dropping the unreadable ones (`None`) and keeping the order.
pub fn get_nvim_socket_paths(entries: Vec<Option<Vec<u8>>>) -> (r: Vec<Vec<u8>>)
    ensures
        r@.map_values(|p: Vec<u8>| p@) == readable(entries@),
{
    let mut paths: Vec<Vec<u8>> = Vec::new();
    let mut rest = entries;
    let ghost all = rest@;
    // Taken from the front so that the order is kept.
    let ghost mut i: int = 0;
    while rest.len() > 0
        invariant
            0 <= i <= all.len(),
            rest@ == all.subrange(i, all.len() as int),
            paths@.map_values(|p: Vec<u8>| p@) == readable(all.subrange(0, i)),
        decreases rest@.len(),
    {
        let e = rest.remove(0);
        assert(all.subrange(0, i + 1).drop_last() =~= all.subrange(0, i));
        match e {
            Some(p) => {
                paths.push(p);
                assert(paths@.map_values(|p: Vec<u8>| p@) =~= readable(all.subrange(0, i)).push(all[i].unwrap()@));
            },
            None => {},
        }
        proof {
            i = i + 1;
        }
    }
    assert(all.subrange(0, all.len() as int) =~= all);
    paths
}

} // verus!
