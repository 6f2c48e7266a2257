//! Choosing the instance whose working directory holds a target path.
use vstd::prelude::*;
use crate::path::{nested_under, path_under_directory};
use crate::probe::NeovimInstance;

verus! {

/// The view of a path that was resolved, or `None` where resolving failed.
pub open spec fn resolved(p: Option<Vec<u8>>) -> Option<Seq<u8>> {
    match p {
        Some(v) => Some(v@),
        None => None,
    }
}

/// The resolved target lies in the resolved directory; never so where
/// either failed to resolve.
pub open spec fn resolved_under(target: Option<Seq<u8>>, dir: Option<Seq<u8>>) -> bool {
    target.is_some() && dir.is_some() && nested_under(target.unwrap(), dir.unwrap())
}

/// The first instance, in registry order, whose resolved working directory
/// (`dirs[i]` for `instances[i]`) holds the resolved target.
pub open spec fn selected(
    instances: Seq<(Seq<u8>, Seq<u8>)>,
    target: Option<Seq<u8>>,
    dirs: Seq<Option<Seq<u8>>>,
) -> Option<(Seq<u8>, Seq<u8>)>
    decreases instances.len(),
{
    if instances.len() == 0 || dirs.len() == 0 {
        None
    } else if resolved_under(target, dirs[0]) {
        Some(instances[0])
    } else {
        selected(instances.skip(1), target, dirs.skip(1))
    }
}

/// The views of resolved directories.
pub open spec fn resolved_all(dirs: Seq<Option<Vec<u8>>>) -> Seq<Option<Seq<u8>>> {
    dirs.map_values(|d: Option<Vec<u8>>| resolved(d))
}

/// Picks the first instance whose working directory holds the target.
///
/// `path` is the target after resolution, and `resolved_dirs[i]` the working
/// directory of `nvim_instances[i]` after resolution; `None` stands for a
/// resolution that failed, which makes that instance not match.
pub fn get_instance_for_path(
    path: &Option<Vec<u8>>,
    nvim_instances: Vec<NeovimInstance>,
    resolved_dirs: &Vec<Option<Vec<u8>>>,
) -> (r: Option<NeovimInstance>)
    requires
        nvim_instances@.len() == resolved_dirs@.len(),
    ensures
        r.is_some() == selected(
            crate::probe::views_of(nvim_instances@),
            resolved(*path),
            resolved_all(resolved_dirs@),
        ).is_some(),
        r.is_some() ==> r.unwrap()@ == selected(
            crate::probe::views_of(nvim_instances@),
            resolved(*path),
            resolved_all(resolved_dirs@),
        ).unwrap(),
{
    let ghost all = crate::probe::views_of(nvim_instances@);
    let ghost dirs = resolved_all(resolved_dirs@);
    let ghost target = resolved(*path);
    let mut rest = nvim_instances;
    let mut i: usize = 0;
    assert(all.skip(0) =~= all);
    assert(dirs.skip(0) =~= dirs);
    while i < resolved_dirs.len()
        invariant
            i <= resolved_dirs@.len(),
            all.len() == dirs.len(),
            dirs == resolved_all(resolved_dirs@),
            all == crate::probe::views_of(nvim_instances@),
            target == resolved(*path),
            crate::probe::views_of(rest@) == all.skip(i as int),
            selected(all, target, dirs) == selected(all.skip(i as int), target, dirs.skip(i as int)),
        decreases resolved_dirs@.len() - i,
    {
        let ghost before = rest@;
        let inst = rest.remove(0);
        assert(inst@ == crate::probe::views_of(before)[0]);
        assert(crate::probe::views_of(rest@) =~= crate::probe::views_of(before).skip(1));
        assert(all.skip(i as int).skip(1) =~= all.skip(i + 1));
        assert(dirs.skip(i as int).skip(1) =~= dirs.skip(i + 1));
        assert(dirs.skip(i as int)[0] == resolved(resolved_dirs@[i as int]));
        assert(all.skip(i as int)[0] == inst@);
        if path_under_directory(path, &resolved_dirs[i]) {
            assert(resolved_under(target, dirs.skip(i as int)[0]));
            assert(selected(all.skip(i as int), target, dirs.skip(i as int)) == Some(inst@));
            return Some(inst);
        }
        i = i + 1;
    }
    None
}

/// With no candidates the registry is empty, and selection finds no match
/// for any target.
pub proof fn lemma_no_candidates_no_match(
    outcomes: Seq<crate::probe::ProbeOutcome>,
    target: Option<Seq<u8>>,
    dirs: Seq<Option<Seq<u8>>>,
)
    ensures
        crate::probe::registry_of(Seq::empty(), outcomes) == Seq::<(Seq<u8>, Seq<u8>)>::empty(),
        selected(crate::probe::registry_of(Seq::empty(), outcomes), target, dirs).is_none(),
{
}

/// Selection depends on the target only through its resolved form: two
/// targets, relative or not, that resolve to the same path select the same
/// instance.
pub proof fn lemma_same_resolution_same_selection(
    instances: Seq<(Seq<u8>, Seq<u8>)>,
    dirs: Seq<Option<Seq<u8>>>,
    first: Option<Seq<u8>>,
    second: Option<Seq<u8>>,
)
    requires
        first == second,
    ensures
        selected(instances, first, dirs) == selected(instances, second, dirs),
{
}

/// When the resolved target is the resolved working directory of an
/// instance, that instance matches: selection returns it unless an earlier
/// instance matched first, and never returns nothing.
pub proof fn lemma_exact_directory_matches(
    instances: Seq<(Seq<u8>, Seq<u8>)>,
    dirs: Seq<Option<Seq<u8>>>,
    target: Seq<u8>,
    i: int,
)
    requires
        0 <= i < instances.len(),
        instances.len() == dirs.len(),
        dirs[i] == Some(target),
    ensures
        resolved_under(Some(target), dirs[i]),
        selected(instances, Some(target), dirs).is_some(),
        (forall|j: int| 0 <= j < i ==> !resolved_under(Some(target), #[trigger] dirs[j]))
            ==> selected(instances, Some(target), dirs) == Some(instances[i]),
    decreases i,
{
    crate::path::lemma_directory_holds_itself(target);
    if i > 0 && !resolved_under(Some(target), dirs[0]) {
        lemma_exact_directory_matches(instances.skip(1), dirs.skip(1), target, i - 1);
        if forall|j: int| 0 <= j < i ==> !resolved_under(Some(target), #[trigger] dirs[j]) {
            assert forall|j: int| 0 <= j < i - 1 implies !resolved_under(
                Some(target),
                #[trigger] dirs.skip(1)[j],
            ) by {
                assert(dirs.skip(1)[j] == dirs[j + 1]);
            }
        }
    } else if i > 0 {
        assert(!(forall|j: int| 0 <= j < i ==> !resolved_under(Some(target), #[trigger] dirs[j]))) by {
            assert(resolved_under(Some(target), dirs[0]));
        }
    }
}

} // verus!
