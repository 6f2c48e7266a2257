//! Turning the answers of probed sockets into the registry of instances.
use vstd::prelude::*;

verus! {

/// The line feed byte.
pub const NEWLINE: u8 = 10;

/// A running editor server: its control socket and its working directory.
#[derive(Debug, Clone, PartialEq, Eq)]
pub struct NeovimInstance {
    pub server_address: Vec<u8>,
    pub working_directory: Vec<u8>,
}

impl View for NeovimInstance {
    type V = (Seq<u8>, Seq<u8>);

    open spec fn view(&self) -> (Seq<u8>, Seq<u8>) {
        (self.server_address@, self.working_directory@)
    }
}

/// What came of querying one candidate socket for its working directory.
#[derive(Debug, Clone, PartialEq, Eq)]
pub enum ProbeOutcome {
    /// The query ran to its end within the time allowed.
    Finished { success: bool, stdout: Vec<u8> },
    /// The query could not be started, or failed while running.
    LaunchFailed,
    /// The query did not end within the time allowed.
    TimedOut,
}

/// `out` without one trailing line feed, if it ends with one.
pub open spec fn without_newline(out: Seq<u8>) -> Seq<u8> {
    if out.len() > 0 && out.last() == NEWLINE {
        out.drop_last()
    } else {
        out
    }
}

/// Removes one trailing line feed, if there is one; any before it stay.
pub fn strip_trailing_newline(out: Vec<u8>) -> (r: Vec<u8>)
    ensures
        r@ == without_newline(out@),
{
    let mut out = out;
    if out.len() > 0 && out[out.len() - 1] == NEWLINE {
        out.pop();
    }
    out
}

/// The instance, as a view, that a probe of `address` yields, if any: only
/// a query that finished in time and succeeded yields one.
pub open spec fn instance_of(address: Seq<u8>, outcome: ProbeOutcome) -> Option<(Seq<u8>, Seq<u8>)> {
    match outcome {
        ProbeOutcome::Finished { success, stdout } => if success {
            Some((address, without_newline(stdout@)))
        } else {
            None
        },
        _ => None,
    }
}

/// The instance that a probe of `address` yields, if any.
pub fn get_instance(address: Vec<u8>, outcome: ProbeOutcome) -> (r: Option<NeovimInstance>)
    ensures
        r.is_some() == instance_of(address@, outcome).is_some(),
        r.is_some() ==> r.unwrap()@ == instance_of(address@, outcome).unwrap(),
{
    match outcome {
        ProbeOutcome::Finished { success, stdout } => {
            if success {
                Some(NeovimInstance { server_address: address, working_directory: strip_trailing_newline(stdout) })
            } else {
                None
            }
        },
        _ => None,
    }
}

/// The registry, as views, that probing `addresses` with these `outcomes`
/// (one for each, in the same order) yields: the instances of the
/// successful probes, in candidate order.
pub open spec fn registry_of(addresses: Seq<Seq<u8>>, outcomes: Seq<ProbeOutcome>) -> Seq<(Seq<u8>, Seq<u8>)>
    decreases addresses.len(),
{
    if addresses.len() == 0 || outcomes.len() == 0 {
        Seq::empty()
    } else {
        let rest = registry_of(addresses.drop_last(), outcomes.drop_last());
        match instance_of(addresses.last(), outcomes.last()) {
            Some(inst) => rest.push(inst),
            None => rest,
        }
    }
}

/// The views of a sequence of instances.
pub open spec fn views_of(instances: Seq<NeovimInstance>) -> Seq<(Seq<u8>, Seq<u8>)> {
    instances.map_values(|i: NeovimInstance| i@)
}

/// Builds the registry from the candidates and the outcome of probing each
/// one, `outcomes[i]` being that of `addresses[i]`.
pub fn get_nvim_instances(addresses: Vec<Vec<u8>>, outcomes: Vec<ProbeOutcome>) -> (r: Vec<NeovimInstance>)
    requires
        addresses@.len() == outcomes@.len(),
    ensures
        views_of(r@) == registry_of(addresses@.map_values(|a: Vec<u8>| a@), outcomes@),
{
    let ghost all_a = addresses@.map_values(|a: Vec<u8>| a@);
    let ghost all_o = outcomes@;
    let mut addresses = addresses;
    let mut outcomes = outcomes;
    let mut result: Vec<NeovimInstance> = Vec::new();
    let ghost mut i: int = 0;
    while addresses.len() > 0
        invariant
            0 <= i <= all_a.len(),
            all_a.len() == all_o.len(),
            addresses@.len() == outcomes@.len(),
            addresses@.map_values(|a: Vec<u8>| a@) == all_a.subrange(i, all_a.len() as int),
            outcomes@ == all_o.subrange(i, all_o.len() as int),
            views_of(result@) == registry_of(all_a.subrange(0, i), all_o.subrange(0, i)),
        decreases addresses@.len(),
    {
        let ghost before = addresses@;
        let a = addresses.remove(0);
        let o = outcomes.remove(0);
        assert(a@ == before.map_values(|a: Vec<u8>| a@)[0]);
        assert(addresses@.map_values(|a: Vec<u8>| a@) =~= before.map_values(|a: Vec<u8>| a@).subrange(1, before.len() as int));
        assert(all_a.subrange(0, i + 1).drop_last() =~= all_a.subrange(0, i));
        assert(all_o.subrange(0, i + 1).drop_last() =~= all_o.subrange(0, i));
        match get_instance(a, o) {
            Some(inst) => {
                result.push(inst);
                assert(views_of(result@) =~= registry_of(all_a.subrange(0, i), all_o.subrange(0, i)).push(inst@));
            },
            None => {},
        }
        proof {
            i = i + 1;
        }
    }
    assert(all_a.subrange(0, all_a.len() as int) =~= all_a);
    assert(all_o.subrange(0, all_o.len() as int) =~= all_o);
    result
}

/// `tagged` is a complete set of probe results for `n` candidates, in the
/// order in which the probes finished: each result is tagged with the index
/// of its candidate, every index below `n` occurs once, and no other does.
pub open spec fn is_completion_order(n: nat, tagged: Seq<(usize, ProbeOutcome)>) -> bool {
    &&& forall|j: int| 0 <= j < tagged.len() ==> (#[trigger] tagged[j]).0 < n
    &&& forall|j: int, k: int|
        0 <= j < k < tagged.len() ==> (#[trigger] tagged[j]).0 != (#[trigger] tagged[k]).0
    &&& forall|i: int| 0 <= i < n ==> #[trigger] is_tagged(tagged, i)
}

/// Some result in `tagged` carries the index `i`.
pub open spec fn is_tagged(tagged: Seq<(usize, ProbeOutcome)>, i: int) -> bool {
    exists|j: int| 0 <= j < tagged.len() && tagged[j].0 == i
}

/// The outcome that `tagged` holds for candidate `i`.
pub open spec fn outcome_tagged(tagged: Seq<(usize, ProbeOutcome)>, i: int) -> ProbeOutcome {
    tagged[choose|j: int| 0 <= j < tagged.len() && tagged[j].0 == i].1
}

/// The outcomes of `tagged`, put back in candidate order.
pub open spec fn in_candidate_order(n: nat, tagged: Seq<(usize, ProbeOutcome)>) -> Seq<ProbeOutcome> {
    Seq::new(n, |i: int| outcome_tagged(tagged, i))
}

/// Puts probe results that arrived in completion order back in candidate
/// order. Returns `None` when `tagged` is not a complete set of results for
/// `n` candidates (an index out of range, twice, or missing).
pub fn order_by_candidate(n: usize, tagged: Vec<(usize, ProbeOutcome)>) -> (r: Option<Vec<ProbeOutcome>>)
    ensures
        r.is_some() == is_completion_order(n as nat, tagged@),
        r.is_some() ==> r.unwrap()@ == in_candidate_order(n as nat, tagged@),
{
    let ghost all = tagged@;
    let mut slots: Vec<Option<ProbeOutcome>> = Vec::new();
    let mut s: usize = 0;
    while s < n
        invariant
            s <= n,
            slots@.len() == s,
            forall|i: int| 0 <= i < s ==> slots@[i].is_none(),
        decreases n - s,
    {
        slots.push(None);
        s = s + 1;
    }
    let mut rest = tagged;
    let ghost mut j: int = 0;
    while rest.len() > 0
        invariant
            0 <= j <= all.len(),
            all == tagged@,
            rest@ == all.subrange(j, all.len() as int),
            slots@.len() == n,
            forall|k: int| 0 <= k < j ==> (#[trigger] all[k]).0 < n,
            forall|k: int, l: int| 0 <= k < l < j ==> (#[trigger] all[k]).0 != (#[trigger] all[l]).0,
            forall|i: int|
                0 <= i < n ==> (slots@[i].is_some() <==> exists|k: int| 0 <= k < j && all[k].0 == i),
            forall|k: int| 0 <= k < j ==> slots@[(#[trigger] all[k]).0 as int] == Some(all[k].1),
        decreases rest@.len(),
    {
        let (t, o) = rest.remove(0);
        assert(all[j] == (t, o));
        if t >= n {
            assert(!is_completion_order(n as nat, all));
            return None;
        }
        if slots[t].is_some() {
            let ghost k = choose|k: int| 0 <= k < j && all[k].0 == t;
            assert(all[k].0 == all[j].0);
            assert(!is_completion_order(n as nat, all));
            return None;
        }
        slots.set(t, Some(o));
        proof {
            assert forall|i: int| 0 <= i < n implies (slots@[i].is_some() <==> exists|k: int|
                0 <= k < j + 1 && all[k].0 == i) by {
                if i == t as int {
                    assert(all[j].0 == i);
                } else if slots@[i].is_some() {
                    let k = choose|k: int| 0 <= k < j && all[k].0 == i;
                    assert(0 <= k < j + 1 && all[k].0 == i);
                }
            }
            assert forall|k: int| 0 <= k < j + 1 implies slots@[(#[trigger] all[k]).0 as int] == Some(all[k].1) by {
                if k < j {
                    assert(all[k].0 != all[j].0) by {
                        if all[k].0 == all[j].0 {
                            assert(slots@[t as int].is_some());
                        }
                    }
                }
            }
            j = j + 1;
        }
    }
    assert(rest@.len() == 0);
    assert(j == all.len());
    let mut result: Vec<ProbeOutcome> = Vec::new();
    let ghost filled = slots@;
    let ghost mut i: int = 0;
    while slots.len() > 0
        invariant
            0 <= i <= n,
            all == tagged@,
            filled.len() == n,
            slots@ == filled.subrange(i, n as int),
            forall|m: int| 0 <= m < i ==> is_tagged(all, m),
            forall|m: int| 0 <= m < n ==> (filled[m].is_some() <==> is_tagged(all, m)),
            forall|k: int| 0 <= k < all.len() ==> filled[(#[trigger] all[k]).0 as int] == Some(all[k].1),
            forall|k: int, l: int| 0 <= k < l < all.len() ==> (#[trigger] all[k]).0 != (#[trigger] all[l]).0,
            result@ == in_candidate_order(i as nat, all),
        decreases slots@.len(),
    {
        let e = slots.remove(0);
        assert(e == filled[i]);
        match e {
            Some(o) => {
                proof {
                    assert(is_tagged(all, i));
                    let k = choose|k: int| 0 <= k < all.len() && all[k].0 == i;
                    assert(filled[all[k].0 as int] == Some(all[k].1));
                    assert(outcome_tagged(all, i) == o);
                }
                result.push(o);
                proof {
                    assert(result@ =~= in_candidate_order((i + 1) as nat, all));
                    i = i + 1;
                }
            },
            None => {
                assert(!is_tagged(all, i));
                assert(!is_completion_order(n as nat, all));
                return None;
            },
        }
    }
    assert(i == n);
    Some(result)
}

/// Whatever order the probes finish in, the registry is the same: two
/// completion orders that hold the same results (one a reordering of the
/// other) give the same outcomes in candidate order, and so the same
/// registry.
pub proof fn lemma_completion_order_irrelevant(
    addresses: Seq<Seq<u8>>,
    n: nat,
    first: Seq<(usize, ProbeOutcome)>,
    second: Seq<(usize, ProbeOutcome)>,
)
    requires
        is_completion_order(n, first),
        is_completion_order(n, second),
        first.to_multiset() == second.to_multiset(),
    ensures
        in_candidate_order(n, first) == in_candidate_order(n, second),
        registry_of(addresses, in_candidate_order(n, first)) == registry_of(
            addresses,
            in_candidate_order(n, second),
        ),
{
    first.to_multiset_ensures();
    second.to_multiset_ensures();
    assert forall|i: int| 0 <= i < n implies outcome_tagged(first, i) == outcome_tagged(second, i) by {
        assert(is_tagged(first, i));
        let j = choose|j: int| 0 <= j < first.len() && first[j].0 == i;
        assert(first.contains(first[j]));
        assert(first.to_multiset().count(first[j]) > 0);
        assert(second.contains(first[j]));
        let k = choose|k: int| 0 <= k < second.len() && second[k] == first[j];
        let k2 = choose|k2: int| 0 <= k2 < second.len() && second[k2].0 == i;
        if k2 != k {
            assert(second[k].0 == second[k2].0);
            if k < k2 {
                assert(second[k].0 != second[k2].0);
            } else {
                assert(second[k2].0 != second[k].0);
            }
        }
        let j2 = choose|j2: int| 0 <= j2 < first.len() && first[j2].0 == i;
        if j2 != j {
            if j < j2 {
                assert(first[j].0 != first[j2].0);
            } else {
                assert(first[j2].0 != first[j].0);
            }
        }
    }
    assert(in_candidate_order(n, first) =~= in_candidate_order(n, second));
}

} // verus!
