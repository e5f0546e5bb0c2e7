//! Reachability decisions: turning ping outcomes into online/offline
//! answers, singly and for a batch of hosts.
//!
//! Running the ping processes is the caller's business; these functions
//! decide what the outcomes mean, so that every path from outcome to answer
//! is verified.

use vstd::prelude::*;
use vstd::pervasive::VecAdditionalExecFns;

verus! {

/// Decides reachability from the outcome of one ping invocation.
///
/// `ping_result` is `Some(s)` when the ping process ran to completion with
/// exit-status success `s`, and `None` when it could not be spawned or did
/// not complete. A host counts as online only on a clean, successful exit:
/// a non-zero exit or a spawn failure is offline, never an error.
pub fn check_connection_status(ping_result: Option<bool>) -> (online: bool)
    ensures
        online == (ping_result == Some(true)),
{
    match ping_result {
        Some(s) => s,
        None => false,
    }
}

/// The host-to-online mapping that a sequence of batch outcomes denotes:
/// each completed check inserts its host, later completions overwriting
/// earlier ones; a failed task (`None`) inserts nothing.
pub open spec fn batch_map_of(outcomes: Seq<Option<(String, bool)>>) -> Map<Seq<char>, bool>
    decreases outcomes.len(),
{
    if outcomes.len() == 0 {
        Map::empty()
    } else {
        let m = batch_map_of(outcomes.drop_last());
        match outcomes.last() {
            Some(p) => m.insert(p.0@, p.1),
            None => m,
        }
    }
}

/// Every key of the batch mapping comes from a completed outcome: a host
/// whose check task did not complete is omitted.
pub proof fn lemma_batch_omits_failed(outcomes: Seq<Option<(String, bool)>>, key: Seq<char>)
    requires
        batch_map_of(outcomes).dom().contains(key),
    ensures
        exists|j: int|
            0 <= j < outcomes.len() && (#[trigger] outcomes[j] matches Some(p) && p.0@ == key),
    decreases outcomes.len(),
{
    if outcomes.len() > 0 {
        let prefix = outcomes.drop_last();
        match outcomes.last() {
            Some(p) => {
                if p.0@ == key {
                    assert(outcomes[outcomes.len() - 1] matches Some(q) && q.0@ == key);
                } else {
                    lemma_batch_omits_failed(prefix, key);
                    let j = choose|j: int|
                        0 <= j < prefix.len() && (#[trigger] prefix[j] matches Some(p) && p.0@ == key);
                    assert(outcomes[j] matches Some(p) && p.0@ == key);
                }
            },
            None => {
                lemma_batch_omits_failed(prefix, key);
                let j = choose|j: int|
                    0 <= j < prefix.len() && (#[trigger] prefix[j] matches Some(p) && p.0@ == key);
                assert(outcomes[j] matches Some(p) && p.0@ == key);
            },
        }
    }
}

/// Finds the entry for `key` among the collected results, if there is one.
fn find_host(r: &Vec<(String, bool)>, key: &String) -> (o: Option<usize>)
    ensures
        match o {
            Some(j) => j < r@.len() && r@[j as int].0@ == key@,
            None => forall|j: int| 0 <= j < r@.len() ==> r@[j].0@ != key@,
        },
{
    let mut j: usize = 0;
    while j < r.len()
        invariant
            j <= r@.len(),
            forall|k: int| 0 <= k < j ==> r@[k].0@ != key@,
        decreases r@.len() - j,
    {
        let e = &r[j];
        if e.0.eq(key) {
            return Some(j);
        }
        j = j + 1;
    }
    None
}

/// Aggregates the outcomes of a batch of reachability checks into a list of
/// `(host, online)` results with pairwise distinct hosts.
///
/// An outcome is `Some((host, online))` when the host's check task
/// completed and `None` when it did not. The result holds exactly the
/// mapping `batch_map_of` describes, so it never has more entries than
/// there were outcomes, and a host whose task did not complete is omitted.
#[verifier::loop_isolation(false)]
pub fn check_batch_connections(outcomes: Vec<Option<(String, bool)>>) -> (r: Vec<(String, bool)>)
    ensures
        r@.len() <= outcomes@.len(),
        forall|a: int, b: int| 0 <= a < b < r@.len() ==> r@[a].0@ != r@[b].0@,
        forall|j: int|
            0 <= j < r@.len() ==> batch_map_of(outcomes@).dom().contains(#[trigger] r@[j].0@)
                && batch_map_of(outcomes@)[r@[j].0@] == r@[j].1,
        forall|key: Seq<char>|
            #[trigger] batch_map_of(outcomes@).dom().contains(key) ==> exists|j: int|
                0 <= j < r@.len() && #[trigger] r@[j].0@ == key,
{
    let mut r: Vec<(String, bool)> = Vec::new();
    let mut i: usize = 0;
    proof {
        assert(outcomes@.take(0) =~= Seq::<Option<(String, bool)>>::empty());
    }
    while i < outcomes.len()
        invariant
            i <= outcomes@.len(),
            r@.len() <= i,
            forall|a: int, b: int| 0 <= a < b < r@.len() ==> r@[a].0@ != r@[b].0@,
            forall|j: int|
                0 <= j < r@.len() ==> batch_map_of(outcomes@.take(i as int)).dom().contains(
                    #[trigger] r@[j].0@,
                ) && batch_map_of(outcomes@.take(i as int))[r@[j].0@] == r@[j].1,
            forall|key: Seq<char>|
                #[trigger] batch_map_of(outcomes@.take(i as int)).dom().contains(key)
                    ==> exists|j: int| 0 <= j < r@.len() && #[trigger] r@[j].0@ == key,
        decreases outcomes@.len() - i,
    {
        let ghost m0 = batch_map_of(outcomes@.take(i as int));
        proof {
            assert(outcomes@.take(i + 1).drop_last() =~= outcomes@.take(i as int));
            assert(outcomes@.take(i + 1).last() == outcomes@[i as int]);
        }
        let ghost m1 = batch_map_of(outcomes@.take(i + 1));
        match &outcomes[i] {
            Some(p) => {
                let host = p.0.clone();
                let online = p.1;
                let ghost key = host@;
                proof {
                    assert(m1 == m0.insert(key, online));
                }
                match find_host(&r, &host) {
                    Some(j) => {
                        let ghost r0 = r@;
                        r.set(j, (host, online));
                        proof {
                            assert forall|j2: int|
                                0 <= j2 < r@.len() implies m1.dom().contains(#[trigger] r@[j2].0@)
                                && m1[r@[j2].0@] == r@[j2].1 by {
                                if j2 != j {
                                    assert(r@[j2].0@ != key);
                                }
                            }
                            assert forall|k: Seq<char>|
                                #[trigger] m1.dom().contains(k) implies exists|j2: int|
                                0 <= j2 < r@.len() && #[trigger] r@[j2].0@ == k by {
                                if k == key {
                                    assert(r@[j as int].0@ == k);
                                } else {
                                    assert(m0.dom().contains(k));
                                    let j2 = choose|j2: int|
                                        0 <= j2 < r0.len() && #[trigger] r0[j2].0@ == k;
                                    assert(r@[j2].0@ == k);
                                }
                            }
                        }
                    },
                    None => {
                        let ghost r0 = r@;
                        r.push((host, online));
                        proof {
                            let nl = r@.len() as int;
                            assert forall|k: Seq<char>|
                                #[trigger] m1.dom().contains(k) implies exists|j2: int|
                                0 <= j2 < r@.len() && #[trigger] r@[j2].0@ == k by {
                                if k == key {
                                    assert(r@[nl - 1].0@ == k);
                                } else {
                                    assert(m0.dom().contains(k));
                                    let j2 = choose|j2: int|
                                        0 <= j2 < r0.len() && #[trigger] r0[j2].0@ == k;
                                    assert(r@[j2].0@ == k);
                                }
                            }
                        }
                    },
                }
            },
            None => {
                proof {
                    assert(m1 == m0);
                }
            },
        }
        i = i + 1;
    }
    proof {
        assert(outcomes@.take(i as int) =~= outcomes@);
    }
    r
}

} // verus!
