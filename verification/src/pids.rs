//! Lists of the members of hash tables that are keyed by pid.

use std::collections::{HashMap, HashSet};
use vstd::prelude::*;

verus! {

broadcast use vstd::std_specs::hash::group_hash_axioms;

/// The members of a set, each once. Their order is open.
pub fn members(s: &HashSet<u32>) -> (r: Vec<u32>)
    ensures
        r@.no_duplicates(),
        forall|p: u32| r@.contains(p) <==> s@.contains(p),
{
    let mut r: Vec<u32> = Vec::new();
    for pid in it: s.iter()
        invariant
            it.seq().unref().to_set() == s@,
            it.seq().no_duplicates(),
            r@ == it.seq().unref().take(it.index()),
            r@.no_duplicates(),
            forall|p: u32| r@.contains(p) ==> s@.contains(p),
            forall|p: u32|
                s@.contains(p) ==> r@.contains(p) || exists|k: int|
                    it.index() <= k < it.seq().len() && *#[trigger] it.seq()[k] == p,
    {
        let ghost all = it.seq().unref();
        let ghost at = it.index();
        let ghost before = r@;
        r.push(*pid);
        proof {
            assert(all[at] == *pid);
            assert(r@ =~= all.take(at + 1));
            assert(all.to_set().contains(*pid));
            assert forall|p: u32| s@.contains(p) implies r@.contains(p) || exists|k: int|
                at + 1 <= k < it.seq().len() && *#[trigger] it.seq()[k] == p by {
                if before.contains(p) {
                    let k = choose|k: int| 0 <= k < before.len() && before[k] == p;
                    assert(r@[k] == p);
                } else {
                    let k = choose|k: int|
                        at <= k < it.seq().len() && *#[trigger] it.seq()[k] == p;
                    if k == at {
                        assert(r@[at] == p);
                    }
                }
            }
        }
    }
    r
}

/// The keys of a map, each once. Their order is open.
pub fn keys<V>(m: &HashMap<u32, V>) -> (r: Vec<u32>)
    ensures
        r@.no_duplicates(),
        forall|p: u32| r@.contains(p) <==> m@.dom().contains(p),
{
    let mut r: Vec<u32> = Vec::new();
    for pid in it: m.keys()
        invariant
            it.seq().unref().to_set() == m@.dom(),
            it.seq().no_duplicates(),
            r@ == it.seq().unref().take(it.index()),
            r@.no_duplicates(),
            forall|p: u32| r@.contains(p) ==> m@.dom().contains(p),
            forall|p: u32|
                m@.dom().contains(p) ==> r@.contains(p) || exists|k: int|
                    it.index() <= k < it.seq().len() && *#[trigger] it.seq()[k] == p,
    {
        let ghost all = it.seq().unref();
        let ghost at = it.index();
        let ghost before = r@;
        r.push(*pid);
        proof {
            assert(all[at] == *pid);
            assert(r@ =~= all.take(at + 1));
            assert(all.to_set().contains(*pid));
            assert forall|p: u32| m@.dom().contains(p) implies r@.contains(p) || exists|k: int|
                at + 1 <= k < it.seq().len() && *#[trigger] it.seq()[k] == p by {
                if before.contains(p) {
                    let k = choose|k: int| 0 <= k < before.len() && before[k] == p;
                    assert(r@[k] == p);
                } else {
                    let k = choose|k: int|
                        at <= k < it.seq().len() && *#[trigger] it.seq()[k] == p;
                    if k == at {
                        assert(r@[at] == p);
                    }
                }
            }
        }
    }
    r
}

} // verus!
