//! Which processes a directory listing of `/proc` names, and which of them
//! have to be read.

use std::collections::HashSet;
use vstd::prelude::*;

use crate::info::ProcessInfo;
use crate::text;
use crate::text::{format_u64, parse_u32};

verus! {

broadcast use vstd::std_specs::hash::group_hash_axioms;

/// The result of an incremental scan.
#[derive(Debug)]
pub struct ScanResult {
    /// The processes that were not known before.
    pub new_processes: Vec<ProcessInfo>,
    /// Every pid that exists right now.
    pub live_pids: HashSet<u32>,
}

impl Default for ScanResult {
    fn default() -> (r: ScanResult)
        ensures
            r.new_processes@.len() == 0,
            r.live_pids@ == Set::<u32>::empty(),
    {
        ScanResult { new_processes: Vec::new(), live_pids: HashSet::new() }
    }
}

/// What an incremental scan has to do: the pids to read, and every pid that
/// exists.
#[derive(Debug)]
pub struct ScanPlan {
    pub to_read: Vec<u32>,
    pub live_pids: HashSet<u32>,
}

/// The pid that a directory name stands for.
pub open spec fn pid_of(name: Seq<char>) -> Option<nat> {
    text::unsigned_value(name, u32::MAX as nat)
}

/// The pids that the first `n` names stand for, in order.
pub open spec fn pids_named(names: Seq<Seq<char>>, n: nat) -> Seq<u32>
    decreases n,
{
    if n == 0 {
        Seq::empty()
    } else {
        let done = pids_named(names, (n - 1) as nat);
        match pid_of(names[n - 1]) {
            Some(pid) => done.push(pid as u32),
            None => done,
        }
    }
}

/// The pids of a sequence that are not in `known`, in order.
pub open spec fn unknown_pids(pids: Seq<u32>, known: Set<u32>) -> Seq<u32>
    decreases pids.len(),
{
    if pids.len() == 0 {
        Seq::empty()
    } else {
        let done = unknown_pids(pids.drop_last(), known);
        if known.contains(pids.last()) {
            done
        } else {
            done.push(pids.last())
        }
    }
}

/// The pids to read in a full scan: one for every numeric name.
pub fn scan_proc(names: &Vec<String>) -> (r: Vec<u32>)
    ensures
        r@ == pids_named(text::texts(names@), names@.len()),
{
    let mut r: Vec<u32> = Vec::new();
    let mut i: usize = 0;
    while i < names.len()
        invariant
            i <= names@.len(),
            r@ == pids_named(text::texts(names@), i as nat),
        decreases names@.len() - i,
    {
        assert(text::texts(names@)[i as int] == names@[i as int]@);
        match parse_u32(names[i].as_str()) {
            Some(pid) => {
                r.push(pid);
            },
            None => {},
        }
        i = i + 1;
    }
    r
}

/// The pids to read in an incremental scan: those that are not known yet.
///
/// Every pid of the listing is live, whether it has to be read or not.
pub fn scan_proc_incremental(names: &Vec<String>, known_pids: &HashSet<u32>) -> (r: ScanPlan)
    ensures
        r.live_pids@ == pids_named(text::texts(names@), names@.len()).to_set(),
        r.to_read@ == unknown_pids(
            pids_named(text::texts(names@), names@.len()),
            known_pids@,
        ),
{
    let listed = scan_proc(names);
    let mut to_read: Vec<u32> = Vec::new();
    let mut live: HashSet<u32> = HashSet::new();
    let mut i: usize = 0;
    assert(live@ =~= listed@.take(0).to_set());
    while i < listed.len()
        invariant
            i <= listed@.len(),
            live@ == listed@.take(i as int).to_set(),
            to_read@ == unknown_pids(listed@.take(i as int), known_pids@),
        decreases listed@.len() - i,
    {
        let pid: u32 = listed[i];
        let ghost now = listed@.take(i + 1);
        assert(now.drop_last() =~= listed@.take(i as int));
        live.insert(pid);
        assert(live@ =~= now.to_set()) by {
            assert(now =~= listed@.take(i as int).push(pid));
            assert forall|p: u32| now.to_set().contains(p) implies live@.contains(p) by {
                let k = choose|k: int| 0 <= k < now.len() && now[k] == p;
                if k < i {
                    assert(listed@.take(i as int)[k] == p);
                }
            }
            assert forall|p: u32| live@.contains(p) implies now.to_set().contains(p) by {
                if p == pid {
                    assert(now[i as int] == p);
                } else {
                    let before = listed@.take(i as int);
                    let k = choose|k: int| 0 <= k < before.len() && before[k] == p;
                    assert(now[k] == p);
                }
            }
        }
        if !known_pids.contains(&pid) {
            to_read.push(pid);
        }
        i = i + 1;
    }
    assert(listed@.take(listed@.len() as int) =~= listed@);
    ScanPlan { to_read, live_pids: live }
}

/// The directory whose existence says that a process is alive.
pub fn pid_path(pid: u32) -> (r: String)
    ensures
        r@ == "/proc/"@ + text::decimal(pid as nat),
{
    let mut path: String = String::new();
    path.append("/proc/");
    let digits = format_u64(pid as u64);
    path.append(digits.as_str());
    assert(path@ =~= "/proc/"@ + text::decimal(pid as nat));
    path
}

/// An incremental scan reads exactly the live processes that were not known.
pub proof fn scan_reads_unknown(pids: Seq<u32>, known: Set<u32>, pid: u32)
    ensures
        unknown_pids(pids, known).contains(pid) <==> pids.to_set().contains(pid)
            && !known.contains(pid),
    decreases pids.len(),
{
    if pids.len() > 0 {
        let init = pids.drop_last();
        scan_reads_unknown(init, known, pid);
        assert(pids =~= init.push(pids.last()));
        let done = unknown_pids(init, known);
        assert(pids.contains(pid) <==> init.contains(pid) || pids.last() == pid) by {
            if init.contains(pid) {
                let k = choose|k: int| 0 <= k < init.len() && init[k] == pid;
                assert(pids[k] == pid);
            }
            if pids.last() == pid {
                assert(pids[pids.len() - 1] == pid);
            }
        }
        let next = done.push(pids.last());
        assert(next.contains(pid) <==> done.contains(pid) || pids.last() == pid) by {
            if done.contains(pid) {
                let k = choose|k: int| 0 <= k < done.len() && done[k] == pid;
                assert(next[k] == pid);
            }
            if pids.last() == pid {
                assert(next[next.len() - 1] == pid);
            }
        }
    }
}

/// The processes are the names that are numbers, in the order they were found.
pub proof fn numbers_are_processes(names: Seq<Seq<char>>, n: nat, pid: u32)
    requires
        0 < n <= names.len(),
    ensures
        pids_named(names, 0).len() == 0,
        names[n - 1] == text::decimal(pid as nat) ==> pids_named(names, n) == pids_named(
            names,
            (n - 1) as nat,
        ).push(pid),
        text::unsigned_value(names[n - 1], 0xffff_ffff) is None ==> pids_named(names, n)
            == pids_named(names, (n - 1) as nat),
        (exists|i: int| 0 <= i < n && #[trigger] names[i] == text::decimal(pid as nat))
            ==> pids_named(names, n).contains(pid),
    decreases n,
{
    text::reading_undoes_writing(pid as nat, u32::MAX as nat);
    let done = pids_named(names, (n - 1) as nat);
    if exists|i: int| 0 <= i < n && #[trigger] names[i] == text::decimal(pid as nat) {
        let i = choose|i: int| 0 <= i < n && #[trigger] names[i] == text::decimal(pid as nat);
        if i == n - 1 {
            assert(done.push(pid)[done.len() as int] == pid);
        } else {
            numbers_are_processes(names, (n - 1) as nat, pid);
            assert(done.contains(pid));
            let k = choose|k: int| 0 <= k < done.len() && done[k] == pid;
            assert(pids_named(names, n)[k] == pid);
        }
    }
}

/// What is read anew is in the order of the scan, and known processes are left
/// out.
pub proof fn only_unknown_are_read(pids: Seq<u32>, pid: u32, known: Set<u32>)
    ensures
        unknown_pids(Seq::empty(), known).len() == 0,
        known.contains(pid) ==> unknown_pids(pids.push(pid), known) == unknown_pids(pids, known),
        !known.contains(pid) ==> unknown_pids(pids.push(pid), known) == unknown_pids(
            pids,
            known,
        ).push(pid),
{
    assert(pids.push(pid).drop_last() =~= pids);
}

} // verus!
