use std::collections::HashSet;

use ulatencyd::info::{ProcessInfo, SchedPolicy, SessionOrigin};
use ulatencyd::process_table::ProcessTable;
use ulatencyd::rules::Action;

fn proc(pid: u32, ppid: u32, comm: &str) -> ProcessInfo {
    ProcessInfo {
        pid,
        ppid,
        uid: 1000,
        gid: 1000,
        comm: comm.to_string(),
        cmdline: vec![],
        exe: None,
        threads: 1,
        vm_rss_kb: 0,
        sched_policy: SchedPolicy::Normal,
        nice: 0,
        cgroup_path: None,
        session_origin: SessionOrigin::Unknown,
        is_kernel_thread: false,
        environ: vec![],
    }
}

fn sorted(mut v: Vec<u32>) -> Vec<u32> {
    v.sort();
    v
}

#[test]
fn reinserting_moves_the_edge_and_keeps_the_original_cgroup() {
    let mut t = ProcessTable::new();
    t.insert(proc(2, 1, "a"));
    t.set_original_cgroup(2, "/first".to_string());
    t.set_original_cgroup(2, "/second".to_string());
    t.mark_classified(2);
    assert_eq!(t.children_of(1), [2]);
    t.insert(proc(2, 9, "b"));
    assert!(t.children_of(1).is_empty());
    assert_eq!(t.children_of(9), [2]);
    let e = t.get(2).unwrap();
    assert_eq!(e.original_cgroup.as_deref(), Some("/first"));
    assert_eq!(e.info.comm, "b");
    assert!(!e.classified);
}

#[test]
fn removing_drops_both_edges() {
    let mut t = ProcessTable::default();
    t.insert(proc(2, 1, "a"));
    t.insert(proc(3, 2, "b"));
    t.remove(2);
    assert!(t.get(2).is_none());
    assert!(t.children_of(1).is_empty());
    assert!(t.children_of(2).is_empty());
    assert!(t.get(3).is_some());
    t.remove(77);
    assert_eq!(sorted(t.pids()), [3]);
}

#[test]
fn flags_are_set_and_reset() {
    let mut t = ProcessTable::new();
    t.insert(proc(2, 1, "a"));
    assert_eq!(t.unclassified_pids(), [2]);
    t.mark_classified(2);
    assert!(t.unclassified_pids().is_empty());
    t.set_applied(2, Action { cgroup: Some("idle".to_string()), ..Default::default() }, 0);
    assert!(t.get(2).unwrap().applied.is_some());
    t.mark_classified_false(2);
    assert_eq!(t.unclassified_pids(), [2]);
    assert!(t.get(2).unwrap().applied.is_none());
    t.mark_classified(99);
    assert!(t.get(99).is_none());
}

#[test]
fn rechecks_expire() {
    let mut t = ProcessTable::new();
    t.insert(proc(2, 1, "a"));
    t.insert(proc(3, 1, "b"));
    t.set_applied(2, Action { recheck_secs: Some(2), ..Default::default() }, 500);
    t.set_applied(3, Action::default(), 500);
    assert_eq!(t.get(2).unwrap().recheck_at, Some(2_000_000_500));
    assert!(t.expired_rechecks(2_000_000_499).is_empty());
    assert_eq!(t.expired_rechecks(2_000_000_500), [2]);
    t.set_applied(2, Action { recheck_secs: Some(u64::MAX), ..Default::default() }, u64::MAX);
    assert!(t.expired_rechecks(u64::MAX).is_empty());
}

#[test]
fn ancestors_are_listed_nearest_first() {
    let mut t = ProcessTable::new();
    t.insert(proc(1, 0, "init"));
    t.insert(proc(2, 1, "a"));
    t.insert(proc(3, 2, "b"));
    t.insert(proc(4, 3, "c"));
    t.insert(proc(8, 99, "orphan"));
    assert_eq!(t.ancestor_comms(4, 10), ["b", "a", "init"]);
    assert_eq!(t.ancestor_comms(4, 2), ["b", "a"]);
    assert!(t.ancestor_comms(8, 10).is_empty());
    assert!(t.ancestor_comms(50, 10).is_empty());
}

#[test]
fn scan_adds_new_and_drops_dead_processes() {
    let mut t = ProcessTable::new();
    t.insert(proc(2, 1, "kept"));
    t.mark_classified(2);
    t.insert(proc(3, 2, "dead"));
    let live: HashSet<u32> = [2, 4].into_iter().collect();
    t.merge_scan(vec![proc(2, 9, "ignored"), proc(4, 2, "new")], &live);
    assert_eq!(t.get(2).unwrap().info.comm, "kept");
    assert!(t.get(2).unwrap().classified);
    assert!(t.get(3).is_none());
    assert!(!t.get(4).unwrap().classified);
    assert_eq!(t.children_of(2), [4]);
    assert_eq!(t.known_pids(), live);
}

#[test]
fn moved_processes_are_listed_with_their_origin() {
    let mut t = ProcessTable::new();
    t.insert(proc(2, 1, "a"));
    t.insert(proc(3, 1, "b"));
    t.insert(proc(4, 1, "c"));
    t.set_original_cgroup(2, "/x".to_string());
    t.set_applied(2, Action { cgroup: Some("idle".to_string()), ..Default::default() }, 0);
    t.set_applied(3, Action { nice: Some(1), ..Default::default() }, 0);
    t.set_applied(4, Action { cgroup: Some("rt".to_string()), ..Default::default() }, 0);
    let mut m = t.moved_pids();
    m.sort();
    assert_eq!(m, [(2, Some("/x".to_string())), (4, None)]);
}
