use ulatencyd::applier::Effect;
use ulatencyd::cgroupv2::CgroupTier;
use ulatencyd::forkbomb::{ForkBombDetector, ForkWindow};
use ulatencyd::info::{ProcessInfo, SchedPolicy, SessionOrigin};
use ulatencyd::process_table::ProcessTable;

const SECOND: u64 = 1_000_000_000;

fn proc(pid: u32, ppid: u32) -> ProcessInfo {
    ProcessInfo {
        pid,
        ppid,
        uid: 1000,
        gid: 1000,
        comm: "x".to_string(),
        cmdline: vec![],
        exe: None,
        threads: 1,
        vm_rss_kb: 0,
        sched_policy: SchedPolicy::Normal,
        nice: 0,
        cgroup_path: None,
        session_origin: SessionOrigin::Unknown,
        is_kernel_thread: false,
        environ: vec![],
    }
}

#[test]
fn more_than_the_threshold_within_a_second_is_reported_once() {
    let mut d = ForkBombDetector::new(3, 5);
    assert_eq!(d.record_fork(7, 0), None);
    assert_eq!(d.record_fork(7, SECOND / 2), None);
    assert_eq!(d.record_fork(7, SECOND), None);
    assert_eq!(d.record_fork(7, SECOND), Some(7));
    assert_eq!(d.record_fork(7, SECOND), None);
    assert_eq!(d.record_fork(8, SECOND), None);
    assert_eq!(d.fork_rate(7, SECOND), 4);
    assert_eq!(d.fork_rate(9, SECOND), 0);
}

#[test]
fn forks_older_than_a_second_do_not_count() {
    let mut w = ForkWindow::new(2);
    assert!(!w.record(0));
    assert!(!w.record(SECOND + 1));
    assert!(!w.record(2 * SECOND + 1));
    assert_eq!(w.rate(2 * SECOND + 1), 2);
    assert_eq!(w.rate(2 * SECOND + 2), 1);
    assert!(w.record(2 * SECOND + 1));
}

#[test]
fn cold_parents_are_forgotten_and_can_be_reported_again() {
    let mut d = ForkBombDetector::new(1, 5);
    assert_eq!(d.record_fork(7, 0), None);
    assert_eq!(d.record_fork(7, 0), Some(7));
    d.gc(10 * SECOND);
    assert_eq!(d.record_fork(7, 10 * SECOND), None);
    d.gc(10 * SECOND + 1);
    d.gc(10 * SECOND + 1);
    assert_eq!(d.record_fork(7, 10 * SECOND + 1), None);
    assert_eq!(d.record_fork(7, 10 * SECOND + 1), Some(7));
}

#[test]
fn subtree_is_collected_level_by_level() {
    let mut t = ProcessTable::new();
    t.insert(proc(10, 1));
    t.insert(proc(11, 10));
    t.insert(proc(12, 10));
    t.insert(proc(13, 11));
    t.insert(proc(14, 13));
    let d = ForkBombDetector::new(1, 2);
    assert_eq!(d.collect_subtree(10, &t, 0), [10]);
    let mut one = d.collect_subtree(10, &t, 1);
    assert_eq!(one[0], 10);
    one.sort();
    assert_eq!(one, [10, 11, 12]);
    let two = d.collect_subtree(10, &t, 2);
    assert_eq!(two[0], 10);
    assert_eq!(two[3], 13);
    assert_eq!(d.collect_subtree(10, &t, 9).len(), 5);
    assert_eq!(d.collect_subtree(77, &t, 9), [77]);

    let e = d.throttle_subtree(10, &t);
    assert_eq!(e.len(), 4);
    assert_eq!(e[3], Effect::Assign { pid: 13, tier: CgroupTier::Swapstorm });
}

#[test]
fn a_process_that_is_its_own_parent_occurs_on_every_level() {
    let mut t = ProcessTable::new();
    t.insert(proc(5, 5));
    let d = ForkBombDetector::new(1, 2);
    assert_eq!(d.collect_subtree(5, &t, 2), [5, 5, 5]);
}
