use std::collections::HashSet;

use ulatencyd::applier::Effect;
use ulatencyd::cgroupv2::CgroupTier;
use ulatencyd::focus::{collect_tree, find_app_root, is_session_root, ForegroundTracker};
use ulatencyd::info::{ProcessInfo, SchedPolicy, SessionOrigin};
use ulatencyd::process_table::ProcessTable;

fn proc(pid: u32, ppid: u32, comm: &str) -> ProcessInfo {
    ProcessInfo {
        pid,
        ppid,
        uid: 1000,
        gid: 1000,
        comm: comm.to_string(),
        cmdline: vec![],
        exe: None,
        threads: 1,
        vm_rss_kb: 0,
        sched_policy: SchedPolicy::Normal,
        nice: 0,
        cgroup_path: None,
        session_origin: SessionOrigin::Unknown,
        is_kernel_thread: false,
        environ: vec![],
    }
}

fn desktop() -> ProcessTable {
    let mut t = ProcessTable::new();
    t.insert(proc(100, 1, "sway"));
    t.insert(proc(200, 100, "alacritty"));
    t.insert(proc(201, 200, "bash"));
    t.insert(proc(202, 201, "make"));
    t.insert(proc(300, 100, "firefox"));
    t.insert(proc(301, 300, "Web Content"));
    t
}

fn sorted(s: &HashSet<u32>) -> Vec<u32> {
    let mut v: Vec<u32> = s.iter().copied().collect();
    v.sort();
    v
}

fn sorted_vec(v: &[u32]) -> Vec<u32> {
    let mut v = v.to_vec();
    v.sort();
    v
}

#[test]
fn session_root_detection() {
    assert!(is_session_root("sway"));
    assert!(is_session_root("dbus-run-session"));
    assert!(is_session_root("Xorg"));
    assert!(!is_session_root("firefox"));
    assert!(!is_session_root("alacritty"));
}

#[test]
fn app_root_is_the_topmost_process_below_the_session() {
    let t = desktop();
    assert_eq!(find_app_root(202, &t), Some(200));
    assert_eq!(find_app_root(200, &t), Some(200));
    assert_eq!(find_app_root(100, &t), None);
    assert_eq!(find_app_root(999, &t), Some(999));
}

#[test]
fn walk_up_stops_below_the_realtime_tier() {
    let mut t = ProcessTable::new();
    let mut audio = proc(10, 1, "pipewire");
    audio.cgroup_path = Some("/system.slice/ulatencyd.service/rt".to_string());
    t.insert(audio);
    t.insert(proc(11, 10, "helper"));
    assert_eq!(find_app_root(11, &t), Some(11));
}

#[test]
fn walk_up_stops_at_a_cycle() {
    let mut t = ProcessTable::new();
    t.insert(proc(10, 12, "a"));
    t.insert(proc(11, 10, "b"));
    t.insert(proc(12, 11, "c"));
    assert_eq!(find_app_root(10, &t), Some(11));
    let mut own = ProcessTable::new();
    own.insert(proc(7, 7, "x"));
    assert_eq!(find_app_root(7, &own), Some(7));
}

#[test]
fn tree_holds_all_descendants() {
    let t = desktop();
    assert_eq!(sorted(&collect_tree(200, &t)), [200, 201, 202]);
    assert_eq!(sorted(&collect_tree(999, &t)), [999]);
    assert_eq!(sorted(&collect_tree(100, &t)), [100, 200, 201, 202, 300, 301]);
}

#[test]
fn foreground_moves_between_applications() {
    let t = desktop();
    let mut f = ForegroundTracker::new();
    let c = f.set_foreground(202, &t).unwrap();
    assert_eq!(sorted_vec(&c.promote), [200, 201, 202]);
    assert!(c.demote.is_empty());
    assert!(f.is_foreground(201));
    assert!(!f.is_foreground(300));

    let c = f.set_foreground(300, &t).unwrap();
    assert_eq!(sorted_vec(&c.promote), [300, 301]);
    assert_eq!(sorted_vec(&c.demote), [200, 201, 202]);
    assert!(c.release.is_empty());
    let e = c.effects();
    assert_eq!(e.len(), 10);
    assert_eq!(e[0], Effect::Nice { pid: c.demote[0], nice: 0 });
    assert_eq!(e[1], Effect::Assign { pid: c.demote[0], tier: CgroupTier::System });
    assert_eq!(e[6], Effect::Nice { pid: c.promote[0], nice: -5 });
    assert_eq!(e[7], Effect::Assign { pid: c.promote[0], tier: CgroupTier::Interactive });
}

#[test]
fn session_roots_do_not_come_to_the_front() {
    let mut t = desktop();
    let mut f = ForegroundTracker::new();
    assert!(f.set_foreground(100, &t).is_none());
    assert!(f.set_foreground(999, &t).is_none());
    t.insert(proc(203, 200, "Xwayland"));
    let c = f.set_foreground(200, &t).unwrap();
    assert!(!c.promote.contains(&203));
}

#[test]
fn a_process_that_became_a_session_root_is_not_moved() {
    let mut t = desktop();
    let mut f = ForegroundTracker::new();
    f.set_foreground(200, &t).unwrap();
    t.insert(proc(201, 200, "weston"));
    let c = f.set_foreground(300, &t).unwrap();
    assert_eq!(c.release, [201]);
    assert_eq!(sorted_vec(&c.demote), [200, 202]);
    let e = c.effects();
    assert_eq!(e[0], Effect::Nice { pid: 201, nice: 0 });
    for x in &e {
        if let Effect::Assign { pid, .. } = x {
            assert_ne!(*pid, 201);
        }
    }
}

#[test]
fn exit_leaves_the_foreground() {
    let t = desktop();
    let mut f = ForegroundTracker::new();
    f.set_foreground(300, &t).unwrap();
    assert_eq!(f.on_exit(301), Some(Effect::Nice { pid: 301, nice: 0 }));
    assert_eq!(f.on_exit(301), None);
    assert!(!f.is_foreground(301));
    assert!(f.is_foreground(300));
}
