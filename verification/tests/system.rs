use ulatencyd::applier::{
    apply_action, apply_cgroup_only, read_current_cgroup, restore_cgroup, set_oom_score_adj,
    set_sched_policy, Effect,
};
use ulatencyd::cgroupv2::{
    all_tiers, detect_sched_ext, read_available_controllers, setup_direct_root, Cgroup,
    CgroupManager, CgroupTier, KnobWrite,
};
use ulatencyd::init::{InitSystem, Notice, RunDirs, Supervisor, SupervisorNotify};
use ulatencyd::psi::{
    poll_timeout_ms, read_psi_into, run_monitor, trigger_reports, trigger_text, MonitorStep,
    PressureLevel, TriggerReport, EINTR, POLLERR, POLLHUP, POLLPRI, WINDOW_US,
};
use ulatencyd::rules::Action;
use ulatencyd::sched::{
    apply_sched_profile, conservative, detect_power_state_sysfs, monitor_power_state,
    preempt_model_path, probe_preempt_model_switchable, profile_for, responsive, write_sysctl,
    AutogroupGuard, PowerState, PowerSupply,
};
use ulatencyd::setup::{
    delegated_candidates, read_delegated_cgroup, setup_cgroup_root, write_pid_file, RootChoice,
};

fn knob(path: &str, value: &str) -> KnobWrite {
    KnobWrite { path: path.to_string(), value: value.to_string() }
}

#[test]
fn tier_names_are_read_back() {
    for tier in all_tiers() {
        assert_eq!(CgroupTier::from_str(tier.dir_name()), Some(tier));
    }
    assert_eq!(CgroupTier::from_str("RT"), None);
    assert_eq!(CgroupTier::from_str(""), None);
    assert_eq!(all_tiers().len(), 6);
}

#[test]
fn knobs_of_a_cgroup() {
    let c = Cgroup { path: "/cg".to_string() };
    assert_eq!(c.assign_pid(42), knob("/cg/cgroup.procs", "42\n"));
    assert_eq!(c.kill_all(), knob("/cg/cgroup.kill", "1"));
    assert_eq!(c.set_cpu_weight(0), knob("/cg/cpu.weight", "1\n"));
    assert_eq!(c.set_cpu_weight(20000), knob("/cg/cpu.weight", "10000\n"));
    assert_eq!(c.set_io_weight(77), knob("/cg/io.weight", "77\n"));
    assert_eq!(c.set_cpu_max(1, 2), knob("/cg/cpu.max", "1 2\n"));
    assert_eq!(c.set_memory_high(5), knob("/cg/memory.high", "5\n"));
    assert_eq!(c.set_oom_group(false), knob("/cg/memory.oom.group", "0\n"));
    assert_eq!(Cgroup::pids("1\n2\nx\n 3 \n"), [1, 2, 3]);
}

#[test]
fn tiers_are_configured() {
    let m = CgroupManager::new("/cg".to_string(), "cpuset cpu io memory pids\n", false);
    assert_eq!(m.controllers, ["cpuset", "cpu", "io", "memory", "pids"]);
    let s = m.create_and_configure_tiers();
    assert_eq!(s.len(), 6);
    assert_eq!(s[0].dir, "/cg/rt");
    assert_eq!(
        s[0].writes,
        [
            knob("/cg/rt/cpu.weight", "9000\n"),
            knob("/cg/rt/io.weight", "9000\n"),
            knob("/cg/rt/memory.oom.group", "1\n"),
        ]
    );
    assert_eq!(s[1].writes, [knob("/cg/interactive/cpu.weight", "5000\n")]);
    assert_eq!(s[2].writes, [knob("/cg/system/cpu.weight", "2000\n")]);
    assert_eq!(
        s[3].writes,
        [
            knob("/cg/background/cpu.weight", "500\n"),
            knob("/cg/background/io.weight", "100\n")
        ]
    );
    assert_eq!(
        s[4].writes,
        [knob("/cg/idle/cpu.weight", "100\n"), knob("/cg/idle/memory.high", "268435456\n")]
    );
    assert_eq!(
        s[5].writes,
        [
            knob("/cg/swapstorm/cpu.weight", "50\n"),
            knob("/cg/swapstorm/memory.max", "134217728\n"),
            knob("/cg/swapstorm/memory.swap.max", "0\n"),
            knob("/cg/swapstorm/memory.oom.group", "1\n"),
        ]
    );
    assert_eq!(
        m.setup_hierarchy(),
        Some(knob("/cg/cgroup.subtree_control", "+cpu +memory +io +cpuset"))
    );
}

#[test]
fn a_bpf_scheduler_keeps_cpu_weights() {
    let m = CgroupManager::new("/cg".to_string(), "io", true);
    for tier in m.create_and_configure_tiers() {
        assert!(tier.writes.iter().all(|w| !w.path.ends_with("cpu.weight")));
    }
    assert_eq!(m.setup_hierarchy(), Some(knob("/cg/cgroup.subtree_control", "+io")));
    let none = CgroupManager::new("/cg".to_string(), "pids", false);
    assert_eq!(none.setup_hierarchy(), None);
    assert!(detect_sched_ext(Some("enabled\n")));
    assert!(!detect_sched_ext(Some("disabled\n")));
    assert!(!detect_sched_ext(None));
}

#[test]
fn hierarchy_comes_and_goes() {
    let m = CgroupManager::new("/cg".to_string(), "", false);
    assert_eq!(m.assign_pid(Some(CgroupTier::Idle), 5), knob("/cg/idle/cgroup.procs", "5\n"));
    assert_eq!(m.assign_pid(None, 5), knob("/cg/cgroup.procs", "5\n"));
    let t = m.teardown(&vec![1, 2]);
    assert_eq!(t.moves, [knob("/cg/cgroup.procs", "1\n"), knob("/cg/cgroup.procs", "2\n")]);
    assert_eq!(t.dirs[5], "/cg/swapstorm");
    let listings = vec![
        Some("".to_string()),
        None,
        Some("7\n".to_string()),
        Some("\n".to_string()),
        None,
        None,
    ];
    assert_eq!(
        m.gc_empty_cgroups(&listings),
        ["/cg/rt", "/cg/background"]
    );
    let d = setup_direct_root();
    assert_eq!(d.root, "/sys/fs/cgroup/ulatencyd");
    assert_eq!(d.writes[1], knob("/sys/fs/cgroup/cgroup.subtree_control", "+memory\n"));
    assert_eq!(read_available_controllers("a  b\n"), ["a", "b"]);
}

#[test]
fn actions_become_effects() {
    let a = Action {
        cgroup: Some("rt".to_string()),
        nice: Some(-10),
        sched_policy: Some("fifo".to_string()),
        sched_priority: Some(80),
        oom_score_adj: Some(-900),
        ..Default::default()
    };
    let p = apply_action(5, &a);
    assert!(p.valid);
    assert_eq!(
        p.effects,
        [
            Effect::Assign { pid: 5, tier: CgroupTier::Rt },
            Effect::Nice { pid: 5, nice: -10 },
            Effect::Sched { pid: 5, policy: 1, priority: 80 },
            Effect::Oom { pid: 5, adj: -900 },
        ]
    );
    assert_eq!(apply_cgroup_only(6, &a).effects, [Effect::Assign { pid: 6, tier: CgroupTier::Rt }]);
    let bad = Action {
        cgroup: Some("fast".to_string()),
        sched_policy: Some("turbo".to_string()),
        nice: Some(1),
        ..Default::default()
    };
    let p = apply_action(5, &bad);
    assert!(!p.valid);
    assert_eq!(p.effects, [Effect::Nice { pid: 5, nice: 1 }]);
    assert!(apply_action(5, &Action::default()).valid);
}

#[test]
fn policies_and_their_priorities() {
    assert_eq!(set_sched_policy("normal", 9), Some((libc::SCHED_OTHER, 0)));
    assert_eq!(set_sched_policy("other", 9), Some((libc::SCHED_OTHER, 0)));
    assert_eq!(set_sched_policy("batch", 9), Some((libc::SCHED_BATCH, 0)));
    assert_eq!(set_sched_policy("idle", 9), Some((libc::SCHED_IDLE, 0)));
    assert_eq!(set_sched_policy("fifo", 0), Some((libc::SCHED_FIFO, 1)));
    assert_eq!(set_sched_policy("rr", 255), Some((libc::SCHED_RR, 99)));
    assert_eq!(set_sched_policy("round_robin", 42), Some((libc::SCHED_RR, 42)));
    assert_eq!(set_sched_policy("deadline", 1), None);
}

#[test]
fn writes_of_the_applier() {
    assert_eq!(set_oom_score_adj(3, -5000), knob("/proc/3/oom_score_adj", "-1000\n"));
    assert_eq!(set_oom_score_adj(3, 5000), knob("/proc/3/oom_score_adj", "1000\n"));
    assert_eq!(set_oom_score_adj(3, 7), knob("/proc/3/oom_score_adj", "7\n"));
    assert_eq!(
        restore_cgroup(9, "/user.slice/x"),
        knob("/sys/fs/cgroup/user.slice/x/cgroup.procs", "9\n")
    );
    assert_eq!(read_current_cgroup("0::/a\n").as_deref(), Some("/a"));
}

#[test]
fn pressure_levels() {
    assert_eq!(PressureLevel::from_memory(false, false, false), PressureLevel::Normal);
    assert_eq!(PressureLevel::from_memory(false, false, true), PressureLevel::Low);
    assert_eq!(PressureLevel::from_memory(false, true, true), PressureLevel::High);
    assert_eq!(PressureLevel::from_memory(true, true, true), PressureLevel::Critical);
    assert!(PressureLevel::Low < PressureLevel::Critical);
    assert_eq!(PressureLevel::Critical.rank(), 3);
    assert_eq!(PressureLevel::Normal.rank(), 0);
}

#[test]
fn pressure_files_are_parsed() {
    let t = read_psi_into(
        "some avg10=1.50 avg60=0.20 avg300=0.03 total=9\nfull avg10=0.10 avg60=x total=1\nodd avg10=9\n\n",
    );
    assert_eq!(t.some.avg10.as_deref(), Some("1.50"));
    assert_eq!(t.some.avg60.as_deref(), Some("0.20"));
    assert_eq!(t.some.avg300.as_deref(), Some("0.03"));
    assert_eq!(t.full.avg10.as_deref(), Some("0.10"));
    assert_eq!(t.full.avg60.as_deref(), Some("x"));
    assert_eq!(t.full.avg300, None);
    let again = read_psi_into("some avg10=1 avg10=2\nsome avg60=3\n");
    assert_eq!(again.some.avg10, None);
    assert_eq!(again.some.avg60.as_deref(), Some("3"));
    let last = read_psi_into("some avg10=1 avg10=2");
    assert_eq!(last.some.avg10.as_deref(), Some("2"));
}

#[test]
fn pressure_monitor_steps() {
    assert_eq!(trigger_text(400000, WINDOW_US), "some 400000 1000000\0");
    assert_eq!(poll_timeout_ms(0), 1);
    assert_eq!(poll_timeout_ms(3000), 3000);
    assert_eq!(poll_timeout_ms(u64::MAX), i32::MAX);
    assert_eq!(run_monitor(0, 0, 5), MonitorStep::Read);
    assert_eq!(run_monitor(2, 0, 5), MonitorStep::Read);
    assert_eq!(run_monitor(-1, EINTR, 5), MonitorStep::Repoll);
    assert_eq!(run_monitor(-1, 22, 5), MonitorStep::SleepThenRead(5));
    assert_eq!(EINTR, libc::EINTR);
    assert_eq!((POLLPRI, POLLERR, POLLHUP), (libc::POLLPRI, libc::POLLERR, libc::POLLHUP));
    assert_eq!(
        trigger_reports(&vec![0, POLLPRI, POLLPRI | POLLERR, POLLHUP]),
        [
            TriggerReport { fired: false, failed: false },
            TriggerReport { fired: true, failed: false },
            TriggerReport { fired: true, failed: true },
            TriggerReport { fired: false, failed: true },
        ]
    );
}

#[test]
fn profiles_are_written() {
    let w = apply_sched_profile(&responsive(), true, true, Some("/p"));
    assert_eq!(
        w,
        [
            knob("/proc/sys/kernel/sched_cfs_bandwidth_slice_us", "3000\n"),
            knob("/proc/sys/kernel/sched_latency_ns", "4000000\n"),
            knob("/p", "full"),
        ]
    );
    let w = apply_sched_profile(&conservative(), false, true, Some("/p"));
    assert_eq!(
        w,
        [
            knob("/proc/sys/kernel/sched_cfs_bandwidth_slice_us", "5000\n"),
            knob("/proc/sys/kernel/sched_min_granularity_ns", "500000\n"),
            knob("/proc/sys/kernel/sched_wakeup_granularity_ns", "750000\n"),
            knob("/p", "voluntary"),
        ]
    );
    assert_eq!(apply_sched_profile(&conservative(), false, false, Some("/p")).len(), 3);
    assert_eq!(apply_sched_profile(&conservative(), false, true, None).len(), 3);
    assert_eq!(profile_for(PowerState::Battery).latency_ns, 6_000_000);
    assert_eq!(profile_for(PowerState::AC).latency_ns, 4_000_000);
    assert_eq!(write_sysctl("a/b", 1), knob("/proc/sys/a/b", "1\n"));
}

#[test]
fn probing_the_preemption_model() {
    assert_eq!(preempt_model_path(true, true), Some("/sys/kernel/debug/sched/preempt"));
    assert_eq!(preempt_model_path(false, true), Some("/sys/kernel/debug/preempt"));
    assert_eq!(preempt_model_path(false, false), None);
    assert_eq!(probe_preempt_model_switchable(Some("/p"), Some(" full\n")), Some(knob("/p", "full")));
    assert_eq!(probe_preempt_model_switchable(None, Some("full")), None);
    assert_eq!(probe_preempt_model_switchable(Some("/p"), None), None);
}

#[test]
fn autogroup_is_restored_to_what_was_read() {
    let path = "/proc/sys/kernel/sched_autogroup_enabled";
    let (g, w) = AutogroupGuard::disable(Some("0\n".to_string()));
    assert_eq!(w, knob(path, "0\n"));
    assert_eq!(g.restore(), knob(path, "0\n"));
    let (g, _) = AutogroupGuard::disable(None);
    assert_eq!(g.restore(), knob(path, "1\n"));
}

fn supply(kind: &str, online: &str, status: &str) -> PowerSupply {
    PowerSupply {
        kind: kind.to_string(),
        online: online.to_string(),
        status: status.to_string(),
    }
}

#[test]
fn battery_only_when_discharging_without_mains() {
    let of = |v: Vec<PowerSupply>| detect_power_state_sysfs(Some(&v));
    assert_eq!(detect_power_state_sysfs(None), PowerState::AC);
    assert_eq!(of(vec![]), PowerState::AC);
    assert_eq!(of(vec![supply("Battery\n", "", "Discharging\n")]), PowerState::Battery);
    assert_eq!(of(vec![supply("Battery\n", "", "discharging")]), PowerState::Battery);
    assert_eq!(of(vec![supply("Battery\n", "", "Charging\n")]), PowerState::AC);
    assert_eq!(
        of(vec![supply("Battery\n", "", "Discharging\n"), supply("Mains\n", "1\n", "")]),
        PowerState::AC
    );
    assert_eq!(
        of(vec![supply("Mains\n", "0\n", ""), supply("Battery\n", "", "Discharging\n")]),
        PowerState::Battery
    );
    assert_eq!(of(vec![supply("UPS\n", "1\n", "Discharging\n")]), PowerState::AC);
    assert_eq!(monitor_power_state(PowerState::AC, PowerState::AC), None);
    assert_eq!(
        monitor_power_state(PowerState::AC, PowerState::Battery),
        Some(PowerState::Battery)
    );
}

const NO_DIRS: RunDirs =
    RunDirs { systemd: false, runit: false, s6: false, s6_rc: false, openrc: false };

#[test]
fn init_systems_are_detected() {
    assert_eq!(InitSystem::detect(Some("systemd\n"), NO_DIRS), InitSystem::Systemd);
    assert_eq!(InitSystem::detect(Some("runit"), NO_DIRS), InitSystem::Runit);
    assert_eq!(InitSystem::detect(Some("s6-svscan"), NO_DIRS), InitSystem::S6);
    assert_eq!(InitSystem::detect(Some("openrc-init"), NO_DIRS), InitSystem::OpenRC);
    assert_eq!(InitSystem::detect(Some("bash"), NO_DIRS), InitSystem::Unknown);
    assert_eq!(InitSystem::detect(None, RunDirs { systemd: true, ..NO_DIRS }), InitSystem::Systemd);
    assert_eq!(
        InitSystem::detect(Some("x"), RunDirs { runit: true, openrc: true, ..NO_DIRS }),
        InitSystem::Runit
    );
    assert_eq!(InitSystem::detect(Some("x"), RunDirs { s6_rc: true, ..NO_DIRS }), InitSystem::S6);
    assert_eq!(
        InitSystem::detect(Some("x"), RunDirs { openrc: true, ..NO_DIRS }),
        InitSystem::OpenRC
    );
    assert_eq!(InitSystem::Systemd.startup_grace_secs(), 10);
    assert_eq!(InitSystem::Unknown.startup_grace_secs(), 30);
    assert!(InitSystem::S6.supports_notify_socket(&Some("x".to_string())));
    assert!(!InitSystem::Systemd.supports_notify_socket(&None));
}

fn datagram(address: &str, message: &str) -> Notice {
    Notice::Datagram { address: address.to_string(), message: message.to_string() }
}

#[test]
fn supervisors_are_notified() {
    let s = SupervisorNotify::detect(
        Some("systemd"),
        NO_DIRS,
        Some("@abstract".to_string()),
        Some("7".to_string()),
    );
    assert_eq!(s.init(), InitSystem::Systemd);
    assert_eq!(s.init_system(), InitSystem::Systemd);
    assert_eq!(s.ready(), [datagram("\0abstract", "READY=1\n"), Notice::Newline { fd: 7 }]);
    assert_eq!(s.stopping(), [datagram("\0abstract", "STOPPING=1\n")]);
    assert_eq!(s.status("running"), [datagram("\0abstract", "STATUS=running\n")]);
    assert_eq!(s.mainpid(12), [datagram("\0abstract", "MAINPID=12\n")]);
    assert_eq!(
        s.extend_timeout(15_000_000),
        [datagram("\0abstract", "EXTEND_TIMEOUT_USEC=15000000\n")]
    );
    let plain = SupervisorNotify::detect(None, NO_DIRS, Some("/run/n".to_string()), None);
    assert_eq!(plain.ready(), [datagram("/run/n", "READY=1\n")]);
    let none = SupervisorNotify::detect(None, NO_DIRS, None, Some("x".to_string()));
    assert!(none.ready().is_empty());
    assert!(none.stopping().is_empty());
    assert!(none.status("x").is_empty());
}

#[test]
fn supervisors_say_nothing_by_default() {
    struct Silent;
    impl Supervisor for Silent {
        fn init_system(&self) -> InitSystem {
            InitSystem::Unknown
        }
    }
    assert!(Silent.ready().is_empty());
    assert!(Silent.mainpid(1).is_empty());
    assert!(Silent.extend_timeout(1).is_empty());
}

#[test]
fn the_root_of_the_hierarchy() {
    let c = delegated_candidates("1:x:/y\n0::/system.slice/ulatencyd.service/rt\n0::/\n");
    assert_eq!(c, ["/sys/fs/cgroup/system.slice/ulatencyd.service", "/sys/fs/cgroup/"]);
    assert_eq!(delegated_candidates("0::/a/system/rt"), ["/sys/fs/cgroup/a"]);
    assert_eq!(delegated_candidates("0::/a/rt/system"), ["/sys/fs/cgroup/a/rt"]);
    assert_eq!(read_delegated_cgroup(&c, &vec![false, true]).as_deref(), Some("/sys/fs/cgroup/"));
    assert_eq!(read_delegated_cgroup(&c, &vec![false, false]), None);
    assert_eq!(
        setup_cgroup_root(Some(c[0].clone()), Some("/x".to_string())),
        RootChoice::Delegated(c[0].clone())
    );
    assert_eq!(setup_cgroup_root(Some(c[1].clone()), None), RootChoice::Direct);
    assert_eq!(
        setup_cgroup_root(Some(c[1].clone()), Some("/x".to_string())),
        RootChoice::Configured("/x".to_string())
    );
    assert_eq!(setup_cgroup_root(None, None), RootChoice::Direct);
    for root in ["/sys/fs/cgroup", "/sys/fs//cgroup/"] {
        assert_eq!(setup_cgroup_root(None, Some(root.to_string())), RootChoice::Direct);
    }
    let (dir, w) = write_pid_file("/run/ulatencyd.pid", 77);
    assert_eq!(dir.as_deref(), Some("/run"));
    assert_eq!(w, knob("/run/ulatencyd.pid", "77\n"));
}
