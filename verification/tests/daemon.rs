use std::collections::HashSet;

use ulatencyd::applier::Effect;
use ulatencyd::cgroupv2::{CgroupManager, CgroupTier};
use ulatencyd::config::Config;
use ulatencyd::control::{ControlCommand, SharedState};
use ulatencyd::daemon::{AfterRead, Daemon, Step};
use ulatencyd::event::Event;
use ulatencyd::info::{ProcessInfo, SchedPolicy, SessionOrigin};
use ulatencyd::init::InitSystem;
use ulatencyd::netlink::ProcEvent;
use ulatencyd::psi::PressureLevel;
use ulatencyd::rules::{ActionToml, MatchToml, RuleFile, RuleToml};
use ulatencyd::sched::PowerState;

const SECOND: u64 = 1_000_000_000;
const OWN: u32 = 900;

fn proc(pid: u32, ppid: u32, comm: &str) -> ProcessInfo {
    ProcessInfo {
        pid,
        ppid,
        uid: 1000,
        gid: 1000,
        comm: comm.to_string(),
        cmdline: vec![],
        exe: Some("/bin/x".to_string()),
        threads: 1,
        vm_rss_kb: 0,
        sched_policy: SchedPolicy::Normal,
        nice: 0,
        cgroup_path: None,
        session_origin: SessionOrigin::Unknown,
        is_kernel_thread: false,
        environ: vec![],
    }
}

fn rule(name: &str, comm: &str, action: ActionToml) -> RuleToml {
    RuleToml {
        name: name.to_string(),
        priority: 50,
        match_: MatchToml { comm: vec![comm.to_string()], ..Default::default() },
        action,
        continue_: false,
    }
}

fn rules() -> Vec<RuleFile> {
    let builds = ActionToml {
        cgroup: Some("background".to_string()),
        nice: Some(5),
        recheck_secs: Some(60),
        apply_to_children: Some(true),
        ..Default::default()
    };
    let polite = ActionToml { nice: Some(1), ..Default::default() };
    vec![RuleFile {
        rule: vec![rule("builds", "make", builds), rule("polite", "sh", polite)],
        profile: vec![],
    }]
}

fn daemon() -> Daemon {
    let mut d = Daemon::new(
        Config::default(),
        CgroupManager::new("/cg".to_string(), "cpu", false),
        &rules(),
        SharedState::new("0", 0),
        InitSystem::Systemd,
        true,
        true,
        OWN,
        0,
    );
    let plan = d.start(PowerState::AC);
    assert!(plan.disable_autogroup);
    assert!(plan.scan);
    assert_eq!(plan.power, PowerState::AC);
    d
}

fn running() -> Daemon {
    let mut d = daemon();
    assert!(d.end_grace(10 * SECOND));
    d
}

fn fork(parent: u32, child: u32, tgid: u32) -> Event {
    Event::Proc(ProcEvent::Fork { parent_pid: parent, child_pid: child, child_tgid: tgid })
}

fn read(pid: u32, then: AfterRead) -> Step {
    Step::Read { effects: vec![], pid, then }
}

#[test]
fn grace_period_lasts_until_its_deadline() {
    let mut d = daemon();
    assert!(d.startup_phase);
    assert!(!d.end_grace(10 * SECOND - 1));
    assert!(d.end_grace(10 * SECOND));
    assert!(!d.startup_phase);
    assert!(!d.end_grace(11 * SECOND));
    let slow = Daemon::new(
        Config::default(),
        CgroupManager::new("/cg".to_string(), "", false),
        &vec![],
        SharedState::new("0", 0),
        InitSystem::Runit,
        false,
        false,
        OWN,
        5,
    );
    assert_eq!(slow.startup_deadline_ns, 30_000_000_005);
}

#[test]
fn processes_of_the_grace_period_are_classified_at_its_end() {
    let mut d = daemon();
    assert_eq!(d.run(fork(1, 20, 20), 0), read(20, AfterRead::Defer));
    assert!(!d.finish_read(20, AfterRead::Defer, &Some(proc(20, 1, "make"))));
    assert_eq!(d.run(Event::Proc(ProcEvent::Exec { pid: 21 }), 0), read(21, AfterRead::Defer));
    assert!(!d.finish_read(21, AfterRead::Defer, &Some(proc(21, 1, "sh"))));
    assert_eq!(
        d.run(Event::Proc(ProcEvent::Comm { pid: 21, comm: "x".to_string() }), 0),
        Step::Nothing
    );
    let live: HashSet<u32> = [20, 21].into_iter().collect();
    assert!(d.do_full_scan(vec![], &live).is_empty());
    assert!(d.end_grace(10 * SECOND));
    let mut open = d.do_full_scan(vec![], &live);
    open.sort();
    assert_eq!(open, [20, 21]);
}

#[test]
fn the_foreground_is_fixed_during_the_grace_period() {
    let mut d = daemon();
    d.table.insert(proc(20, 1, "firefox"));
    let cmd = || Event::Control(ControlCommand::SetForegroundProcess(20));
    assert_eq!(d.run(cmd(), 0), Step::Nothing);
    assert_eq!(d.state.foreground_pid, None);
    d.end_grace(10 * SECOND);
    assert_eq!(
        d.run(cmd(), 0),
        Step::Apply(vec![
            Effect::Nice { pid: 20, nice: -5 },
            Effect::Assign { pid: 20, tier: CgroupTier::Interactive },
        ])
    );
    assert_eq!(d.state.foreground_pid, Some(20));
    assert!(d.focus.is_foreground(20));
}

#[test]
fn forked_children_are_settled_and_new_programs_classified() {
    let mut d = running();
    assert_eq!(d.run(fork(1, 30, 30), 0), read(30, AfterRead::Settle));
    assert!(!d.finish_read(30, AfterRead::Settle, &Some(proc(30, 1, "sh"))));
    assert!(d.table.get(30).unwrap().classified);
    assert_eq!(d.run(Event::Proc(ProcEvent::Uid { pid: 30 }), 0), Step::Nothing);
    assert_eq!(
        d.run(Event::Proc(ProcEvent::Uid { pid: 31 }), 0),
        read(31, AfterRead::Classify)
    );
    assert_eq!(
        d.run(Event::Proc(ProcEvent::Exec { pid: 30 }), 0),
        read(30, AfterRead::Classify)
    );
    assert!(d.finish_read(30, AfterRead::Classify, &Some(proc(30, 1, "make"))));
    assert!(!d.finish_read(31, AfterRead::Classify, &None));
    assert!(d.table.get(31).is_none());
}

#[test]
fn actions_are_applied_and_recorded() {
    let mut d = running();
    let info = proc(40, 1, "make");
    d.table.insert(info.copied());
    d.table.insert(proc(41, 40, "cc"));
    let choice = d.decide(40, &info);
    assert_eq!(choice.as_ref().unwrap().rule_name, "builds");
    let e = d.commit(40, &info, choice, Some("0::/user.slice/x\n"), 5 * SECOND);
    assert_eq!(
        e,
        [
            Effect::Assign { pid: 40, tier: CgroupTier::Background },
            Effect::Nice { pid: 40, nice: 5 },
            Effect::Assign { pid: 41, tier: CgroupTier::Background },
        ]
    );
    let entry = d.table.get(40).unwrap();
    assert!(entry.classified);
    assert_eq!(entry.original_cgroup.as_deref(), Some("/user.slice/x"));
    assert_eq!(entry.recheck_at, Some(65_000_000_000));
    let m = d.state.managed.get(&40).unwrap();
    assert_eq!((m.cgroup.as_str(), m.rule_name.as_str()), ("background", "builds"));

    let r = d.shutdown();
    assert_eq!(r.len(), 1);
    assert_eq!(r[0].pid, 40);
    assert_eq!(r[0].proc_dir, "/proc/40");
    assert_eq!(r[0].write.path, "/sys/fs/cgroup/user.slice/x/cgroup.procs");
    assert_eq!(r[0].write.value, "40\n");

    let sh = proc(42, 1, "sh");
    d.table.insert(sh.copied());
    let e = d.classify_and_apply(42, &sh, Some("0::/y\n"), 0);
    assert_eq!(e, [Effect::Nice { pid: 42, nice: 1 }]);
    assert_eq!(d.state.managed.get(&42).unwrap().cgroup, "system");
    assert_eq!(d.table.get(42).unwrap().original_cgroup, None);
    assert_eq!(d.shutdown().len(), 1);

    let other = proc(43, 1, "vim");
    d.table.insert(other.copied());
    assert!(d.classify_and_apply(43, &other, None, 0).is_empty());
    assert!(d.table.get(43).unwrap().classified);
    assert!(d.state.managed.get(&43).is_none());
}

#[test]
fn own_kernel_and_foreground_processes_are_protected() {
    let mut d = running();
    assert!(d.decide(50, &proc(50, 1, "make")).is_some());
    assert!(d.decide(OWN, &proc(OWN, 1, "make")).is_none());
    assert!(d.decide(50, &proc(50, OWN, "make")).is_none());
    assert!(d.is_protected(50, &proc(50, 1, "psi-monitor")));
    assert!(d.is_protected(50, &proc(50, 1, "shutdown-restore")));
    assert!(!d.is_protected(50, &proc(50, 1, "gc-timer")));
    let mut k = proc(50, 1, "make");
    k.is_kernel_thread = true;
    assert!(d.decide(50, &k).is_none());
    d.table.insert(proc(50, 1, "make"));
    d.run(Event::Control(ControlCommand::SetForegroundProcess(50)), 0);
    assert!(d.decide(50, &proc(50, 1, "make")).is_none());
}

#[test]
fn environment_is_read_only_on_demand() {
    let mut d = running();
    let p = proc(60, 1, "x");
    assert!(!d.needs_environ(60, &p));
    let mut r = rule("env", "x", ActionToml { nice: Some(2), ..Default::default() });
    r.match_.env_set = vec!["A".to_string()];
    d.reload_rules(&Some(vec![RuleFile { rule: vec![r], profile: vec![] }]));
    assert!(d.needs_environ(60, &p));
    assert!(!d.needs_environ(OWN, &proc(OWN, 1, "x")));
    let mut q = p.copied();
    q.load_environ(&b"A=1\0".to_vec());
    assert!(!d.needs_environ(60, &q));
    assert!(d.decide(60, &q).is_some());
    assert!(d.decide(60, &p).is_none());
    d.reload_rules(&None);
    assert_eq!(d.engine.rule_count(), 1);
}

#[test]
fn fork_bombs_are_throttled_even_during_the_grace_period() {
    let mut d = daemon();
    d.table.insert(proc(70, 1, "bomb"));
    d.table.insert(proc(71, 70, "child"));
    for i in 0..50 {
        assert_eq!(d.run(fork(70, 100 + i, 100 + i), 0), read(100 + i, AfterRead::Defer));
    }
    assert_eq!(d.run(fork(70, 500, 70), 0), read(500, AfterRead::Defer));
    let step = d.run(fork(70, 150, 150), 0);
    let throttled = vec![
        Effect::Assign { pid: 70, tier: CgroupTier::Swapstorm },
        Effect::Assign { pid: 71, tier: CgroupTier::Swapstorm },
    ];
    assert_eq!(
        step,
        Step::Read { effects: throttled.clone(), pid: 150, then: AfterRead::Defer }
    );

    let mut d = running();
    d.table.insert(proc(70, 1, "bomb"));
    d.table.insert(proc(71, 70, "child"));
    for i in 0..50 {
        d.run(fork(70, 100 + i, 100 + i), 0);
    }
    assert_eq!(d.run(fork(70, 150, 150), 0), Step::Apply(throttled));
    assert_eq!(d.run(fork(70, 151, 151), 0), read(151, AfterRead::Settle));
    assert_eq!(d.run(Event::GcTick, 11 * SECOND), Step::CollectGarbage);
    assert_eq!(d.forkbomb.fork_rate(70, 0), 0);
}

#[test]
fn exits_are_forgotten_everywhere() {
    let mut d = running();
    let info = proc(80, 1, "make");
    d.table.insert(info.copied());
    d.classify_and_apply(80, &info, None, 0);
    d.run(Event::Control(ControlCommand::SetForegroundProcess(80)), 0);
    let exit = || Event::Proc(ProcEvent::Exit { pid: 80, exit_code: 0 });
    assert_eq!(d.run(exit(), 0), Step::Apply(vec![Effect::Nice { pid: 80, nice: 0 }]));
    assert!(d.table.get(80).is_none());
    assert!(d.state.managed.is_empty());
    assert!(!d.focus.is_foreground(80));
    assert_eq!(d.run(exit(), 0), Step::Nothing);
}

#[test]
fn scans_drop_what_is_dead() {
    let mut d = running();
    for pid in [90, 91] {
        let info = proc(pid, 1, "make");
        d.table.insert(info.copied());
        d.classify_and_apply(pid, &info, None, 0);
    }
    let live: HashSet<u32> = [90, 92].into_iter().collect();
    let open = d.do_full_scan(vec![proc(92, 1, "sh")], &live);
    assert_eq!(open, [92]);
    assert!(d.state.managed.contains_key(&90));
    assert!(!d.state.managed.contains_key(&91));
    assert_eq!(d.info_of(92).unwrap().comm, "sh");
    assert!(d.info_of(91).is_none());
}

#[test]
fn rechecks_leave_the_foreground_alone() {
    let mut d = running();
    for pid in [110, 111] {
        let info = proc(pid, 1, "make");
        d.table.insert(info.copied());
        d.classify_and_apply(pid, &info, None, 0);
    }
    d.run(Event::Control(ControlCommand::SetForegroundProcess(111)), 0);
    assert_eq!(d.run(Event::RecheckTick, 59 * SECOND), Step::Recheck(vec![]));
    assert_eq!(d.run(Event::RecheckTick, 60 * SECOND), Step::Recheck(vec![110]));
    assert!(d.finish_read(110, AfterRead::Recheck, &Some(proc(110, 1, "sh"))));
    assert!(!d.finish_read(110, AfterRead::Recheck, &None));
    assert!(d.table.get(110).is_none());
    assert!(!d.state.managed.contains_key(&110));
}

#[test]
fn pressure_changes_the_mode() {
    let mut d = running();
    assert_eq!(d.run(Event::Pressure(PressureLevel::Normal), 0), Step::Nothing);
    assert_eq!(d.run(Event::Pressure(PressureLevel::Critical), 0), Step::ThrottleTiers);
    assert_eq!(d.state.mode, "pressure-critical");
    assert_eq!(d.run(Event::Pressure(PressureLevel::Critical), 0), Step::Nothing);
    assert_eq!(d.run(Event::Pressure(PressureLevel::Normal), 0), Step::ReopenSwapstorm);
    assert_eq!(d.state.mode, "normal");
    assert_eq!(d.run(Event::Pressure(PressureLevel::High), 0), Step::Nothing);
    assert_eq!(d.state.mode, "pressure-high");
    assert_eq!(d.run(Event::Pressure(PressureLevel::Low), 0), Step::Nothing);
    assert_eq!(d.state.mode, "pressure-low");
    assert_eq!(d.run(Event::Pressure(PressureLevel::Normal), 0), Step::Nothing);
    assert_eq!(
        Daemon::throttle_tiers(Some("1\n2\n"), Some("3\n")),
        [
            Effect::Assign { pid: 1, tier: CgroupTier::Swapstorm },
            Effect::Assign { pid: 2, tier: CgroupTier::Swapstorm },
            Effect::Assign { pid: 3, tier: CgroupTier::Swapstorm },
        ]
    );
    assert!(Daemon::throttle_tiers(None, None).is_empty());
    let info = proc(120, 1, "make");
    d.table.insert(info.copied());
    d.classify_and_apply(120, &info, None, 0);
    d.reopen_swapstorm(Some("120\n121\n"));
    assert!(!d.table.get(120).unwrap().classified);
    assert!(d.table.get(120).unwrap().applied.is_none());
}

#[test]
fn power_switches_profiles_on_change() {
    let mut d = running();
    assert_eq!(d.run(Event::Power(PowerState::AC), 0), Step::Nothing);
    assert_eq!(
        d.run(Event::Power(PowerState::Battery), 0),
        Step::SwitchProfile(PowerState::Battery)
    );
    assert_eq!(d.run(Event::Power(PowerState::Battery), 0), Step::Nothing);
    let w = d.profile_writes(PowerState::Battery, Some("/p"));
    assert_eq!(w[1].path, "/proc/sys/kernel/sched_latency_ns");
    assert_eq!(w[1].value, "6000000\n");
    assert_eq!(w[2].value, "voluntary");
}

#[test]
fn commands_and_ticks() {
    let mut d = running();
    let set = |c: &str| {
        Event::Control(ControlCommand::SetProcessCgroup { pid: 7, cgroup: c.to_string() })
    };
    assert_eq!(
        d.run(set("idle"), 0),
        Step::Apply(vec![Effect::Assign { pid: 7, tier: CgroupTier::Idle }])
    );
    assert_eq!(d.run(set("nowhere"), 0), Step::Nothing);
    assert_eq!(d.run(Event::Control(ControlCommand::ReloadRules), 0), Step::Reload);
    assert_eq!(d.run(Event::ReloadRules, 0), Step::Reload);
    assert_eq!(d.run(Event::RescanTick, 0), Step::Rescan);
    assert_eq!(d.run(Event::Shutdown, 0), Step::Stop);
}
