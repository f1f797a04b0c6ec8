use ulatencyd::cgroupv2::CgroupTier;
use ulatencyd::cli::{
    cmd_run, diagnose_connect_failure, render_info, render_list, render_status, socket_path,
    ConnectProbe, RunError, RunStep,
};
use ulatencyd::config::{Config, ConfigKeys};
use ulatencyd::control::{
    listen_address, pid_from_wire, prepare_socket_dir, reload_rules, remove_stale_socket,
    set_foreground_process, set_process_cgroup, socket_permission_fixup, ControlCommand, FixupStep,
    ProcessEntry, ProcessRecord, SharedState, SocketError, SocketPathState, StatusReply, UnknownPid,
};
use ulatencyd::dbus::{self, Authorization, DbusCommand};
use ulatencyd::diag::{diag_section, diagnostic_log_path, log_header, user_home, write_diag};
use ulatencyd::event::{signal_event, Event, SIGHUP, SIGINT, SIGTERM};

fn state() -> SharedState {
    let mut s = SharedState::new("1.2.3", 5_000_000_000);
    s.managed.insert(
        42,
        ProcessEntry {
            pid: 42,
            comm: "make".to_string(),
            cgroup: "background".to_string(),
            rule_name: "builds".to_string(),
        },
    );
    s
}

fn record() -> ProcessRecord {
    ProcessRecord {
        pid: 42,
        comm: "make".to_string(),
        cgroup: "background".to_string(),
        rule: "builds".to_string(),
    }
}

fn no_keys() -> ConfigKeys {
    ConfigKeys {
        log_level: None,
        pid_file: None,
        rules_dir: None,
        rescan_interval_secs: None,
        apply_to_existing_processes: None,
        cgroup_root: None,
        threshold_per_second: None,
        lineage_depth: None,
        autogroup_enabled: None,
        detect_and_defer: None,
        socket_enabled: None,
        socket_path: None,
        socket_group: None,
    }
}

#[test]
fn missing_keys_have_defaults() {
    let c = Config::load_or_default(None);
    assert_eq!(c.daemon.log_level, "info");
    assert_eq!(c.daemon.pid_file, "/run/ulatencyd.pid");
    assert_eq!(c.daemon.rules_dir, ["/etc/ulatencyd/rules", "/usr/lib/ulatencyd/rules"]);
    assert_eq!(c.daemon.rescan_interval_secs, 30);
    assert!(c.daemon.apply_to_existing_processes);
    assert_eq!(c.cgroups.cgroup_root, None);
    assert_eq!(c.fork_bomb.threshold_per_second, 50);
    assert_eq!(c.fork_bomb.lineage_depth, 5);
    assert!(!c.sched.autogroup_enabled);
    assert!(c.sched.detect_and_defer);
    assert!(c.control_socket.enabled);
    assert_eq!(c.control_socket.path, "/run/ulatencyd/control.sock");
    assert_eq!(c.control_socket.group, "ulatencyd");

    let keys = ConfigKeys {
        threshold_per_second: Some(7),
        socket_group: Some("wheel".to_string()),
        rules_dir: Some(vec!["/r".to_string()]),
        ..no_keys()
    };
    let c = Config::load_or_default(Some(keys));
    assert_eq!(c.fork_bomb.threshold_per_second, 7);
    assert_eq!(c.fork_bomb.lineage_depth, 5);
    assert_eq!(c.control_socket.group, "wheel");
    assert_eq!(c.daemon.rules_dir, ["/r"]);
}

#[test]
fn status_of_the_daemon() {
    let s = state();
    assert_eq!(
        s.status(8_999_999_999),
        StatusReply {
            version: "ulatencyd-rs 1.2.3".to_string(),
            mode: "normal".to_string(),
            process_count: 1,
            uptime_secs: 3,
        }
    );
    assert_eq!(s.status(0).uptime_secs, 0);
    assert_eq!(s.list_managed_processes(), [record()]);
    assert_eq!(s.get_process_info(42), Ok(record()));
    assert_eq!(s.get_process_info(43), Err(UnknownPid { pid: 43 }));
}

#[test]
fn pids_on_the_wire() {
    for n in [0i64, 1, -1, 42, 0x1_0000_0000, 0x1_0000_002A, i64::MAX, i64::MIN, -0x1_0000_0000] {
        assert_eq!(pid_from_wire(n), n as u32);
    }
    assert_eq!(set_foreground_process(42), ControlCommand::SetForegroundProcess(42));
    assert_eq!(
        set_process_cgroup(42, "idle".to_string()),
        ControlCommand::SetProcessCgroup { pid: 42, cgroup: "idle".to_string() }
    );
    assert_eq!(reload_rules(), ControlCommand::ReloadRules);
}

#[test]
fn only_a_socket_is_removed() {
    assert_eq!(remove_stale_socket("/s", SocketPathState::Nothing), Ok(false));
    assert_eq!(remove_stale_socket("/s", SocketPathState::Socket), Ok(true));
    let e = remove_stale_socket("/s", SocketPathState::Other).unwrap_err();
    assert_eq!(e, SocketError::NotASocket("/s".to_string()));
    assert_eq!(e.message(), "/s exists and is not a socket — refusing to remove it");
}

#[test]
fn the_socket_is_closed_to_others() {
    let s = prepare_socket_dir("/run/ulatencyd/control.sock", Some(77), 0).unwrap();
    assert_eq!(s.parent, "/run/ulatencyd");
    assert_eq!((s.gid, s.dir_mode, s.socket_mode), (77, 0o750, 0o660));
    assert_eq!(prepare_socket_dir("/a/b", None, 5).unwrap().gid, 5);
    let e = prepare_socket_dir("/", None, 5).unwrap_err();
    assert_eq!(e, SocketError::NoParent);
    assert_eq!(e.message(), "control socket path has no parent directory");
    assert_eq!(listen_address("/run/x"), "unix:/run/x");
    assert_eq!(socket_permission_fixup(0, false), FixupStep::Wait(20));
    assert_eq!(socket_permission_fixup(49, true), FixupStep::Fix);
    assert_eq!(socket_permission_fixup(50, true), FixupStep::GiveUp);
}

#[test]
fn bus_calls_are_gated() {
    assert_eq!(dbus::reload_rules(Authorization::Granted), Some(DbusCommand::ReloadRules));
    assert_eq!(dbus::reload_rules(Authorization::Denied), None);
    assert_eq!(dbus::reload_rules(Authorization::Failed), None);
    assert_eq!(
        dbus::set_process_cgroup(Authorization::Granted, 1, "rt".to_string()),
        Some(DbusCommand::SetProcessCgroup { pid: 1, cgroup: "rt".to_string() })
    );
    assert_eq!(dbus::set_process_cgroup(Authorization::Failed, 1, "rt".to_string()), None);
    assert_eq!(
        dbus::set_foreground_process(Authorization::Failed, 9),
        Some(DbusCommand::SetForegroundProcess(9))
    );
    assert_eq!(dbus::set_foreground_process(Authorization::Denied, 9), None);
    assert_eq!(
        dbus::set_background_process(3).into_control(),
        ControlCommand::SetProcessCgroup { pid: 3, cgroup: "background".to_string() }
    );
}

#[test]
fn bus_answers() {
    let s = state();
    let pairs = |v: &[(&str, &str)]| -> Vec<(String, String)> {
        v.iter().map(|(a, b)| (a.to_string(), b.to_string())).collect()
    };
    assert_eq!(
        dbus::get_daemon_status(&s, 6_000_000_000),
        pairs(&[
            ("version", "ulatencyd-rs 1.2.3"),
            ("mode", "normal"),
            ("process_count", "1"),
            ("uptime_secs", "1"),
        ])
    );
    assert_eq!(
        dbus::get_process_info(&s, 42),
        pairs(&[("pid", "42"), ("comm", "make"), ("cgroup", "background"), ("rule", "builds")])
    );
    assert!(dbus::get_process_info(&s, 1).is_empty());
    assert_eq!(
        dbus::list_managed_processes(&s),
        [(42, "background".to_string(), "builds".to_string())]
    );
}

#[test]
fn signals_become_events() {
    assert_eq!(signal_event(SIGHUP), Event::ReloadRules);
    assert_eq!(signal_event(SIGTERM), Event::Shutdown);
    assert_eq!(signal_event(SIGINT), Event::Shutdown);
    assert_eq!((SIGHUP, SIGINT, SIGTERM), (libc::SIGHUP, libc::SIGINT, libc::SIGTERM));
}

#[test]
fn diagnostic_lines() {
    assert_eq!(
        write_diag(1700000000, 42, "FORK", "parent=1"),
        format!("[{:>10}.{:06}] {:<12} {}\n", 1700000000u64, 42, "FORK", "parent=1")
    );
    assert_eq!(
        write_diag(5, 999999, "FORK(startup)", ""),
        format!("[{:>10}.{:06}] {:<12} {}\n", 5, 999999, "FORK(startup)", "")
    );
    assert_eq!(
        diag_section(1, 0, "STARTUP"),
        format!("[{:>10}.{:06}] {:<12} {}\n", 1, 0, "---", "=== STARTUP ===")
    );
    assert_eq!(
        log_header("now"),
        format!("ulatencyd-rs diagnostic log\nStarted: now\n{}\n\n", "=".repeat(60))
    );
}

#[test]
fn home_of_the_diagnostic_log() {
    let pw = "root:x:0:0:root:/root:/bin/sh\nann:x:1:1::/home/ann:/bin/sh\nbad:x:1\n";
    assert_eq!(user_home(pw, "ann").as_deref(), Some("/home/ann"));
    assert_eq!(user_home(pw, "an"), None);
    assert_eq!(user_home(pw, "bad"), None);
    let some = |s: &str| Some(s.to_string());
    assert_eq!(
        diagnostic_log_path(&some("ann"), &some(pw), &some("/h")),
        "/home/ann/ulatencyd-diagnostic.txt"
    );
    assert_eq!(
        diagnostic_log_path(&some("bad"), &some(pw), &some("/h")),
        "/h/ulatencyd-diagnostic.txt"
    );
    assert_eq!(diagnostic_log_path(&None, &None, &None), "/tmp/ulatencyd-diagnostic.txt");
}

#[test]
fn connection_failures_are_explained() {
    let d = |p: ConnectProbe| diagnose_connect_failure("unix:/run/u/c.sock", &p);
    assert_eq!(socket_path("unix:/a"), "/a");
    assert_eq!(socket_path("/a"), "/a");
    assert!(d(ConnectProbe::Missing).starts_with(
        "control socket /run/u/c.sock does not exist.\n\nIs ulatencyd running? Check with e.g.:\n  systemctl status ulatencyd\n(or the runit"
    ));
    let m = d(ConnectProbe::Unreachable);
    assert!(m.starts_with("permission denied reaching /run/u/c.sock.\n\n"));
    assert!(m.contains("\n  ls -ld /run/u\nagainst your own groups:\n  groups\n"));
    assert_eq!(
        d(ConnectProbe::StatFailed("boom".to_string())),
        "cannot stat control socket /run/u/c.sock: boom"
    );
    assert_eq!(
        d(ConnectProbe::NotASocket),
        "/run/u/c.sock exists but is not a socket — something else is using that path."
    );
    assert_eq!(
        d(ConnectProbe::Connects),
        "connected to /run/u/c.sock at the raw socket level, but the varlink handshake failed. Is something other than ulatencyd listening on this path?"
    );
    assert!(d(ConnectProbe::Denied).contains("Check:\n  ls -l /run/u/c.sock\n"));
    assert!(d(ConnectProbe::Refused).starts_with("connection refused at /run/u/c.sock.\n\n"));
    assert_eq!(
        d(ConnectProbe::ConnectFailed("x".to_string())),
        "cannot connect to /run/u/c.sock: x"
    );
    assert!(diagnose_connect_failure("/", &ConnectProbe::Unreachable).contains("ls -ld .\n"));
}

#[test]
fn output_of_the_client() {
    assert_eq!(
        render_status(&state().status(6_000_000_000)),
        "ulatencyd status\n  version:       ulatencyd-rs 1.2.3\n  mode:          normal\n  processes:     1\n  uptime (secs): 1\n"
    );
    assert_eq!(render_list(&vec![]), "No managed processes.\n");
    assert_eq!(
        render_list(&vec![record()]),
        format!(
            "{:<8}  {:<20}  {}\n{:<8}  {:<20}  {}\n\n1 process(es) total\n",
            "PID", "CGROUP", "RULE", 42, "background", "builds"
        )
    );
    assert_eq!(
        render_info(&record()),
        "  pid:    42\n  comm:   make\n  cgroup: background\n  rule:   builds\n"
    );
}

#[test]
fn running_a_command_in_a_tier() {
    let cmd = vec!["make".to_string(), "-j8".to_string()];
    let some = |s: &str| Some(s.to_string());
    let p = cmd_run("background", Some(5), &some("fifo"), &cmd);
    assert_eq!(p.error, None);
    assert_eq!(
        p.steps,
        [
            RunStep::Move(CgroupTier::Background),
            RunStep::Nice(5),
            RunStep::Sched { policy: libc::SCHED_FIFO, priority: 1 },
        ]
    );
    let p = cmd_run("idle", None, &some("round_robin"), &cmd);
    assert_eq!(p.steps, [RunStep::Move(CgroupTier::Idle)]);
    assert_eq!(p.error.unwrap().message(), "unknown sched policy \"round_robin\"");
    let p = cmd_run("fa\"st", Some(1), &None, &cmd);
    assert!(p.steps.is_empty());
    assert_eq!(
        p.error.unwrap().message(),
        "unknown tier \"fa\\\"st\". Valid: rt|interactive|system|background|idle|swapstorm"
    );
    let p = cmd_run("rt", None, &None, &vec![]);
    assert_eq!(p.error, Some(RunError::NoCommand));
    assert_eq!(p.error.unwrap().message(), "no command specified");
}
