use std::collections::HashSet;

use ulatencyd::info::{
    get_sched_policy, parse_cmdline, parse_stat, parse_status, read_cgroup_v2, stat_is_splittable,
    InfoError, ProcessInfo, RawProcess, SchedPolicy, SessionOrigin, SCHED_BATCH, SCHED_DEADLINE,
    SCHED_FIFO, SCHED_IDLE, SCHED_NORMAL, SCHED_RR,
};
use ulatencyd::netlink::{
    parse_cn_msg, parse_datagram, subscribe_to_proc_events, ByteOrder, ProcEvent, ProcMonitor,
    CN_IDX_PROC, CN_VAL_PROC, NETLINK_CONNECTOR, NLMSG_DONE,
};
use ulatencyd::scan::{pid_path, scan_proc, scan_proc_incremental, ScanResult};

const STAT: &str = "1234 (my (odd) name) S 77 1 1 0 -1 4194560 1 2 3 4 5 6 7 8 20 0 9 -5 100";

fn bytes(s: &str) -> Vec<u8> {
    s.as_bytes().to_vec()
}

#[test]
fn stat_line_is_parsed() {
    let (ppid, comm, nice, threads) = parse_stat(&bytes(STAT)).unwrap();
    assert_eq!(ppid, 77);
    assert_eq!(comm, "my (odd) name");
    assert_eq!(threads, 9);
    assert_eq!(nice, -5);
    assert_eq!(parse_stat(&bytes("1 (x) S")).unwrap(), (0, "x".to_string(), 0, 1));
}

#[test]
fn malformed_stat_lines_are_rejected() {
    assert_eq!(parse_stat(&bytes("1 x) S 2")), Err(InfoError::NoOpenParen));
    assert_eq!(parse_stat(&bytes("1 (x S 2")), Err(InfoError::NoCloseParen));
    let mut raw = bytes("1 (x) ");
    raw.push(0xff);
    let words = std::str::from_utf8(&[0xff]).unwrap_err().to_string();
    let e = parse_stat(&raw).unwrap_err();
    assert_eq!(e, InfoError::InvalidUtf8(words.clone()));
    assert_eq!(e.message(), words);
    assert_eq!(InfoError::NoOpenParen.message(), "malformed stat: no '('");
    assert_eq!(InfoError::NoCloseParen.message(), "malformed stat: no ')'");
    assert!(stat_is_splittable(&bytes(STAT)));
    assert!(!stat_is_splittable(&bytes(")(")));
    assert!(!stat_is_splittable(&bytes("(x)")));
    assert!(stat_is_splittable(&bytes("(x) ")));
    assert!(stat_is_splittable(&bytes("")));
}

#[test]
fn a_name_that_is_not_utf8_is_replaced() {
    let mut raw = bytes("1 (a");
    raw.push(0xff);
    raw.extend(bytes("b) S 5"));
    let (ppid, comm, _, _) = parse_stat(&raw).unwrap();
    assert_eq!(ppid, 5);
    assert_eq!(comm, "a\u{fffd}b");
}

#[test]
fn status_is_parsed() {
    let s = "Name:\tx\nUid:\t1000\t1001\t1000\t1000\nGid:\t50\t50\nVmRSS:\t  2048 kB\n";
    assert_eq!(parse_status(s), (1000, 50, 2048));
    assert_eq!(parse_status("Uid:\nGid:\tx\n"), (0, 0, 0));
    assert_eq!(parse_status("Uid:\t1\nUid:\t2\n"), (2, 0, 0));
}

#[test]
fn cgroup_file_is_parsed() {
    assert_eq!(
        read_cgroup_v2("1:cpu:/x\n0::/user.slice/a \n0::/b\n").as_deref(),
        Some("/user.slice/a")
    );
    assert_eq!(read_cgroup_v2("1:cpu:/x\n"), None);
}

#[test]
fn command_line_is_split_at_zero_bytes() {
    assert_eq!(parse_cmdline(&bytes("/bin/sh\0-c\0\0ls\0")), ["/bin/sh", "-c", "ls"]);
    assert!(parse_cmdline(&vec![]).is_empty());
}

#[test]
fn session_origins() {
    let of = |p: &str, uid: u32| SessionOrigin::from_cgroup_path(p, uid, "ulatencyd");
    assert_eq!(of("/system.slice/ulatencyd.service/rt", 0), SessionOrigin::SystemService);
    assert_eq!(of("/system.slice/ulatencyd.service/rt", 5), SessionOrigin::UserInteractive);
    assert_eq!(
        of("/user.slice/user-1000.slice/session-2.scope", 1000),
        SessionOrigin::UserInteractive
    );
    assert_eq!(of("/user.slice/user-1000.slice/app.slice", 1000), SessionOrigin::UserService);
    assert_eq!(of("/system.slice/sshd.service", 1000), SessionOrigin::SystemService);
    assert_eq!(of("/init.scope", 0), SessionOrigin::SystemService);
    assert_eq!(of("/", 0), SessionOrigin::SystemService);
    assert_eq!(of("", 7), SessionOrigin::UserInteractive);
    assert_eq!(of("/lxc/x", 7), SessionOrigin::Unknown);
    assert!(!SessionOrigin::is_kernel());
}

#[test]
fn scheduling_numbers_are_those_of_the_kernel() {
    assert_eq!(SCHED_NORMAL, libc::SCHED_OTHER);
    assert_eq!(SCHED_FIFO, libc::SCHED_FIFO);
    assert_eq!(SCHED_RR, libc::SCHED_RR);
    assert_eq!(SCHED_BATCH, libc::SCHED_BATCH);
    assert_eq!(SCHED_IDLE, libc::SCHED_IDLE);
    assert_eq!(SCHED_DEADLINE, libc::SCHED_DEADLINE);
    assert_eq!(get_sched_policy(0, 0), SchedPolicy::Normal);
    assert_eq!(get_sched_policy(1, 50), SchedPolicy::Fifo(50));
    assert_eq!(get_sched_policy(2, 200), SchedPolicy::RoundRobin(99));
    assert_eq!(get_sched_policy(1, -3), SchedPolicy::Fifo(0));
    assert_eq!(get_sched_policy(3, 0), SchedPolicy::Batch);
    assert_eq!(get_sched_policy(5, 0), SchedPolicy::Idle);
    assert_eq!(get_sched_policy(6, 0), SchedPolicy::Deadline);
    assert_eq!(get_sched_policy(-1, 0), SchedPolicy::Unknown(-1));
}

#[test]
fn a_process_is_assembled() {
    let raw = RawProcess {
        stat: bytes(STAT),
        status: "Uid:\t1000\nGid:\t50\nVmRSS:\t10 kB\n".to_string(),
        cmdline: Some(bytes("x\0y\0")),
        exe: Some("/bin/x".to_string()),
        cgroup: Some("0::/user.slice/session-1.scope\n".to_string()),
        policy: 1,
        priority: 10,
    };
    let mut p = ProcessInfo::from_pid(1234, &raw).unwrap();
    assert_eq!(p.pid, 1234);
    assert_eq!(p.uid, 1000);
    assert_eq!(p.cmdline, ["x", "y"]);
    assert_eq!(p.sched_policy, SchedPolicy::Fifo(10));
    assert_eq!(p.cgroup_path.as_deref(), Some("/user.slice/session-1.scope"));
    assert_eq!(p.session_origin, SessionOrigin::UserInteractive);
    assert!(!p.is_kernel_thread);
    assert!(p.environ.is_empty());

    let mut env = bytes("A=1\0B\0A=2=3\0\0");
    env.push(0xff);
    p.load_environ(&env);
    assert!(p.has_variable("A"));
    assert!(p.has_variable("B"));
    assert!(!p.has_variable("C"));
    assert_eq!(p.environ.last().unwrap(), &("A".to_string(), "2=3".to_string()));
    let q = p.copied();
    assert_eq!(q.environ, p.environ);
    assert_eq!(q.comm, p.comm);
}

#[test]
fn kernel_threads_belong_to_root_and_have_no_program() {
    let mut raw = RawProcess {
        stat: bytes("2 (kthreadd) S 0"),
        status: "Uid:\t0\n".to_string(),
        cmdline: None,
        exe: None,
        cgroup: None,
        policy: 0,
        priority: 0,
    };
    let p = ProcessInfo::from_pid(2, &raw).unwrap();
    assert!(p.is_kernel_thread);
    assert_eq!(p.session_origin, SessionOrigin::Unknown);
    raw.cmdline = Some(bytes("a\0b\0"));
    let p = ProcessInfo::from_pid(2, &raw).unwrap();
    assert!(p.is_kernel_thread);
    assert_eq!(p.exe, None);
    assert_eq!(p.cmdline, ["a", "b"]);
    raw.exe = Some("/sbin/init".to_string());
    assert!(!ProcessInfo::from_pid(2, &raw).unwrap().is_kernel_thread);
    raw.exe = None;
    raw.status = "Uid:\t5\n".to_string();
    assert!(!ProcessInfo::from_pid(2, &raw).unwrap().is_kernel_thread);
}

fn message(order: ByteOrder, what: u32, data: &[u8]) -> Vec<u8> {
    let w = |n: u32| match order {
        ByteOrder::Little => n.to_le_bytes(),
        ByteOrder::Big => n.to_be_bytes(),
    };
    let h = |n: u16| match order {
        ByteOrder::Little => n.to_le_bytes(),
        ByteOrder::Big => n.to_be_bytes(),
    };
    let mut m = vec![];
    m.extend(w((16 + 20 + 16 + data.len()) as u32));
    m.extend(h(NLMSG_DONE));
    m.extend(h(0));
    m.extend(w(0));
    m.extend(w(0));
    m.extend(w(CN_IDX_PROC));
    m.extend(w(CN_VAL_PROC));
    m.extend(w(1));
    m.extend(w(2));
    m.extend(h((16 + data.len()) as u16));
    m.extend(h(0));
    m.extend(w(what));
    m.extend(w(0));
    m.extend([0u8; 8]);
    m.extend(data);
    m
}

fn words(order: ByteOrder, v: &[u32]) -> Vec<u8> {
    v.iter()
        .flat_map(|n| match order {
            ByteOrder::Little => n.to_le_bytes(),
            ByteOrder::Big => n.to_be_bytes(),
        })
        .collect()
}

#[test]
fn events_are_parsed_in_both_byte_orders() {
    for order in [ByteOrder::Little, ByteOrder::Big] {
        let fork = message(order, 1, &words(order, &[10, 11, 12, 13]));
        assert_eq!(
            parse_cn_msg(order, &fork, 16),
            Some(ProcEvent::Fork { parent_pid: 10, child_pid: 12, child_tgid: 13 })
        );
        let exec = message(order, 2, &words(order, &[70000, 1]));
        assert_eq!(parse_cn_msg(order, &exec, 16), Some(ProcEvent::Exec { pid: 70000 }));
        let exit = message(order, 0x8000_0000, &words(order, &[5, 5, 256, 0, 1, 1]));
        assert_eq!(
            parse_cn_msg(order, &exit, 16),
            Some(ProcEvent::Exit { pid: 5, exit_code: 256 })
        );
        let uid = message(order, 4, &words(order, &[6, 6, 0, 0]));
        assert_eq!(parse_cn_msg(order, &uid, 16), Some(ProcEvent::Uid { pid: 6 }));
        let mut d = words(order, &[8, 8]);
        d.extend(b"name\0\0\0\0\0\0\0\0\0\0\0\0");
        let comm = message(order, 0x200, &d);
        assert_eq!(
            parse_cn_msg(order, &comm, 16),
            Some(ProcEvent::Comm { pid: 8, comm: "name".to_string() })
        );
    }
}

#[test]
fn short_and_foreign_messages_hold_no_event() {
    let o = ByteOrder::Little;
    let short = message(o, 1, &words(o, &[1, 2, 3]));
    assert_eq!(parse_cn_msg(o, &short, 16), None);
    let unknown = message(o, 0x40, &words(o, &[1, 2, 3, 4, 5, 6]));
    assert_eq!(parse_cn_msg(o, &unknown, 16), None);
    let mut foreign = message(o, 2, &words(o, &[1, 1]));
    foreign[16] = 9;
    assert_eq!(parse_cn_msg(o, &foreign, 16), None);
    assert_eq!(parse_cn_msg(o, &vec![0; 35], 0), None);
    let mut d = words(o, &[8, 8]);
    d.extend([0xffu8; 16]);
    assert_eq!(
        parse_cn_msg(o, &message(o, 0x200, &d), 16),
        Some(ProcEvent::Comm { pid: 8, comm: String::new() })
    );
}

#[test]
fn datagrams_are_walked() {
    let o = ByteOrder::Little;
    let mut d = message(o, 2, &words(o, &[1, 1]));
    let mut noop = message(o, 2, &words(o, &[2, 2]));
    noop[4] = 1;
    d.extend(noop);
    d.extend(message(o, 2, &words(o, &[3, 3])));
    assert_eq!(
        parse_datagram(o, &d),
        [ProcEvent::Exec { pid: 1 }, ProcEvent::Exec { pid: 3 }]
    );
    d.truncate(d.len() - 1);
    assert_eq!(parse_datagram(o, &d), [ProcEvent::Exec { pid: 1 }]);
    let mut tiny = d.clone();
    tiny[0] = 15;
    assert!(parse_datagram(o, &tiny).is_empty());
    assert!(parse_datagram(o, &vec![]).is_empty());
}

#[test]
fn events_are_handed_out_in_order_of_arrival() {
    let o = ByteOrder::Big;
    let mut m = ProcMonitor::new();
    assert_eq!(m.next_event(), None);
    m.receive(o, &message(o, 2, &words(o, &[1, 1])));
    m.receive(o, &message(o, 2, &words(o, &[2, 2])));
    assert_eq!(m.next_event(), Some(ProcEvent::Exec { pid: 1 }));
    assert_eq!(m.next_event(), Some(ProcEvent::Exec { pid: 2 }));
    assert_eq!(m.next_event(), None);
}

#[test]
fn the_request_for_events() {
    let r = subscribe_to_proc_events(ByteOrder::Little, 0x01020304);
    assert_eq!(
        r,
        [
            40, 0, 0, 0, 3, 0, 0, 0, 0, 0, 0, 0, 4, 3, 2, 1, 1, 0, 0, 0, 1, 0, 0, 0, 0, 0, 0, 0, 0,
            0, 0, 0, 4, 0, 0, 0, 1, 0, 0, 0
        ]
    );
    assert_eq!(subscribe_to_proc_events(ByteOrder::Big, 1)[3], 40);
    assert_eq!(NLMSG_DONE as i32, libc::NLMSG_DONE);
    assert_eq!(NETLINK_CONNECTOR, libc::NETLINK_CONNECTOR);
}

#[test]
fn scans_read_what_is_not_known() {
    let names: Vec<String> =
        ["1", "self", "42", "+7", "99999999999", ""].iter().map(|s| s.to_string()).collect();
    assert_eq!(scan_proc(&names), [1, 42, 7]);
    let known: HashSet<u32> = [42, 1000].into_iter().collect();
    let plan = scan_proc_incremental(&names, &known);
    assert_eq!(plan.to_read, [1, 7]);
    assert_eq!(plan.live_pids, [1, 42, 7].into_iter().collect());
    assert_eq!(pid_path(4294967295), "/proc/4294967295");
    let empty = ScanResult::default();
    assert!(empty.new_processes.is_empty() && empty.live_pids.is_empty());
}
