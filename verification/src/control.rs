//! The control interface: what the daemon answers and what it can be told.
//!
//! The interface is served on a local socket. Access is by membership in the
//! group that owns the socket and its directory.

use std::collections::HashMap;
use vstd::prelude::*;

use crate::path;
use crate::path::parent_path;
use crate::pids::keys;
use crate::text;
use crate::text::owned;

verus! {

broadcast use vstd::std_specs::hash::group_hash_axioms;

// ---------------------------------------------------------------------------
// State
// ---------------------------------------------------------------------------

/// What the control interface shows of a managed process.
#[derive(Clone, Debug)]
pub struct ProcessEntry {
    pub pid: u32,
    pub comm: String,
    pub cgroup: String,
    pub rule_name: String,
}

/// What a `ProcessEntry` says.
#[verifier::ext_equal]
pub struct ManagedView {
    pub pid: u32,
    pub comm: Seq<char>,
    pub cgroup: Seq<char>,
    pub rule_name: Seq<char>,
}

impl View for ProcessEntry {
    type V = ManagedView;

    open spec fn view(&self) -> ManagedView {
        ManagedView {
            pid: self.pid,
            comm: self.comm@,
            cgroup: self.cgroup@,
            rule_name: self.rule_name@,
        }
    }
}

/// Commands from the control interface to the daemon.
#[derive(Clone, Debug, PartialEq, Eq)]
pub enum ControlCommand {
    SetForegroundProcess(u32),
    SetProcessCgroup { pid: u32, cgroup: String },
    ReloadRules,
}

/// What a `ControlCommand` says.
#[verifier::ext_equal]
pub enum CommandView {
    SetForegroundProcess(u32),
    SetProcessCgroup { pid: u32, cgroup: Seq<char> },
    ReloadRules,
}

impl View for ControlCommand {
    type V = CommandView;

    open spec fn view(&self) -> CommandView {
        match self {
            ControlCommand::SetForegroundProcess(pid) => CommandView::SetForegroundProcess(*pid),
            ControlCommand::SetProcessCgroup { pid, cgroup } => CommandView::SetProcessCgroup {
                pid: *pid,
                cgroup: cgroup@,
            },
            ControlCommand::ReloadRules => CommandView::ReloadRules,
        }
    }
}

/// State that the control interface shares with the daemon.
pub struct SharedState {
    pub managed: HashMap<u32, ProcessEntry>,
    pub mode: String,
    /// When the daemon started, in nanoseconds of its clock.
    pub started_ns: u64,
    pub version: String,
    pub foreground_pid: Option<u32>,
}

/// The managed processes by pid.
pub open spec fn managed_views(m: Map<u32, ProcessEntry>) -> Map<u32, ManagedView> {
    m.map_values(|e: ProcessEntry| e@)
}

impl SharedState {
    /// The managed processes by pid.
    pub open spec fn managed_map(&self) -> Map<u32, ManagedView> {
        managed_views(self.managed@)
    }

    /// The state of a daemon of that version that has just started.
    pub fn new(version: &str, now_ns: u64) -> (r: SharedState)
        ensures
            r.managed_map() == Map::<u32, ManagedView>::empty(),
            r.mode@ == "normal"@,
            r.started_ns == now_ns,
            r.version@ == "ulatencyd-rs "@ + version@,
            r.foreground_pid is None,
    {
        let mut v: String = String::new();
        v.append("ulatencyd-rs ");
        v.append(version);
        assert(v@ =~= "ulatencyd-rs "@ + version@);
        let r = SharedState {
            managed: HashMap::new(),
            mode: owned("normal"),
            started_ns: now_ns,
            version: v,
            foreground_pid: None,
        };
        assert(r.managed_map() =~= Map::empty());
        r
    }
}

// ---------------------------------------------------------------------------
// Queries
// ---------------------------------------------------------------------------

/// The answer to a query for the status.
#[derive(Clone, Debug, PartialEq, Eq)]
pub struct StatusReply {
    pub version: String,
    pub mode: String,
    pub process_count: i64,
    pub uptime_secs: i64,
}

/// A managed process as the interface shows it.
#[derive(Clone, Debug, PartialEq, Eq)]
pub struct ProcessRecord {
    pub pid: i64,
    pub comm: String,
    pub cgroup: String,
    pub rule: String,
}

/// Whether a record shows a managed process.
pub open spec fn shows(r: ProcessRecord, e: ManagedView) -> bool {
    &&& r.pid == e.pid
    &&& r.comm@ == e.comm
    &&& r.cgroup@ == e.cgroup
    &&& r.rule@ == e.rule_name
}

/// Whether the records show the managed processes one by one, in this order.
pub open spec fn lists_in_order(
    r: Seq<ProcessRecord>,
    managed: Map<u32, ManagedView>,
    order: Seq<u32>,
) -> bool {
    &&& order.no_duplicates()
    &&& order.to_set() == managed.dom()
    &&& r.len() == order.len()
    &&& forall|i: int| 0 <= i < r.len() ==> shows(#[trigger] r[i], managed[order[i]])
}

/// There is no managed process with that pid.
#[derive(Clone, Copy, Debug, PartialEq, Eq, Structural)]
pub struct UnknownPid {
    pub pid: i64,
}

/// The pid that a number of the interface stands for: its low 32 bits.
pub open spec fn wire_pid(pid: i64) -> u32 {
    (pid as int % 0x1_0000_0000) as u32
}

/// The pid that a number of the interface stands for.
pub fn pid_from_wire(pid: i64) -> (r: u32)
    ensures
        r == wire_pid(pid),
{
    let wide: i128 = pid as i128;
    let low: i128 = if wide < 0 {
        let m: i128 = (-wide) % 0x1_0000_0000;
        assert((-wide) as int == 0x1_0000_0000 * ((-wide) as int / 0x1_0000_0000) + m);
        let r: i128 = if m == 0 {
            0
        } else {
            0x1_0000_0000 - m
        };
        assert(r == wide as int % 0x1_0000_0000) by (nonlinear_arith)
            requires
                0 <= m < 0x1_0000_0000,
                (-wide) as int == 0x1_0000_0000 * ((-wide) as int / 0x1_0000_0000) + m,
                m == 0 ==> r == 0,
                m != 0 ==> r == 0x1_0000_0000 - m,
        ;
        r
    } else {
        wide % 0x1_0000_0000
    };
    low as u32
}

fn record_of(e: &ProcessEntry) -> (r: ProcessRecord)
    ensures
        shows(r, e@),
{
    ProcessRecord {
        pid: e.pid as i64,
        comm: owned(e.comm.as_str()),
        cgroup: owned(e.cgroup.as_str()),
        rule: owned(e.rule_name.as_str()),
    }
}

/// Whole seconds from `start` to `now`.
pub open spec fn seconds_between(start: u64, now: u64) -> int {
    if now > start {
        (now - start) / 1_000_000_000
    } else {
        0
    }
}

impl SharedState {
    /// The status of the daemon.
    pub fn status(&self, now_ns: u64) -> (r: StatusReply)
        ensures
            r.version@ == self.version@,
            r.mode@ == self.mode@,
            self.managed_map().len() <= i64::MAX ==> r.process_count == self.managed_map().len(),
            r.uptime_secs == seconds_between(self.started_ns, now_ns),
    {
        let n: usize = self.managed.len();
        let process_count: i64 = n as i64;
        assert(self.managed_map().dom() =~= self.managed@.dom());
        let uptime: u64 = if now_ns > self.started_ns {
            (now_ns - self.started_ns) / 1_000_000_000
        } else {
            0
        };
        StatusReply {
            version: owned(self.version.as_str()),
            mode: owned(self.mode.as_str()),
            process_count,
            uptime_secs: uptime as i64,
        }
    }

    /// All managed processes, each once, in no given order.
    pub fn list_managed_processes(&self) -> (r: Vec<ProcessRecord>)
        ensures
            exists|order: Seq<u32>| #[trigger] lists_in_order(r@, self.managed_map(), order),
    {
        let all = keys(&self.managed);
        let mut r: Vec<ProcessRecord> = Vec::new();
        let mut i: usize = 0;
        proof {
            assert(all@.to_set() =~= self.managed_map().dom());
        }
        while i < all.len()
            invariant
                i <= all@.len(),
                all@.no_duplicates(),
                forall|p: u32| all@.contains(p) <==> self.managed@.dom().contains(p),
                r@.len() == i,
                forall|k: int|
                    0 <= k < i ==> shows(#[trigger] r@[k], self.managed_map()[all@[k]]),
            decreases all@.len() - i,
        {
            assert(all@.contains(all@[i as int]));
            match self.managed.get(&all[i]) {
                Some(e) => {
                    r.push(record_of(e));
                },
                None => {},
            }
            i = i + 1;
        }
        assert(lists_in_order(r@, self.managed_map(), all@));
        r
    }

    /// One managed process.
    pub fn get_process_info(&self, pid: i64) -> (r: Result<ProcessRecord, UnknownPid>)
        ensures
            match r {
                Ok(rec) => self.managed_map().dom().contains(wire_pid(pid)) && shows(
                    rec,
                    self.managed_map()[wire_pid(pid)],
                ),
                Err(e) => !self.managed_map().dom().contains(wire_pid(pid)) && e.pid == pid,
            },
    {
        let p: u32 = pid_from_wire(pid);
        match self.managed.get(&p) {
            Some(e) => Ok(record_of(e)),
            None => Err(UnknownPid { pid }),
        }
    }
}

// ---------------------------------------------------------------------------
// Commands
// ---------------------------------------------------------------------------

/// The command to load the rules again.
pub fn reload_rules() -> (r: ControlCommand)
    ensures
        r@ == CommandView::ReloadRules,
{
    ControlCommand::ReloadRules
}

/// The command to move a process to a tier.
pub fn set_process_cgroup(pid: i64, cgroup: String) -> (r: ControlCommand)
    ensures
        r@ == (CommandView::SetProcessCgroup { pid: wire_pid(pid), cgroup: cgroup@ }),
{
    ControlCommand::SetProcessCgroup { pid: pid_from_wire(pid), cgroup }
}

/// The command to bring a process to the foreground.
pub fn set_foreground_process(pid: i64) -> (r: ControlCommand)
    ensures
        r@ == CommandView::SetForegroundProcess(wire_pid(pid)),
{
    ControlCommand::SetForegroundProcess(pid_from_wire(pid))
}

/// A pid arrives as it was sent.
pub proof fn pid_survives_the_wire(pid: u32)
    ensures
        wire_pid(pid as i64) == pid,
{
}

// ---------------------------------------------------------------------------
// Socket
// ---------------------------------------------------------------------------

/// What stands at the path of the socket before it is bound.
#[derive(Clone, Copy, Debug, PartialEq, Eq, Structural)]
pub enum SocketPathState {
    Nothing,
    Socket,
    Other,
}

/// Why the socket cannot be set up.
#[derive(Clone, Debug, PartialEq, Eq)]
pub enum SocketError {
    /// The path has no parent directory.
    NoParent,
    /// Something that is no socket stands at the path.
    NotASocket(String),
}

impl SocketError {
    /// The error in words.
    pub fn message(&self) -> (r: String)
        ensures
            r@ == match self {
                SocketError::NoParent => "control socket path has no parent directory"@,
                SocketError::NotASocket(p) => p@
                    + " exists and is not a socket — refusing to remove it"@,
            },
    {
        match self {
            SocketError::NoParent => owned("control socket path has no parent directory"),
            SocketError::NotASocket(p) => {
                let mut m = owned(p.as_str());
                m.append(" exists and is not a socket — refusing to remove it");
                m
            },
        }
    }
}

/// Whether what stands at the path is to be removed. Only a socket that was
/// left behind is; anything else is never removed.
pub fn remove_stale_socket(path: &str, state: SocketPathState) -> (r: Result<bool, SocketError>)
    ensures
        match r {
            Ok(remove) => state != SocketPathState::Other && remove == (state
                == SocketPathState::Socket),
            Err(e) => state == SocketPathState::Other && (e matches SocketError::NotASocket(p)
                && p@ == path@),
        },
{
    match state {
        SocketPathState::Nothing => Ok(false),
        SocketPathState::Socket => Ok(true),
        SocketPathState::Other => Err(SocketError::NotASocket(owned(path))),
    }
}

/// How the socket and its directory are to be set up.
#[derive(Clone, Debug, PartialEq, Eq)]
pub struct SocketSetup {
    /// The directory to create.
    pub parent: String,
    /// The group that is to own both.
    pub gid: u32,
    pub dir_mode: u32,
    pub socket_mode: u32,
}

/// How the socket and its directory are to be set up: owned by the control
/// group, or by the group of the daemon if that group does not exist, and
/// closed to everyone else.
pub fn prepare_socket_dir(socket_path: &str, group_gid: Option<u32>, own_gid: u32) -> (r: Result<
    SocketSetup,
    SocketError,
>)
    ensures
        match r {
            Ok(s) => {
                &&& path::parent(socket_path@) == Some(s.parent@)
                &&& s.gid == (match group_gid {
                    Some(g) => g,
                    None => own_gid,
                })
                &&& s.dir_mode == 0o750
                &&& s.socket_mode == 0o660
            },
            Err(e) => path::parent(socket_path@) is None && e == SocketError::NoParent,
        },
{
    match parent_path(socket_path) {
        Some(parent) => {
            let gid: u32 = match group_gid {
                Some(g) => g,
                None => own_gid,
            };
            Ok(SocketSetup { parent, gid, dir_mode: 0o750, socket_mode: 0o660 })
        },
        None => Err(SocketError::NoParent),
    }
}

/// How often the socket is looked for after the listener was started.
pub const SOCKET_LOOKS: u32 = 50;

/// How long to wait between two looks, in milliseconds.
pub const SOCKET_WAIT_MS: u64 = 20;

/// What to do about the permissions of the socket.
#[derive(Clone, Copy, Debug, PartialEq, Eq, Structural)]
pub enum FixupStep {
    /// The socket is there: set its owner and its mode.
    Fix,
    /// Wait that many milliseconds, then look again.
    Wait(u64),
    /// The socket did not appear in time.
    GiveUp,
}

/// What to do about the permissions of the socket after it was looked for
/// `looks` times before; `found` says whether it is there now.
pub fn socket_permission_fixup(looks: u32, found: bool) -> (r: FixupStep)
    ensures
        r == if looks >= SOCKET_LOOKS {
            FixupStep::GiveUp
        } else if found {
            FixupStep::Fix
        } else {
            FixupStep::Wait(SOCKET_WAIT_MS)
        },
        r == FixupStep::Fix <==> found && looks < 50,
        r == FixupStep::GiveUp <==> looks >= 50,
        r matches FixupStep::Wait(ms) ==> ms == 20,
{
    if looks >= SOCKET_LOOKS {
        FixupStep::GiveUp
    } else if found {
        FixupStep::Fix
    } else {
        FixupStep::Wait(SOCKET_WAIT_MS)
    }
}

/// The address on which the control interface is served.
pub fn listen_address(socket_path: &str) -> (r: String)
    ensures
        r@ == "unix:"@ + socket_path@,
{
    let mut a: String = String::new();
    a.append("unix:");
    a.append(socket_path);
    assert(a@ =~= "unix:"@ + socket_path@);
    a
}

/// The whole seconds between two times; none where the clock went back.
pub proof fn whole_seconds_are_counted(start: u64, now: u64)
    ensures
        now >= start ==> seconds_between(start, now) * 1_000_000_000 <= now - start
            < (seconds_between(start, now) + 1) * 1_000_000_000,
        now < start ==> seconds_between(start, now) == 0,
{
}

/// A pid on the wire is its value where it is one, and is taken by its lowest
/// four bytes otherwise.
pub proof fn wire_pid_is_the_low_half(pid: i64)
    ensures
        0 <= pid <= 0xffff_ffff ==> wire_pid(pid) == pid,
        (pid - wire_pid(pid)) % 0x1_0000_0000 == 0,
{
}

/// The list holds a record of each managed process, and of no other, and no
/// process twice.
pub proof fn every_managed_process_is_listed(
    r: Seq<ProcessRecord>,
    managed: Map<u32, ManagedView>,
    order: Seq<u32>,
    pid: u32,
)
    requires
        lists_in_order(r, managed, order),
        managed.dom().finite(),
        forall|p: u32| #[trigger] managed.dom().contains(p) ==> managed[p].pid == p,
    ensures
        r.len() == managed.dom().len(),
        managed.dom().contains(pid) <==> exists|i: int|
            0 <= i < r.len() && (#[trigger] r[i]).pid == pid && r[i].comm@ == managed[pid].comm
                && r[i].cgroup@ == managed[pid].cgroup && r[i].rule@ == managed[pid].rule_name,
        forall|i: int, j: int|
            0 <= i < j < r.len() ==> (#[trigger] r[i]).pid != (#[trigger] r[j]).pid,
{
    order.unique_seq_to_set();
    assert forall|i: int| 0 <= i < r.len() implies managed.dom().contains(order[i]) && (
    #[trigger] r[i]).pid == order[i] by {
        assert(order.to_set().contains(order[i]));
        assert(shows(r[i], managed[order[i]]));
    }
    if managed.dom().contains(pid) {
        assert(order.to_set().contains(pid));
        let i = choose|i: int| 0 <= i < order.len() && order[i] == pid;
        assert(shows(r[i], managed[order[i]]));
        assert(r[i].pid == pid);
    }
}

/// What is shown of the managed processes is what is kept of them.
pub proof fn managed_processes_are_shown(s: SharedState, pid: u32)
    ensures
        s.managed_map().dom().contains(pid) <==> s.managed@.dom().contains(pid),
        s.managed@.dom().contains(pid) ==> {
            let e = s.managed@[pid];
            let m = s.managed_map()[pid];
            &&& m.pid == e.pid
            &&& m.comm == e.comm@
            &&& m.cgroup == e.cgroup@
            &&& m.rule_name == e.rule_name@
        },
{
}

} // verus!
