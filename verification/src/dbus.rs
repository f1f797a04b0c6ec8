//! What the bus services answer and pass on.
//!
//! The daemon itself is served on the control socket only. The functions here
//! are for services that translate bus calls: they gate a call by the answer
//! of the authorisation service, and put the state into the shape of the bus.

use vstd::prelude::*;

use crate::control;
use crate::control::{ControlCommand, SharedState};
use crate::pids::keys;
use crate::text;
use crate::text::{format_u64, owned};

verus! {

broadcast use vstd::std_specs::hash::group_hash_axioms;

/// Commands from the bus to the daemon.
#[derive(Clone, Debug, PartialEq, Eq)]
pub enum DbusCommand {
    SetForegroundProcess(u32),
    SetProcessCgroup { pid: u32, cgroup: String },
    ReloadRules,
}

impl View for DbusCommand {
    type V = control::CommandView;

    open spec fn view(&self) -> control::CommandView {
        match self {
            DbusCommand::SetForegroundProcess(pid) => control::CommandView::SetForegroundProcess(
                *pid,
            ),
            DbusCommand::SetProcessCgroup { pid, cgroup } => control::CommandView::SetProcessCgroup {
                pid: *pid,
                cgroup: cgroup@,
            },
            DbusCommand::ReloadRules => control::CommandView::ReloadRules,
        }
    }
}

impl DbusCommand {
    /// The same command on the control socket.
    pub fn into_control(self) -> (r: ControlCommand)
        ensures
            r@ == self@,
    {
        match self {
            DbusCommand::SetForegroundProcess(pid) => ControlCommand::SetForegroundProcess(pid),
            DbusCommand::SetProcessCgroup { pid, cgroup } => ControlCommand::SetProcessCgroup {
                pid,
                cgroup,
            },
            DbusCommand::ReloadRules => ControlCommand::ReloadRules,
        }
    }
}

// ---------------------------------------------------------------------------
// Authorisation
// ---------------------------------------------------------------------------

/// What the authorisation service said.
#[derive(Clone, Copy, Debug, PartialEq, Eq, Structural)]
pub enum Authorization {
    Granted,
    Denied,
    /// It could not be asked.
    Failed,
}

/// The command to load the rules again, if the caller may give it.
pub fn reload_rules(auth: Authorization) -> (r: Option<DbusCommand>)
    ensures
        match r {
            Some(c) => auth == Authorization::Granted && c@ == control::CommandView::ReloadRules,
            None => auth != Authorization::Granted,
        },
{
    match auth {
        Authorization::Granted => Some(DbusCommand::ReloadRules),
        Authorization::Denied => None,
        Authorization::Failed => None,
    }
}

/// The command to move a process, if the caller may give it.
pub fn set_process_cgroup(auth: Authorization, pid: u32, cgroup: String) -> (r: Option<DbusCommand>)
    ensures
        match r {
            Some(c) => auth == Authorization::Granted && c@ == (
            control::CommandView::SetProcessCgroup { pid, cgroup: cgroup@ }),
            None => auth != Authorization::Granted,
        },
{
    match auth {
        Authorization::Granted => Some(DbusCommand::SetProcessCgroup { pid, cgroup }),
        Authorization::Denied => None,
        Authorization::Failed => None,
    }
}

/// The command to bring a process to the foreground, unless the caller was
/// denied it. If the authorisation service could not be asked, the command is
/// given.
pub fn set_foreground_process(auth: Authorization, pid: u32) -> (r: Option<DbusCommand>)
    ensures
        match r {
            Some(c) => auth != Authorization::Denied && c@
                == control::CommandView::SetForegroundProcess(pid),
            None => auth == Authorization::Denied,
        },
{
    match auth {
        Authorization::Denied => None,
        Authorization::Granted => Some(DbusCommand::SetForegroundProcess(pid)),
        Authorization::Failed => Some(DbusCommand::SetForegroundProcess(pid)),
    }
}

/// The command for a hint that a process is in the background: it goes to the
/// background tier.
pub fn set_background_process(pid: u32) -> (r: DbusCommand)
    ensures
        r@ == (control::CommandView::SetProcessCgroup { pid, cgroup: "background"@ }),
{
    DbusCommand::SetProcessCgroup { pid, cgroup: owned("background") }
}

// ---------------------------------------------------------------------------
// Queries
// ---------------------------------------------------------------------------

/// The pairs of a dictionary, with texts as sequences of characters.
pub open spec fn pair_texts(v: Seq<(String, String)>) -> Seq<(Seq<char>, Seq<char>)> {
    Seq::new(v.len(), |i: int| (v[i].0@, v[i].1@))
}

fn pair(key: &str, value: String) -> (r: (String, String))
    ensures
        (r.0@, r.1@) == (key@, value@),
{
    (owned(key), value)
}

/// The status of the daemon, as the entries of a dictionary.
pub fn get_daemon_status(state: &SharedState, now_ns: u64) -> (r: Vec<(String, String)>)
    ensures
        pair_texts(r@) == seq![
            ("version"@, state.version@),
            ("mode"@, state.mode@),
            ("process_count"@, text::decimal(state.managed_map().dom().len())),
            (
                "uptime_secs"@,
                text::decimal(control::seconds_between(state.started_ns, now_ns) as nat),
            ),
        ],
{
    assert(state.managed_map().dom() =~= state.managed@.dom());
    let count: usize = state.managed.len();
    let uptime: u64 = if now_ns > state.started_ns {
        (now_ns - state.started_ns) / 1_000_000_000
    } else {
        0
    };
    let mut r: Vec<(String, String)> = Vec::new();
    r.push(pair("version", owned(state.version.as_str())));
    r.push(pair("mode", owned(state.mode.as_str())));
    r.push(pair("process_count", format_u64(count as u64)));
    r.push(pair("uptime_secs", format_u64(uptime)));
    assert(pair_texts(r@) =~= seq![
        ("version"@, state.version@),
        ("mode"@, state.mode@),
        ("process_count"@, text::decimal(state.managed_map().dom().len())),
        (
            "uptime_secs"@,
            text::decimal(control::seconds_between(state.started_ns, now_ns) as nat),
        ),
    ]);
    r
}

/// One managed process, as the entries of a dictionary. There are none if the
/// process is not managed.
pub fn get_process_info(state: &SharedState, pid: u32) -> (r: Vec<(String, String)>)
    ensures
        pair_texts(r@) == if state.managed_map().dom().contains(pid) {
            let e = state.managed_map()[pid];
            seq![
                ("pid"@, text::decimal(pid as nat)),
                ("comm"@, e.comm),
                ("cgroup"@, e.cgroup),
                ("rule"@, e.rule_name),
            ]
        } else {
            Seq::empty()
        },
{
    let mut r: Vec<(String, String)> = Vec::new();
    match state.managed.get(&pid) {
        Some(e) => {
            r.push(pair("pid", format_u64(pid as u64)));
            r.push(pair("comm", owned(e.comm.as_str())));
            r.push(pair("cgroup", owned(e.cgroup.as_str())));
            r.push(pair("rule", owned(e.rule_name.as_str())));
            let ghost m = state.managed_map()[pid];
            assert(pair_texts(r@) =~= seq![
                ("pid"@, text::decimal(pid as nat)),
                ("comm"@, m.comm),
                ("cgroup"@, m.cgroup),
                ("rule"@, m.rule_name),
            ]);
        },
        None => {
            assert(pair_texts(r@) =~= Seq::empty());
        },
    }
    r
}

/// Whether a row shows a managed process: its pid, tier and rule.
pub open spec fn row_shows(row: (u32, String, String), e: control::ManagedView) -> bool {
    row.0 == e.pid && row.1@ == e.cgroup && row.2@ == e.rule_name
}

/// Whether the rows show the managed processes one by one, in this order.
pub open spec fn rows_in_order(
    r: Seq<(u32, String, String)>,
    managed: Map<u32, control::ManagedView>,
    order: Seq<u32>,
) -> bool {
    &&& order.no_duplicates()
    &&& order.to_set() == managed.dom()
    &&& r.len() == order.len()
    &&& forall|i: int| 0 <= i < r.len() ==> row_shows(#[trigger] r[i], managed[order[i]])
}

/// All managed processes, each once, in no given order.
pub fn list_managed_processes(state: &SharedState) -> (r: Vec<(u32, String, String)>)
    ensures
        exists|order: Seq<u32>| #[trigger] rows_in_order(r@, state.managed_map(), order),
{
    let all = keys(&state.managed);
    let mut r: Vec<(u32, String, String)> = Vec::new();
    let mut i: usize = 0;
    proof {
        assert(all@.to_set() =~= state.managed_map().dom());
    }
    while i < all.len()
        invariant
            i <= all@.len(),
            forall|p: u32| all@.contains(p) <==> state.managed@.dom().contains(p),
            r@.len() == i,
            forall|k: int|
                0 <= k < i ==> row_shows(#[trigger] r@[k], state.managed_map()[all@[k]]),
        decreases all@.len() - i,
    {
        assert(all@.contains(all@[i as int]));
        match state.managed.get(&all[i]) {
            Some(e) => {
                r.push((e.pid, owned(e.cgroup.as_str()), owned(e.rule_name.as_str())));
            },
            None => {},
        }
        i = i + 1;
    }
    assert(rows_in_order(r@, state.managed_map(), all@));
    r
}

/// The list holds a row for each managed process, and for no other, and none
/// twice.
pub proof fn every_managed_process_has_a_row(
    r: Seq<(u32, String, String)>,
    managed: Map<u32, control::ManagedView>,
    order: Seq<u32>,
    pid: u32,
)
    requires
        rows_in_order(r, managed, order),
        managed.dom().finite(),
        forall|p: u32| #[trigger] managed.dom().contains(p) ==> managed[p].pid == p,
    ensures
        r.len() == managed.dom().len(),
        managed.dom().contains(pid) <==> exists|i: int|
            0 <= i < r.len() && (#[trigger] r[i]).0 == pid && r[i].1@ == managed[pid].cgroup
                && r[i].2@ == managed[pid].rule_name,
        forall|i: int, j: int|
            0 <= i < j < r.len() ==> (#[trigger] r[i]).0 != (#[trigger] r[j]).0,
{
    order.unique_seq_to_set();
    assert forall|i: int| 0 <= i < r.len() implies managed.dom().contains(order[i]) && (
    #[trigger] r[i]).0 == order[i] by {
        assert(order.to_set().contains(order[i]));
        assert(row_shows(r[i], managed[order[i]]));
    }
    if managed.dom().contains(pid) {
        assert(order.to_set().contains(pid));
        let i = choose|i: int| 0 <= i < order.len() && order[i] == pid;
        assert(row_shows(r[i], managed[order[i]]));
        assert(r[i].0 == pid);
    }
}

} // verus!
