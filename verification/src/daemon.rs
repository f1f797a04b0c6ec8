//! The decisions of the daemon.
//!
//! The daemon is a state machine. Every event is handed to it together with
//! the time; what it answers is a step for the program around it: effects to
//! carry out, and what to read before it can go on. Nothing here waits, reads
//! or writes.
//!
//! During a grace period after startup no process is classified. Processes
//! that appear in that time are taken into the table, and the full scan at its
//! end classifies them. Only fork bombs are dealt with at once.

use std::collections::HashSet;
use vstd::prelude::*;

use crate::applier;
use crate::applier::{apply_action, apply_cgroup_only, restore_cgroup, Effect};
use crate::cgroupv2;
use crate::cgroupv2::{Cgroup, CgroupManager, CgroupTier, KnobWrite};
use crate::config::Config;
use crate::control;
use crate::control::{ControlCommand, ManagedView, ProcessEntry, SharedState};
use crate::event::Event;
use crate::focus;
use crate::focus::ForegroundTracker;
use crate::forkbomb;
use crate::forkbomb::ForkBombDetector;
use crate::info;
use crate::info::{read_cgroup_v2, ProcessInfo, ProcessView};
use crate::init;
use crate::init::InitSystem;
use crate::netlink::ProcEvent;
use crate::pids::keys;
use crate::process_table;
use crate::process_table::{EntryView, ProcessTable};
use crate::psi::PressureLevel;
use crate::rules;
use crate::rules::{Action, ActionView, RuleEngine, RuleFile};
use crate::scan::pid_path;
use crate::sched;
use crate::sched::{apply_sched_profile, profile_for, PowerState};
use crate::text;
use crate::text::{owned, same};

verus! {

broadcast use vstd::std_specs::hash::group_hash_axioms;

// ---------------------------------------------------------------------------
// State
// ---------------------------------------------------------------------------

/// The state of the daemon.
pub struct Daemon {
    pub config: Config,
    pub cgmgr: CgroupManager,
    pub engine: RuleEngine,
    pub table: ProcessTable,
    pub forkbomb: ForkBombDetector,
    pub focus: ForegroundTracker,
    pub state: SharedState,
    /// When the grace period ends, in nanoseconds of the daemon's clock.
    pub startup_deadline_ns: u128,
    pub startup_phase: bool,
    /// Whether the kernel has the older latency knob.
    pub sched_latency_ns_available: bool,
    /// Whether the preemption model can be switched.
    pub preempt_switchable: bool,
    pub last_power_source: Option<PowerState>,
    pub last_pressure_level: PressureLevel,
    /// The process of the daemon itself.
    pub own_pid: u32,
}

/// What is to be done with a process after it was read.
#[derive(Clone, Copy, Debug, PartialEq, Eq, Structural)]
pub enum AfterRead {
    /// Take it into the table, to be classified later.
    Defer,
    /// Take it into the table; it is not to be classified before it changes.
    Settle,
    /// Take it into the table and classify it.
    Classify,
    /// The same; and forget it if it is gone.
    Recheck,
}

/// What the program is to do next.
#[derive(Clone, Debug, PartialEq, Eq)]
pub enum Step {
    Nothing,
    /// Carry out the effects.
    Apply(Vec<Effect>),
    /// Carry out the effects, then read a process and go on with it.
    Read { effects: Vec<Effect>, pid: u32, then: AfterRead },
    /// Apply the scheduling profile for a power source.
    SwitchProfile(PowerState),
    /// Scan all processes.
    Rescan,
    /// Read these processes and check each of them again.
    Recheck(Vec<u32>),
    /// Look for tiers without processes.
    CollectGarbage,
    /// Read which processes are in the idle and the background tier, and
    /// throttle them.
    ThrottleTiers,
    /// Read which processes are in the swapstorm tier, and open them for
    /// classification.
    ReopenSwapstorm,
    /// Load the rules again.
    Reload,
    /// End.
    Stop,
}

/// What is to be done when the daemon starts to run.
#[derive(Clone, Copy, Debug, PartialEq, Eq, Structural)]
pub struct StartPlan {
    /// Whether automatic task grouping is to be disabled.
    pub disable_autogroup: bool,
    /// The power source whose profile is to be applied.
    pub power: PowerState,
    /// Whether the processes that exist are to be scanned.
    pub scan: bool,
}

/// How one process is put back at shutdown.
#[derive(Clone, Debug, PartialEq, Eq)]
pub struct Restore {
    pub pid: u32,
    /// The directory that exists as long as the process does.
    pub proc_dir: String,
    /// The write that puts it back, if its file still exists.
    pub write: KnobWrite,
}

impl Daemon {
    /// The parts are well-formed.
    pub open spec fn wf(&self) -> bool {
        self.table.wf() && self.forkbomb.wf()
    }
}

/// Whether what does not concern single processes is the same.
pub open spec fn same_setup(a: Daemon, b: Daemon) -> bool {
    &&& a.config == b.config
    &&& a.cgmgr == b.cgmgr
    &&& a.engine == b.engine
    &&& a.startup_deadline_ns == b.startup_deadline_ns
    &&& a.startup_phase == b.startup_phase
    &&& a.sched_latency_ns_available == b.sched_latency_ns_available
    &&& a.preempt_switchable == b.preempt_switchable
    &&& a.last_power_source == b.last_power_source
    &&& a.last_pressure_level == b.last_pressure_level
    &&& a.own_pid == b.own_pid
}

/// Whether the shared state differs in the managed processes at most.
pub open spec fn same_but_managed(a: SharedState, b: SharedState) -> bool {
    &&& a.mode == b.mode
    &&& a.started_ns == b.started_ns
    &&& a.version == b.version
    &&& a.foreground_pid == b.foreground_pid
}

// ---------------------------------------------------------------------------
// Events of processes
// ---------------------------------------------------------------------------

/// What a fork does. A fork of a thread is not counted.
pub open spec fn fork_handled(
    before: Daemon,
    after: Daemon,
    parent: u32,
    child: u32,
    child_tgid: u32,
    now: u64,
    step: Step,
) -> bool {
    let counted = child == child_tgid;
    let bomb = counted && forkbomb::detects(before.forkbomb, parent, now);
    let depth = before.forkbomb.depth() as nat;
    &&& same_setup(before, after)
    &&& after.table == before.table
    &&& after.focus == before.focus
    &&& after.state == before.state
    &&& if counted {
        forkbomb::was_recorded(before.forkbomb, after.forkbomb, parent, now)
    } else {
        after.forkbomb == before.forkbomb
    }
    &&& match step {
        Step::Apply(v) => !before.startup_phase && bomb && forkbomb::throttles(
            before.table,
            parent,
            depth,
            v@,
        ),
        Step::Read { effects, pid, then } => {
            &&& pid == child
            &&& before.startup_phase || !bomb
            &&& then == (if before.startup_phase {
                AfterRead::Defer
            } else {
                AfterRead::Settle
            })
            &&& if bomb {
                forkbomb::throttles(before.table, parent, depth, effects@)
            } else {
                effects@.len() == 0
            }
        },
        _ => false,
    }
}

/// What the end of a process does: it is forgotten everywhere, and if it was
/// in the foreground its nice level is restored.
pub open spec fn exit_handled(before: Daemon, after: Daemon, pid: u32, step: Step) -> bool {
    &&& same_setup(before, after)
    &&& process_table::was_removed(before.table, after.table, pid)
    &&& after.focus.pids() == before.focus.pids().remove(pid)
    &&& after.focus.root() == before.focus.root()
    &&& after.forkbomb == before.forkbomb
    &&& after.state.managed_map() == before.state.managed_map().remove(pid)
    &&& same_but_managed(before.state, after.state)
    &&& match step {
        Step::Apply(v) => before.focus.pids().contains(pid) && v@ == seq![
            Effect::Nice { pid, nice: 0 },
        ],
        Step::Nothing => !before.focus.pids().contains(pid),
        _ => false,
    }
}

/// What a new program in a process does: the process is read, and classified
/// unless the grace period lasts.
pub open spec fn exec_handled(before: Daemon, after: Daemon, pid: u32, step: Step) -> bool {
    &&& after == before
    &&& step matches Step::Read { effects, pid: p, then } && effects@.len() == 0 && p == pid && then
        == (if before.startup_phase {
        AfterRead::Defer
    } else {
        AfterRead::Classify
    })
}

/// Whether the process is in the table and classified.
pub open spec fn is_classified(t: ProcessTable, pid: u32) -> bool {
    t.entries().dom().contains(pid) && t.entries()[pid].classified
}

/// What a new name or user of a process does: nothing during the grace period,
/// nor if the process was classified already. Otherwise it is read and
/// classified.
pub open spec fn change_handled(before: Daemon, after: Daemon, pid: u32, step: Step) -> bool {
    &&& after == before
    &&& if before.startup_phase || is_classified(before.table, pid) {
        step == Step::Nothing
    } else {
        step matches Step::Read { effects, pid: p, then } && effects@.len() == 0 && p == pid
            && then == AfterRead::Classify
    }
}

/// What an event of a process does.
pub open spec fn proc_handled(
    before: Daemon,
    after: Daemon,
    event: ProcEvent,
    now: u64,
    step: Step,
) -> bool {
    match event {
        ProcEvent::Fork { parent_pid, child_pid, child_tgid } => fork_handled(
            before,
            after,
            parent_pid,
            child_pid,
            child_tgid,
            now,
            step,
        ),
        ProcEvent::Exec { pid } => exec_handled(before, after, pid, step),
        ProcEvent::Exit { pid, .. } => exit_handled(before, after, pid, step),
        ProcEvent::Comm { pid, .. } => change_handled(before, after, pid, step),
        ProcEvent::Uid { pid } => change_handled(before, after, pid, step),
    }
}

impl Daemon {
    /// The daemon as it starts at `now_ns`.
    pub fn new(
        config: Config,
        cgmgr: CgroupManager,
        rule_files: &Vec<RuleFile>,
        state: SharedState,
        init_system: InitSystem,
        sched_latency_ns_available: bool,
        preempt_switchable: bool,
        own_pid: u32,
        now_ns: u64,
    ) -> (r: Daemon)
        ensures
            r.wf(),
            r.config == config,
            r.cgmgr == cgmgr,
            rules::rule_views(r.engine.rules@) == rules::by_priority(
                rules::rules_in(rule_files@, rule_files@.len()),
            ),
            text::texts(r.engine.exceptions.exact_names@) == rules::exempt_names(),
            text::texts(r.engine.exceptions.ancestor_names@) == rules::exempt_ancestors(),
            r.table.entries() == Map::<u32, EntryView>::empty(),
            r.forkbomb.windows() == Map::<u32, Seq<u64>>::empty(),
            r.forkbomb.throttled() == Set::<u32>::empty(),
            r.forkbomb.threshold() == config.fork_bomb.threshold_per_second,
            r.forkbomb.depth() == config.fork_bomb.lineage_depth,
            r.focus.pids() == Set::<u32>::empty(),
            r.focus.root() is None,
            r.state == state,
            r.startup_deadline_ns == now_ns + init::grace_secs(init_system) * 1_000_000_000,
            r.startup_phase,
            r.sched_latency_ns_available == sched_latency_ns_available,
            r.preempt_switchable == preempt_switchable,
            r.last_power_source is None,
            r.last_pressure_level == PressureLevel::Normal,
            r.own_pid == own_pid,
    {
        let grace: u64 = init_system.startup_grace_secs();
        let forkbomb = ForkBombDetector::new(
            config.fork_bomb.threshold_per_second,
            config.fork_bomb.lineage_depth,
        );
        Daemon {
            config,
            cgmgr,
            engine: RuleEngine::load(rule_files),
            table: ProcessTable::new(),
            forkbomb,
            focus: ForegroundTracker::new(),
            state,
            startup_deadline_ns: now_ns as u128 + (grace as u128) * 1_000_000_000,
            startup_phase: true,
            sched_latency_ns_available,
            preempt_switchable,
            last_power_source: None,
            last_pressure_level: PressureLevel::Normal,
            own_pid,
        }
    }

    /// What is to be done before the first event: the grace period begins.
    pub fn start(&mut self, initial_power: PowerState) -> (r: StartPlan)
        requires
            old(self).wf(),
        ensures
            *final(self) == (Daemon {
                last_power_source: Some(initial_power),
                startup_phase: true,
                ..*old(self)
            }),
            r.disable_autogroup == !old(self).config.sched.autogroup_enabled,
            r.power == initial_power,
            r.scan == old(self).config.daemon.apply_to_existing_processes,
    {
        self.last_power_source = Some(initial_power);
        self.startup_phase = true;
        StartPlan {
            disable_autogroup: !self.config.sched.autogroup_enabled,
            power: initial_power,
            scan: self.config.daemon.apply_to_existing_processes,
        }
    }

    /// Ends the grace period if its time is over. Then a full scan is due
    /// before the next event is handled.
    pub fn end_grace(&mut self, now_ns: u64) -> (r: bool)
        ensures
            r == (old(self).startup_phase && now_ns >= old(self).startup_deadline_ns),
            *final(self) == if r {
                Daemon { startup_phase: false, ..*old(self) }
            } else {
                *old(self)
            },
    {
        if self.startup_phase && now_ns as u128 >= self.startup_deadline_ns {
            self.startup_phase = false;
            true
        } else {
            false
        }
    }

    fn count_fork(&mut self, parent_pid: u32, child_pid: u32, child_tgid: u32, now_ns: u64) -> (r:
        Option<Vec<Effect>>)
        requires
            old(self).wf(),
        ensures
            final(self).wf(),
            same_setup(*old(self), *final(self)),
            final(self).table == old(self).table,
            final(self).focus == old(self).focus,
            final(self).state == old(self).state,
            if child_pid == child_tgid {
                forkbomb::was_recorded(
                    old(self).forkbomb,
                    final(self).forkbomb,
                    parent_pid,
                    now_ns,
                )
            } else {
                final(self).forkbomb == old(self).forkbomb
            },
            match r {
                Some(v) => child_pid == child_tgid && forkbomb::detects(
                    old(self).forkbomb,
                    parent_pid,
                    now_ns,
                ) && forkbomb::throttles(
                    old(self).table,
                    parent_pid,
                    old(self).forkbomb.depth() as nat,
                    v@,
                ),
                None => !(child_pid == child_tgid && forkbomb::detects(
                    old(self).forkbomb,
                    parent_pid,
                    now_ns,
                )),
            },
    {
        if child_pid == child_tgid {
            match self.forkbomb.record_fork(parent_pid, now_ns) {
                Some(ppid) => Some(self.forkbomb.throttle_subtree(ppid, &self.table)),
                None => None,
            }
        } else {
            None
        }
    }

    fn forget(&mut self, pid: u32) -> (r: Step)
        requires
            old(self).wf(),
        ensures
            final(self).wf(),
            exit_handled(*old(self), *final(self), pid, r),
    {
        let effect = self.focus.on_exit(pid);
        self.table.remove(pid);
        self.state.managed.remove(&pid);
        assert(self.state.managed_map() =~= old(self).state.managed_map().remove(pid));
        match effect {
            Some(e) => {
                let mut v: Vec<Effect> = Vec::new();
                v.push(e);
                assert(v@ =~= seq![Effect::Nice { pid, nice: 0 }]);
                Step::Apply(v)
            },
            None => Step::Nothing,
        }
    }

    /// Reacts to an event of a process during the grace period: nothing is
    /// classified, but fork bombs are throttled and the table is kept.
    pub fn handle_proc_event_startup(&mut self, event: ProcEvent, now_ns: u64) -> (r: Step)
        requires
            old(self).wf(),
            old(self).startup_phase,
        ensures
            final(self).wf(),
            proc_handled(*old(self), *final(self), event, now_ns, r),
    {
        match event {
            ProcEvent::Fork { parent_pid, child_pid, child_tgid } => {
                let effects = match self.count_fork(parent_pid, child_pid, child_tgid, now_ns) {
                    Some(v) => v,
                    None => Vec::new(),
                };
                Step::Read { effects, pid: child_pid, then: AfterRead::Defer }
            },
            ProcEvent::Exit { pid, .. } => self.forget(pid),
            ProcEvent::Exec { pid } => Step::Read {
                effects: Vec::new(),
                pid,
                then: AfterRead::Defer,
            },
            ProcEvent::Comm { .. } => Step::Nothing,
            ProcEvent::Uid { .. } => Step::Nothing,
        }
    }

    /// Reacts to an event of a process.
    ///
    /// A forked child still has the name of its parent, so it is not
    /// classified before it runs its own program.
    pub fn handle_proc_event(&mut self, event: ProcEvent, now_ns: u64) -> (r: Step)
        requires
            old(self).wf(),
            !old(self).startup_phase,
        ensures
            final(self).wf(),
            proc_handled(*old(self), *final(self), event, now_ns, r),
    {
        match event {
            ProcEvent::Fork { parent_pid, child_pid, child_tgid } => {
                match self.count_fork(parent_pid, child_pid, child_tgid, now_ns) {
                    Some(v) => Step::Apply(v),
                    None => Step::Read {
                        effects: Vec::new(),
                        pid: child_pid,
                        then: AfterRead::Settle,
                    },
                }
            },
            ProcEvent::Exec { pid } => Step::Read {
                effects: Vec::new(),
                pid,
                then: AfterRead::Classify,
            },
            ProcEvent::Exit { pid, .. } => self.forget(pid),
            ProcEvent::Comm { pid, .. } => self.recheck_changed(pid),
            ProcEvent::Uid { pid } => self.recheck_changed(pid),
        }
    }

    fn recheck_changed(&self, pid: u32) -> (r: Step)
        requires
            !self.startup_phase,
        ensures
            change_handled(*self, *self, pid, r),
    {
        let already_classified = match self.table.get(pid) {
            Some(e) => e.classified,
            None => false,
        };
        if already_classified {
            Step::Nothing
        } else {
            Step::Read { effects: Vec::new(), pid, then: AfterRead::Classify }
        }
    }
}

// ---------------------------------------------------------------------------
// Reading
// ---------------------------------------------------------------------------

/// The table after a process that was read has been taken into it.
pub open spec fn table_after_read(
    before: ProcessTable,
    after: ProcessTable,
    pid: u32,
    then: AfterRead,
    info: ProcessView,
) -> bool {
    let ins = process_table::inserted(before.entries(), info);
    &&& after.wf()
    &&& after.entries() == (if then == AfterRead::Settle {
        process_table::marked(ins, pid)
    } else {
        ins
    })
    &&& forall|p: u32| #[trigger]
        after.kids(p) == if p == info.ppid {
            before.kids(p).insert(info.pid)
        } else {
            before.kids(p).remove(info.pid)
        }
}

/// What reading a process does. None stands for a process that is gone.
pub open spec fn read_handled(
    before: Daemon,
    after: Daemon,
    pid: u32,
    then: AfterRead,
    info: Option<ProcessInfo>,
) -> bool {
    &&& same_setup(before, after)
    &&& after.focus == before.focus
    &&& after.forkbomb == before.forkbomb
    &&& match info {
        Some(i) => table_after_read(before.table, after.table, pid, then, i@) && after.state
            == before.state,
        None => if then == AfterRead::Recheck {
            &&& process_table::was_removed(before.table, after.table, pid)
            &&& after.state.managed_map() == before.state.managed_map().remove(pid)
            &&& same_but_managed(before.state, after.state)
        } else {
            after.table == before.table && after.state == before.state
        },
    }
}

impl Daemon {
    /// Goes on with a process that was read. Returns whether it is to be
    /// classified now.
    pub fn finish_read(&mut self, pid: u32, then: AfterRead, info: &Option<ProcessInfo>) -> (r:
        bool)
        requires
            old(self).wf(),
        ensures
            final(self).wf(),
            read_handled(*old(self), *final(self), pid, then, *info),
            r == (info is Some && match then {
                AfterRead::Defer => false,
                AfterRead::Settle => false,
                AfterRead::Classify => !old(self).startup_phase,
                AfterRead::Recheck => true,
            }),
    {
        match info {
            Some(i) => {
                self.table.insert(i.copied());
                match then {
                    AfterRead::Defer => false,
                    AfterRead::Settle => {
                        self.table.mark_classified(pid);
                        false
                    },
                    AfterRead::Classify => !self.startup_phase,
                    AfterRead::Recheck => true,
                }
            },
            None => {
                match then {
                    AfterRead::Recheck => {
                        self.table.remove(pid);
                        self.state.managed.remove(&pid);
                        assert(self.state.managed_map() =~= old(self).state.managed_map().remove(
                            pid,
                        ));
                    },
                    _ => {},
                }
                false
            },
        }
    }
}

// ---------------------------------------------------------------------------
// Classification
// ---------------------------------------------------------------------------

/// The names by which threads of the daemon are told.
pub open spec fn own_thread_names() -> Seq<Seq<char>> {
    seq![
        "ulatencyd"@,
        "procmon-netlink"@,
        "psi-monitor"@,
        "power-monitor"@,
        "signals"@,
        "control-socket"@,
        "control-sock-perm"@,
        "diag-log"@,
        "cgroup-gc"@,
        "cgroup-teardown"@,
        "shutdown-restore"@,
    ]
}

fn is_own_thread(comm: &str) -> (r: bool)
    ensures
        r == own_thread_names().contains(comm@),
{
    let names: [&'static str; 11] = [
        "ulatencyd",
        "procmon-netlink",
        "psi-monitor",
        "power-monitor",
        "signals",
        "control-socket",
        "control-sock-perm",
        "diag-log",
        "cgroup-gc",
        "cgroup-teardown",
        "shutdown-restore",
    ];
    assert(Seq::new(11, |k: int| names@[k]@) =~= own_thread_names());
    let mut i: usize = 0;
    while i < 11
        invariant
            i <= 11,
            Seq::new(11, |k: int| names@[k]@) == own_thread_names(),
            forall|k: int| 0 <= k < i ==> (#[trigger] own_thread_names()[k]) != comm@,
        decreases 11 - i,
    {
        assert(Seq::new(11, |k: int| names@[k]@)[i as int] == names@[i as int]@);
        if same(names[i], comm) {
            assert(own_thread_names()[i as int] == comm@);
            return true;
        }
        i = i + 1;
    }
    false
}

/// Whether a process is never to be classified: it belongs to the daemon, is a
/// thread of the kernel, or is in the foreground.
pub open spec fn protected(d: Daemon, pid: u32, info: ProcessView) -> bool {
    ||| pid == d.own_pid
    ||| info.ppid == d.own_pid
    ||| own_thread_names().contains(info.comm)
    ||| info.is_kernel_thread
    ||| d.focus.pids().contains(pid)
}

/// The action for a process, if there is one.
pub open spec fn decision(d: Daemon, pid: u32, info: ProcessView) -> Option<ActionView> {
    if protected(d, pid, info) {
        None
    } else {
        rules::classified(
            rules::rule_views(d.engine.rules@),
            d.engine.exceptions,
            info,
            process_table::ancestors(d.table.entries(), pid, 10),
        )
    }
}

/// The moves of the processes in `order` to the tier of an action.
pub open spec fn spread(order: Seq<u32>, a: ActionView) -> Seq<Effect>
    decreases order.len(),
{
    if order.len() == 0 {
        Seq::empty()
    } else {
        spread(order.drop_last(), a) + applier::cgroup_effects(order.last(), a)
    }
}

/// Whether `order` lists the members of a set, each once.
pub open spec fn is_listing(order: Seq<u32>, s: Set<u32>) -> bool {
    order.no_duplicates() && forall|c: u32| #[trigger] order.contains(c) <==> s.contains(c)
}

/// Whether the effects are those of an action on a process, with its children
/// where the action says so.
pub open spec fn applies_action(
    effects: Seq<Effect>,
    pid: u32,
    a: ActionView,
    kids: Set<u32>,
) -> bool {
    if a.apply_to_children {
        exists|order: Seq<u32>| #[trigger]
            is_listing(order, kids) && effects == applier::action_effects(pid, a) + spread(
                order,
                a,
            )
    } else {
        effects == applier::action_effects(pid, a)
    }
}

/// The entries after the original cgroup of a process was recorded, if the
/// action moves it and its cgroup could be read.
pub open spec fn with_place(
    entries: Map<u32, EntryView>,
    pid: u32,
    a: ActionView,
    cgroup: Option<Seq<char>>,
) -> Map<u32, EntryView> {
    match (a.cgroup, cgroup) {
        (Some(_), Some(content)) => match info::unified_path(content) {
            Some(p) => process_table::with_original(entries, pid, p),
            None => entries,
        },
        _ => entries,
    }
}

/// What the control interface shows of a process with that action.
pub open spec fn shown_as(pid: u32, info: ProcessView, a: ActionView) -> ManagedView {
    ManagedView {
        pid,
        comm: info.comm,
        cgroup: match a.cgroup {
            Some(c) => c,
            None => "system"@,
        },
        rule_name: a.rule_name,
    }
}

/// What carrying out a decision about a process does.
pub open spec fn committed(
    before: Daemon,
    after: Daemon,
    pid: u32,
    info: ProcessView,
    choice: Option<ActionView>,
    cgroup: Option<Seq<char>>,
    now: u64,
    effects: Seq<Effect>,
) -> bool {
    &&& same_setup(before, after)
    &&& after.focus == before.focus
    &&& after.forkbomb == before.forkbomb
    &&& after.table.wf()
    &&& process_table::same_edges(before.table, after.table)
    &&& same_but_managed(before.state, after.state)
    &&& match choice {
        Some(a) => {
            &&& applies_action(effects, pid, a, before.table.kids(pid))
            &&& after.table.entries() == process_table::with_applied(
                with_place(before.table.entries(), pid, a, cgroup),
                pid,
                a,
                now,
            )
            &&& after.state.managed_map() == before.state.managed_map().insert(
                pid,
                shown_as(pid, info, a),
            )
        },
        None => {
            &&& effects.len() == 0
            &&& after.table.entries() == process_table::marked(before.table.entries(), pid)
            &&& after.state == before.state
        },
    }
}

/// A text that may be missing.
pub open spec fn opt_str(o: Option<&str>) -> Option<Seq<char>> {
    match o {
        Some(s) => Some(s@),
        None => None,
    }
}

impl Daemon {
    /// Whether a process is never to be classified.
    pub fn is_protected(&self, pid: u32, info: &ProcessInfo) -> (r: bool)
        ensures
            r == protected(*self, pid, info@),
    {
        pid == self.own_pid || info.ppid == self.own_pid || is_own_thread(info.comm.as_str())
            || info.is_kernel_thread || self.focus.is_foreground(pid)
    }

    /// Whether the environment of a process is to be read before it is
    /// classified: only if some rule asks for it and it was not read before.
    pub fn needs_environ(&self, pid: u32, info: &ProcessInfo) -> (r: bool)
        ensures
            r == (!protected(*self, pid, info@) && info.environ@.len() == 0 && exists|i: int|
                0 <= i < self.engine.rules@.len() && (
                #[trigger] self.engine.rules@[i]).matchers.env_set@.len() > 0),
    {
        !self.is_protected(pid, info) && self.engine.wants_environ() && info.environ.len() == 0
    }

    /// The action for a process, if there is one.
    pub fn decide(&self, pid: u32, info: &ProcessInfo) -> (r: Option<Action>)
        ensures
            rules::opt_action(r) == decision(*self, pid, info@),
    {
        if self.is_protected(pid, info) {
            return None;
        }
        let ancestors = self.table.ancestor_comms(pid, 10);
        self.engine.classify(info, ancestors.as_slice())
    }

    /// Carries out a decision about a process. `cgroup` is the text of its
    /// `cgroup` file, which is needed only if the action moves it.
    pub fn commit(
        &mut self,
        pid: u32,
        info: &ProcessInfo,
        choice: Option<Action>,
        cgroup: Option<&str>,
        now_ns: u64,
    ) -> (r: Vec<Effect>)
        requires
            old(self).wf(),
        ensures
            final(self).wf(),
            committed(
                *old(self),
                *final(self),
                pid,
                info@,
                rules::opt_action(choice),
                opt_str(cgroup),
                now_ns,
                r@,
            ),
    {
        let action = match choice {
            Some(a) => a,
            None => {
                self.table.mark_classified(pid);
                return Vec::new();
            },
        };
        let ghost a = action@;
        let cgroup_name = match &action.cgroup {
            Some(c) => owned(c.as_str()),
            None => owned("system"),
        };
        let rule_name = owned(action.rule_name.as_str());
        if action.cgroup.is_some() {
            if let Some(content) = cgroup {
                if let Some(path) = read_cgroup_v2(content) {
                    self.table.set_original_cgroup(pid, path);
                }
            }
        }
        assert(self.table.entries() == with_place(
            old(self).table.entries(),
            pid,
            a,
            opt_str(cgroup),
        ));
        let plan = apply_action(pid, &action);
        let mut effects = plan.effects;
        if action.apply_to_children {
            let children = self.table.children_of(pid);
            let ghost own = effects@;
            let mut i: usize = 0;
            assert(own + spread(children@.take(0), a) =~= own);
            while i < children.len()
                invariant
                    self.table.wf(),
                    action@ == a,
                    i <= children@.len(),
                    forall|c: u32| children@.contains(c) <==> self.table.kids(pid).contains(c),
                    effects@ == own + spread(children@.take(i as int), a),
                decreases children@.len() - i,
            {
                let child: u32 = children[i];
                assert(children@.contains(children@[i as int]));
                assert(self.table.kids(pid).contains(child));
                assert(children@.take(i + 1).drop_last() =~= children@.take(i as int));
                if self.table.get(child).is_some() {
                    let part = apply_cgroup_only(child, &action);
                    let ghost before = effects@;
                    let mut k: usize = 0;
                    while k < part.effects.len()
                        invariant
                            k <= part.effects@.len(),
                            effects@ == before + part.effects@.take(k as int),
                        decreases part.effects@.len() - k,
                    {
                        effects.push(part.effects[k]);
                        k = k + 1;
                        assert(effects@ =~= before + part.effects@.take(k as int));
                    }
                    assert(part.effects@.take(part.effects@.len() as int) =~= part.effects@);
                    assert(effects@ =~= own + spread(children@.take(i + 1), a));
                }
                i = i + 1;
            }
            assert(children@.take(children@.len() as int) =~= children@);
            assert(is_listing(children@, old(self).table.kids(pid)));
        }
        self.table.set_applied(pid, action, now_ns);
        let entry = ProcessEntry {
            pid,
            comm: owned(info.comm.as_str()),
            cgroup: cgroup_name,
            rule_name,
        };
        self.state.managed.insert(pid, entry);
        assert(self.state.managed_map() =~= old(self).state.managed_map().insert(
            pid,
            shown_as(pid, info@, a),
        ));
        effects
    }

    /// Classifies a process and carries out the decision.
    pub fn classify_and_apply(
        &mut self,
        pid: u32,
        info: &ProcessInfo,
        cgroup: Option<&str>,
        now_ns: u64,
    ) -> (r: Vec<Effect>)
        requires
            old(self).wf(),
        ensures
            final(self).wf(),
            committed(
                *old(self),
                *final(self),
                pid,
                info@,
                decision(*old(self), pid, info@),
                opt_str(cgroup),
                now_ns,
                r@,
            ),
    {
        let choice = self.decide(pid, info);
        self.commit(pid, info, choice, cgroup, now_ns)
    }
}

// ---------------------------------------------------------------------------
// Scans and rechecks
// ---------------------------------------------------------------------------

impl Daemon {
    /// Takes over the result of a scan. Returns the processes to classify:
    /// none during the grace period.
    pub fn do_full_scan(&mut self, fresh: Vec<ProcessInfo>, live_pids: &HashSet<u32>) -> (r: Vec<
        u32,
    >)
        requires
            old(self).wf(),
        ensures
            final(self).wf(),
            same_setup(*old(self), *final(self)),
            final(self).focus == old(self).focus,
            final(self).forkbomb == old(self).forkbomb,
            process_table::was_scanned(
                old(self).table,
                final(self).table,
                process_table::process_views(fresh@),
                live_pids@,
            ),
            final(self).state.managed_map() == old(self).state.managed_map().restrict(live_pids@),
            same_but_managed(old(self).state, final(self).state),
            r@.no_duplicates(),
            forall|p: u32| #[trigger]
                r@.contains(p) <==> !old(self).startup_phase
                    && final(self).table.entries().dom().contains(p)
                    && !final(self).table.entries()[p].classified,
    {
        self.table.merge_scan(fresh, live_pids);
        let shown = keys(&self.state.managed);
        let ghost start = self.state.managed@;
        let mut i: usize = 0;
        assert forall|k: int| 0 <= k < shown@.len() implies self.state.managed@.dom().contains(
            #[trigger] shown@[k],
        ) by {
            assert(shown@.contains(shown@[k]));
        }
        while i < shown.len()
            invariant
                i <= shown@.len(),
                shown@.no_duplicates(),
                forall|p: u32| shown@.contains(p) <==> start.dom().contains(p),
                self.wf(),
                same_setup(*old(self), *self),
                self.focus == old(self).focus,
                self.forkbomb == old(self).forkbomb,
                process_table::was_scanned(
                    old(self).table,
                    self.table,
                    process_table::process_views(fresh@),
                    live_pids@,
                ),
                same_but_managed(old(self).state, self.state),
                start == old(self).state.managed@,
                self.state.managed@.submap_of(start),
                forall|k: int|
                    i <= k < shown@.len() ==> self.state.managed@.dom().contains(
                        #[trigger] shown@[k],
                    ),
                forall|k: int|
                    0 <= k < i ==> (self.state.managed@.dom().contains(#[trigger] shown@[k])
                        <==> live_pids@.contains(shown@[k])),
            decreases shown@.len() - i,
        {
            let pid: u32 = shown[i];
            if !live_pids.contains(&pid) {
                self.state.managed.remove(&pid);
                assert forall|k: int| i < k < shown@.len() implies
                    self.state.managed@.dom().contains(#[trigger] shown@[k]) by {
                    assert(shown@[k] != shown@[i as int]);
                }
            }
            i = i + 1;
        }
        assert forall|p: u32| self.state.managed@.dom().contains(p) <==> start.dom().contains(p)
            && live_pids@.contains(p) by {
            if start.dom().contains(p) {
                assert(shown@.contains(p));
                let k = choose|k: int| 0 <= k < shown@.len() && shown@[k] == p;
                assert(self.state.managed@.dom().contains(shown@[k]) <==> live_pids@.contains(
                    shown@[k],
                ));
            }
        }
        assert(self.state.managed_map() =~= old(self).state.managed_map().restrict(live_pids@));
        if self.startup_phase {
            Vec::new()
        } else {
            self.table.unclassified_pids()
        }
    }

    /// What is known of a process.
    pub fn info_of(&self, pid: u32) -> (r: Option<ProcessInfo>)
        ensures
            match r {
                Some(i) => self.table.entries().dom().contains(pid) && i@
                    == self.table.entries()[pid].info,
                None => !self.table.entries().dom().contains(pid),
            },
    {
        match self.table.get(pid) {
            Some(e) => Some(e.info.copied()),
            None => None,
        }
    }

    /// The processes that are due for another look. Those in the foreground
    /// are left alone.
    pub fn do_rechecks(&self, now_ns: u64) -> (r: Vec<u32>)
        ensures
            r@.no_duplicates(),
            forall|p: u32| #[trigger]
                r@.contains(p) <==> self.table.entries().dom().contains(p)
                    && process_table::recheck_due(self.table.entries()[p], now_ns)
                    && !self.focus.pids().contains(p),
    {
        let expired = self.table.expired_rechecks(now_ns);
        let mut r: Vec<u32> = Vec::new();
        let mut i: usize = 0;
        while i < expired.len()
            invariant
                i <= expired@.len(),
                expired@.no_duplicates(),
                process_table::is_selection(
                    r@,
                    expired@.take(i as int),
                    |p: u32| !self.focus.pids().contains(p),
                ),
            decreases expired@.len() - i,
        {
            let pid: u32 = expired[i];
            let ghost behind = |p: u32| !self.focus.pids().contains(p);
            proof {
                process_table::lemma_selection_step(r@, expired@, i as int, behind);
            }
            if !self.focus.is_foreground(pid) {
                r.push(pid);
            }
            i = i + 1;
        }
        assert(expired@.take(expired@.len() as int) =~= expired@);
        assert forall|p: u32| #[trigger]
            r@.contains(p) <==> self.table.entries().dom().contains(p)
                && process_table::recheck_due(self.table.entries()[p], now_ns)
                && !self.focus.pids().contains(p) by {
            assert(r@.contains(p) <==> expired@.contains(p) && !self.focus.pids().contains(p));
        }
        r
    }
}

// ---------------------------------------------------------------------------
// Pressure
// ---------------------------------------------------------------------------

/// The mode of the daemon under a level of pressure.
pub open spec fn mode_name(level: PressureLevel) -> Seq<char> {
    match level {
        PressureLevel::Critical => "pressure-critical"@,
        PressureLevel::High => "pressure-high"@,
        PressureLevel::Low => "pressure-low"@,
        PressureLevel::Normal => "normal"@,
    }
}

/// What a change to a level of pressure asks for: under critical pressure the
/// idle and background tiers are throttled; when critical pressure has given
/// way to none, what was throttled is opened for classification.
pub open spec fn pressure_step(mode: Seq<char>, level: PressureLevel) -> Step {
    match level {
        PressureLevel::Critical => Step::ThrottleTiers,
        PressureLevel::Normal => if mode == "pressure-critical"@ {
            Step::ReopenSwapstorm
        } else {
            Step::Nothing
        },
        _ => Step::Nothing,
    }
}

/// What a reading of the pressure does: nothing unless the level is new.
pub open spec fn pressure_handled(
    before: Daemon,
    after: Daemon,
    level: PressureLevel,
    step: Step,
) -> bool {
    if level == before.last_pressure_level {
        after == before && step == Step::Nothing
    } else {
        &&& step == pressure_step(before.state.mode@, level)
        &&& after.state.mode@ == mode_name(level)
        &&& after == (Daemon {
            last_pressure_level: level,
            state: SharedState { mode: after.state.mode, ..before.state },
            ..before
        })
    }
}

/// The moves of the pids to the swapstorm tier, in order.
pub open spec fn throttle_moves(pids: Seq<u32>) -> Seq<Effect> {
    Seq::new(pids.len(), |i: int| Effect::Assign { pid: pids[i], tier: CgroupTier::Swapstorm })
}

/// The pids in the text of a `cgroup.procs` file, none where it could not be
/// read.
pub open spec fn pids_listed(content: Option<&str>) -> Seq<u32> {
    match content {
        Some(s) => cgroupv2::listed_pids(s@),
        None => Seq::empty(),
    }
}

/// The entries after the first `n` pids were opened for classification.
pub open spec fn reopened(entries: Map<u32, EntryView>, pids: Seq<u32>, n: nat) -> Map<
    u32,
    EntryView,
>
    decreases n,
{
    if n == 0 {
        entries
    } else {
        process_table::unmarked(reopened(entries, pids, (n - 1) as nat), pids[n - 1])
    }
}

fn read_listing(content: Option<&str>) -> (r: Vec<u32>)
    ensures
        r@ == pids_listed(content),
{
    match content {
        Some(s) => Cgroup::pids(s),
        None => Vec::new(),
    }
}

fn push_moves(out: &mut Vec<Effect>, pids: &Vec<u32>)
    ensures
        final(out)@ == old(out)@ + throttle_moves(pids@),
{
    let mut i: usize = 0;
    assert(out@ =~= old(out)@ + throttle_moves(pids@.take(0)));
    while i < pids.len()
        invariant
            i <= pids@.len(),
            out@ == old(out)@ + throttle_moves(pids@.take(i as int)),
        decreases pids@.len() - i,
    {
        out.push(Effect::Assign { pid: pids[i], tier: CgroupTier::Swapstorm });
        i = i + 1;
        assert(out@ =~= old(out)@ + throttle_moves(pids@.take(i as int)));
    }
    assert(pids@.take(pids@.len() as int) =~= pids@);
}

impl Daemon {
    /// Takes note of a reading of the pressure.
    pub fn handle_pressure_change(&mut self, level: PressureLevel) -> (r: Step)
        requires
            old(self).wf(),
        ensures
            final(self).wf(),
            pressure_handled(*old(self), *final(self), level, r),
            final(self).last_pressure_level == level,
            level == PressureLevel::Critical && old(self).last_pressure_level
                != PressureLevel::Critical ==> r == Step::ThrottleTiers,
    {
        if level == self.last_pressure_level {
            return Step::Nothing;
        }
        self.last_pressure_level = level;
        match level {
            PressureLevel::Critical => {
                self.state.mode = owned("pressure-critical");
                Step::ThrottleTiers
            },
            PressureLevel::High => {
                self.state.mode = owned("pressure-high");
                Step::Nothing
            },
            PressureLevel::Low => {
                self.state.mode = owned("pressure-low");
                Step::Nothing
            },
            PressureLevel::Normal => {
                let was_critical = same(self.state.mode.as_str(), "pressure-critical");
                self.state.mode = owned("normal");
                if was_critical {
                    Step::ReopenSwapstorm
                } else {
                    Step::Nothing
                }
            },
        }
    }

    /// Moves the processes of the idle and the background tier to the
    /// swapstorm tier, given the texts of their `cgroup.procs` files.
    pub fn throttle_tiers(idle: Option<&str>, background: Option<&str>) -> (r: Vec<Effect>)
        ensures
            r@ == throttle_moves(pids_listed(idle) + pids_listed(background)),
    {
        let idle_pids = read_listing(idle);
        let bg_pids = read_listing(background);
        let mut r: Vec<Effect> = Vec::new();
        push_moves(&mut r, &idle_pids);
        push_moves(&mut r, &bg_pids);
        assert(r@ =~= throttle_moves(pids_listed(idle) + pids_listed(background)));
        r
    }

    /// Opens the processes of the swapstorm tier for classification by the
    /// next scan, given the text of its `cgroup.procs` file.
    pub fn reopen_swapstorm(&mut self, swapstorm: Option<&str>)
        requires
            old(self).wf(),
        ensures
            final(self).wf(),
            same_setup(*old(self), *final(self)),
            final(self).focus == old(self).focus,
            final(self).forkbomb == old(self).forkbomb,
            final(self).state == old(self).state,
            process_table::same_edges(old(self).table, final(self).table),
            final(self).table.entries() == reopened(
                old(self).table.entries(),
                pids_listed(swapstorm),
                pids_listed(swapstorm).len(),
            ),
    {
        let pids = read_listing(swapstorm);
        let mut i: usize = 0;
        while i < pids.len()
            invariant
                i <= pids@.len(),
                pids@ == pids_listed(swapstorm),
                self.wf(),
                same_setup(*old(self), *self),
                self.focus == old(self).focus,
                self.forkbomb == old(self).forkbomb,
                self.state == old(self).state,
                process_table::same_edges(old(self).table, self.table),
                self.table.entries() == reopened(old(self).table.entries(), pids@, i as nat),
            decreases pids@.len() - i,
        {
            self.table.mark_classified_false(pids[i]);
            i = i + 1;
        }
    }
}

// ---------------------------------------------------------------------------
// Commands, power and the dispatch
// ---------------------------------------------------------------------------

/// What a command does.
pub open spec fn control_handled(
    before: Daemon,
    after: Daemon,
    cmd: ControlCommand,
    step: Step,
) -> bool {
    match cmd {
        ControlCommand::SetForegroundProcess(pid) => if before.startup_phase {
            after == before && step == Step::Nothing
        } else {
            &&& same_setup(before, after)
            &&& after.table == before.table
            &&& after.forkbomb == before.forkbomb
            &&& after.state == (SharedState { foreground_pid: Some(pid), ..before.state })
            &&& match step {
                Step::Apply(v) => focus::has_foreground(before.table, pid) && exists|
                    change: focus::ForegroundChange,
                | #[trigger]
                    focus::front_changed(
                        before.focus,
                        after.focus,
                        before.table,
                        pid,
                        change,
                    ) && v@ == focus::change_effects(change),
                Step::Nothing => !focus::has_foreground(before.table, pid) && after.focus.pids()
                    == before.focus.pids() && after.focus.root() == before.focus.root(),
                _ => false,
            }
        },
        ControlCommand::SetProcessCgroup { pid, cgroup } => {
            &&& after == before
            &&& match cgroupv2::named_tier(cgroup@) {
                Some(tier) => step matches Step::Apply(v) && v@ == seq![
                    Effect::Assign { pid, tier },
                ],
                None => step == Step::Nothing,
            }
        },
        ControlCommand::ReloadRules => after == before && step == Step::Reload,
    }
}

/// What a reading of the power source does: nothing unless it is new.
pub open spec fn power_handled(
    before: Daemon,
    after: Daemon,
    power: PowerState,
    step: Step,
) -> bool {
    if before.last_power_source == Some(power) {
        after == before && step == Step::Nothing
    } else {
        after == (Daemon { last_power_source: Some(power), ..before }) && step
            == Step::SwitchProfile(power)
    }
}

/// What an event does.
pub open spec fn handled(before: Daemon, after: Daemon, event: Event, now: u64, step: Step) -> bool {
    match event {
        Event::Proc(e) => proc_handled(before, after, e, now, step),
        Event::Control(cmd) => control_handled(before, after, cmd, step),
        Event::Pressure(level) => pressure_handled(before, after, level, step),
        Event::Power(power) => power_handled(before, after, power, step),
        Event::RescanTick => after == before && step == Step::Rescan,
        Event::RecheckTick => {
            &&& after == before
            &&& step matches Step::Recheck(v) && v@.no_duplicates() && forall|p: u32| #[trigger]
                v@.contains(p) <==> before.table.entries().dom().contains(p)
                    && process_table::recheck_due(before.table.entries()[p], now)
                    && !before.focus.pids().contains(p)
        },
        Event::GcTick => {
            &&& step == Step::CollectGarbage
            &&& same_setup(before, after)
            &&& after.table == before.table
            &&& after.focus == before.focus
            &&& after.state == before.state
            &&& forkbomb::was_cleaned(before.forkbomb, after.forkbomb, now)
        },
        Event::ReloadRules => after == before && step == Step::Reload,
        Event::Shutdown => after == before && step == Step::Stop,
    }
}

impl Daemon {
    /// Carries out a command. A change of the foreground is ignored during
    /// the grace period.
    pub fn handle_control_cmd(&mut self, cmd: ControlCommand) -> (r: Step)
        requires
            old(self).wf(),
        ensures
            final(self).wf(),
            control_handled(*old(self), *final(self), cmd, r),
    {
        match cmd {
            ControlCommand::SetForegroundProcess(pid) => {
                if self.startup_phase {
                    return Step::Nothing;
                }
                self.state.foreground_pid = Some(pid);
                match self.focus.set_foreground(pid, &self.table) {
                    Some(change) => Step::Apply(change.effects()),
                    None => Step::Nothing,
                }
            },
            ControlCommand::SetProcessCgroup { pid, cgroup } => {
                match CgroupTier::from_str(cgroup.as_str()) {
                    Some(tier) => {
                        let mut v: Vec<Effect> = Vec::new();
                        v.push(Effect::Assign { pid, tier });
                        assert(v@ =~= seq![Effect::Assign { pid, tier }]);
                        Step::Apply(v)
                    },
                    None => Step::Nothing,
                }
            },
            ControlCommand::ReloadRules => Step::Reload,
        }
    }

    /// Takes note of a reading of the power source.
    pub fn handle_power(&mut self, power: PowerState) -> (r: Step)
        requires
            old(self).wf(),
        ensures
            final(self).wf(),
            power_handled(*old(self), *final(self), power, r),
            final(self).last_power_source == Some(power),
            old(self).last_power_source != Some(power) ==> r == Step::SwitchProfile(power),
    {
        let known = match self.last_power_source {
            Some(p) => p == power,
            None => false,
        };
        if known {
            Step::Nothing
        } else {
            self.last_power_source = Some(power);
            Step::SwitchProfile(power)
        }
    }

    /// Reacts to an event.
    pub fn run(&mut self, event: Event, now_ns: u64) -> (r: Step)
        requires
            old(self).wf(),
        ensures
            final(self).wf(),
            handled(*old(self), *final(self), event, now_ns, r),
    {
        match event {
            Event::Proc(e) => {
                if self.startup_phase {
                    self.handle_proc_event_startup(e, now_ns)
                } else {
                    self.handle_proc_event(e, now_ns)
                }
            },
            Event::Control(cmd) => self.handle_control_cmd(cmd),
            Event::Pressure(level) => self.handle_pressure_change(level),
            Event::Power(power) => self.handle_power(power),
            Event::RescanTick => Step::Rescan,
            Event::RecheckTick => Step::Recheck(self.do_rechecks(now_ns)),
            Event::GcTick => {
                self.do_gc(now_ns);
                Step::CollectGarbage
            },
            Event::ReloadRules => Step::Reload,
            Event::Shutdown => Step::Stop,
        }
    }

    /// Forgets the parents whose last fork was long ago.
    pub fn do_gc(&mut self, now_ns: u64)
        requires
            old(self).wf(),
        ensures
            final(self).wf(),
            same_setup(*old(self), *final(self)),
            final(self).table == old(self).table,
            final(self).focus == old(self).focus,
            final(self).state == old(self).state,
            forkbomb::was_cleaned(old(self).forkbomb, final(self).forkbomb, now_ns),
    {
        self.forkbomb.gc(now_ns);
    }

    /// Replaces the rules by those of the rule files. If they could not be
    /// loaded, the rules stay as they are.
    pub fn reload_rules(&mut self, files: &Option<Vec<RuleFile>>)
        requires
            old(self).wf(),
        ensures
            final(self).wf(),
            match files {
                Some(v) => {
                    &&& rules::rule_views(final(self).engine.rules@) == rules::by_priority(
                        rules::rules_in(v@, v@.len()),
                    )
                    &&& final(self).engine.exceptions == old(self).engine.exceptions
                    &&& *final(self) == (Daemon { engine: final(self).engine, ..*old(self) })
                },
                None => *final(self) == *old(self),
            },
    {
        if let Some(v) = files {
            self.engine.reload(v);
        }
    }

    /// The writes that apply the scheduling profile for a power source.
    pub fn profile_writes(&self, power: PowerState, preempt_path: Option<&str>) -> (r: Vec<
        KnobWrite,
    >)
        ensures
            exists|p: sched::SchedProfile|
                {
                    &&& match power {
                        PowerState::Battery => sched::is_conservative(p),
                        PowerState::AC => sched::is_responsive(p),
                    }
                    &&& cgroupv2::writes(r@) == #[trigger] sched::profile_writes(
                        p,
                        self.sched_latency_ns_available,
                        self.preempt_switchable,
                        preempt_path,
                    )
                },
    {
        let profile = profile_for(power);
        apply_sched_profile(
            &profile,
            self.sched_latency_ns_available,
            self.preempt_switchable,
            preempt_path,
        )
    }
}

// ---------------------------------------------------------------------------
// Shutdown
// ---------------------------------------------------------------------------

/// Whether a process is to be put back: it was moved, and its original cgroup
/// is on record.
pub open spec fn to_restore(entries: Map<u32, EntryView>, pid: u32) -> bool {
    entries.dom().contains(pid) && process_table::was_moved(entries[pid])
        && entries[pid].original_cgroup is Some
}

/// Whether this is how the process is put back.
pub open spec fn restores(entries: Map<u32, EntryView>, r: Restore) -> bool {
    &&& to_restore(entries, r.pid)
    &&& r.proc_dir@ == "/proc/"@ + text::decimal(r.pid as nat)
    &&& r.write@ == applier::restore_write(r.pid, entries[r.pid].original_cgroup->0)
}

impl Daemon {
    /// How the processes that were moved are put back: each to the cgroup it
    /// was found in.
    pub fn shutdown(&self) -> (r: Vec<Restore>)
        ensures
            forall|i: int| 0 <= i < r@.len() ==> restores(self.table.entries(), #[trigger] r@[i]),
            forall|i: int, j: int|
                0 <= i < j < r@.len() ==> (#[trigger] r@[i]).pid != (#[trigger] r@[j]).pid,
            forall|p: u32| #[trigger]
                to_restore(self.table.entries(), p) ==> exists|i: int|
                    0 <= i < r@.len() && (#[trigger] r@[i]).pid == p,
    {
        let moved = self.table.moved_pids();
        let mut r: Vec<Restore> = Vec::new();
        let ghost entries = self.table.entries();
        let mut i: usize = 0;
        while i < moved.len()
            invariant
                entries == self.table.entries(),
                i <= moved@.len(),
                forall|a: int, b: int|
                    0 <= a < b < moved@.len() ==> (#[trigger] moved@[a]).0 != (
                    #[trigger] moved@[b]).0,
                forall|a: int|
                    0 <= a < moved@.len() ==> entries.dom().contains((#[trigger] moved@[a]).0)
                        && process_table::was_moved(entries[moved@[a].0]) && text::opt_text(
                        moved@[a].1,
                    ) == entries[moved@[a].0].original_cgroup,
                forall|a: int| 0 <= a < r@.len() ==> restores(entries, #[trigger] r@[a]),
                forall|a: int|
                    0 <= a < r@.len() ==> exists|k: int|
                        0 <= k < i && (#[trigger] moved@[k]).0 == (#[trigger] r@[a]).pid,
                forall|a: int, b: int|
                    0 <= a < b < r@.len() ==> (#[trigger] r@[a]).pid != (#[trigger] r@[b]).pid,
                forall|k: int|
                    0 <= k < i && (#[trigger] moved@[k]).1 is Some ==> exists|a: int|
                        0 <= a < r@.len() && (#[trigger] r@[a]).pid == moved@[k].0,
            decreases moved@.len() - i,
        {
            let pid: u32 = moved[i].0;
            let ghost before = r@;
            if let Some(path) = &moved[i].1 {
                r.push(
                    Restore {
                        pid,
                        proc_dir: pid_path(pid),
                        write: restore_cgroup(pid, path.as_str()),
                    },
                );
                assert(r@[r@.len() - 1].pid == moved@[i as int].0);
            }
            proof {
                assert forall|a: int| 0 <= a < before.len() implies (
                #[trigger] before[a]).pid != pid && before[a] == r@[a] by {
                    let k = choose|k: int|
                        0 <= k < i && (#[trigger] moved@[k]).0 == before[a].pid;
                    assert(moved@[k].0 != moved@[i as int].0);
                }
                assert forall|a: int| 0 <= a < r@.len() implies exists|k: int|
                    0 <= k < i + 1 && (#[trigger] moved@[k]).0 == (#[trigger] r@[a]).pid by {
                    if a < before.len() {
                        let k = choose|k: int|
                            0 <= k < i && (#[trigger] moved@[k]).0 == before[a].pid;
                        assert(moved@[k].0 == r@[a].pid);
                    } else {
                        assert(moved@[i as int].0 == r@[a].pid);
                    }
                }
                assert forall|k: int|
                    0 <= k < i + 1 && (#[trigger] moved@[k]).1 is Some implies exists|a: int|
                    0 <= a < r@.len() && (#[trigger] r@[a]).pid == moved@[k].0 by {
                    if k < i {
                        let a = choose|a: int|
                            0 <= a < before.len() && (#[trigger] before[a]).pid == moved@[k].0;
                        assert(r@[a].pid == moved@[k].0);
                    }
                }
            }
            i = i + 1;
        }
        assert forall|p: u32| #[trigger] to_restore(entries, p) implies exists|a: int|
            0 <= a < r@.len() && (#[trigger] r@[a]).pid == p by {
            assert(entries.dom().contains(p) && process_table::was_moved(entries[p]));
            let k = choose|k: int| 0 <= k < moved@.len() && (#[trigger] moved@[k]).0 == p;
            assert(moved@[k].1 is Some);
        }
        r
    }
}

// ---------------------------------------------------------------------------
// Laws
// ---------------------------------------------------------------------------

/// The daemon, threads of the kernel and processes in the foreground are never
/// given an action, whatever the rules say.
pub proof fn protected_processes_are_left_alone(d: Daemon, pid: u32, info: ProcessView)
    requires
        protected(d, pid, info),
    ensures
        decision(d, pid, info) is None,
{
}

/// During the grace period no event of a process leads to its classification:
/// a process is at most read and taken into the table.
pub proof fn grace_period_classifies_nothing(
    before: Daemon,
    after: Daemon,
    event: ProcEvent,
    now: u64,
    step: Step,
)
    requires
        before.startup_phase,
        proc_handled(before, after, event, now, step),
    ensures
        step matches Step::Read { then, .. } ==> then == AfterRead::Defer,
        !(step is Recheck),
{
}

/// A process that was read during the grace period is open for classification
/// by the scan at its end.
pub proof fn deferred_processes_stay_open(
    before: ProcessTable,
    after: ProcessTable,
    pid: u32,
    info: ProcessView,
)
    requires
        table_after_read(before, after, pid, AfterRead::Defer, info),
    ensures
        after.entries().dom().contains(info.pid),
        !after.entries()[info.pid].classified,
{
}

/// Whether no process in the table has had an action.
pub open spec fn untouched(entries: Map<u32, EntryView>) -> bool {
    forall|p: u32| #[trigger]
        entries.dom().contains(p) ==> entries[p].applied is None && entries[p].recheck_at is None
}

/// As long as no process has had an action, none is due for another look, and
/// there is nothing to put back at shutdown; and reading, forgetting and
/// scanning processes keeps it that way.
pub proof fn untouched_stays_untouched(
    entries: Map<u32, EntryView>,
    info: ProcessView,
    pid: u32,
    fresh: Seq<ProcessView>,
    n: nat,
    live: Set<u32>,
    now: u64,
)
    requires
        untouched(entries),
        n <= fresh.len(),
    ensures
        untouched(process_table::inserted(entries, info)),
        untouched(process_table::marked(entries, pid)),
        untouched(entries.remove(pid)),
        untouched(process_table::with_fresh(entries, fresh, n).restrict(live)),
        entries.dom().contains(pid) ==> !process_table::recheck_due(entries[pid], now),
        !to_restore(entries, pid),
{
    lemma_fresh_untouched(entries, fresh, n);
}

proof fn lemma_fresh_untouched(entries: Map<u32, EntryView>, fresh: Seq<ProcessView>, n: nat)
    requires
        untouched(entries),
        n <= fresh.len(),
    ensures
        untouched(process_table::with_fresh(entries, fresh, n)),
    decreases n,
{
    if n > 0 {
        lemma_fresh_untouched(entries, fresh, (n - 1) as nat);
    }
}

/// A process that an action moves is put back at shutdown to the cgroup it was
/// found in before the first move.
pub proof fn moved_process_is_put_back(
    before: Daemon,
    after: Daemon,
    pid: u32,
    info: ProcessView,
    a: ActionView,
    cgroup: Seq<char>,
    now: u64,
    effects: Seq<Effect>,
)
    requires
        committed(before, after, pid, info, Some(a), Some(cgroup), now, effects),
        before.table.entries().dom().contains(pid),
        a.cgroup is Some,
        info::unified_path(cgroup) is Some,
    ensures
        to_restore(after.table.entries(), pid),
        after.table.entries()[pid].original_cgroup == (match process_table::original_of(
            before.table.entries(),
            pid,
        ) {
            Some(first) => Some(first),
            None => info::unified_path(cgroup),
        }),
{
}

/// A level of pressure, or a power source, that is reported again changes
/// nothing and asks for nothing.
pub proof fn repeated_readings_change_nothing(
    before: Daemon,
    between: Daemon,
    after: Daemon,
    level: PressureLevel,
    power: PowerState,
    first: Step,
    second: Step,
)
    ensures
        pressure_handled(before, between, level, first) && pressure_handled(
            between,
            after,
            level,
            second,
        ) ==> after == between && second == Step::Nothing,
        power_handled(before, between, power, first) && power_handled(
            between,
            after,
            power,
            second,
        ) ==> after == between && second == Step::Nothing,
{
}

/// Whether every managed process is kept under its own pid.
pub open spec fn under_own_pid(managed: Map<u32, ManagedView>) -> bool {
    forall|p: u32| #[trigger] managed.dom().contains(p) ==> managed[p].pid == p
}

/// Every managed process stays under its own pid.
pub proof fn managed_stay_under_own_pid(
    managed: Map<u32, ManagedView>,
    pid: u32,
    info: ProcessView,
    a: ActionView,
    live: Set<u32>,
)
    requires
        under_own_pid(managed),
    ensures
        under_own_pid(managed.insert(pid, shown_as(pid, info, a))),
        under_own_pid(managed.remove(pid)),
        under_own_pid(managed.restrict(live)),
{
}

// ---------------------------------------------------------------------------
// Laws of pressure and power
// ---------------------------------------------------------------------------

/// When the pressure becomes critical, the idle and the background tier are
/// throttled, whatever the level and the mode were before.
pub proof fn critical_pressure_throttles(before: Daemon, after: Daemon, step: Step)
    requires
        pressure_handled(before, after, PressureLevel::Critical, step),
        before.last_pressure_level != PressureLevel::Critical,
    ensures
        step == Step::ThrottleTiers,
        after.last_pressure_level == PressureLevel::Critical,
        after.state.mode@ == "pressure-critical"@,
{
}

/// When the pressure is back to normal right after it was critical, the
/// processes that were throttled are opened for classification.
pub proof fn relief_reopens(
    before: Daemon,
    between: Daemon,
    after: Daemon,
    first: Step,
    second: Step,
)
    requires
        before.last_pressure_level != PressureLevel::Critical,
        pressure_handled(before, between, PressureLevel::Critical, first),
        pressure_handled(between, after, PressureLevel::Normal, second),
    ensures
        second == Step::ReopenSwapstorm,
        after.last_pressure_level == PressureLevel::Normal,
        after.state.mode@ == "normal"@,
{
}

/// A reading of the pressure is remembered and shown as the mode. It leads to
/// throttling or reopening only when the level changes, to critical or from
/// critical to normal; everything else about the daemon stays as it is.
pub proof fn pressure_is_remembered(before: Daemon, after: Daemon, level: PressureLevel, step: Step)
    requires
        pressure_handled(before, after, level, step),
    ensures
        after.last_pressure_level == level,
        step == Step::ThrottleTiers <==> level == PressureLevel::Critical
            && before.last_pressure_level != PressureLevel::Critical,
        step == Step::ReopenSwapstorm <==> level == PressureLevel::Normal
            && before.last_pressure_level != PressureLevel::Normal && before.state.mode@
            == "pressure-critical"@,
        step == Step::ThrottleTiers || step == Step::ReopenSwapstorm || step == Step::Nothing,
        before.last_pressure_level != level ==> match level {
            PressureLevel::Critical => after.state.mode@ == "pressure-critical"@,
            PressureLevel::High => after.state.mode@ == "pressure-high"@,
            PressureLevel::Low => after.state.mode@ == "pressure-low"@,
            PressureLevel::Normal => after.state.mode@ == "normal"@,
        },
        before.last_pressure_level == level ==> after.state.mode == before.state.mode,
        after.state == (SharedState { mode: after.state.mode, ..before.state }),
        after == (Daemon { last_pressure_level: level, state: after.state, ..before }),
{
}

/// Throttling moves exactly the processes that are listed, all to the
/// swapstorm tier.
pub proof fn throttling_moves_the_listed(pids: Seq<u32>, e: Effect)
    ensures
        throttle_moves(pids).len() == pids.len(),
        throttle_moves(pids).contains(e) <==> (e matches Effect::Assign { pid, tier } && tier
            == CgroupTier::Swapstorm && pids.contains(pid)),
{
    let moves = throttle_moves(pids);
    if moves.contains(e) {
        let i = choose|i: int| 0 <= i < moves.len() && moves[i] == e;
        assert(pids.contains(pids[i]));
    }
    if let Effect::Assign { pid, tier } = e {
        if tier == CgroupTier::Swapstorm && pids.contains(pid) {
            let i = choose|i: int| 0 <= i < pids.len() && pids[i] == pid;
            assert(moves[i] == e);
        }
    }
}

/// Reopening concerns exactly the known processes that are listed: they are
/// no longer classified, and no action counts as applied to them. Nothing else
/// changes, and no process comes or goes.
pub proof fn reopening_reaches_the_listed(
    entries: Map<u32, EntryView>,
    pids: Seq<u32>,
    n: nat,
    p: u32,
)
    requires
        n <= pids.len(),
    ensures
        reopened(entries, pids, n).dom() == entries.dom(),
        entries.dom().contains(p) ==> {
            let e = reopened(entries, pids, n)[p];
            &&& e.info == entries[p].info
            &&& e.original_cgroup == entries[p].original_cgroup
            &&& e.recheck_at == entries[p].recheck_at
            &&& pids.take(n as int).contains(p) ==> !e.classified && e.applied is None
            &&& !pids.take(n as int).contains(p) ==> e == entries[p]
        },
    decreases n,
{
    if n > 0 {
        let m = (n - 1) as nat;
        reopening_reaches_the_listed(entries, pids, m, p);
        process_table::marks_concern_one_process(reopened(entries, pids, m), pids[n - 1], p);
        let all = pids.take(n as int);
        let head = pids.take(m as int);
        assert(all =~= head.push(pids[n - 1]));
        if head.contains(p) {
            let i = choose|i: int| 0 <= i < head.len() && head[i] == p;
            assert(all[i] == p);
        }
        if all.contains(p) && !head.contains(p) {
            let i = choose|i: int| 0 <= i < all.len() && all[i] == p;
            if i < n - 1 {
                assert(head[i] == p);
            }
        }
        assert(all[n - 1] == pids[n - 1]);
    }
}

/// When the power source is another than before, the profile for it is asked
/// for, for either source; and the source is remembered. Nothing else changes.
pub proof fn new_power_source_switches(
    before: Daemon,
    after: Daemon,
    power: PowerState,
    step: Step,
)
    requires
        power_handled(before, after, power, step),
    ensures
        before.last_power_source != Some(power) ==> step == Step::SwitchProfile(power),
        before.last_power_source == Some(power) ==> step == Step::Nothing,
        after == (Daemon { last_power_source: Some(power), ..before }),
{
}

/// The power source whose profile the steps asked for last, if they asked for
/// one, or else the one from before.
pub open spec fn profile_after(first: Option<PowerState>, steps: Seq<Step>) -> Option<PowerState>
    decreases steps.len(),
{
    if steps.len() == 0 {
        first
    } else {
        match steps.last() {
            Step::SwitchProfile(power) => Some(power),
            _ => profile_after(first, steps.drop_last()),
        }
    }
}

/// Whatever happens, the profile that was asked for last is always that of the
/// last power source; and that is the source of the last reading.
pub proof fn profile_follows_the_power_source(
    states: Seq<Daemon>,
    events: Seq<Event>,
    times: Seq<u64>,
    steps: Seq<Step>,
)
    requires
        states.len() == steps.len() + 1,
        forall|i: int|
            0 <= i < steps.len() ==> handled(
                states[i],
                states[i + 1],
                events[i],
                times[i],
                #[trigger] steps[i],
            ),
    ensures
        profile_after(states[0].last_power_source, steps) == states.last().last_power_source,
        steps.len() > 0 ==> (events[steps.len() - 1] matches Event::Power(power)
            ==> states.last().last_power_source == Some(power)),
    decreases steps.len(),
{
    if steps.len() > 0 {
        let n = steps.len() - 1;
        let head = steps.drop_last();
        assert forall|i: int| 0 <= i < head.len() implies handled(
            states.drop_last()[i],
            states.drop_last()[i + 1],
            events[i],
            times[i],
            #[trigger] head[i],
        ) by {
            assert(steps[i] == head[i]);
        }
        profile_follows_the_power_source(states.drop_last(), events, times, head);
        assert(handled(states[n], states[n + 1], events[n], times[n], steps[n]));
        assert(states.drop_last().last() == states[n]);
        assert(states.last() == states[n + 1]);
    }
}

// ---------------------------------------------------------------------------
// Laws of the events
// ---------------------------------------------------------------------------

/// Whether a parent is reported as a fork bomb by what happened.
pub open spec fn reported(before: Daemon, after: Daemon, parent: u32) -> bool {
    after.forkbomb.throttled().contains(parent) && !before.forkbomb.throttled().contains(parent)
}

/// A fork that makes its parent a fork bomb leads to throttling of all that
/// lies below the parent within the depth, during the grace period too. Every
/// other fork leads to a read of the child.
pub proof fn fork_bomb_is_throttled(
    before: Daemon,
    after: Daemon,
    parent_pid: u32,
    child_pid: u32,
    child_tgid: u32,
    now: u64,
    step: Step,
    c: u32,
)
    requires
        proc_handled(
            before,
            after,
            ProcEvent::Fork { parent_pid, child_pid, child_tgid },
            now,
            step,
        ),
    ensures
        child_pid != child_tgid ==> after.forkbomb == before.forkbomb,
        child_pid == child_tgid && !before.forkbomb.throttled().contains(parent_pid)
            ==> forkbomb::times_of(after.forkbomb.windows(), parent_pid).last() == now,
        reported(before, after, parent_pid) && !before.startup_phase ==> (step matches Step::Apply(
            v,
        ) && (v@.contains(Effect::Assign { pid: c, tier: CgroupTier::Swapstorm }) <==> exists|
            n: nat,
        |
            n <= before.forkbomb.depth() && #[trigger] process_table::reaches(
                before.table,
                parent_pid,
                c,
                n,
            ))),
        reported(before, after, parent_pid) && before.startup_phase ==> (step matches Step::Read {
            effects,
            pid,
            then,
        } && pid == child_pid && then == AfterRead::Defer && (effects@.contains(
            Effect::Assign { pid: c, tier: CgroupTier::Swapstorm },
        ) <==> exists|n: nat|
            n <= before.forkbomb.depth() && #[trigger] process_table::reaches(
                before.table,
                parent_pid,
                c,
                n,
            ))),
        !reported(before, after, parent_pid) ==> (step matches Step::Read { effects, pid, then }
            && pid == child_pid && effects@.len() == 0 && then == (if before.startup_phase {
            AfterRead::Defer
        } else {
            AfterRead::Settle
        })),
        after == (Daemon { forkbomb: after.forkbomb, ..before }),
{
    match step {
        Step::Apply(v) => {
            forkbomb::throttling_reaches_the_subtree(
                before.table,
                parent_pid,
                before.forkbomb.depth() as nat,
                v@,
                c,
            );
        },
        Step::Read { effects, .. } => {
            if effects@.len() > 0 {
                forkbomb::throttling_reaches_the_subtree(
                    before.table,
                    parent_pid,
                    before.forkbomb.depth() as nat,
                    effects@,
                    c,
                );
            }
        },
        _ => {},
    }
    if child_pid == child_tgid && forkbomb::detects(before.forkbomb, parent_pid, now)
        && before.startup_phase {
        if let Step::Read { effects, .. } = step {
            forkbomb::throttling_reaches_the_subtree(
                before.table,
                parent_pid,
                before.forkbomb.depth() as nat,
                effects@,
                c,
            );
        }
    }
}

/// A new program is looked at: at once where the grace period is over, even if
/// the process was classified before, and later otherwise.
pub proof fn new_program_is_looked_at(before: Daemon, after: Daemon, pid: u32, now: u64, step: Step)
    requires
        proc_handled(before, after, ProcEvent::Exec { pid }, now, step),
    ensures
        after == before,
        step matches Step::Read { effects, pid: p, then } && p == pid && effects@.len() == 0 && then
            == (if before.startup_phase {
            AfterRead::Defer
        } else {
            AfterRead::Classify
        }),
{
}

/// A new name or user of a process is looked at exactly if the process waits
/// for classification and the grace period is over.
pub proof fn change_is_looked_at_once(
    before: Daemon,
    after: Daemon,
    event: ProcEvent,
    pid: u32,
    now: u64,
    step: Step,
)
    requires
        proc_handled(before, after, event, now, step),
        event matches ProcEvent::Comm { pid: p, .. } ==> p == pid,
        event matches ProcEvent::Uid { pid: p } ==> p == pid,
        event is Comm || event is Uid,
    ensures
        after == before,
        step is Nothing <==> before.startup_phase || (before.table.entries().dom().contains(pid)
            && before.table.entries()[pid].classified),
        !(step is Nothing) ==> (step matches Step::Read { effects, pid: p, then } && p == pid
            && effects@.len() == 0 && then == AfterRead::Classify),
{
}

/// A process that ended is forgotten everywhere, and only that process; if it
/// was in the foreground, its nice level is reset.
pub proof fn ended_process_is_forgotten(
    before: Daemon,
    after: Daemon,
    event: ProcEvent,
    pid: u32,
    now: u64,
    step: Step,
    other: u32,
)
    requires
        proc_handled(before, after, event, now, step),
        event matches ProcEvent::Exit { pid: p, .. } && p == pid,
    ensures
        !after.table.entries().dom().contains(pid),
        !after.table.kids(other).contains(pid),
        !after.focus.pids().contains(pid),
        !after.state.managed_map().dom().contains(pid),
        other != pid && before.table.entries().dom().contains(other)
            ==> after.table.entries().dom().contains(other) && after.table.entries()[other]
            == before.table.entries()[other],
        other != pid ==> (after.focus.pids().contains(other) <==> before.focus.pids().contains(
            other,
        )),
        other != pid && before.state.managed_map().dom().contains(other)
            ==> after.state.managed_map().dom().contains(other)
            && after.state.managed_map()[other] == before.state.managed_map()[other],
        before.focus.pids().contains(pid) ==> (step matches Step::Apply(v) && v@ == seq![
            Effect::Nice { pid, nice: 0 },
        ]),
        !before.focus.pids().contains(pid) ==> step is Nothing,
        after.focus.root() == before.focus.root(),
        after.forkbomb == before.forkbomb,
        after == (Daemon {
            table: after.table,
            focus: after.focus,
            state: after.state,
            forkbomb: after.forkbomb,
            ..before
        }),
        after.state.mode == before.state.mode,
        after.state.version == before.state.version,
        after.state.started_ns == before.state.started_ns,
        after.state.foreground_pid == before.state.foreground_pid,
{
    process_table::removed_process_is_gone(before.table, after.table, pid, other);
}

/// A process that was read is in the table, with what was read. It counts as
/// classified only if it is a child that is not to be looked at before it
/// changes.
pub proof fn read_process_is_in_the_table(
    before: Daemon,
    after: Daemon,
    pid: u32,
    then: AfterRead,
    info: ProcessInfo,
    other: u32,
)
    requires
        read_handled(before, after, pid, then, Some(info)),
        info.pid == pid,
    ensures
        after.table.entries().dom().contains(pid),
        after.table.entries()[pid].info == info@,
        after.table.entries()[pid].classified <==> then == AfterRead::Settle,
        after.table.entries()[pid].applied is None,
        after.table.kids(other).contains(pid) <==> other == info.ppid,
        other != pid ==> (after.table.entries().dom().contains(other)
            <==> before.table.entries().dom().contains(other)),
        other != pid && before.table.entries().dom().contains(other)
            ==> after.table.entries()[other] == before.table.entries()[other],
        after == (Daemon { table: after.table, ..before }),
{
    assert(after.table.kids(other) == if other == info.ppid {
        before.table.kids(other).insert(pid)
    } else {
        before.table.kids(other).remove(pid)
    });
}

/// A process that was due for another look and is gone is forgotten. A failed
/// read changes nothing otherwise.
pub proof fn vanished_process_is_forgotten(
    before: Daemon,
    after: Daemon,
    pid: u32,
    then: AfterRead,
    other: u32,
)
    requires
        read_handled(before, after, pid, then, None),
    ensures
        then == AfterRead::Recheck ==> !after.table.entries().dom().contains(pid)
            && !after.state.managed_map().dom().contains(pid),
        other != pid && before.table.entries().dom().contains(other)
            ==> after.table.entries().dom().contains(other) && after.table.entries()[other]
            == before.table.entries()[other],
        other != pid && before.state.managed_map().dom().contains(other)
            ==> after.state.managed_map().dom().contains(other)
            && after.state.managed_map()[other] == before.state.managed_map()[other],
        then != AfterRead::Recheck ==> after.table == before.table && after.state == before.state,
        after == (Daemon { table: after.table, state: after.state, ..before }),
{
}

/// What each command of the control interface leads to.
pub proof fn commands_are_carried_out(
    before: Daemon,
    after: Daemon,
    cmd: ControlCommand,
    step: Step,
)
    requires
        control_handled(before, after, cmd, step),
    ensures
        cmd is ReloadRules ==> step is Reload && after == before,
        cmd matches ControlCommand::SetProcessCgroup { pid: p, cgroup } ==> after == before && (
        cgroupv2::named_tier(cgroup@) is None ==> step is Nothing) && (cgroupv2::named_tier(
            cgroup@,
        ) matches Some(tier) ==> (step matches Step::Apply(v) && v@ == seq![
            Effect::Assign { pid: p, tier },
        ])),
        cmd matches ControlCommand::SetForegroundProcess(p) ==> (if before.startup_phase {
            after == before && step is Nothing
        } else {
            after.state.foreground_pid == Some(p) && after == (Daemon {
                focus: after.focus,
                state: SharedState { foreground_pid: Some(p), ..before.state },
                ..before
            }) && (step is Nothing ==> after.focus.pids() == before.focus.pids()
                && after.focus.root() == before.focus.root()) && (step is Nothing || step is Apply)
        }),
{
}

/// What each tick and signal leads to. None of them changes the processes, the
/// focus, the rules or what is shown.
pub proof fn ticks_and_signals_lead_on(
    before: Daemon,
    after: Daemon,
    event: Event,
    now: u64,
    step: Step,
    p: u32,
)
    requires
        handled(before, after, event, now, step),
        !(event is Proc),
        !(event is Control),
        !(event is Pressure),
        !(event is Power),
    ensures
        event is RescanTick ==> step is Rescan && after == before,
        event is ReloadRules ==> step is Reload && after == before,
        event is Shutdown ==> step is Stop && after == before,
        event is GcTick ==> step is CollectGarbage && forkbomb::was_cleaned(
            before.forkbomb,
            after.forkbomb,
            now,
        ),
        event is RecheckTick ==> after == before && (step matches Step::Recheck(v) && (v@.contains(
            p,
        ) <==> before.table.entries().dom().contains(p) && !before.focus.pids().contains(p) && (
        before.table.entries()[p].recheck_at matches Some(t) && now >= t))),
        after == (Daemon { forkbomb: after.forkbomb, ..before }),
{
}

/// Which processes are left alone: the daemon, its children and its threads,
/// kernel threads, and what is in the foreground.
pub proof fn protection_has_its_reasons(d: Daemon, pid: u32, info: ProcessView)
    ensures
        protected(d, pid, info) <==> pid == d.own_pid || info.ppid == d.own_pid
            || info.is_kernel_thread || d.focus.pids().contains(pid) || info.comm == "ulatencyd"@
            || info.comm == "procmon-netlink"@ || info.comm == "psi-monitor"@ || info.comm
            == "power-monitor"@ || info.comm == "signals"@ || info.comm == "control-socket"@
            || info.comm == "control-sock-perm"@ || info.comm == "diag-log"@ || info.comm
            == "cgroup-gc"@ || info.comm == "cgroup-teardown"@ || info.comm == "shutdown-restore"@,
{
    let names = own_thread_names();
    assert(names[0] == "ulatencyd"@);
    assert(names[1] == "procmon-netlink"@);
    assert(names[2] == "psi-monitor"@);
    assert(names[3] == "power-monitor"@);
    assert(names[4] == "signals"@);
    assert(names[5] == "control-socket"@);
    assert(names[6] == "control-sock-perm"@);
    assert(names[7] == "diag-log"@);
    assert(names[8] == "cgroup-gc"@);
    assert(names[9] == "cgroup-teardown"@);
    assert(names[10] == "shutdown-restore"@);
}

/// A process is decided on unless it is protected or exempt, and exactly if
/// some rule accepts it. The exemption reaches up to ten generations: a process
/// with an exempt name on it, or with an ancestor of such a name among them,
/// is left alone.
pub proof fn decision_takes_ten_ancestors(d: Daemon, pid: u32, info: ProcessView, n: nat, i: int)
    ensures
        protected(d, pid, info) ==> decision(d, pid, info) is None,
        0 <= i < d.engine.exceptions.exact_names@.len() && d.engine.exceptions.exact_names@[i]@
            == info.comm ==> decision(d, pid, info) is None,
        0 <= i < d.engine.exceptions.ancestor_names@.len() && n < 10 && (forall|k: nat|
            k <= n ==> process_table::has_known_parent(
                d.table.entries(),
                #[trigger] process_table::above(d.table.entries(), pid, k),
            )) && d.engine.exceptions.ancestor_names@[i]@
            == d.table.entries()[process_table::above(
            d.table.entries(),
            pid,
            n + 1,
        )].info.comm ==> decision(d, pid, info) is None,
{
    let entries = d.table.entries();
    let names = process_table::ancestors(entries, pid, 10);
    rules::exempt_by_name_or_ancestor(d.engine.exceptions, info.comm, names);
    process_table::ancestors_go_up_by_generations(entries, pid, 10, n);
    if 0 <= i < d.engine.exceptions.ancestor_names@.len() && n < 10 && (forall|k: nat|
        k <= n ==> process_table::has_known_parent(
            entries,
            #[trigger] process_table::above(entries, pid, k),
        )) && d.engine.exceptions.ancestor_names@[i]@ == entries[process_table::above(
        entries,
        pid,
        n + 1,
    )].info.comm {
        if names.len() <= n {
            assert(process_table::has_known_parent(
                entries,
                process_table::above(entries, pid, names.len()),
            ));
        }
        assert(d.engine.exceptions.ancestor_names@[i]@ == names[n as int]);
    }
}

/// A process that is neither protected nor exempt is decided on exactly if
/// some rule accepts it, with the name of its parent as the table has it.
pub proof fn unprotected_are_decided_on(d: Daemon, pid: u32, info: ProcessView, parent: Seq<char>)
    requires
        !protected(d, pid, info),
        !rules::exempt(
            d.engine.exceptions,
            info.comm,
            process_table::ancestors(d.table.entries(), pid, 10),
        ),
        parent == (if process_table::has_known_parent(d.table.entries(), pid) {
            d.table.entries()[d.table.entries()[pid].info.ppid].info.comm
        } else {
            Seq::empty()
        }),
    ensures
        decision(d, pid, info) is Some <==> exists|k: int|
            0 <= k < d.engine.rules@.len() && rules::accepts(
                (#[trigger] d.engine.rules@[k])@.matchers,
                info,
                parent,
            ),
{
    let entries = d.table.entries();
    let names = process_table::ancestors(entries, pid, 10);
    let views = rules::rule_views(d.engine.rules@);
    process_table::ancestors_go_up_by_generations(entries, pid, 10, 0);
    assert(process_table::above(entries, pid, 0) == pid);
    assert(process_table::above(entries, pid, 1) == entries[pid].info.ppid);
    rules::classified_iff_some_rule_matches(views, d.engine.exceptions, info, names);
    assert(rules::first_name(names) == parent);
    if decision(d, pid, info) is Some {
        let k = choose|k: int|
            0 <= k < views.len() && rules::accepts((#[trigger] views[k]).matchers, info, parent);
        assert(d.engine.rules@[k]@ == views[k]);
    }
    assert forall|k: int|
        0 <= k < d.engine.rules@.len() && rules::accepts(
            (#[trigger] d.engine.rules@[k])@.matchers,
            info,
            parent,
        ) implies decision(d, pid, info) is Some by {
        assert(views[k] == d.engine.rules@[k]@);
    }
}

// ---------------------------------------------------------------------------
// Laws of decisions that are carried out
// ---------------------------------------------------------------------------

proof fn lemma_spread(order: Seq<u32>, a: ActionView, e: Effect)
    ensures
        spread(order, a).contains(e) <==> (e matches Effect::Assign { pid, tier } && order.contains(
            pid,
        ) && (a.cgroup matches Some(name) && cgroupv2::named_tier(name) == Some(tier))),
    decreases order.len(),
{
    if order.len() > 0 {
        let head = spread(order.drop_last(), a);
        let tail = applier::cgroup_effects(order.last(), a);
        lemma_spread(order.drop_last(), a, e);
        applier::only_the_move_is_passed_on(order.last(), a, e);
        lemma_concat_contains(head, tail, e);
        if let Effect::Assign { pid, tier } = e {
            assert(order =~= order.drop_last().push(order.last()));
            if order.contains(pid) && pid != order.last() {
                let i = choose|i: int| 0 <= i < order.len() && order[i] == pid;
                assert(order.drop_last()[i] == pid);
            }
            if order.drop_last().contains(pid) {
                let i = choose|i: int|
                    0 <= i < order.drop_last().len() && order.drop_last()[i] == pid;
                assert(order[i] == pid);
            }
            assert(order[order.len() - 1] == order.last());
        }
    }
}

proof fn lemma_concat_contains<A>(a: Seq<A>, b: Seq<A>, x: A)
    ensures
        (a + b).contains(x) <==> a.contains(x) || b.contains(x),
{
    if a.contains(x) {
        let i = choose|i: int| 0 <= i < a.len() && a[i] == x;
        assert((a + b)[i] == x);
    }
    if b.contains(x) {
        let i = choose|i: int| 0 <= i < b.len() && b[i] == x;
        assert((a + b)[a.len() + i] == x);
    }
    if (a + b).contains(x) {
        let i = choose|i: int| 0 <= i < (a + b).len() && (a + b)[i] == x;
        if i < a.len() {
            assert(a[i] == x);
        } else {
            assert(b[i - a.len()] == x);
        }
    }
}

/// A decision is carried out on the process, and its move on the children too
/// if it asks for that, and on nothing else.
pub proof fn decision_is_carried_out(
    before: Daemon,
    after: Daemon,
    pid: u32,
    info: ProcessView,
    a: ActionView,
    cgroup: Option<Seq<char>>,
    now: u64,
    effects: Seq<Effect>,
    e: Effect,
)
    requires
        committed(before, after, pid, info, Some(a), cgroup, now, effects),
    ensures
        effects.contains(e) <==> applier::action_effects(pid, a).contains(e) || (a.apply_to_children
            && (e matches Effect::Assign { pid: c, tier } && before.table.kids(pid).contains(c) && (
        a.cgroup matches Some(name) && cgroupv2::named_tier(name) == Some(tier)))),
{
    if a.apply_to_children {
        let order = choose|order: Seq<u32>| #[trigger]
            is_listing(order, before.table.kids(pid)) && effects == applier::action_effects(pid, a)
                + spread(order, a);
        lemma_spread(order, a, e);
        lemma_concat_contains(applier::action_effects(pid, a), spread(order, a), e);
    }
}

/// A decision is noted down: the process counts as classified, the action is
/// on record, the next look is set, and the process is shown with its name,
/// its tier and the rule. The other processes stay as they are.
pub proof fn decision_is_noted_down(
    before: Daemon,
    after: Daemon,
    pid: u32,
    info: ProcessView,
    a: ActionView,
    cgroup: Option<Seq<char>>,
    now: u64,
    effects: Seq<Effect>,
    later: u64,
    other: u32,
)
    requires
        committed(before, after, pid, info, Some(a), cgroup, now, effects),
        before.table.entries().dom().contains(pid),
    ensures
        after.table.entries().dom() == before.table.entries().dom(),
        after.table.entries()[pid].classified,
        after.table.entries()[pid].applied == Some(a),
        after.table.entries()[pid].info == before.table.entries()[pid].info,
        before.table.entries()[pid].original_cgroup is Some
            ==> after.table.entries()[pid].original_cgroup
            == before.table.entries()[pid].original_cgroup,
        a.cgroup is None || cgroup is None ==> after.table.entries()[pid].original_cgroup
            == before.table.entries()[pid].original_cgroup,
        process_table::recheck_due(after.table.entries()[pid], later) <==> (
        a.recheck_secs matches Some(s) && later >= now + s * 1_000_000_000),
        other != pid && before.table.entries().dom().contains(other)
            ==> after.table.entries()[other] == before.table.entries()[other],
        after.state.managed_map().dom() == before.state.managed_map().dom().insert(pid),
        after.state.managed_map()[pid].pid == pid,
        after.state.managed_map()[pid].comm == info.comm,
        after.state.managed_map()[pid].rule_name == a.rule_name,
        a.cgroup matches Some(name) ==> after.state.managed_map()[pid].cgroup == name,
        a.cgroup is None ==> after.state.managed_map()[pid].cgroup == "system"@,
        other != pid && before.state.managed_map().dom().contains(other)
            ==> after.state.managed_map()[other] == before.state.managed_map()[other],
        after.state.mode == before.state.mode,
        after.state.version == before.state.version,
        after.state.started_ns == before.state.started_ns,
        after.state.foreground_pid == before.state.foreground_pid,
        after == (Daemon { table: after.table, state: after.state, ..before }),
{
    let placed = with_place(before.table.entries(), pid, a, cgroup);
    if let Some(content) = cgroup {
        if let Some(p) = info::unified_path(content) {
            process_table::recording_concerns_one_process(
                before.table.entries(),
                pid,
                p,
                pid,
            );
            process_table::recording_concerns_one_process(
                before.table.entries(),
                pid,
                p,
                other,
            );
        }
    }
    process_table::applying_is_noted_down(placed, pid, a, now, later, other);
}

/// Where nothing is decided, the process counts as classified and nothing is
/// done.
pub proof fn no_decision_does_nothing(
    before: Daemon,
    after: Daemon,
    pid: u32,
    info: ProcessView,
    cgroup: Option<Seq<char>>,
    now: u64,
    effects: Seq<Effect>,
    other: u32,
)
    requires
        committed(before, after, pid, info, None, cgroup, now, effects),
    ensures
        effects.len() == 0,
        after.table.entries().dom() == before.table.entries().dom(),
        before.table.entries().dom().contains(pid) ==> after.table.entries()[pid].classified
            && after.table.entries()[pid].applied == before.table.entries()[pid].applied
            && after.table.entries()[pid].info == before.table.entries()[pid].info,
        other != pid && before.table.entries().dom().contains(other)
            ==> after.table.entries()[other] == before.table.entries()[other],
        after == (Daemon { table: after.table, ..before }),
{
    process_table::marks_concern_one_process(before.table.entries(), pid, other);
}

/// At the end exactly the processes that were moved and whose original cgroup
/// is on record are put back, each where it came from.
pub proof fn restoring_undoes_the_move(entries: Map<u32, EntryView>, r: Restore)
    requires
        restores(entries, r),
    ensures
        entries.dom().contains(r.pid),
        entries[r.pid].applied matches Some(a) && a.cgroup is Some,
        entries[r.pid].original_cgroup matches Some(home) && r.write@.0 == "/sys/fs/cgroup"@ + home
            + "/cgroup.procs"@,
        r.write@.1 == text::decimal(r.pid as nat).push('\n'),
        r.proc_dir@ == "/proc/"@ + text::decimal(r.pid as nat),
{
}

/// A process is to be put back exactly if an action moved it and its original
/// cgroup is on record.
pub proof fn moved_processes_are_put_back(entries: Map<u32, EntryView>, pid: u32)
    ensures
        to_restore(entries, pid) <==> entries.dom().contains(pid)
            && entries[pid].original_cgroup is Some && (entries[pid].applied matches Some(a) && a.cgroup is Some),
{
}

/// A hint about the foreground is followed once the grace period is over: the
/// process it names comes to the foreground, with a better nice level and in
/// the interactive tier.
pub proof fn hint_is_followed(before: Daemon, after: Daemon, pid: u32, step: Step)
    requires
        before.wf(),
        control_handled(before, after, ControlCommand::SetForegroundProcess(pid), step),
        !before.startup_phase,
        before.table.entries().dom().contains(pid),
        !focus::session_roots().contains(before.table.entries()[pid].info.comm),
        forall|c: u32| #[trigger]
            before.table.entries().dom().contains(c) ==> before.table.kids(
                before.table.entries()[c].info.ppid,
            ).contains(c),
    ensures
        after.focus.pids().contains(pid),
        step matches Step::Apply(v) && v@.contains(Effect::Nice { pid, nice: -5i8 })
            && v@.contains(Effect::Assign { pid, tier: CgroupTier::Interactive }),
{
    focus::focused_process_comes_to_front(before.table, pid);
    if let Step::Apply(v) = step {
        let change = choose|change: focus::ForegroundChange| #[trigger]
            focus::front_changed(before.focus, after.focus, before.table, pid, change) && v@
                == focus::change_effects(change);
        focus::change_reaches_every_process(change, pid);
    }
}

/// What is decided is what the rules say, given the names of the process's
/// ancestors.
pub proof fn decision_is_that_of_the_rules(d: Daemon, pid: u32, info: ProcessView)
    requires
        !protected(d, pid, info),
    ensures
        decision(d, pid, info) == rules::classified(
            rules::rule_views(d.engine.rules@),
            d.engine.exceptions,
            info,
            process_table::ancestors(d.table.entries(), pid, 10),
        ),
{
}

/// What was read of the cgroup of a process is looked at as it is.
pub proof fn text_is_taken_as_it_is(content: &str)
    ensures
        opt_str(Some(content)) == Some(content@),
        opt_str(None) is None,
{
}

/// The processes of a list are those on its lines; where there is no list
/// there are none.
pub proof fn lists_name_their_processes(content: &str)
    ensures
        pids_listed(Some(content)) == cgroupv2::listed_pids(content@),
        pids_listed(None).len() == 0,
{
}

} // verus!
