//! In-memory process table: the processes by pid, and the edges from parents
//! to children.

use std::collections::{HashMap, HashSet};
use vstd::prelude::*;

use crate::info::{ProcessInfo, ProcessView};
use crate::pids::{keys, members};
use crate::rules;
use crate::rules::{Action, ActionView};
use crate::text;
use crate::text::{owned, owned_opt};

verus! {

broadcast use vstd::std_specs::hash::group_hash_axioms;

/// What is known of a process and what was done to it.
#[derive(Debug)]
pub struct ProcessEntry {
    pub info: ProcessInfo,
    pub applied: Option<Action>,
    /// When to look at the process again, in nanoseconds of the daemon's
    /// clock.
    pub recheck_at: Option<u128>,
    /// Whether the rules have been consulted.
    pub classified: bool,
    /// The cgroup v2 path of the process before it was moved.
    pub original_cgroup: Option<String>,
}

/// What a `ProcessEntry` says.
#[verifier::ext_equal]
pub struct EntryView {
    pub info: ProcessView,
    pub applied: Option<ActionView>,
    pub recheck_at: Option<u128>,
    pub classified: bool,
    pub original_cgroup: Option<Seq<char>>,
}

impl View for ProcessEntry {
    type V = EntryView;

    open spec fn view(&self) -> EntryView {
        EntryView {
            info: self.info@,
            applied: rules::opt_action(self.applied),
            recheck_at: self.recheck_at,
            classified: self.classified,
            original_cgroup: text::opt_text(self.original_cgroup),
        }
    }
}

/// The entry of a process that was just seen.
pub open spec fn fresh_entry(info: ProcessView, original: Option<Seq<char>>) -> EntryView {
    EntryView {
        info,
        applied: None,
        recheck_at: None,
        classified: false,
        original_cgroup: original,
    }
}

/// The original cgroup that is on record for a pid.
pub open spec fn original_of(entries: Map<u32, EntryView>, pid: u32) -> Option<Seq<char>> {
    if entries.dom().contains(pid) {
        entries[pid].original_cgroup
    } else {
        None
    }
}

/// The table after a process was (re)inserted: the original cgroup is kept,
/// everything else starts afresh.
pub open spec fn inserted(entries: Map<u32, EntryView>, info: ProcessView) -> Map<u32, EntryView> {
    entries.insert(info.pid, fresh_entry(info, original_of(entries, info.pid)))
}

/// The table after the entry of `pid`, if there is one, was replaced.
pub open spec fn revised(
    entries: Map<u32, EntryView>,
    pid: u32,
    change: spec_fn(EntryView) -> EntryView,
) -> Map<u32, EntryView> {
    if entries.dom().contains(pid) {
        entries.insert(pid, change(entries[pid]))
    } else {
        entries
    }
}

/// The table after `pid` was marked as classified.
pub open spec fn marked(entries: Map<u32, EntryView>, pid: u32) -> Map<u32, EntryView> {
    revised(entries, pid, |e: EntryView| EntryView { classified: true, ..e })
}

/// The table after `pid` was marked for another look at the rules.
pub open spec fn unmarked(entries: Map<u32, EntryView>, pid: u32) -> Map<u32, EntryView> {
    revised(entries, pid, |e: EntryView| EntryView { classified: false, applied: None, ..e })
}

/// The table after an original cgroup was recorded: the first record stays.
pub open spec fn with_original(
    entries: Map<u32, EntryView>,
    pid: u32,
    path: Seq<char>,
) -> Map<u32, EntryView> {
    revised(
        entries,
        pid,
        |e: EntryView|
            if e.original_cgroup is None {
                EntryView { original_cgroup: Some(path), ..e }
            } else {
                e
            },
    )
}

/// When an action that was applied at `now_ns` asks for another look.
pub open spec fn recheck_time(action: ActionView, now_ns: u64) -> Option<u128> {
    match action.recheck_secs {
        Some(s) => Some((now_ns + s * 1_000_000_000) as u128),
        None => None,
    }
}

/// The table after an action was applied to `pid`.
pub open spec fn with_applied(
    entries: Map<u32, EntryView>,
    pid: u32,
    action: ActionView,
    now_ns: u64,
) -> Map<u32, EntryView> {
    revised(
        entries,
        pid,
        |e: EntryView|
            EntryView {
                recheck_at: recheck_time(action, now_ns),
                applied: Some(action),
                classified: true,
                ..e
            },
    )
}

/// The table after the first `n` of the new processes were added. Processes
/// that are known already stay as they are.
pub open spec fn with_fresh(
    entries: Map<u32, EntryView>,
    fresh: Seq<ProcessView>,
    n: nat,
) -> Map<u32, EntryView>
    decreases n,
{
    if n == 0 {
        entries
    } else {
        let before = with_fresh(entries, fresh, (n - 1) as nat);
        if before.dom().contains(fresh[n - 1].pid) {
            before
        } else {
            before.insert(fresh[n - 1].pid, fresh_entry(fresh[n - 1], None))
        }
    }
}

/// What each process of a sequence is.
pub open spec fn process_views(v: Seq<ProcessInfo>) -> Seq<ProcessView> {
    Seq::new(v.len(), |i: int| v[i]@)
}

/// The names of the ancestors of `pid`, nearest first, at most `depth`. The
/// walk ends at pid 0, at a process that is its own parent, and where the
/// parent is not in the table.
pub open spec fn ancestors(entries: Map<u32, EntryView>, pid: u32, depth: nat) -> Seq<Seq<char>>
    decreases depth,
{
    if depth == 0 || !entries.dom().contains(pid) {
        Seq::empty()
    } else {
        let ppid = entries[pid].info.ppid;
        if ppid == 0 || ppid == pid || !entries.dom().contains(ppid) {
            Seq::empty()
        } else {
            seq![entries[ppid].info.comm] + ancestors(entries, ppid, (depth - 1) as nat)
        }
    }
}

/// Whether the time to look at the process again has come.
pub open spec fn recheck_due(e: EntryView, now_ns: u64) -> bool {
    e.recheck_at matches Some(t) && now_ns >= t
}

/// Whether the process was moved to a tier.
pub open spec fn was_moved(e: EntryView) -> bool {
    e.applied matches Some(a) && a.cgroup is Some
}

/// The table of all known processes.
pub struct ProcessTable {
    entries: HashMap<u32, ProcessEntry>,
    children: HashMap<u32, HashSet<u32>>,
}

impl ProcessTable {
    /// The entries by pid.
    pub closed spec fn entries(&self) -> Map<u32, EntryView> {
        self.entries@.map_values(|e: ProcessEntry| e@)
    }

    /// The children that are on record for a pid.
    pub closed spec fn kids(&self, p: u32) -> Set<u32> {
        if self.children@.dom().contains(p) {
            self.children@[p]@
        } else {
            Set::empty()
        }
    }

    /// Every entry is kept under its own pid, and every child on record is an
    /// entry that names its parent.
    pub open spec fn wf(&self) -> bool {
        &&& self.entries().dom().finite()
        &&& forall|p: u32| #[trigger]
            self.entries().dom().contains(p) ==> self.entries()[p].info.pid == p
        &&& forall|p: u32, c: u32| #[trigger]
            self.kids(p).contains(c) ==> self.entries().dom().contains(c)
                && self.entries()[c].info.ppid == p
    }

    /// An empty table.
    pub fn new() -> (r: ProcessTable)
        ensures
            r.entries() == Map::<u32, EntryView>::empty(),
            forall|p: u32| #[trigger] r.kids(p) == Set::<u32>::empty(),
            r.wf(),
    {
        let r = ProcessTable { entries: HashMap::new(), children: HashMap::new() };
        assert(r.entries() =~= Map::empty());
        r
    }

    // -----------------------------------------------------------------------
    // Edges
    // -----------------------------------------------------------------------

    fn unlink(&mut self, ppid: u32, pid: u32)
        ensures
            final(self).entries@ == old(self).entries@,
            forall|p: u32| #[trigger]
                final(self).kids(p) == if p == ppid {
                    old(self).kids(p).remove(pid)
                } else {
                    old(self).kids(p)
                },
    {
        match self.children.remove(&ppid) {
            Some(set) => {
                let mut rest = set;
                rest.remove(&pid);
                self.children.insert(ppid, rest);
            },
            None => {},
        }
        assert forall|p: u32| #[trigger]
            self.kids(p) == if p == ppid {
                old(self).kids(p).remove(pid)
            } else {
                old(self).kids(p)
            } by {
            assert(self.kids(p) =~= if p == ppid {
                old(self).kids(p).remove(pid)
            } else {
                old(self).kids(p)
            });
        }
    }

    fn link(&mut self, ppid: u32, pid: u32)
        ensures
            final(self).entries@ == old(self).entries@,
            forall|p: u32| #[trigger]
                final(self).kids(p) == if p == ppid {
                    old(self).kids(p).insert(pid)
                } else {
                    old(self).kids(p)
                },
    {
        let mut set: HashSet<u32> = match self.children.remove(&ppid) {
            Some(s) => s,
            None => HashSet::new(),
        };
        set.insert(pid);
        self.children.insert(ppid, set);
        assert forall|p: u32| #[trigger]
            self.kids(p) == if p == ppid {
                old(self).kids(p).insert(pid)
            } else {
                old(self).kids(p)
            } by {
            assert(self.kids(p) =~= if p == ppid {
                old(self).kids(p).insert(pid)
            } else {
                old(self).kids(p)
            });
        }
    }

    fn put(&mut self, pid: u32, e: ProcessEntry)
        ensures
            final(self).entries() == old(self).entries().insert(pid, e@),
            forall|p: u32| #[trigger] final(self).kids(p) == old(self).kids(p),
    {
        self.entries.insert(pid, e);
        assert(self.entries() =~= old(self).entries().insert(pid, e@));
    }

    fn take(&mut self, pid: u32) -> (r: Option<ProcessEntry>)
        ensures
            match r {
                Some(e) => old(self).entries().dom().contains(pid) && e@ == old(
                    self,
                ).entries()[pid],
                None => !old(self).entries().dom().contains(pid),
            },
            final(self).entries() == old(self).entries().remove(pid),
            forall|p: u32| #[trigger] final(self).kids(p) == old(self).kids(p),
    {
        let r = self.entries.remove(&pid);
        assert(self.entries() =~= old(self).entries().remove(pid));
        r
    }

    // -----------------------------------------------------------------------
    // Mutation
    // -----------------------------------------------------------------------

    /// Inserts a process, or replaces what is known of it. The original cgroup
    /// is kept.
    pub fn insert(&mut self, info: ProcessInfo)
        requires
            old(self).wf(),
        ensures
            was_inserted(*old(self), *final(self), info@),
    {
        let pid: u32 = info.pid;
        let ppid: u32 = info.ppid;
        let (original_cgroup, old_parent) = match self.get(pid) {
            Some(e) => (owned_opt(&e.original_cgroup), Some(e.info.ppid)),
            None => (None, None),
        };
        if let Some(q) = old_parent {
            if q != ppid {
                self.unlink(q, pid);
            }
        }
        self.link(ppid, pid);
        let e = ProcessEntry {
            info,
            applied: None,
            recheck_at: None,
            classified: false,
            original_cgroup,
        };
        self.put(pid, e);
        assert(self.entries() =~= inserted(old(self).entries(), info@));
        assert forall|p: u32| #[trigger]
            self.kids(p) == if p == ppid {
                old(self).kids(p).insert(pid)
            } else {
                old(self).kids(p).remove(pid)
            } by {
            if p != ppid {
                assert(self.kids(p) =~= old(self).kids(p).remove(pid));
            }
        }
    }

    /// Forgets a process and the children that are on record for it.
    pub fn remove(&mut self, pid: u32)
        requires
            old(self).wf(),
        ensures
            was_removed(*old(self), *final(self), pid),
    {
        match self.take(pid) {
            Some(entry) => {
                self.unlink(entry.info.ppid, pid);
                let ghost cut = *self;
                self.children.remove(&pid);
                assert(self.entries() =~= old(self).entries().remove(pid));
                assert forall|p: u32| #[trigger]
                    self.kids(p) == if p == pid {
                        Set::empty()
                    } else {
                        old(self).kids(p).remove(pid)
                    } by {
                    if p != pid {
                        assert(self.kids(p) == cut.kids(p));
                        assert(cut.kids(p) =~= old(self).kids(p).remove(pid));
                    }
                }
            },
            None => {
                assert(self.entries() =~= old(self).entries());
                assert forall|p: u32| #[trigger] self.kids(p) == old(self).kids(p).remove(pid) by {
                    assert(self.kids(p) == old(self).kids(p));
                    assert(!old(self).kids(p).contains(pid));
                    assert(old(self).kids(p) =~= old(self).kids(p).remove(pid));
                }
            },
        }
    }

    /// Marks a process as classified.
    pub fn mark_classified(&mut self, pid: u32)
        requires
            old(self).wf(),
        ensures
            final(self).wf(),
            final(self).entries() == marked(old(self).entries(), pid),
            same_edges(*old(self), *final(self)),
    {
        match self.take(pid) {
            Some(entry) => {
                let mut e = entry;
                e.classified = true;
                self.put(pid, e);
            },
            None => {},
        }
        assert(self.entries() =~= marked(old(self).entries(), pid));
    }

    /// Marks a process for another look at the rules.
    pub fn mark_classified_false(&mut self, pid: u32)
        requires
            old(self).wf(),
        ensures
            final(self).wf(),
            final(self).entries() == unmarked(old(self).entries(), pid),
            same_edges(*old(self), *final(self)),
    {
        match self.take(pid) {
            Some(entry) => {
                let mut e = entry;
                e.classified = false;
                e.applied = None;
                self.put(pid, e);
            },
            None => {},
        }
        assert(self.entries() =~= unmarked(old(self).entries(), pid));
    }

    /// Records the cgroup of a process before it is moved. Only the first
    /// record counts.
    pub fn set_original_cgroup(&mut self, pid: u32, path: String)
        requires
            old(self).wf(),
        ensures
            final(self).wf(),
            final(self).entries() == with_original(old(self).entries(), pid, path@),
            same_edges(*old(self), *final(self)),
    {
        match self.take(pid) {
            Some(entry) => {
                let mut e = entry;
                if e.original_cgroup.is_none() {
                    e.original_cgroup = Some(path);
                }
                self.put(pid, e);
            },
            None => {},
        }
        assert(self.entries() =~= with_original(old(self).entries(), pid, path@));
    }

    /// Records the action that was applied to a process, and when to look at
    /// it again.
    pub fn set_applied(&mut self, pid: u32, action: Action, now_ns: u64)
        requires
            old(self).wf(),
        ensures
            final(self).wf(),
            final(self).entries() == with_applied(old(self).entries(), pid, action@, now_ns),
            same_edges(*old(self), *final(self)),
    {
        match self.take(pid) {
            Some(entry) => {
                let mut e = entry;
                let recheck_at: Option<u128> = match action.recheck_secs {
                    Some(s) => Some(now_ns as u128 + (s as u128) * 1_000_000_000),
                    None => None,
                };
                e.recheck_at = recheck_at;
                e.applied = Some(action);
                e.classified = true;
                self.put(pid, e);
            },
            None => {},
        }
        assert(self.entries() =~= with_applied(old(self).entries(), pid, action@, now_ns));
    }

    // -----------------------------------------------------------------------
    // Queries
    // -----------------------------------------------------------------------

    /// The entry of a process.
    pub fn get(&self, pid: u32) -> (r: Option<&ProcessEntry>)
        ensures
            match r {
                Some(e) => self.entries().dom().contains(pid) && e@ == self.entries()[pid],
                None => !self.entries().dom().contains(pid),
            },
    {
        self.entries.get(&pid)
    }

    /// The children on record for a process, each once, in no given order.
    pub fn children_of(&self, ppid: u32) -> (r: Vec<u32>)
        ensures
            r@.no_duplicates(),
            forall|c: u32| r@.contains(c) <==> self.kids(ppid).contains(c),
    {
        match self.children.get(&ppid) {
            Some(set) => members(set),
            None => Vec::new(),
        }
    }

    /// The names of the ancestors of a process, nearest first, at most
    /// `max_depth`.
    pub fn ancestor_comms(&self, pid: u32, max_depth: usize) -> (r: Vec<String>)
        ensures
            text::texts(r@) == ancestors(self.entries(), pid, max_depth as nat),
    {
        let mut comms: Vec<String> = Vec::new();
        let mut current: u32 = pid;
        let mut left: usize = max_depth;
        let ghost all = ancestors(self.entries(), pid, max_depth as nat);
        assert(text::texts(comms@) + all =~= all);
        while left > 0
            invariant
                all == ancestors(self.entries(), pid, max_depth as nat),
                all == text::texts(comms@) + ancestors(self.entries(), current, left as nat),
            decreases left,
        {
            let ghost before = text::texts(comms@);
            let ppid: u32 = match self.get(current) {
                Some(e) => e.info.ppid,
                None => {
                    assert(all =~= before);
                    return comms;
                },
            };
            if ppid == 0 || ppid == current {
                assert(all =~= before);
                return comms;
            }
            match self.get(ppid) {
                Some(p) => {
                    let name = owned(p.info.comm.as_str());
                    comms.push(name);
                    assert(text::texts(comms@) =~= before.push(name@));
                    assert(all =~= text::texts(comms@) + ancestors(
                        self.entries(),
                        ppid,
                        (left - 1) as nat,
                    ));
                    current = ppid;
                },
                None => {
                    assert(all =~= before);
                    return comms;
                },
            }
            left = left - 1;
        }
        assert(all =~= text::texts(comms@));
        comms
    }

    /// Every pid in the table, each once, in no given order.
    pub fn pids(&self) -> (r: Vec<u32>)
        ensures
            r@.no_duplicates(),
            forall|p: u32| r@.contains(p) <==> self.entries().dom().contains(p),
    {
        keys(&self.entries)
    }

    /// The processes that are due for another look.
    pub fn expired_rechecks(&self, now_ns: u64) -> (r: Vec<u32>)
        ensures
            r@.no_duplicates(),
            forall|p: u32|
                r@.contains(p) <==> self.entries().dom().contains(p) && recheck_due(
                    self.entries()[p],
                    now_ns,
                ),
    {
        let all = self.pids();
        let mut r: Vec<u32> = Vec::new();
        let mut i: usize = 0;
        while i < all.len()
            invariant
                i <= all@.len(),
                all@.no_duplicates(),
                forall|p: u32| all@.contains(p) <==> self.entries().dom().contains(p),
                is_selection(
                    r@,
                    all@.take(i as int),
                    |p: u32| recheck_due(self.entries()[p], now_ns),
                ),
            decreases all@.len() - i,
        {
            let pid: u32 = all[i];
            let ghost due = |p: u32| recheck_due(self.entries()[p], now_ns);
            proof {
                lemma_selection_step(r@, all@, i as int, due);
            }
            match self.get(pid) {
                Some(e) => {
                    match e.recheck_at {
                        Some(t) => {
                            if now_ns as u128 >= t {
                                r.push(pid);
                            }
                        },
                        None => {},
                    }
                },
                None => {
                    assert(all@.contains(all@[i as int]));
                },
            }
            i = i + 1;
        }
        assert(all@.take(all@.len() as int) =~= all@);
        r
    }

    /// Takes over the result of an incremental scan: `fresh` holds the
    /// processes that are new, `live_pids` every pid that exists.
    pub fn merge_scan(&mut self, fresh: Vec<ProcessInfo>, live_pids: &HashSet<u32>)
        requires
            old(self).wf(),
        ensures
            was_scanned(*old(self), *final(self), process_views(fresh@), live_pids@),
    {
        let ghost views = process_views(fresh@);
        let ghost start = *self;
        let mut n: usize = 0;
        while n < fresh.len()
            invariant
                start.wf(),
                self.wf(),
                views == process_views(fresh@),
                views.len() == fresh@.len(),
                n <= fresh@.len(),
                self.entries() == with_fresh(start.entries(), views, n as nat),
                forall|p: u32| #[trigger]
                    start.entries().dom().contains(p) ==> self.entries().dom().contains(p),
                forall|p: u32, c: u32| #[trigger]
                    self.kids(p).contains(c) <==> start.kids(p).contains(c) || (
                    !start.entries().dom().contains(c) && self.entries().dom().contains(c)
                        && self.entries()[c].info.ppid == p),
            decreases fresh@.len() - n,
        {
            let info = fresh[n].copied();
            assert(info@ == views[n as int]);
            let pid: u32 = info.pid;
            let ppid: u32 = info.ppid;
            let known = self.get(pid).is_some();
            if !known {
                let ghost before = *self;
                self.link(ppid, pid);
                let e = ProcessEntry {
                    info,
                    applied: None,
                    recheck_at: None,
                    classified: false,
                    original_cgroup: None,
                };
                self.put(pid, e);
                assert forall|p: u32, c: u32| #[trigger]
                    self.kids(p).contains(c) <==> start.kids(p).contains(c) || (
                    !start.entries().dom().contains(c) && self.entries().dom().contains(c)
                        && self.entries()[c].info.ppid == p) by {
                    assert(before.kids(p).contains(c) <==> start.kids(p).contains(c) || (
                    !start.entries().dom().contains(c) && before.entries().dom().contains(c)
                        && before.entries()[c].info.ppid == p));
                }
            }
            n = n + 1;
        }
        let ghost all = self.entries();
        let ghost merged = *self;
        let tracked_pids = self.pids();
        let mut i: usize = 0;
        assert(self.entries() =~= all.remove_keys(stale_among(tracked_pids@, live_pids@, 0)));
        while i < tracked_pids.len()
            invariant
                self.wf(),
                merged.wf(),
                all == merged.entries(),
                tracked_pids@.no_duplicates(),
                forall|p: u32| tracked_pids@.contains(p) <==> all.dom().contains(p),
                i <= tracked_pids@.len(),
                self.entries() == all.remove_keys(
                    stale_among(tracked_pids@, live_pids@, i as int),
                ),
                forall|p: u32, c: u32| #[trigger]
                    self.kids(p).contains(c) <==> merged.kids(p).contains(c) && !stale_among(
                        tracked_pids@,
                        live_pids@,
                        i as int,
                    ).contains(c) && !stale_among(tracked_pids@, live_pids@, i as int).contains(p),
            decreases tracked_pids@.len() - i,
        {
            let pid: u32 = tracked_pids[i];
            let ghost gone = stale_among(tracked_pids@, live_pids@, i as int);
            let ghost next = stale_among(tracked_pids@, live_pids@, i + 1);
            let ghost before = *self;
            assert(tracked_pids@.contains(pid));
            if !live_pids.contains(&pid) {
                self.remove(pid);
                assert(next =~= gone.insert(pid));
                assert(self.entries() =~= all.remove_keys(next));
                assert(!gone.contains(pid)) by {
                    if gone.contains(pid) {
                        let k = choose|k: int| 0 <= k < i && tracked_pids@[k] == pid;
                        assert(tracked_pids@[k] == tracked_pids@[i as int]);
                    }
                }
                assert forall|p: u32, c: u32| #[trigger]
                    self.kids(p).contains(c) <==> merged.kids(p).contains(c) && !next.contains(c)
                        && !next.contains(p) by {
                    assert(before.kids(p).contains(c) <==> merged.kids(p).contains(c)
                        && !gone.contains(c) && !gone.contains(p));
                }
            } else {
                assert(next =~= gone);
            }
            i = i + 1;
        }
        let ghost gone = stale_among(tracked_pids@, live_pids@, i as int);
        assert forall|p: u32| #[trigger]
            gone.contains(p) <==> all.dom().contains(p) && !live_pids@.contains(p) by {
            if all.dom().contains(p) {
                let k = choose|k: int| 0 <= k < tracked_pids@.len() && tracked_pids@[k] == p;
                assert(tracked_pids@[k] == p);
            }
            if gone.contains(p) {
                assert(tracked_pids@.contains(p));
            }
        }
        assert(self.entries() =~= all.restrict(live_pids@));
        assert forall|p: u32, c: u32| #[trigger]
            self.kids(p).contains(c) <==> live_pids@.contains(c) && (all.dom().contains(p)
                ==> live_pids@.contains(p)) && (old(self).kids(p).contains(c) || (!old(
                self,
            ).entries().dom().contains(c) && all.dom().contains(c) && all[c].info.ppid == p)) by {
            assert(merged.kids(p).contains(c) ==> all.dom().contains(c));
            assert(merged.kids(p).contains(c) <==> start.kids(p).contains(c) || (
            !start.entries().dom().contains(c) && all.dom().contains(c) && all[c].info.ppid == p));
        }
    }

    /// Every pid in the table.
    pub fn known_pids(&self) -> (r: HashSet<u32>)
        ensures
            r@ == self.entries().dom(),
    {
        let all = self.pids();
        let mut r: HashSet<u32> = HashSet::new();
        let mut i: usize = 0;
        while i < all.len()
            invariant
                i <= all@.len(),
                forall|p: u32| all@.contains(p) <==> self.entries().dom().contains(p),
                forall|p: u32| r@.contains(p) ==> self.entries().dom().contains(p),
                forall|k: int| 0 <= k < i ==> r@.contains(#[trigger] all@[k]),
            decreases all@.len() - i,
        {
            assert(all@.contains(all@[i as int]));
            r.insert(all[i]);
            i = i + 1;
        }
        assert forall|p: u32| self.entries().dom().contains(p) implies r@.contains(p) by {
            assert(all@.contains(p));
            let k = choose|k: int| 0 <= k < all@.len() && all@[k] == p;
            assert(r@.contains(all@[k]));
        }
        assert(r@ =~= self.entries().dom());
        r
    }

    /// The processes for which the rules have not been consulted.
    pub fn unclassified_pids(&self) -> (r: Vec<u32>)
        ensures
            r@.no_duplicates(),
            forall|p: u32|
                r@.contains(p) <==> self.entries().dom().contains(p)
                    && !self.entries()[p].classified,
    {
        let all = self.pids();
        let mut r: Vec<u32> = Vec::new();
        let mut i: usize = 0;
        while i < all.len()
            invariant
                i <= all@.len(),
                all@.no_duplicates(),
                forall|p: u32| all@.contains(p) <==> self.entries().dom().contains(p),
                is_selection(r@, all@.take(i as int), |p: u32| !self.entries()[p].classified),
            decreases all@.len() - i,
        {
            let pid: u32 = all[i];
            let ghost open = |p: u32| !self.entries()[p].classified;
            proof {
                lemma_selection_step(r@, all@, i as int, open);
            }
            match self.get(pid) {
                Some(e) => {
                    if !e.classified {
                        r.push(pid);
                    }
                },
                None => {
                    assert(all@.contains(all@[i as int]));
                },
            }
            i = i + 1;
        }
        assert(all@.take(all@.len() as int) =~= all@);
        r
    }

    /// The processes that were moved to a tier, with their original cgroups.
    pub fn moved_pids(&self) -> (r: Vec<(u32, Option<String>)>)
        ensures
            forall|i: int, j: int|
                0 <= i < j < r@.len() ==> (#[trigger] r@[i]).0 != (#[trigger] r@[j]).0,
            forall|i: int|
                0 <= i < r@.len() ==> self.entries().dom().contains((#[trigger] r@[i]).0)
                    && was_moved(self.entries()[r@[i].0]) && text::opt_text(r@[i].1)
                    == self.entries()[r@[i].0].original_cgroup,
            forall|p: u32| #[trigger]
                self.entries().dom().contains(p) && was_moved(self.entries()[p]) ==> exists|i: int|
                    0 <= i < r@.len() && (#[trigger] r@[i]).0 == p,
    {
        let all = self.pids();
        let mut r: Vec<(u32, Option<String>)> = Vec::new();
        let mut i: usize = 0;
        while i < all.len()
            invariant
                i <= all@.len(),
                all@.no_duplicates(),
                forall|p: u32| all@.contains(p) <==> self.entries().dom().contains(p),
                forall|a: int, b: int|
                    0 <= a < b < r@.len() ==> (#[trigger] r@[a]).0 != (#[trigger] r@[b]).0,
                forall|a: int|
                    0 <= a < r@.len() ==> all@.take(i as int).contains((#[trigger] r@[a]).0)
                        && was_moved(self.entries()[r@[a].0]) && text::opt_text(r@[a].1)
                        == self.entries()[r@[a].0].original_cgroup,
                forall|k: int|
                    0 <= k < i && was_moved(self.entries()[#[trigger] all@[k]]) ==> exists|a: int|
                        0 <= a < r@.len() && (#[trigger] r@[a]).0 == all@[k],
            decreases all@.len() - i,
        {
            let pid: u32 = all[i];
            let ghost before = r@;
            assert(all@.contains(all@[i as int]));
            match self.get(pid) {
                Some(e) => {
                    let moved = match &e.applied {
                        Some(a) => a.cgroup.is_some(),
                        None => false,
                    };
                    assert(moved == was_moved(self.entries()[pid]));
                    if moved {
                        r.push((pid, owned_opt(&e.original_cgroup)));
                        assert(r@.last().0 == pid);
                        assert(r@[r@.len() - 1].0 == all@[i as int]);
                    }
                },
                None => {},
            }
            proof {
                let now = all@.take(i + 1);
                assert(now[i as int] == pid);
                assert forall|a: int| 0 <= a < before.len() implies now.contains(
                    (#[trigger] before[a]).0,
                ) && before[a].0 != pid && before[a] == r@[a] by {
                    let k = choose|k: int|
                        0 <= k < i && all@.take(i as int)[k] == before[a].0;
                    assert(now[k] == before[a].0);
                    assert(all@[k] == before[a].0);
                }
                assert forall|k: int|
                    0 <= k < i + 1 && was_moved(self.entries()[#[trigger] all@[k]]) implies exists|
                    a: int,
                |
                    0 <= a < r@.len() && (#[trigger] r@[a]).0 == all@[k] by {
                    if k < i {
                        let a = choose|a: int| 0 <= a < before.len() && before[a].0 == all@[k];
                        assert(r@[a].0 == all@[k]);
                    }
                }
            }
            i = i + 1;
        }
        assert(all@.take(all@.len() as int) =~= all@);
        assert forall|p: u32| #[trigger]
            self.entries().dom().contains(p) && was_moved(self.entries()[p]) implies exists|
            i: int,
        |
            0 <= i < r@.len() && (#[trigger] r@[i]).0 == p by {
            assert(all@.contains(p));
            let k = choose|k: int| 0 <= k < all@.len() && all@[k] == p;
            assert(was_moved(self.entries()[all@[k]]));
        }
        r
    }
}

/// Whether both tables have the same edges.
pub open spec fn same_edges(before: ProcessTable, after: ProcessTable) -> bool {
    forall|p: u32| #[trigger] after.kids(p) == before.kids(p)
}

/// What inserting a process does to a table.
pub open spec fn was_inserted(before: ProcessTable, after: ProcessTable, info: ProcessView) -> bool {
    &&& after.wf()
    &&& after.entries() == inserted(before.entries(), info)
    &&& forall|p: u32| #[trigger]
        after.kids(p) == if p == info.ppid {
            before.kids(p).insert(info.pid)
        } else {
            before.kids(p).remove(info.pid)
        }
}

/// What forgetting a process does to a table.
pub open spec fn was_removed(before: ProcessTable, after: ProcessTable, pid: u32) -> bool {
    &&& after.wf()
    &&& after.entries() == before.entries().remove(pid)
    &&& forall|p: u32| #[trigger]
        after.kids(p) == if p == pid && before.entries().dom().contains(pid) {
            Set::empty()
        } else {
            before.kids(p).remove(pid)
        }
}

/// What a scan does to a table: new processes are added, those that are not
/// live are forgotten.
pub open spec fn was_scanned(
    before: ProcessTable,
    after: ProcessTable,
    fresh: Seq<ProcessView>,
    live: Set<u32>,
) -> bool {
    let all = with_fresh(before.entries(), fresh, fresh.len());
    &&& after.wf()
    &&& after.entries() == all.restrict(live)
    &&& forall|p: u32, c: u32| #[trigger]
        after.kids(p).contains(c) <==> live.contains(c) && (all.dom().contains(p) ==> live.contains(
            p,
        )) && (before.kids(p).contains(c) || (!before.entries().dom().contains(c)
            && all.dom().contains(c) && all[c].info.ppid == p))
}

impl Default for ProcessTable {
    fn default() -> (r: ProcessTable)
        ensures
            r.entries() == Map::<u32, EntryView>::empty(),
            forall|p: u32| #[trigger] r.kids(p) == Set::<u32>::empty(),
            r.wf(),
    {
        ProcessTable::new()
    }
}

/// Whether `r` holds the members of `all` that satisfy `keep`, each once.
pub open spec fn is_selection(r: Seq<u32>, all: Seq<u32>, keep: spec_fn(u32) -> bool) -> bool {
    &&& r.no_duplicates()
    &&& forall|p: u32| #[trigger] r.contains(p) <==> all.contains(p) && keep(p)
}

pub proof fn lemma_selection_step(r: Seq<u32>, all: Seq<u32>, i: int, keep: spec_fn(u32) -> bool)
    requires
        0 <= i < all.len(),
        all.no_duplicates(),
        is_selection(r, all.take(i), keep),
    ensures
        keep(all[i]) ==> is_selection(r.push(all[i]), all.take(i + 1), keep),
        !keep(all[i]) ==> is_selection(r, all.take(i + 1), keep),
{
    let x = all[i];
    let before = all.take(i);
    let now = all.take(i + 1);
    assert(!before.contains(x)) by {
        if before.contains(x) {
            let k = choose|k: int| 0 <= k < i && before[k] == x;
            assert(all[k] == all[i]);
        }
    }
    assert forall|p: u32| now.contains(p) <==> before.contains(p) || p == x by {
        if before.contains(p) {
            let k = choose|k: int| 0 <= k < before.len() && before[k] == p;
            assert(now[k] == p);
        }
        if p == x {
            assert(now[i] == p);
        }
        if now.contains(p) {
            let k = choose|k: int| 0 <= k < now.len() && now[k] == p;
            if k < i {
                assert(before[k] == p);
            }
        }
    }
    let more = r.push(x);
    assert forall|p: u32| more.contains(p) <==> r.contains(p) || p == x by {
        if r.contains(p) {
            let k = choose|k: int| 0 <= k < r.len() && r[k] == p;
            assert(more[k] == p);
        }
        assert(more[r.len() as int] == x);
    }
    assert(!r.contains(x));
    assert(more.no_duplicates()) by {
        assert forall|a: int, b: int| 0 <= a < more.len() && 0 <= b < more.len() && a != b implies
            more[a] != more[b] by {
            if a == r.len() {
                assert(r.contains(r[b]));
            } else if b == r.len() {
                assert(r.contains(r[a]));
            }
        }
    }
}

/// The pids among the first `n` that are not live.
pub open spec fn stale_among(pids: Seq<u32>, live: Set<u32>, n: int) -> Set<u32> {
    Set::new(|p: u32| !live.contains(p) && exists|k: int| 0 <= k < n && pids[k] == p)
}

// ---------------------------------------------------------------------------
// Descent
// ---------------------------------------------------------------------------

/// Whether `n` edges lead from `root` down to `c`.
pub open spec fn reaches(t: ProcessTable, root: u32, c: u32, n: nat) -> bool
    decreases n,
{
    if n == 0 {
        c == root
    } else {
        exists|q: u32| reaches(t, root, q, (n - 1) as nat) && #[trigger] t.kids(q).contains(c)
    }
}

/// Whether `c` is `root` or a descendant of it.
pub open spec fn descends(t: ProcessTable, root: u32, c: u32) -> bool {
    exists|n: nat| #[trigger] reaches(t, root, c, n)
}

// ---------------------------------------------------------------------------
// Laws
// ---------------------------------------------------------------------------

/// Once the original cgroup of a process is on record, no later operation on
/// the table replaces it while the process stays in the table.
pub proof fn original_cgroup_is_kept(
    entries: Map<u32, EntryView>,
    pid: u32,
    other: u32,
    info: ProcessView,
    path: Seq<char>,
    action: ActionView,
    now_ns: u64,
)
    requires
        original_of(entries, pid) is Some,
    ensures
        original_of(inserted(entries, info), pid) == original_of(entries, pid),
        original_of(marked(entries, other), pid) == original_of(entries, pid),
        original_of(unmarked(entries, other), pid) == original_of(entries, pid),
        original_of(with_original(entries, other, path), pid) == original_of(entries, pid),
        original_of(with_applied(entries, other, action, now_ns), pid) == original_of(entries, pid),
{
}

/// The first cgroup that is recorded for a process in the table is the one on
/// record.
pub proof fn first_record_counts(entries: Map<u32, EntryView>, pid: u32, path: Seq<char>)
    requires
        entries.dom().contains(pid),
        original_of(entries, pid) is None,
    ensures
        original_of(with_original(entries, pid, path), pid) == Some(path),
{
}

/// Inserting a process again opens it for classification.
pub proof fn inserting_opens_classification(entries: Map<u32, EntryView>, info: ProcessView)
    ensures
        !inserted(entries, info)[info.pid].classified,
        inserted(entries, info)[info.pid].applied is None,
        inserted(entries, info)[info.pid].recheck_at is None,
{
}

/// A scan leaves what is known of a live process as it is.
pub proof fn scan_keeps_known_processes(
    entries: Map<u32, EntryView>,
    fresh: Seq<ProcessView>,
    n: nat,
    live: Set<u32>,
    pid: u32,
)
    requires
        n <= fresh.len(),
        entries.dom().contains(pid),
        live.contains(pid),
    ensures
        with_fresh(entries, fresh, n).restrict(live).dom().contains(pid),
        with_fresh(entries, fresh, n).restrict(live)[pid] == entries[pid],
    decreases n,
{
    if n > 0 {
        scan_keeps_known_processes(entries, fresh, (n - 1) as nat, live, pid);
    }
}

/// Reading a process puts exactly that process into the table: with what was
/// read, open for classification, without an action, and with the original
/// cgroup that was on record for it. All others stay as they are.
pub proof fn inserting_concerns_one_process(
    entries: Map<u32, EntryView>,
    info: ProcessView,
    other: u32,
)
    ensures
        inserted(entries, info).dom() == entries.dom().insert(info.pid),
        inserted(entries, info)[info.pid].info == info,
        !inserted(entries, info)[info.pid].classified,
        inserted(entries, info)[info.pid].applied is None,
        inserted(entries, info)[info.pid].recheck_at is None,
        entries.dom().contains(info.pid) ==> inserted(entries, info)[info.pid].original_cgroup
            == entries[info.pid].original_cgroup,
        !entries.dom().contains(info.pid) ==> inserted(
            entries,
            info,
        )[info.pid].original_cgroup is None,
        other != info.pid && entries.dom().contains(other) ==> inserted(entries, info)[other]
            == entries[other],
{
}

/// Marking a process as classified, or opening it again, changes nothing but
/// the mark, and the action that was applied in the second case; and only of
/// that process, if it is known at all.
pub proof fn marks_concern_one_process(entries: Map<u32, EntryView>, pid: u32, other: u32)
    ensures
        marked(entries, pid).dom() == entries.dom(),
        unmarked(entries, pid).dom() == entries.dom(),
        entries.dom().contains(pid) ==> {
            &&& marked(entries, pid)[pid].classified
            &&& marked(entries, pid)[pid].info == entries[pid].info
            &&& marked(entries, pid)[pid].applied == entries[pid].applied
            &&& marked(entries, pid)[pid].recheck_at == entries[pid].recheck_at
            &&& marked(entries, pid)[pid].original_cgroup == entries[pid].original_cgroup
            &&& !unmarked(entries, pid)[pid].classified
            &&& unmarked(entries, pid)[pid].applied is None
            &&& unmarked(entries, pid)[pid].info == entries[pid].info
            &&& unmarked(entries, pid)[pid].recheck_at == entries[pid].recheck_at
            &&& unmarked(entries, pid)[pid].original_cgroup == entries[pid].original_cgroup
        },
        other != pid && entries.dom().contains(other) ==> marked(entries, pid)[other]
            == entries[other] && unmarked(entries, pid)[other] == entries[other],
{
    assert(marked(entries, pid).dom() =~= entries.dom());
    assert(unmarked(entries, pid).dom() =~= entries.dom());
}

/// Applying an action notes it down, counts the process as classified, and
/// sets the time of the next look: so many seconds later as the action says,
/// and never if it says nothing.
pub proof fn applying_is_noted_down(
    entries: Map<u32, EntryView>,
    pid: u32,
    action: ActionView,
    now_ns: u64,
    later_ns: u64,
    other: u32,
)
    requires
        entries.dom().contains(pid),
    ensures
        with_applied(entries, pid, action, now_ns).dom() == entries.dom(),
        with_applied(entries, pid, action, now_ns)[pid].applied == Some(action),
        with_applied(entries, pid, action, now_ns)[pid].classified,
        with_applied(entries, pid, action, now_ns)[pid].info == entries[pid].info,
        with_applied(entries, pid, action, now_ns)[pid].original_cgroup
            == entries[pid].original_cgroup,
        recheck_due(with_applied(entries, pid, action, now_ns)[pid], later_ns) <==> (
        action.recheck_secs matches Some(s) && later_ns >= now_ns + s * 1_000_000_000),
        was_moved(with_applied(entries, pid, action, now_ns)[pid]) <==> action.cgroup is Some,
        other != pid && entries.dom().contains(other) ==> with_applied(
            entries,
            pid,
            action,
            now_ns,
        )[other] == entries[other],
{
    assert(with_applied(entries, pid, action, now_ns).dom() =~= entries.dom());
    if let Some(s) = action.recheck_secs {
        assert(0 <= now_ns + s * 1_000_000_000 <= u128::MAX) by (nonlinear_arith)
            requires
                0 <= now_ns <= u64::MAX,
                0 <= s <= u64::MAX,
        ;
    }
}

/// The original cgroup is recorded where none is on record, and nothing else
/// changes.
pub proof fn recording_concerns_one_process(
    entries: Map<u32, EntryView>,
    pid: u32,
    path: Seq<char>,
    other: u32,
)
    ensures
        with_original(entries, pid, path).dom() == entries.dom(),
        entries.dom().contains(pid) ==> {
            let e = with_original(entries, pid, path)[pid];
            &&& e.original_cgroup == (if entries[pid].original_cgroup is None {
                Some(path)
            } else {
                entries[pid].original_cgroup
            })
            &&& e.info == entries[pid].info
            &&& e.applied == entries[pid].applied
            &&& e.classified == entries[pid].classified
            &&& e.recheck_at == entries[pid].recheck_at
        },
        other != pid && entries.dom().contains(other) ==> with_original(entries, pid, path)[other]
            == entries[other],
{
    assert(with_original(entries, pid, path).dom() =~= entries.dom());
}

/// After a scan the table holds exactly the processes that live and were known
/// before or found now. A process that was found now is open for
/// classification, and its original cgroup is not on record.
pub proof fn scan_finds_new_processes(
    entries: Map<u32, EntryView>,
    fresh: Seq<ProcessView>,
    n: nat,
    live: Set<u32>,
    pid: u32,
)
    requires
        n <= fresh.len(),
    ensures
        with_fresh(entries, fresh, n).restrict(live).dom().contains(pid) <==> live.contains(pid)
            && (entries.dom().contains(pid) || exists|i: int|
            0 <= i < n && (#[trigger] fresh[i]).pid == pid),
        with_fresh(entries, fresh, n).restrict(live).dom().contains(pid) && !entries.dom().contains(
            pid,
        ) ==> {
            let e = with_fresh(entries, fresh, n).restrict(live)[pid];
            &&& !e.classified
            &&& e.applied is None
            &&& e.recheck_at is None
            &&& e.original_cgroup is None
            &&& exists|i: int| 0 <= i < n && (#[trigger] fresh[i]).pid == pid && e.info == fresh[i]
        },
{
    lemma_with_fresh(entries, fresh, n, pid);
}

proof fn lemma_with_fresh(
    entries: Map<u32, EntryView>,
    fresh: Seq<ProcessView>,
    n: nat,
    pid: u32,
)
    requires
        n <= fresh.len(),
    ensures
        with_fresh(entries, fresh, n).dom().contains(pid) <==> entries.dom().contains(pid)
            || exists|i: int| 0 <= i < n && (#[trigger] fresh[i]).pid == pid,
        with_fresh(entries, fresh, n).dom().contains(pid) && !entries.dom().contains(pid) ==> {
            let e = with_fresh(entries, fresh, n)[pid];
            &&& !e.classified
            &&& e.applied is None
            &&& e.recheck_at is None
            &&& e.original_cgroup is None
            &&& exists|i: int| 0 <= i < n && (#[trigger] fresh[i]).pid == pid && e.info == fresh[i]
        },
    decreases n,
{
    if n > 0 {
        lemma_with_fresh(entries, fresh, (n - 1) as nat, pid);
        assert(fresh[n - 1].pid == fresh[n - 1].pid);
    }
}

/// A process that was read is on record as a child of its parent, and of no
/// other process.
pub proof fn child_has_one_parent(
    before: ProcessTable,
    after: ProcessTable,
    info: ProcessView,
    p: u32,
)
    requires
        was_inserted(before, after, info),
    ensures
        after.kids(p).contains(info.pid) <==> p == info.ppid,
        forall|c: u32|
            c != info.pid ==> (#[trigger] after.kids(p).contains(c) <==> before.kids(p).contains(c)),
{
    assert(after.kids(p) == if p == info.ppid {
        before.kids(p).insert(info.pid)
    } else {
        before.kids(p).remove(info.pid)
    });
}

/// A process that is forgotten is neither in the table nor a child of any, and
/// has no children on record. Other processes stay as they are.
pub proof fn removed_process_is_gone(
    before: ProcessTable,
    after: ProcessTable,
    pid: u32,
    other: u32,
)
    requires
        was_removed(before, after, pid),
    ensures
        !after.entries().dom().contains(pid),
        !after.kids(other).contains(pid),
        before.entries().dom().contains(pid) ==> after.kids(pid) == Set::<u32>::empty(),
        other != pid ==> (after.entries().dom().contains(other)
            <==> before.entries().dom().contains(other)),
        other != pid && before.entries().dom().contains(other) ==> after.entries()[other]
            == before.entries()[other],
{
    assert(after.kids(other) == if other == pid && before.entries().dom().contains(pid) {
        Set::empty()
    } else {
        before.kids(other).remove(pid)
    });
    assert(after.kids(pid) == if before.entries().dom().contains(pid) {
        Set::empty()
    } else {
        before.kids(pid).remove(pid)
    });
}

/// The process `n` generations above another, as far as the table knows.
pub open spec fn above(entries: Map<u32, EntryView>, pid: u32, n: nat) -> u32
    decreases n,
{
    if n == 0 {
        pid
    } else {
        entries[above(entries, pid, (n - 1) as nat)].info.ppid
    }
}

/// Whether the next generation above a process is known and another process.
pub open spec fn has_known_parent(entries: Map<u32, EntryView>, pid: u32) -> bool {
    &&& entries.dom().contains(pid)
    &&& entries[pid].info.ppid != 0
    &&& entries[pid].info.ppid != pid
    &&& entries.dom().contains(entries[pid].info.ppid)
}

proof fn lemma_above(entries: Map<u32, EntryView>, pid: u32, n: nat)
    ensures
        above(entries, pid, n + 1) == above(entries, entries[pid].info.ppid, n),
    decreases n,
{
    if n > 0 {
        lemma_above(entries, pid, (n - 1) as nat);
    } else {
        assert(above(entries, pid, 1) == entries[above(entries, pid, 0)].info.ppid);
    }
}

/// The ancestors of a process are named nearest first, generation by
/// generation, as many as the depth allows, or until one is not known.
pub proof fn ancestors_go_up_by_generations(
    entries: Map<u32, EntryView>,
    pid: u32,
    depth: nat,
    i: nat,
)
    ensures
        ancestors(entries, pid, depth).len() <= depth,
        i < ancestors(entries, pid, depth).len() ==> has_known_parent(
            entries,
            above(entries, pid, i),
        ) && ancestors(entries, pid, depth)[i as int] == entries[above(
            entries,
            pid,
            i + 1,
        )].info.comm,
        ancestors(entries, pid, depth).len() < depth ==> !has_known_parent(
            entries,
            above(entries, pid, ancestors(entries, pid, depth).len()),
        ),
    decreases depth,
{
    if depth > 0 && has_known_parent(entries, pid) {
        let ppid = entries[pid].info.ppid;
        let rest = ancestors(entries, ppid, (depth - 1) as nat);
        assert(ancestors(entries, pid, depth) =~= seq![entries[ppid].info.comm] + rest);
        lemma_above(entries, pid, i);
        lemma_above(entries, pid, rest.len());
        if i > 0 {
            ancestors_go_up_by_generations(entries, ppid, (depth - 1) as nat, (i - 1) as nat);
            lemma_above(entries, pid, (i - 1) as nat);
        } else {
            ancestors_go_up_by_generations(entries, ppid, (depth - 1) as nat, 0);
            assert(above(entries, ppid, 0) == ppid);
        }
    }
}

/// A process lies below another exactly when steps from parent to child lead
/// there; so what lies below a child lies below its parent.
pub proof fn descent_goes_by_children(t: ProcessTable, root: u32, p: u32, c: u32)
    ensures
        descends(t, root, root),
        descends(t, root, p) && t.kids(p).contains(c) ==> descends(t, root, c),
        descends(t, root, c) && c != root ==> exists|q: u32|
            descends(t, root, q) && #[trigger] t.kids(q).contains(c),
{
    assert(reaches(t, root, root, 0));
    if descends(t, root, p) && t.kids(p).contains(c) {
        let n = choose|n: nat| #[trigger] reaches(t, root, p, n);
        assert(reaches(t, root, c, n + 1));
    }
    if descends(t, root, c) && c != root {
        let n = choose|n: nat| #[trigger] reaches(t, root, c, n);
        assert(n > 0);
        let q = choose|q: u32|
            reaches(t, root, q, (n - 1) as nat) && #[trigger] t.kids(q).contains(c);
        assert(descends(t, root, q));
    }
}

/// The table after a process was read: exactly that process is new or
/// replaced.
pub proof fn read_process_takes_its_place(
    before: ProcessTable,
    after: ProcessTable,
    info: ProcessView,
    other: u32,
)
    requires
        was_inserted(before, after, info),
    ensures
        after.entries().dom() == before.entries().dom().insert(info.pid),
        after.entries()[info.pid].info == info,
        !after.entries()[info.pid].classified,
        after.entries()[info.pid].applied is None,
        after.entries()[info.pid].recheck_at is None,
        before.entries().dom().contains(info.pid) ==> after.entries()[info.pid].original_cgroup
            == before.entries()[info.pid].original_cgroup,
        !before.entries().dom().contains(info.pid)
            ==> after.entries()[info.pid].original_cgroup is None,
        other != info.pid && before.entries().dom().contains(other) ==> after.entries()[other]
            == before.entries()[other],
{
}

/// The table after a scan: exactly the processes that live and were known
/// before or found now. Those that were known are as they were; the others are
/// open for classification.
pub proof fn scanned_table_holds_the_living(
    before: ProcessTable,
    after: ProcessTable,
    fresh: Seq<ProcessView>,
    live: Set<u32>,
    pid: u32,
)
    requires
        was_scanned(before, after, fresh, live),
    ensures
        after.entries().dom().contains(pid) <==> live.contains(pid) && (
        before.entries().dom().contains(pid) || exists|i: int|
            0 <= i < fresh.len() && (#[trigger] fresh[i]).pid == pid),
        before.entries().dom().contains(pid) && live.contains(pid) ==> after.entries()[pid]
            == before.entries()[pid],
        after.entries().dom().contains(pid) && !before.entries().dom().contains(pid) ==> {
            let e = after.entries()[pid];
            &&& !e.classified
            &&& e.applied is None
            &&& e.recheck_at is None
            &&& e.original_cgroup is None
            &&& exists|i: int|
                0 <= i < fresh.len() && (#[trigger] fresh[i]).pid == pid && e.info == fresh[i]
        },
{
    scan_finds_new_processes(before.entries(), fresh, fresh.len(), live, pid);
    if before.entries().dom().contains(pid) && live.contains(pid) {
        scan_keeps_known_processes(before.entries(), fresh, fresh.len(), live, pid);
    }
}

/// After a scan a process that was found now is a child of its parent, unless
/// that one was known and is dead; a dead process is nobody's child, and has
/// none. Known children of the living stay.
pub proof fn scan_keeps_the_family(
    before: ProcessTable,
    after: ProcessTable,
    fresh: Seq<ProcessView>,
    live: Set<u32>,
    p: u32,
    c: u32,
)
    requires
        was_scanned(before, after, fresh, live),
    ensures
        !live.contains(c) ==> !after.kids(p).contains(c),
        live.contains(c) && live.contains(p) && before.kids(p).contains(c) ==> after.kids(
            p,
        ).contains(c),
        before.entries().dom().contains(p) && !live.contains(p) ==> !after.kids(p).contains(c),
        after.entries().dom().contains(c) && !before.entries().dom().contains(c) && live.contains(p)
            ==> (after.kids(p).contains(c) <==> after.entries()[c].info.ppid == p),
        before.entries().dom().contains(c) && after.kids(p).contains(c) ==> before.kids(p).contains(
            c,
        ),
{
    lemma_with_fresh(before.entries(), fresh, fresh.len(), p);
    lemma_with_fresh(before.entries(), fresh, fresh.len(), c);
}

/// Steps from parent to child, one by one.
pub proof fn each_step_leads_to_a_child(t: ProcessTable, root: u32, p: u32, c: u32, n: nat)
    ensures
        reaches(t, root, c, 0) <==> c == root,
        reaches(t, root, p, n) && t.kids(p).contains(c) ==> reaches(t, root, c, n + 1),
        reaches(t, root, c, n + 1) ==> exists|q: u32|
            reaches(t, root, q, n) && #[trigger] t.kids(q).contains(c),
        reaches(t, root, c, 1) <==> t.kids(root).contains(c),
{
    if t.kids(root).contains(c) {
        assert(reaches(t, root, root, 0));
        assert(reaches(t, root, c, 1));
    }
    if reaches(t, root, c, 1) {
        let q = choose|q: u32| reaches(t, root, q, 0) && #[trigger] t.kids(q).contains(c);
        assert(q == root);
    }
}

/// A process is looked at again from its time on, and one without such a time
/// never.
pub proof fn look_is_due_from_its_time(e: EntryView, now_ns: u64)
    ensures
        recheck_due(e, now_ns) <==> e.recheck_at is Some && now_ns >= e.recheck_at->0,
        was_moved(e) <==> e.applied is Some && e.applied->0.cgroup is Some,
{
}

/// The family of a process is the same where no process came or went.
pub proof fn family_stays(before: ProcessTable, after: ProcessTable, p: u32)
    requires
        same_edges(before, after),
    ensures
        after.kids(p) == before.kids(p),
{
}

/// A table stays well-formed: every process is under its own pid, and every
/// child on record is known and has that parent.
pub proof fn table_stays_well_formed(
    before: ProcessTable,
    after: ProcessTable,
    info: ProcessView,
    pid: u32,
    fresh: Seq<ProcessView>,
    live: Set<u32>,
    p: u32,
    c: u32,
)
    requires
        was_inserted(before, after, info) || was_removed(before, after, pid) || was_scanned(
            before,
            after,
            fresh,
            live,
        ),
    ensures
        after.wf(),
        after.entries().dom().contains(p) ==> after.entries()[p].info.pid == p,
        after.kids(p).contains(c) ==> after.entries().dom().contains(c)
            && after.entries()[c].info.ppid == p,
{
}

} // verus!
