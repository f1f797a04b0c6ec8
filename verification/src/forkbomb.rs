//! Fork-bomb detector.
//!
//! Tracks the fork rate of every parent in a sliding window of one second.
//! When a parent exceeds the threshold, its subtree is moved to the swapstorm
//! tier, which is heavily restricted. Times are nanoseconds of the daemon's
//! monotonic clock.

use std::collections::{HashMap, HashSet, VecDeque};
use vstd::prelude::*;

use crate::applier;
use crate::applier::Effect;
use crate::cgroupv2::CgroupTier;
use crate::pids::keys;
use crate::process_table;
use crate::process_table::ProcessTable;

verus! {

broadcast use vstd::std_specs::hash::group_hash_axioms;

/// The width of the window: one second.
pub const WINDOW_NS: u64 = 1_000_000_000;

/// After how long without a fork a window is dropped: ten seconds.
pub const COLD_NS: u64 = 10_000_000_000;

/// Whether more than `span` has passed from `t` to `now`.
pub open spec fn older(t: u64, now: u64, span: u64) -> bool {
    t + span < now
}

fn is_older(t: u64, now: u64, span: u64) -> (r: bool)
    ensures
        r == older(t, now, span),
{
    now > t && now - t > span
}

// ---------------------------------------------------------------------------
// Window
// ---------------------------------------------------------------------------

/// The fork times without those at the front that have left the window.
pub open spec fn evicted(times: Seq<u64>, now: u64) -> Seq<u64>
    decreases times.len(),
{
    if times.len() > 0 && older(times[0], now, WINDOW_NS) {
        evicted(times.skip(1), now)
    } else {
        times
    }
}

/// The fork times after a fork at `now`.
pub open spec fn recorded(times: Seq<u64>, now: u64) -> Seq<u64> {
    evicted(times, now).push(now)
}

/// How many of the fork times are in the window that ends at `now`.
pub open spec fn recent(times: Seq<u64>, now: u64) -> nat
    decreases times.len(),
{
    if times.len() == 0 {
        0
    } else {
        recent(times.drop_last(), now) + if older(times.last(), now, WINDOW_NS) {
            0nat
        } else {
            1nat
        }
    }
}

/// Whether the times do not decrease.
pub open spec fn chronological(times: Seq<u64>) -> bool {
    forall|i: int, j: int| 0 <= i <= j < times.len() ==> times[i] <= times[j]
}

/// The fork times of one parent.
#[derive(Debug)]
pub struct ForkWindow {
    timestamps: VecDeque<u64>,
    threshold: u32,
}

impl ForkWindow {
    /// The fork times, oldest first.
    pub closed spec fn times(&self) -> Seq<u64> {
        self.timestamps@
    }

    /// How many forks within a second are still allowed.
    pub closed spec fn limit(&self) -> u32 {
        self.threshold
    }

    /// A window without forks.
    pub fn new(threshold: u32) -> (r: ForkWindow)
        ensures
            r.times() == Seq::<u64>::empty(),
            r.limit() == threshold,
    {
        ForkWindow { timestamps: VecDeque::new(), threshold }
    }

    /// Records a fork and drops the forks that are more than a second old.
    /// Returns whether the rate has exceeded the threshold.
    pub fn record(&mut self, now_ns: u64) -> (r: bool)
        ensures
            final(self).times() == recorded(old(self).times(), now_ns),
            final(self).limit() == old(self).limit(),
            r == (final(self).times().len() > final(self).limit()),
    {
        while self.timestamps.len() > 0 && is_older(self.timestamps[0], now_ns, WINDOW_NS)
            invariant
                self.threshold == old(self).threshold,
                evicted(self.timestamps@, now_ns) == evicted(old(self).timestamps@, now_ns),
            decreases self.timestamps@.len(),
        {
            let ghost before = self.timestamps@;
            self.timestamps.pop_front();
            assert(self.timestamps@ =~= before.skip(1));
        }
        self.timestamps.push_back(now_ns);
        self.timestamps.len() as u64 > self.threshold as u64
    }

    /// How many forks there were in the last second, held to what fits.
    pub fn rate(&self, now_ns: u64) -> (r: u32)
        ensures
            r == if recent(self.times(), now_ns) <= u32::MAX {
                recent(self.times(), now_ns)
            } else {
                u32::MAX as nat
            },
    {
        let mut count: u32 = 0;
        let mut i: usize = 0;
        while i < self.timestamps.len()
            invariant
                i <= self.timestamps@.len(),
                count == if recent(self.timestamps@.take(i as int), now_ns) <= u32::MAX {
                    recent(self.timestamps@.take(i as int), now_ns)
                } else {
                    u32::MAX as nat
                },
            decreases self.timestamps@.len() - i,
        {
            assert(self.timestamps@.take(i + 1).drop_last() =~= self.timestamps@.take(i as int));
            if !is_older(self.timestamps[i], now_ns, WINDOW_NS) && count < u32::MAX {
                count = count + 1;
            }
            i = i + 1;
        }
        assert(self.timestamps@.take(self.timestamps@.len() as int) =~= self.timestamps@);
        count
    }

    /// The time of the last fork.
    fn last(&self) -> (r: Option<u64>)
        ensures
            r == if self.times().len() > 0 {
                Some(self.times().last())
            } else {
                None
            },
    {
        let n: usize = self.timestamps.len();
        if n > 0 {
            Some(self.timestamps[n - 1])
        } else {
            None
        }
    }
}

// ---------------------------------------------------------------------------
// Subtrees
// ---------------------------------------------------------------------------

/// Whether `l` holds the processes that `n` edges lead to, each once.
pub open spec fn is_level(t: ProcessTable, root: u32, n: nat, l: Seq<u32>) -> bool {
    &&& l.no_duplicates()
    &&& forall|c: u32| #[trigger] l.contains(c) <==> process_table::reaches(t, root, c, n)
}

/// Whether `r` holds the levels of the tree below `root` down to `depth`, one
/// after the other.
pub open spec fn by_levels(t: ProcessTable, root: u32, depth: nat, r: Seq<u32>) -> bool
    decreases depth,
{
    if depth == 0 {
        r == seq![root]
    } else {
        exists|k: int|
            0 <= k <= r.len() && by_levels(t, root, (depth - 1) as nat, #[trigger] r.take(k))
                && is_level(t, root, depth, r.skip(k))
    }
}

/// The processes of a list of effects.
pub open spec fn pids_of(effects: Seq<Effect>) -> Seq<u32> {
    Seq::new(effects.len(), |i: int| applier::effect_pid(effects[i]))
}

proof fn lemma_no_level_below_empty(t: ProcessTable, root: u32, n: nat)
    requires
        forall|c: u32| !#[trigger] process_table::reaches(t, root, c, n),
    ensures
        forall|c: u32| !#[trigger] process_table::reaches(t, root, c, n + 1),
{
    assert forall|c: u32| !#[trigger] process_table::reaches(t, root, c, n + 1) by {
        if process_table::reaches(t, root, c, n + 1) {
            let q = choose|q: u32|
                process_table::reaches(t, root, q, n) && #[trigger] t.kids(q).contains(c);
            assert(process_table::reaches(t, root, q, n));
        }
    }
}

proof fn lemma_levels_end(t: ProcessTable, root: u32, n: nat, depth: nat, r: Seq<u32>)
    requires
        n <= depth,
        by_levels(t, root, n, r),
        forall|c: u32| !#[trigger] process_table::reaches(t, root, c, n + 1),
    ensures
        by_levels(t, root, depth, r),
    decreases depth - n,
{
    if n < depth {
        let k = r.len() as int;
        assert(r.take(k) =~= r);
        assert(r.skip(k) =~= Seq::empty());
        assert(by_levels(t, root, n + 1, r));
        lemma_no_level_below_empty(t, root, n + 1);
        lemma_levels_end(t, root, n + 1, depth, r);
    }
}

/// The processes of a tree are its root and descendants within the depth, and
/// no others.
pub proof fn levels_hold_descendants(t: ProcessTable, root: u32, depth: nat, r: Seq<u32>, c: u32)
    requires
        by_levels(t, root, depth, r),
    ensures
        r.contains(c) <==> exists|n: nat|
            n <= depth && #[trigger] process_table::reaches(t, root, c, n),
    decreases depth,
{
    if depth == 0 {
        assert(r[0] == root);
        assert(process_table::reaches(t, root, root, 0));
        if exists|n: nat| n <= depth && #[trigger] process_table::reaches(t, root, c, n) {
            let n = choose|n: nat| n <= depth && #[trigger] process_table::reaches(t, root, c, n);
            assert(n == 0);
        }
    } else {
        let k = choose|k: int|
            0 <= k <= r.len() && by_levels(t, root, (depth - 1) as nat, #[trigger] r.take(k))
                && is_level(t, root, depth, r.skip(k));
        levels_hold_descendants(t, root, (depth - 1) as nat, r.take(k), c);
        let above = r.take(k);
        let last = r.skip(k);
        if r.contains(c) {
            let i = choose|i: int| 0 <= i < r.len() && r[i] == c;
            if i < k {
                assert(above[i] == c);
            } else {
                assert(last[i - k] == c);
                assert(last.contains(c));
            }
        }
        if above.contains(c) {
            let i = choose|i: int| 0 <= i < above.len() && above[i] == c;
            assert(r[i] == c);
        }
        if last.contains(c) {
            let i = choose|i: int| 0 <= i < last.len() && last[i] == c;
            assert(r[i + k] == c);
        }
        if exists|n: nat| n <= depth && #[trigger] process_table::reaches(t, root, c, n) {
            let n = choose|n: nat| n <= depth && #[trigger] process_table::reaches(t, root, c, n);
            if n == depth {
                assert(last.contains(c));
            } else {
                assert(n <= (depth - 1) as nat && process_table::reaches(t, root, c, n));
            }
        }
    }
}

// ---------------------------------------------------------------------------
// Detector
// ---------------------------------------------------------------------------

/// Whether the last fork of a parent was long ago.
pub open spec fn cold(times: Seq<u64>, now: u64) -> bool {
    times.len() == 0 || older(times.last(), now, COLD_NS)
}

/// The fork times that are on record for a parent.
pub open spec fn times_of(windows: Map<u32, Seq<u64>>, pid: u32) -> Seq<u64> {
    if windows.dom().contains(pid) {
        windows[pid]
    } else {
        Seq::empty()
    }
}

/// Detects parents that fork too fast.
pub struct ForkBombDetector {
    windows: HashMap<u32, ForkWindow>,
    threshold: u32,
    lineage_depth: u32,
    throttled: HashSet<u32>,
}

impl ForkBombDetector {
    /// The fork times by parent.
    pub closed spec fn windows(&self) -> Map<u32, Seq<u64>> {
        self.windows@.map_values(|w: ForkWindow| w.times())
    }

    /// The parents that were detected already.
    pub closed spec fn throttled(&self) -> Set<u32> {
        self.throttled@
    }

    /// How many forks within a second are still allowed.
    pub closed spec fn threshold(&self) -> u32 {
        self.threshold
    }

    /// How many levels below the parent are throttled.
    pub closed spec fn depth(&self) -> u32 {
        self.lineage_depth
    }

    /// Every window has the threshold of the detector, and there is a window
    /// for every parent that was detected.
    pub closed spec fn wf(&self) -> bool {
        &&& forall|p: u32| #[trigger]
            self.windows@.dom().contains(p) ==> self.windows@[p].limit() == self.threshold
        &&& self.throttled@.subset_of(self.windows@.dom())
    }

    /// A detector that has seen no fork.
    pub fn new(threshold: u32, lineage_depth: u32) -> (r: ForkBombDetector)
        ensures
            r.wf(),
            r.windows() == Map::<u32, Seq<u64>>::empty(),
            r.throttled() == Set::<u32>::empty(),
            r.threshold() == threshold,
            r.depth() == lineage_depth,
    {
        let r = ForkBombDetector {
            windows: HashMap::new(),
            threshold,
            lineage_depth,
            throttled: HashSet::new(),
        };
        assert(r.windows() =~= Map::empty());
        r
    }

    /// Records a fork of `parent_pid`. Returns the parent if its rate has
    /// exceeded the threshold and it was not detected before.
    pub fn record_fork(&mut self, parent_pid: u32, now_ns: u64) -> (r: Option<u32>)
        requires
            old(self).wf(),
        ensures
            was_recorded(*old(self), *final(self), parent_pid, now_ns),
            r == if detects(*old(self), parent_pid, now_ns) {
                Some(parent_pid)
            } else {
                None
            },
    {
        if self.throttled.contains(&parent_pid) {
            return None;
        }
        let mut window = match self.windows.remove(&parent_pid) {
            Some(w) => w,
            None => ForkWindow::new(self.threshold),
        };
        let fired = window.record(now_ns);
        self.windows.insert(parent_pid, window);
        assert(self.windows() =~= old(self).windows().insert(
            parent_pid,
            recorded(times_of(old(self).windows(), parent_pid), now_ns),
        ));
        if fired {
            self.throttled.insert(parent_pid);
            Some(parent_pid)
        } else {
            None
        }
    }

    /// How many forks of a parent there were in the last second, held to what
    /// fits.
    pub fn fork_rate(&self, parent_pid: u32, now_ns: u64) -> (r: u32)
        ensures
            ({
                let n = recent(times_of(self.windows(), parent_pid), now_ns);
                r == if n <= u32::MAX {
                    n
                } else {
                    u32::MAX as nat
                }
            }),
    {
        match self.windows.get(&parent_pid) {
            Some(w) => w.rate(now_ns),
            None => 0,
        }
    }

    /// The processes of the subtree of `root_pid`, level by level, down to
    /// `depth` levels.
    pub fn collect_subtree(&self, root_pid: u32, table: &ProcessTable, depth: u32) -> (r: Vec<u32>)
        requires
            table.wf(),
        ensures
            by_levels(*table, root_pid, depth as nat, r@),
    {
        let mut result: Vec<u32> = Vec::new();
        result.push(root_pid);
        let mut frontier: Vec<u32> = Vec::new();
        frontier.push(root_pid);
        let mut n: u32 = 0;
        assert(result@ =~= seq![root_pid]);
        assert(is_level(*table, root_pid, 0, frontier@)) by {
            assert(frontier@[0] == root_pid);
        }
        while n < depth
            invariant
                table.wf(),
                n <= depth,
                by_levels(*table, root_pid, n as nat, result@),
                is_level(*table, root_pid, n as nat, frontier@),
            decreases depth - n,
        {
            let next = next_level(root_pid, table, &frontier, Ghost(n as nat));
            let ghost before = result@;
            let mut i: usize = 0;
            while i < next.len()
                invariant
                    i <= next@.len(),
                    result@ == before + next@.take(i as int),
                decreases next@.len() - i,
            {
                result.push(next[i]);
                i = i + 1;
                assert(result@ =~= before + next@.take(i as int));
            }
            assert(next@.take(next@.len() as int) =~= next@);
            proof {
                let k = before.len() as int;
                assert(result@.take(k) =~= before);
                assert(result@.skip(k) =~= next@);
                assert(by_levels(*table, root_pid, (n + 1) as nat, result@));
            }
            if next.len() == 0 {
                proof {
                    assert(result@ =~= before);
                    assert forall|c: u32| !#[trigger]
                        process_table::reaches(*table, root_pid, c, (n + 1) as nat) by {
                        assert(!next@.contains(c));
                    }
                    lemma_levels_end(*table, root_pid, n as nat, depth as nat, result@);
                }
                return result;
            }
            frontier = next;
            n = n + 1;
        }
        result
    }

    /// Throttles the subtree of `ppid`: every process in it goes to the
    /// swapstorm tier.
    pub fn throttle_subtree(&self, ppid: u32, table: &ProcessTable) -> (r: Vec<Effect>)
        requires
            table.wf(),
        ensures
            throttles(*table, ppid, self.depth() as nat, r@),
    {
        let pids = self.collect_subtree(ppid, table, self.lineage_depth);
        let mut r: Vec<Effect> = Vec::new();
        let mut i: usize = 0;
        while i < pids.len()
            invariant
                i <= pids@.len(),
                r@.len() == i,
                forall|k: int|
                    0 <= k < i ==> (#[trigger] r@[k]) == (Effect::Assign {
                        pid: pids@[k],
                        tier: CgroupTier::Swapstorm,
                    }),
            decreases pids@.len() - i,
        {
            r.push(Effect::Assign { pid: pids[i], tier: CgroupTier::Swapstorm });
            i = i + 1;
        }
        assert(pids_of(r@) =~= pids@);
        r
    }

    /// Drops the parents whose last fork was more than ten seconds ago, also
    /// from the detected ones.
    pub fn gc(&mut self, now_ns: u64)
        requires
            old(self).wf(),
        ensures
            was_cleaned(*old(self), *final(self), now_ns),
    {
        let all = keys(&self.windows);
        let ghost start = *self;
        let mut i: usize = 0;
        assert forall|k: int| 0 <= k < all@.len() implies self.windows@.dom().contains(
            #[trigger] all@[k],
        ) by {
            assert(all@.contains(all@[k]));
        }
        while i < all.len()
            invariant
                start.wf(),
                self.wf(),
                self.threshold == start.threshold,
                self.lineage_depth == start.lineage_depth,
                i <= all@.len(),
                all@.no_duplicates(),
                forall|p: u32| all@.contains(p) <==> start.windows@.dom().contains(p),
                forall|k: int|
                    i <= k < all@.len() ==> self.windows@.dom().contains(#[trigger] all@[k]),
                forall|k: int|
                    0 <= k < i && self.windows@.dom().contains(#[trigger] all@[k]) ==> !cold(
                        start.windows@[all@[k]].times(),
                        now_ns,
                    ),
                forall|p: u32| #[trigger]
                    self.windows@.dom().contains(p) ==> start.windows@.dom().contains(p)
                        && self.windows@[p] == start.windows@[p],
                forall|p: u32|
                    start.windows@.dom().contains(p) && !cold(start.windows@[p].times(), now_ns)
                        ==> #[trigger] self.windows@.dom().contains(p),
                forall|p: u32| #[trigger]
                    self.throttled@.contains(p) <==> start.throttled@.contains(p)
                        && self.windows@.dom().contains(p),
            decreases all@.len() - i,
        {
            let pid: u32 = all[i];
            assert(self.windows@.dom().contains(all@[i as int]));
            let stale = match self.windows.get(&pid) {
                Some(w) => match w.last() {
                    Some(t) => is_older(t, now_ns, COLD_NS),
                    None => true,
                },
                None => false,
            };
            assert(stale == cold(start.windows@[pid].times(), now_ns));
            if stale {
                self.windows.remove(&pid);
                self.throttled.remove(&pid);
                assert forall|k: int| i < k < all@.len() implies self.windows@.dom().contains(
                    #[trigger] all@[k],
                ) by {
                    assert(all@[k] != all@[i as int]);
                }
            }
            i = i + 1;
        }
        assert forall|p: u32| #[trigger]
            self.windows().dom().contains(p) <==> old(self).windows().dom().contains(p) && !cold(
                old(self).windows()[p],
                now_ns,
            ) by {
            if self.windows().dom().contains(p) {
                assert(all@.contains(p));
                let k = choose|k: int| 0 <= k < all@.len() && all@[k] == p;
                assert(self.windows@.dom().contains(all@[k]));
            }
        }
        assert forall|p: u32| #[trigger]
            self.throttled().contains(p) <==> old(self).throttled().contains(p) && !cold(
                old(self).windows()[p],
                now_ns,
            ) by {
            assert(self.windows().dom().contains(p) <==> old(self).windows().dom().contains(p)
                && !cold(old(self).windows()[p], now_ns));
        }
    }
}

/// Whether a fork of `pid` at `now` makes the detector report it.
pub open spec fn detects(d: ForkBombDetector, pid: u32, now: u64) -> bool {
    !d.throttled().contains(pid) && recorded(times_of(d.windows(), pid), now).len()
        > d.threshold()
}

/// What a fork of `pid` at `now` does to the detector. A parent that was
/// reported before is not looked at again.
pub open spec fn was_recorded(
    before: ForkBombDetector,
    after: ForkBombDetector,
    pid: u32,
    now: u64,
) -> bool {
    &&& after.wf()
    &&& after.threshold() == before.threshold()
    &&& after.depth() == before.depth()
    &&& after.windows() == if before.throttled().contains(pid) {
        before.windows()
    } else {
        before.windows().insert(pid, recorded(times_of(before.windows(), pid), now))
    }
    &&& after.throttled() == if detects(before, pid, now) {
        before.throttled().insert(pid)
    } else {
        before.throttled()
    }
}

/// What cleaning up at `now` does to the detector: parents whose last fork was
/// long ago are forgotten.
pub open spec fn was_cleaned(before: ForkBombDetector, after: ForkBombDetector, now: u64) -> bool {
    &&& after.wf()
    &&& after.threshold() == before.threshold()
    &&& after.depth() == before.depth()
    &&& forall|p: u32| #[trigger]
        after.windows().dom().contains(p) <==> before.windows().dom().contains(p) && !cold(
            before.windows()[p],
            now,
        )
    &&& forall|p: u32| #[trigger]
        after.windows().dom().contains(p) ==> after.windows()[p] == before.windows()[p]
    &&& forall|p: u32| #[trigger]
        after.throttled().contains(p) <==> before.throttled().contains(p) && !cold(
            before.windows()[p],
            now,
        )
}

/// Whether the effects move the tree below `root`, down to `depth` levels, to
/// the swapstorm tier, and do nothing else.
pub open spec fn throttles(t: ProcessTable, root: u32, depth: nat, effects: Seq<Effect>) -> bool {
    &&& by_levels(t, root, depth, pids_of(effects))
    &&& forall|i: int|
        0 <= i < effects.len() ==> (#[trigger] effects[i]) is Assign && effects[i]->tier
            == CgroupTier::Swapstorm
}

/// The level below `frontier`, which is level `n`.
fn next_level(
    root: u32,
    table: &ProcessTable,
    frontier: &Vec<u32>,
    Ghost(n): Ghost<nat>,
) -> (r: Vec<u32>)
    requires
        table.wf(),
        is_level(*table, root, n, frontier@),
    ensures
        is_level(*table, root, n + 1, r@),
{
    let mut next: Vec<u32> = Vec::new();
    let mut f: usize = 0;
    while f < frontier.len()
        invariant
            table.wf(),
            is_level(*table, root, n, frontier@),
            f <= frontier@.len(),
            next@.no_duplicates(),
            forall|c: u32| #[trigger]
                next@.contains(c) ==> table.entries().dom().contains(c)
                    && frontier@.take(f as int).contains(table.entries()[c].info.ppid)
                    && table.kids(table.entries()[c].info.ppid).contains(c),
            forall|k: int, c: u32|
                0 <= k < f && #[trigger] table.kids(frontier@[k]).contains(c) ==> next@.contains(c),
        decreases frontier@.len() - f,
    {
        let pid: u32 = frontier[f];
        let children = table.children_of(pid);
        let ghost before = next@;
        let ghost done = frontier@.take(f as int);
        let ghost now = frontier@.take(f + 1);
        assert(now[f as int] == pid);
        assert forall|q: u32| done.contains(q) implies now.contains(q) && q != pid by {
            let k = choose|k: int| 0 <= k < done.len() && done[k] == q;
            assert(now[k] == q);
            assert(frontier@[k] != frontier@[f as int]);
        }
        let mut i: usize = 0;
        while i < children.len()
            invariant
                table.wf(),
                i <= children@.len(),
                children@.no_duplicates(),
                forall|c: u32| children@.contains(c) <==> table.kids(pid).contains(c),
                now.contains(pid),
                forall|q: u32| done.contains(q) ==> now.contains(q) && q != pid,
                forall|c: u32| #[trigger]
                    before.contains(c) ==> table.entries().dom().contains(c) && done.contains(
                        table.entries()[c].info.ppid,
                    ) && table.kids(table.entries()[c].info.ppid).contains(c),
                before.no_duplicates(),
                next@ == before + children@.take(i as int),
            decreases children@.len() - i,
        {
            next.push(children[i]);
            i = i + 1;
            assert(next@ =~= before + children@.take(i as int));
        }
        assert(children@.take(children@.len() as int) =~= children@);
        assert(next@ =~= before + children@);
        assert forall|c: u32| #[trigger]
            next@.contains(c) <==> before.contains(c) || children@.contains(c) by {
            if before.contains(c) {
                let k = choose|k: int| 0 <= k < before.len() && before[k] == c;
                assert(next@[k] == c);
            }
            if children@.contains(c) {
                let k = choose|k: int| 0 <= k < children@.len() && children@[k] == c;
                assert(next@[k + before.len()] == c);
            }
        }
        assert forall|a: int, b: int| 0 <= a < b < next@.len() implies next@[a] != next@[b] by {
            if a < before.len() && b >= before.len() {
                assert(before.contains(before[a]));
                assert(children@.contains(children@[b - before.len()]));
                assert(table.kids(pid).contains(children@[b - before.len()]));
            }
        }
        assert forall|c: u32| #[trigger]
            next@.contains(c) implies table.entries().dom().contains(c) && now.contains(
            table.entries()[c].info.ppid,
        ) && table.kids(table.entries()[c].info.ppid).contains(c) by {
            if !before.contains(c) {
                assert(children@.contains(c));
                assert(table.kids(pid).contains(c));
            }
        }
        assert forall|k: int, c: u32|
            0 <= k < f + 1 && #[trigger] table.kids(frontier@[k]).contains(c) implies next@.contains(
            c,
        ) by {
            if k == f {
                assert(children@.contains(c));
            } else {
                assert(before.contains(c));
            }
        }
        f = f + 1;
    }
    assert(frontier@.take(frontier@.len() as int) =~= frontier@);
    assert forall|c: u32| #[trigger]
        next@.contains(c) <==> process_table::reaches(*table, root, c, n + 1) by {
        if next@.contains(c) {
            let q = table.entries()[c].info.ppid;
            assert(frontier@.contains(q));
            assert(process_table::reaches(*table, root, q, n));
            assert(table.kids(q).contains(c));
        }
        if process_table::reaches(*table, root, c, n + 1) {
            let q = choose|q: u32|
                process_table::reaches(*table, root, q, n) && #[trigger] table.kids(q).contains(c);
            assert(frontier@.contains(q));
            let k = choose|k: int| 0 <= k < frontier@.len() && frontier@[k] == q;
            assert(table.kids(frontier@[k]).contains(c));
        }
    }
    next
}

// ---------------------------------------------------------------------------
// Laws
// ---------------------------------------------------------------------------

/// With a clock that does not go back, a parent is detected exactly when it
/// has forked more than `threshold` times within the last second: the window
/// holds exactly the recent forks.
pub proof fn window_holds_the_last_second(times: Seq<u64>, now: u64)
    requires
        chronological(times),
        times.len() > 0 ==> times.last() <= now,
    ensures
        recorded(times, now).len() == recent(times.push(now), now),
        chronological(recorded(times, now)),
        forall|i: int|
            0 <= i < recorded(times, now).len() ==> !older(
                #[trigger] recorded(times, now)[i],
                now,
                WINDOW_NS,
            ),
    decreases times.len(),
{
    assert(times.push(now).drop_last() =~= times);
    lemma_evicted(times, now);
}

proof fn lemma_evicted(times: Seq<u64>, now: u64)
    requires
        chronological(times),
        times.len() > 0 ==> times.last() <= now,
    ensures
        evicted(times, now).len() == recent(times, now),
        chronological(evicted(times, now)),
        evicted(times, now).len() > 0 ==> evicted(times, now).last() <= now,
        forall|i: int|
            0 <= i < evicted(times, now).len() ==> !older(
                #[trigger] evicted(times, now)[i],
                now,
                WINDOW_NS,
            ),
    decreases times.len(),
{
    if times.len() > 0 && older(times[0], now, WINDOW_NS) {
        lemma_evicted(times.skip(1), now);
        lemma_recent_skip(times, now);
    } else {
        lemma_all_recent(times, now);
    }
}

proof fn lemma_recent_skip(times: Seq<u64>, now: u64)
    requires
        times.len() > 0,
        older(times[0], now, WINDOW_NS),
    ensures
        recent(times.skip(1), now) == recent(times, now),
    decreases times.len(),
{
    if times.len() > 1 {
        lemma_recent_skip(times.drop_last(), now);
        assert(times.drop_last().skip(1) =~= times.skip(1).drop_last());
    } else {
        assert(times.skip(1) =~= Seq::empty());
        assert(times.drop_last() =~= Seq::empty());
        assert(recent(times.drop_last(), now) == 0);
    }
}

proof fn lemma_all_recent(times: Seq<u64>, now: u64)
    requires
        chronological(times),
        times.len() > 0 ==> !older(times[0], now, WINDOW_NS),
    ensures
        recent(times, now) == times.len(),
    decreases times.len(),
{
    if times.len() > 0 {
        lemma_all_recent(times.drop_last(), now);
        assert(times[0] <= times[times.len() - 1]);
    }
}

/// A parent whose forks went cold can be detected anew: the first fork after
/// it is forgotten starts a window of its own.
pub proof fn forgotten_parent_starts_afresh(
    windows: Map<u32, Seq<u64>>,
    pid: u32,
    now: u64,
)
    requires
        !windows.dom().contains(pid),
    ensures
        recorded(times_of(windows, pid), now) == seq![now],
{
    assert(recorded(times_of(windows, pid), now) =~= seq![now]);
}

/// A parent is reported once: further forks of any parent do not lead to
/// another report of it, until it is forgotten.
pub proof fn parent_is_reported_once(
    before: ForkBombDetector,
    after: ForkBombDetector,
    pid: u32,
    other: u32,
    now: u64,
    later: u64,
)
    requires
        was_recorded(before, after, other, now),
        before.throttled().contains(pid) || (other == pid && detects(before, pid, now)),
    ensures
        after.throttled().contains(pid),
        !detects(after, pid, later),
{
}

/// Every parent that was reported still has a window.
pub proof fn reported_parents_have_windows(d: ForkBombDetector)
    requires
        d.wf(),
    ensures
        d.throttled().subset_of(d.windows().dom()),
{
    assert(d.windows().dom() =~= d.windows@.dom());
}

/// Cleaning up a second time at the same moment changes nothing.
pub proof fn cleaning_twice_changes_nothing(
    before: ForkBombDetector,
    once: ForkBombDetector,
    twice: ForkBombDetector,
    now: u64,
)
    requires
        was_cleaned(before, once, now),
        was_cleaned(once, twice, now),
    ensures
        twice.windows() == once.windows(),
        twice.throttled() == once.throttled(),
{
    reported_parents_have_windows(once);
    assert(twice.windows() =~= once.windows());
    assert(twice.throttled() =~= once.throttled());
}

/// After cleaning up, every parent that still counts as reported has forked
/// within the last ten seconds.
pub proof fn reported_parents_are_warm(
    before: ForkBombDetector,
    after: ForkBombDetector,
    now: u64,
    pid: u32,
)
    requires
        was_cleaned(before, after, now),
        after.throttled().contains(pid),
    ensures
        !cold(before.windows()[pid], now),
        before.throttled().contains(pid),
{
}

/// A burst is detected: where all forks on record are at most a second old, a
/// parent that was not reported before is reported with the next fork exactly
/// if that makes more forks than the threshold.
pub proof fn burst_is_detected(d: ForkBombDetector, pid: u32, now: u64)
    requires
        forall|i: int|
            0 <= i < times_of(d.windows(), pid).len() ==> (#[trigger] times_of(
                d.windows(),
                pid,
            )[i]) + 1_000_000_000 >= now,
    ensures
        detects(d, pid, now) <==> !d.throttled().contains(pid) && times_of(d.windows(), pid).len()
            + 1 > d.threshold(),
{
    let times = times_of(d.windows(), pid);
    if times.len() > 0 {
        assert(times[0] + 1_000_000_000 >= now);
    }
    assert(evicted(times, now) == times);
}

/// Forks that are more than a second old do not count: where they are followed
/// by one that is not, they are dropped and the rest is kept.
pub proof fn old_forks_do_not_count(old_times: Seq<u64>, times: Seq<u64>, now: u64)
    requires
        forall|i: int|
            0 <= i < old_times.len() ==> (#[trigger] old_times[i]) + 1_000_000_000 < now,
        times.len() > 0 ==> times[0] + 1_000_000_000 >= now,
    ensures
        recorded(old_times + times, now) == times.push(now),
    decreases old_times.len(),
{
    if old_times.len() == 0 {
        assert(old_times + times =~= times);
    } else {
        let rest = old_times.skip(1);
        assert forall|i: int| 0 <= i < rest.len() implies (#[trigger] rest[i]) + 1_000_000_000
            < now by {
            assert(rest[i] == old_times[i + 1]);
        }
        old_forks_do_not_count(rest, times, now);
        assert((old_times + times)[0] == old_times[0]);
        assert((old_times + times).skip(1) =~= rest + times);
    }
}

/// More forks on record never hide a fork bomb: if a parent is reported, it
/// would be reported with a lower threshold too.
pub proof fn lower_threshold_reports_more(
    d: ForkBombDetector,
    strict: ForkBombDetector,
    pid: u32,
    now: u64,
)
    requires
        strict.windows() == d.windows(),
        strict.throttled() == d.throttled(),
        strict.threshold() <= d.threshold(),
        detects(d, pid, now),
    ensures
        detects(strict, pid, now),
{
}

/// Throttling moves exactly the parent and what lies below it within the
/// depth, all of it to the swapstorm tier.
pub proof fn throttling_reaches_the_subtree(
    t: ProcessTable,
    root: u32,
    depth: nat,
    effects: Seq<Effect>,
    c: u32,
)
    requires
        throttles(t, root, depth, effects),
    ensures
        effects.contains(Effect::Assign { pid: c, tier: CgroupTier::Swapstorm }) <==> exists|
            n: nat,
        |
            n <= depth && #[trigger] process_table::reaches(t, root, c, n),
        forall|i: int|
            0 <= i < effects.len() ==> (#[trigger] effects[i] matches Effect::Assign { tier, .. }
                && tier == CgroupTier::Swapstorm),
        effects.len() > 0,
        effects[0] == (Effect::Assign { pid: root, tier: CgroupTier::Swapstorm }),
{
    let pids = pids_of(effects);
    levels_hold_descendants(t, root, depth, pids, c);
    lemma_root_first(t, root, depth, pids);
    assert(pids[0] == applier::effect_pid(effects[0]));
    let e = Effect::Assign { pid: c, tier: CgroupTier::Swapstorm };
    if effects.contains(e) {
        let i = choose|i: int| 0 <= i < effects.len() && effects[i] == e;
        assert(pids[i] == c);
    }
    if pids.contains(c) {
        let i = choose|i: int| 0 <= i < pids.len() && pids[i] == c;
        assert(effects[i] == e);
    }
}

proof fn lemma_root_first(t: ProcessTable, root: u32, depth: nat, r: Seq<u32>)
    requires
        by_levels(t, root, depth, r),
    ensures
        r.len() > 0,
        r[0] == root,
    decreases depth,
{
    if depth > 0 {
        let k = choose|k: int|
            0 <= k <= r.len() && by_levels(t, root, (depth - 1) as nat, #[trigger] r.take(k))
                && is_level(t, root, depth, r.skip(k));
        lemma_root_first(t, root, (depth - 1) as nat, r.take(k));
        assert(r.take(k)[0] == r[0]);
    }
}

/// A fork leaves the other parents as they are, and is itself the latest on
/// record of its parent, unless that one was reported already.
pub proof fn fork_concerns_one_parent(
    before: ForkBombDetector,
    after: ForkBombDetector,
    pid: u32,
    now: u64,
    other: u32,
)
    requires
        was_recorded(before, after, pid, now),
    ensures
        other != pid ==> times_of(after.windows(), other) == times_of(before.windows(), other),
        other != pid ==> (after.throttled().contains(other) <==> before.throttled().contains(
            other,
        )),
        before.throttled().contains(pid) ==> after.throttled().contains(pid),
        !before.throttled().contains(pid) ==> times_of(after.windows(), pid).len() > 0 && times_of(
            after.windows(),
            pid,
        ).last() == now && (after.throttled().contains(pid) <==> times_of(
            after.windows(),
            pid,
        ).len() > after.threshold()),
        after.threshold() == before.threshold(),
        after.depth() == before.depth(),
        after.wf(),
{
}

/// A parent is forgotten exactly when its last fork was more than ten seconds
/// ago; nothing else changes.
pub proof fn quiet_parents_are_forgotten(
    before: ForkBombDetector,
    after: ForkBombDetector,
    now: u64,
    pid: u32,
)
    requires
        was_cleaned(before, after, now),
        before.windows().dom().contains(pid),
        before.windows()[pid].len() > 0,
    ensures
        after.windows().dom().contains(pid) <==> before.windows()[pid].last() + 10_000_000_000
            >= now,
        after.windows().dom().contains(pid) ==> after.windows()[pid] == before.windows()[pid],
        before.windows()[pid].last() + 10_000_000_000 < now ==> !after.throttled().contains(pid),
        before.windows()[pid].last() + 10_000_000_000 >= now ==> (after.throttled().contains(pid)
            <==> before.throttled().contains(pid)),
{
    assert(after.windows().dom().contains(pid) <==> before.windows().dom().contains(pid) && !cold(
        before.windows()[pid],
        now,
    ));
    assert(after.throttled().contains(pid) <==> before.throttled().contains(pid) && !cold(
        before.windows()[pid],
        now,
    ));
}

/// The rate of forks counts exactly those of the last second.
pub proof fn rate_counts_the_last_second(times: Seq<u64>, t: u64, now: u64)
    ensures
        recent(Seq::empty(), now) == 0,
        recent(times.push(t), now) == recent(times, now) + (if t + 1_000_000_000 >= now {
            1nat
        } else {
            0nat
        }),
{
    assert(times.push(t).drop_last() =~= times);
}

/// What a fork leaves on record of its parent: the forks of the last second and
/// itself, no matter how many were there before. The parent is reported exactly
/// if it was not before and that makes more than the threshold.
pub proof fn fork_is_put_on_record(
    before: ForkBombDetector,
    after: ForkBombDetector,
    pid: u32,
    now: u64,
    old_times: Seq<u64>,
    times: Seq<u64>,
)
    requires
        was_recorded(before, after, pid, now),
        !before.throttled().contains(pid),
        times_of(before.windows(), pid) == old_times + times,
        forall|i: int|
            0 <= i < old_times.len() ==> (#[trigger] old_times[i]) + 1_000_000_000 < now,
        times.len() > 0 ==> times[0] + 1_000_000_000 >= now,
    ensures
        times_of(after.windows(), pid) == times.push(now),
        after.throttled().contains(pid) <==> times.len() + 1 > before.threshold(),
        detects(before, pid, now) <==> after.throttled().contains(pid),
{
    old_forks_do_not_count(old_times, times, now);
}

/// A parent that was reported is left as it is by its further forks.
pub proof fn reported_parent_is_left(
    before: ForkBombDetector,
    after: ForkBombDetector,
    pid: u32,
    now: u64,
)
    requires
        was_recorded(before, after, pid, now),
        before.throttled().contains(pid),
    ensures
        after.windows() == before.windows(),
        after.throttled() == before.throttled(),
        !detects(before, pid, now),
{
}

/// A parent without a fork on record is forgotten, and nobody is reported or
/// watched by cleaning up.
pub proof fn cleaning_only_forgets(
    before: ForkBombDetector,
    after: ForkBombDetector,
    now: u64,
    pid: u32,
)
    requires
        was_cleaned(before, after, now),
    ensures
        after.windows().dom().contains(pid) ==> before.windows().dom().contains(pid)
            && after.windows()[pid] == before.windows()[pid] && after.windows()[pid].len() > 0,
        after.throttled().contains(pid) ==> before.throttled().contains(pid),
        after.threshold() == before.threshold(),
        after.depth() == before.depth(),
{
}

/// Forks on record of a parent that is not watched are none.
pub proof fn unwatched_parents_have_no_forks(windows: Map<u32, Seq<u64>>, pid: u32)
    ensures
        windows.dom().contains(pid) ==> times_of(windows, pid) == windows[pid],
        !windows.dom().contains(pid) ==> times_of(windows, pid).len() == 0,
{
}

/// A level of the tree names each process that lies that many steps below the
/// root, once.
pub proof fn level_names_each_once(
    t: ProcessTable,
    root: u32,
    n: nat,
    level: Seq<u32>,
    i: int,
    j: int,
)
    requires
        is_level(t, root, n, level),
        0 <= i < j < level.len(),
    ensures
        level[i] != level[j],
        process_table::reaches(t, root, level[i], n),
{
    assert(level.contains(level[i]));
}

} // verus!
