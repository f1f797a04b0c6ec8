//! Foreground process tree management.
//!
//! When a process comes to the foreground, the topmost ancestor below the
//! session boundary is found, its whole tree is moved to the interactive tier,
//! and the previous foreground processes go back to the system tier. Session
//! roots (compositors, display managers, session launchers) are never moved:
//! their placement belongs to the login manager.

use std::collections::HashSet;
use vstd::prelude::*;

use crate::applier;
use crate::applier::Effect;
use crate::cgroupv2::CgroupTier;
use crate::pids::members;
use crate::process_table;
use crate::process_table::{EntryView, ProcessTable};
use crate::text;
use crate::text::{has_suffix, same};

verus! {

broadcast use vstd::std_specs::hash::group_hash_axioms;

// ---------------------------------------------------------------------------
// Session boundary
// ---------------------------------------------------------------------------

/// The names of the processes at a session boundary.
pub open spec fn session_roots() -> Seq<Seq<char>> {
    seq![
        "sway"@,
        "kwin_wayland"@,
        "kwin_x11"@,
        "mutter"@,
        "weston"@,
        "gamescope"@,
        "Hyprland"@,
        "river"@,
        "wayfire"@,
        "labwc"@,
        "openbox"@,
        "i3"@,
        "bspwm"@,
        "herbstluftwm"@,
        "qtile"@,
        "awesome"@,
        "xmonad"@,
        "dwm"@,
        "spectrwm"@,
        "fluxbox"@,
        "jwm"@,
        "icewm"@,
        "matchbox-window-manager"@,
        "Xorg"@,
        "X"@,
        "Xwayland"@,
        "dbus-run-session"@,
        "dbus-launch"@,
        "dbus-daemon"@,
        "startx"@,
        "xinit"@,
        "sx"@,
        "gnome-session"@,
        "gnome-session-binary"@,
        "plasma_session"@,
        "startplasma-wayland"@,
        "startplasma-x11"@,
        "xfce4-session"@,
        "lxsession"@,
        "mate-session"@,
        "openbox-session"@,
        "i3-session"@,
        "sddm"@,
        "gdm"@,
        "gdm3"@,
        "lightdm"@,
        "greetd"@,
        "lxdm"@,
        "slim"@,
        "systemd"@,
        "init"@,
    ]
}

/// Whether a name marks a session boundary.
pub fn is_session_root(comm: &str) -> (r: bool)
    ensures
        r == session_roots().contains(comm@),
{
    let names: [&'static str; 51] = [
        // Wayland compositors
        "sway",
        "kwin_wayland",
        "kwin_x11",
        "mutter",
        "weston",
        "gamescope",
        "Hyprland",
        "river",
        "wayfire",
        "labwc",
        // X11 window managers
        "openbox",
        "i3",
        "bspwm",
        "herbstluftwm",
        "qtile",
        "awesome",
        "xmonad",
        "dwm",
        "spectrwm",
        "fluxbox",
        "jwm",
        "icewm",
        "matchbox-window-manager",
        // X server
        "Xorg",
        "X",
        "Xwayland",
        // Session launchers and wrappers
        "dbus-run-session",
        "dbus-launch",
        "dbus-daemon",
        "startx",
        "xinit",
        "sx",
        // Desktop session managers
        "gnome-session",
        "gnome-session-binary",
        "plasma_session",
        "startplasma-wayland",
        "startplasma-x11",
        "xfce4-session",
        "lxsession",
        "mate-session",
        "openbox-session",
        "i3-session",
        // Display managers
        "sddm",
        "gdm",
        "gdm3",
        "lightdm",
        "greetd",
        "lxdm",
        "slim",
        // Init
        "systemd",
        "init",
    ];
    assert(Seq::new(51, |k: int| names@[k]@) =~= session_roots());
    let mut i: usize = 0;
    while i < 51
        invariant
            i <= 51,
            Seq::new(51, |k: int| names@[k]@) == session_roots(),
            forall|k: int| 0 <= k < i ==> (#[trigger] session_roots()[k]) != comm@,
        decreases 51 - i,
    {
        assert(Seq::new(51, |k: int| names@[k]@)[i as int] == names@[i as int]@);
        if same(names[i], comm) {
            assert(session_roots()[i as int] == comm@);
            return true;
        }
        i = i + 1;
    }
    false
}

// ---------------------------------------------------------------------------
// Walking up
// ---------------------------------------------------------------------------

/// Whether the process is in the table and at a session boundary.
pub open spec fn at_boundary(entries: Map<u32, EntryView>, pid: u32) -> bool {
    entries.dom().contains(pid) && session_roots().contains(entries[pid].info.comm)
}

/// Whether the process is in the realtime tier.
pub open spec fn in_rt_tier(e: EntryView) -> bool {
    e.info.cgroup_path matches Some(cg) && text::ends_with(cg, "/rt"@)
}

/// The topmost process below the session boundary on the way up from `cur`,
/// where `seen` has been passed on the way. None if `cur` is itself at the
/// boundary.
pub open spec fn app_root_from(
    entries: Map<u32, EntryView>,
    cur: u32,
    seen: Set<u32>,
) -> Option<u32>
    decreases entries.dom().difference(seen).len(),
    when entries.dom().finite()
{
    if !entries.dom().contains(cur) || seen.contains(cur) {
        Some(cur)
    } else if at_boundary(entries, cur) {
        None
    } else {
        let ppid = entries[cur].info.ppid;
        let passed = seen.insert(cur);
        if ppid == 0 || ppid == 1 || passed.contains(ppid) || !entries.dom().contains(ppid)
            || at_boundary(entries, ppid) || in_rt_tier(entries[ppid]) {
            Some(cur)
        } else {
            proof {
                lemma_less_ahead(entries.dom(), seen, cur);
            }
            app_root_from(entries, ppid, passed)
        }
    }
}

/// Passing a process leaves fewer of them ahead.
pub proof fn lemma_less_ahead(all: Set<u32>, seen: Set<u32>, cur: u32)
    requires
        all.finite(),
        all.contains(cur),
        !seen.contains(cur),
    ensures
        all.difference(seen.insert(cur)).len() < all.difference(seen).len(),
{
    assert(all.difference(seen.insert(cur)) =~= all.difference(seen).remove(cur));
}

/// The root of the application that a process belongs to.
///
/// The walk up ends below a session root, below a process of the realtime
/// tier, at pid 1, where the parent is not known, and at a cycle. None if the
/// process is itself a session root.
pub fn find_app_root(pid: u32, table: &ProcessTable) -> (r: Option<u32>)
    requires
        table.wf(),
    ensures
        r == app_root_from(table.entries(), pid, Set::empty()),
{
    let mut current: u32 = pid;
    let mut seen: HashSet<u32> = HashSet::new();
    let ghost entries = table.entries();
    assert(seen@ =~= Set::empty());
    loop
        invariant
            table.wf(),
            entries == table.entries(),
            !seen@.contains(current),
            app_root_from(entries, pid, Set::empty()) == app_root_from(entries, current, seen@),
        decreases entries.dom().difference(seen@).len(),
    {
        let ppid: u32 = match table.get(current) {
            Some(e) => {
                if is_session_root(e.info.comm.as_str()) {
                    return None;
                }
                e.info.ppid
            },
            None => {
                return Some(current);
            },
        };
        proof {
            lemma_less_ahead(entries.dom(), seen@, current);
        }
        seen.insert(current);
        if ppid == 0 || ppid == 1 || seen.contains(&ppid) {
            return Some(current);
        }
        match table.get(ppid) {
            Some(parent) => {
                if is_session_root(parent.info.comm.as_str()) {
                    return Some(current);
                }
                if let Some(cg) = &parent.info.cgroup_path {
                    if has_suffix(cg.as_str(), "/rt") {
                        return Some(current);
                    }
                }
            },
            None => {
                return Some(current);
            },
        }
        current = ppid;
    }
}

// ---------------------------------------------------------------------------
// Walking down
// ---------------------------------------------------------------------------

proof fn lemma_closed_set_holds_tree(t: ProcessTable, root: u32, s: Set<u32>, c: u32, n: nat)
    requires
        s.contains(root),
        forall|p: u32, k: u32| s.contains(p) && #[trigger] t.kids(p).contains(k) ==> s.contains(k),
        process_table::reaches(t, root, c, n),
    ensures
        s.contains(c),
    decreases n,
{
    if n > 0 {
        let q = choose|q: u32|
            process_table::reaches(t, root, q, (n - 1) as nat) && #[trigger] t.kids(q).contains(c);
        lemma_closed_set_holds_tree(t, root, s, q, (n - 1) as nat);
    }
}

/// The process and all its descendants.
pub fn collect_tree(root: u32, table: &ProcessTable) -> (r: HashSet<u32>)
    requires
        table.wf(),
    ensures
        forall|c: u32| #[trigger] r@.contains(c) <==> process_table::descends(*table, root, c),
{
    let mut result: HashSet<u32> = HashSet::new();
    let mut queue: Vec<u32> = Vec::new();
    queue.push(root);
    let ghost universe = table.entries().dom().insert(root);
    assert(process_table::reaches(*table, root, root, 0));
    assert(queue@[0] == root);
    while queue.len() > 0
        invariant
            table.wf(),
            universe == table.entries().dom().insert(root),
            universe.finite(),
            result@.finite(),
            result@.subset_of(universe),
            result@.contains(root) || queue@.contains(root),
            forall|k: int|
                0 <= k < queue@.len() ==> universe.contains(#[trigger] queue@[k])
                    && process_table::descends(*table, root, queue@[k]),
            forall|c: u32| #[trigger]
                result@.contains(c) ==> process_table::descends(*table, root, c),
            forall|p: u32, c: u32|
                result@.contains(p) && #[trigger] table.kids(p).contains(c) ==> result@.contains(c)
                    || queue@.contains(c),
        decreases universe.len() - result@.len(), queue@.len(),
    {
        let ghost before = queue@;
        let ghost done = result@;
        let pid: u32 = queue.pop().unwrap();
        assert(pid == before[before.len() - 1]);
        assert(before =~= queue@.push(pid));
        let ghost rest = queue@;
        assert forall|c: u32| before.contains(c) implies rest.contains(c) || c == pid by {
            let k = choose|k: int| 0 <= k < before.len() && before[k] == c;
            if k < rest.len() {
                assert(rest[k] == c);
            }
        }
        if result.insert(pid) {
            proof {
                vstd::set_lib::lemma_len_subset(result@, universe);
            }
            let children = table.children_of(pid);
            let mut i: usize = 0;
            let ghost pid_path = choose|n: nat| #[trigger]
                process_table::reaches(*table, root, pid, n);
            while i < children.len()
                invariant
                    table.wf(),
                    universe == table.entries().dom().insert(root),
                    i <= children@.len(),
                    forall|c: u32| children@.contains(c) <==> table.kids(pid).contains(c),
                    process_table::reaches(*table, root, pid, pid_path),
                    forall|c: u32| rest.contains(c) ==> queue@.contains(c),
                    forall|k: int|
                        0 <= k < queue@.len() ==> universe.contains(#[trigger] queue@[k])
                            && process_table::descends(*table, root, queue@[k]),
                    forall|k: int| 0 <= k < i ==> queue@.contains(#[trigger] children@[k]),
                decreases children@.len() - i,
            {
                let child: u32 = children[i];
                let ghost earlier = queue@;
                assert(children@.contains(child));
                assert(table.kids(pid).contains(child));
                assert(process_table::reaches(*table, root, child, pid_path + 1));
                queue.push(child);
                assert forall|c: u32| earlier.contains(c) || c == child implies queue@.contains(
                    c,
                ) by {
                    if earlier.contains(c) {
                        let k = choose|k: int| 0 <= k < earlier.len() && earlier[k] == c;
                        assert(queue@[k] == c);
                    } else {
                        assert(queue@[queue@.len() - 1] == c);
                    }
                }
                assert forall|k: int| 0 <= k < i + 1 implies queue@.contains(
                    #[trigger] children@[k],
                ) by {
                    if k < i {
                        assert(earlier.contains(children@[k]));
                    } else {
                        assert(queue@[queue@.len() - 1] == children@[k]);
                    }
                }
                i = i + 1;
            }
            assert forall|p: u32, c: u32|
                result@.contains(p) && #[trigger] table.kids(p).contains(c) implies result@.contains(
                c,
            ) || queue@.contains(c) by {
                if p == pid {
                    assert(children@.contains(c));
                    let k = choose|k: int| 0 <= k < children@.len() && children@[k] == c;
                    assert(queue@.contains(children@[k]));
                } else if before.contains(c) && c != pid {
                    assert(rest.contains(c));
                }
            }
        } else {
            assert(result@ =~= done);
        }
    }
    assert forall|c: u32| process_table::descends(*table, root, c) implies result@.contains(c) by {
        let n = choose|n: nat| #[trigger] process_table::reaches(*table, root, c, n);
        lemma_closed_set_holds_tree(*table, root, result@, c, n);
    }
    result
}

// ---------------------------------------------------------------------------
// Tracker
// ---------------------------------------------------------------------------

/// The root of the application whose tree comes to the foreground with
/// `hint`.
pub open spec fn foreground_root(entries: Map<u32, EntryView>, hint: u32) -> u32 {
    match app_root_from(entries, hint, Set::empty()) {
        Some(r) => r,
        None => hint,
    }
}

/// Whether the process comes to the foreground with `hint`: it is in the tree
/// of the application, known, and no session root.
pub open spec fn comes_to_front(t: ProcessTable, hint: u32, pid: u32) -> bool {
    process_table::descends(t, foreground_root(t.entries(), hint), pid) && t.entries().dom().contains(
        pid,
    ) && !at_boundary(t.entries(), pid)
}

/// Whether the process is among `current`, which is in the foreground, and
/// leaves it for `hint`.
pub open spec fn loses_front(t: ProcessTable, hint: u32, current: Set<u32>, pid: u32) -> bool {
    current.contains(pid) && !comes_to_front(t, hint, pid)
}

/// Whether a request to bring `hint` to the foreground has an effect.
pub open spec fn has_foreground(t: ProcessTable, hint: u32) -> bool {
    !at_boundary(t.entries(), hint) && exists|pid: u32| #[trigger] comes_to_front(t, hint, pid)
}

/// What a change of the foreground does.
#[derive(Clone, Debug, PartialEq, Eq)]
pub struct ForegroundChange {
    /// Session roots that lose the foreground: they stay where they are.
    pub release: Vec<u32>,
    /// The other processes that lose it: they go back to the system tier.
    pub demote: Vec<u32>,
    /// The processes that gain it: they go to the interactive tier.
    pub promote: Vec<u32>,
}

/// The effects that set the nice level of each process.
pub open spec fn renices(pids: Seq<u32>, nice: i8) -> Seq<Effect> {
    Seq::new(pids.len(), |i: int| Effect::Nice { pid: pids[i], nice })
}

/// The effects that set the nice level and then the tier of each process.
pub open spec fn placements(pids: Seq<u32>, nice: i8, tier: CgroupTier) -> Seq<Effect>
    decreases pids.len(),
{
    if pids.len() == 0 {
        Seq::empty()
    } else {
        placements(pids.drop_last(), nice, tier) + seq![
            Effect::Nice { pid: pids.last(), nice },
            Effect::Assign { pid: pids.last(), tier },
        ]
    }
}

fn place(out: &mut Vec<Effect>, pids: &Vec<u32>, nice: i8, tier: CgroupTier)
    ensures
        final(out)@ == old(out)@ + placements(pids@, nice, tier),
{
    let mut i: usize = 0;
    assert(out@ + placements(pids@.take(0), nice, tier) =~= out@);
    while i < pids.len()
        invariant
            i <= pids@.len(),
            out@ == old(out)@ + placements(pids@.take(i as int), nice, tier),
        decreases pids@.len() - i,
    {
        out.push(Effect::Nice { pid: pids[i], nice });
        out.push(Effect::Assign { pid: pids[i], tier });
        assert(pids@.take(i + 1).drop_last() =~= pids@.take(i as int));
        assert(out@ =~= old(out)@ + placements(pids@.take(i + 1), nice, tier));
        i = i + 1;
    }
    assert(pids@.take(pids@.len() as int) =~= pids@);
}

/// The effects of a change, in order: first the processes that lose the
/// foreground (nice 0, and the system tier unless they are session roots),
/// then those that gain it (nice -5, interactive tier).
pub open spec fn change_effects(change: ForegroundChange) -> Seq<Effect> {
    renices(change.release@, 0) + placements(change.demote@, 0, CgroupTier::System) + placements(
        change.promote@,
        -5i8,
        CgroupTier::Interactive,
    )
}

impl ForegroundChange {
    /// The effects, in order.
    pub fn effects(&self) -> (r: Vec<Effect>)
        ensures
            r@ == change_effects(*self),
    {
        let mut out: Vec<Effect> = Vec::new();
        let mut i: usize = 0;
        while i < self.release.len()
            invariant
                i <= self.release@.len(),
                out@ == renices(self.release@.take(i as int), 0),
            decreases self.release@.len() - i,
        {
            out.push(Effect::Nice { pid: self.release[i], nice: 0 });
            i = i + 1;
            assert(out@ =~= renices(self.release@.take(i as int), 0));
        }
        assert(self.release@.take(self.release@.len() as int) =~= self.release@);
        place(&mut out, &self.demote, 0, CgroupTier::System);
        place(&mut out, &self.promote, -5, CgroupTier::Interactive);
        assert(out@ =~= change_effects(*self));
        out
    }
}

/// Which processes are in the foreground.
pub struct ForegroundTracker {
    current_pids: HashSet<u32>,
    current_root: Option<u32>,
}

impl ForegroundTracker {
    /// The processes in the foreground.
    pub closed spec fn pids(&self) -> Set<u32> {
        self.current_pids@
    }

    /// The root of the application in the foreground.
    pub closed spec fn root(&self) -> Option<u32> {
        self.current_root
    }

    /// Nothing is in the foreground.
    pub fn new() -> (r: ForegroundTracker)
        ensures
            r.pids() == Set::<u32>::empty(),
            r.root() is None,
    {
        ForegroundTracker { current_pids: HashSet::new(), current_root: None }
    }

    /// Whether a process is in the foreground.
    pub fn is_foreground(&self, pid: u32) -> (r: bool)
        ensures
            r == self.pids().contains(pid),
    {
        self.current_pids.contains(&pid)
    }

    /// Brings the application of `hint_pid` to the foreground.
    ///
    /// Nothing changes if `hint_pid` is a session root, or if there is no
    /// process to bring to the front.
    pub fn set_foreground(&mut self, hint_pid: u32, table: &ProcessTable) -> (r: Option<
        ForegroundChange,
    >)
        requires
            table.wf(),
        ensures
            match r {
                None => !has_foreground(*table, hint_pid) && final(self).pids() == old(self).pids()
                    && final(self).root() == old(self).root(),
                Some(change) => has_foreground(*table, hint_pid) && front_changed(
                    *old(self),
                    *final(self),
                    *table,
                    hint_pid,
                    change,
                ),
            },
    {
        let ghost entries = table.entries();
        if let Some(e) = table.get(hint_pid) {
            if is_session_root(e.info.comm.as_str()) {
                return None;
            }
        }
        let app_root: u32 = match find_app_root(hint_pid, table) {
            Some(r) => r,
            None => hint_pid,
        };
        let tree = collect_tree(app_root, table);
        let in_tree = members(&tree);
        let mut new_pids: HashSet<u32> = HashSet::new();
        let mut promote: Vec<u32> = Vec::new();
        let mut i: usize = 0;
        while i < in_tree.len()
            invariant
                table.wf(),
                entries == table.entries(),
                app_root == foreground_root(entries, hint_pid),
                i <= in_tree@.len(),
                in_tree@.no_duplicates(),
                forall|p: u32|
                    in_tree@.contains(p) <==> process_table::descends(*table, app_root, p),
                process_table::is_selection(
                    promote@,
                    in_tree@.take(i as int),
                    |p: u32| entries.dom().contains(p) && !at_boundary(entries, p),
                ),
                forall|p: u32| #[trigger] new_pids@.contains(p) <==> promote@.contains(p),
            decreases in_tree@.len() - i,
        {
            let pid: u32 = in_tree[i];
            let ghost movable = |p: u32| entries.dom().contains(p) && !at_boundary(entries, p);
            let ghost before = promote@;
            proof {
                process_table::lemma_selection_step(promote@, in_tree@, i as int, movable);
            }
            match table.get(pid) {
                Some(e) => {
                    if !is_session_root(e.info.comm.as_str()) {
                        promote.push(pid);
                        new_pids.insert(pid);
                        assert forall|p: u32| #[trigger]
                            new_pids@.contains(p) <==> promote@.contains(p) by {
                            if before.contains(p) {
                                let k = choose|k: int| 0 <= k < before.len() && before[k] == p;
                                assert(promote@[k] == p);
                            }
                            assert(promote@[before.len() as int] == pid);
                        }
                    }
                },
                None => {},
            }
            i = i + 1;
        }
        assert(in_tree@.take(in_tree@.len() as int) =~= in_tree@);
        assert forall|p: u32| #[trigger]
            new_pids@.contains(p) <==> comes_to_front(*table, hint_pid, p) by {
            assert(promote@.contains(p) <==> in_tree@.contains(p) && entries.dom().contains(p)
                && !at_boundary(entries, p));
        }
        if promote.len() == 0 {
            assert forall|p: u32| !#[trigger] comes_to_front(*table, hint_pid, p) by {
                assert(!promote@.contains(p));
                assert(!new_pids@.contains(p));
            }
            return None;
        }
        assert(new_pids@.contains(promote@[0])) by {
            assert(promote@.contains(promote@[0]));
        }
        assert(comes_to_front(*table, hint_pid, promote@[0]));
        let current = members(&self.current_pids);
        let mut demote: Vec<u32> = Vec::new();
        let mut release: Vec<u32> = Vec::new();
        let mut j: usize = 0;
        while j < current.len()
            invariant
                entries == table.entries(),
                j <= current@.len(),
                current@.no_duplicates(),
                process_table::is_selection(
                    demote@,
                    current@.take(j as int),
                    |p: u32| !new_pids@.contains(p) && !at_boundary(entries, p),
                ),
                process_table::is_selection(
                    release@,
                    current@.take(j as int),
                    |p: u32| !new_pids@.contains(p) && at_boundary(entries, p),
                ),
            decreases current@.len() - j,
        {
            let pid: u32 = current[j];
            let ghost goes = |p: u32| !new_pids@.contains(p) && !at_boundary(entries, p);
            let ghost stays = |p: u32| !new_pids@.contains(p) && at_boundary(entries, p);
            proof {
                process_table::lemma_selection_step(demote@, current@, j as int, goes);
                process_table::lemma_selection_step(release@, current@, j as int, stays);
            }
            if !new_pids.contains(&pid) {
                let root = match table.get(pid) {
                    Some(e) => is_session_root(e.info.comm.as_str()),
                    None => false,
                };
                if root {
                    release.push(pid);
                } else {
                    demote.push(pid);
                }
            }
            j = j + 1;
        }
        assert(current@.take(current@.len() as int) =~= current@);
        self.current_pids = new_pids;
        self.current_root = Some(app_root);
        assert forall|p: u32| #[trigger]
            demote@.contains(p) <==> loses_front(*table, hint_pid, old(self).pids(), p)
                && !at_boundary(entries, p) by {
            assert(demote@.contains(p) <==> current@.contains(p) && !new_pids@.contains(p)
                && !at_boundary(entries, p));
            assert(new_pids@.contains(p) <==> comes_to_front(*table, hint_pid, p));
        }
        assert forall|p: u32| #[trigger]
            release@.contains(p) <==> loses_front(*table, hint_pid, old(self).pids(), p)
                && at_boundary(entries, p) by {
            assert(release@.contains(p) <==> current@.contains(p) && !new_pids@.contains(p)
                && at_boundary(entries, p));
            assert(new_pids@.contains(p) <==> comes_to_front(*table, hint_pid, p));
        }
        Some(ForegroundChange { release, demote, promote })
    }

    /// Takes note of the end of a process. If it was in the foreground, its
    /// nice level is to be restored.
    pub fn on_exit(&mut self, pid: u32) -> (r: Option<Effect>)
        ensures
            final(self).pids() == old(self).pids().remove(pid),
            final(self).root() == old(self).root(),
            r == if old(self).pids().contains(pid) {
                Some(Effect::Nice { pid, nice: 0 })
            } else {
                None
            },
    {
        let had = self.current_pids.remove(&pid);
        assert(self.pids() =~= old(self).pids().remove(pid));
        if had {
            Some(Effect::Nice { pid, nice: 0 })
        } else {
            None
        }
    }
}

/// What bringing `hint` to the foreground does to the tracker, and what change
/// it gives.
pub open spec fn front_changed(
    before: ForegroundTracker,
    after: ForegroundTracker,
    t: ProcessTable,
    hint: u32,
    change: ForegroundChange,
) -> bool {
    &&& after.root() == Some(foreground_root(t.entries(), hint))
    &&& forall|p: u32| #[trigger] after.pids().contains(p) <==> comes_to_front(t, hint, p)
    &&& change.promote@.no_duplicates()
    &&& forall|p: u32| #[trigger] change.promote@.contains(p) <==> comes_to_front(t, hint, p)
    &&& change.demote@.no_duplicates()
    &&& forall|p: u32| #[trigger]
        change.demote@.contains(p) <==> loses_front(t, hint, before.pids(), p) && !at_boundary(
            t.entries(),
            p,
        )
    &&& change.release@.no_duplicates()
    &&& forall|p: u32| #[trigger]
        change.release@.contains(p) <==> loses_front(t, hint, before.pids(), p) && at_boundary(
            t.entries(),
            p,
        )
}

impl Default for ForegroundTracker {
    fn default() -> (r: ForegroundTracker)
        ensures
            r.pids() == Set::<u32>::empty(),
            r.root() is None,
    {
        ForegroundTracker::new()
    }
}

// ---------------------------------------------------------------------------
// Laws
// ---------------------------------------------------------------------------

/// A session root is never brought to the foreground.
pub proof fn session_roots_are_never_promoted(t: ProcessTable, hint: u32, pid: u32)
    requires
        at_boundary(t.entries(), pid),
    ensures
        !comes_to_front(t, hint, pid),
{
}

/// A change of the foreground moves no session root: none of its effects
/// assigns one to a tier.
pub proof fn session_roots_are_never_moved(
    before: ForegroundTracker,
    after: ForegroundTracker,
    t: ProcessTable,
    hint: u32,
    change: ForegroundChange,
    i: int,
)
    requires
        front_changed(before, after, t, hint, change),
        0 <= i < change_effects(change).len(),
    ensures
        change_effects(change)[i] matches Effect::Assign { pid, .. } ==> !at_boundary(
            t.entries(),
            pid,
        ),
{
    let r = renices(change.release@, 0);
    let d = placements(change.demote@, 0, CgroupTier::System);
    if r.len() <= i < r.len() + d.len() {
        lemma_placements(change.demote@, 0, CgroupTier::System, i - r.len());
    } else if i >= r.len() + d.len() {
        lemma_placements(
            change.promote@,
            -5i8,
            CgroupTier::Interactive,
            i - r.len() - d.len(),
        );
    }
}

proof fn lemma_placements(pids: Seq<u32>, nice: i8, tier: CgroupTier, i: int)
    requires
        0 <= i < placements(pids, nice, tier).len(),
    ensures
        pids.contains(applier::effect_pid(placements(pids, nice, tier)[i])),
    decreases pids.len(),
{
    let init = pids.drop_last();
    let before = placements(init, nice, tier);
    if i < before.len() {
        lemma_placements(init, nice, tier, i);
        let k = choose|k: int| 0 <= k < init.len() && init[k] == applier::effect_pid(before[i]);
        assert(pids[k] == applier::effect_pid(before[i]));
    } else {
        assert(pids[pids.len() - 1] == pids.last());
    }
}

/// The root of an application is never a session root, unless the hint is.
pub proof fn app_root_is_below_the_boundary(
    entries: Map<u32, EntryView>,
    cur: u32,
    seen: Set<u32>,
)
    requires
        entries.dom().finite(),
        !seen.contains(cur),
    ensures
        match app_root_from(entries, cur, seen) {
            Some(r) => !at_boundary(entries, r),
            None => at_boundary(entries, cur),
        },
    decreases entries.dom().difference(seen).len(),
{
    if entries.dom().contains(cur) && !at_boundary(entries, cur) {
        let ppid = entries[cur].info.ppid;
        let passed = seen.insert(cur);
        if !(ppid == 0 || ppid == 1 || passed.contains(ppid) || !entries.dom().contains(ppid)
            || at_boundary(entries, ppid) || in_rt_tier(entries[ppid])) {
            lemma_less_ahead(entries.dom(), seen, cur);
            app_root_is_below_the_boundary(entries, ppid, passed);
        }
    }
}

/// With a process its children on record come to the front, session roots
/// excepted.
pub proof fn children_come_to_front_with_their_parent(t: ProcessTable, hint: u32, p: u32, c: u32)
    requires
        comes_to_front(t, hint, p),
        t.kids(p).contains(c),
        t.entries().dom().contains(c),
        !at_boundary(t.entries(), c),
    ensures
        comes_to_front(t, hint, c),
{
    let root = foreground_root(t.entries(), hint);
    let n = choose|n: nat| #[trigger] process_table::reaches(t, root, p, n);
    assert(process_table::reaches(t, root, c, n + 1));
}

/// Whether the walk up goes on from a process to its parent: the process is
/// known and no session root, and the parent is neither pid 0 nor pid 1, known,
/// no session root and not in the realtime tier.
pub open spec fn goes_on(entries: Map<u32, EntryView>, pid: u32, parent: u32) -> bool {
    &&& entries.dom().contains(pid)
    &&& !session_roots().contains(entries[pid].info.comm)
    &&& parent == entries[pid].info.ppid
    &&& parent != 0
    &&& parent != 1
    &&& entries.dom().contains(parent)
    &&& !session_roots().contains(entries[parent].info.comm)
    &&& !(entries[parent].info.cgroup_path matches Some(cg) && text::ends_with(cg, "/rt"@))
}

/// Whether the walk up goes on from the process at position `i` to the next.
pub open spec fn goes_on_at(entries: Map<u32, EntryView>, way: Seq<u32>, i: int) -> bool {
    goes_on(entries, way[i], way[i + 1])
}

/// Whether `way` is a way up from its first process: from parent to parent,
/// with no process on it twice.
pub open spec fn is_way_up(entries: Map<u32, EntryView>, way: Seq<u32>) -> bool {
    &&& way.len() > 0
    &&& way.no_duplicates()
    &&& forall|i: int| 0 <= i < way.len() - 1 ==> #[trigger] goes_on_at(entries, way, i)
}

/// Whether the walk up cannot go on from the end of a way.
pub open spec fn ends_there(entries: Map<u32, EntryView>, way: Seq<u32>) -> bool {
    let last = way.last();
    !goes_on(entries, last, entries[last].info.ppid) || way.contains(entries[last].info.ppid)
}

proof fn lemma_way_up(entries: Map<u32, EntryView>, cur: u32, seen: Set<u32>) -> (way: Seq<u32>)
    requires
        entries.dom().finite(),
        !seen.contains(cur),
        !at_boundary(entries, cur),
    ensures
        is_way_up(entries, way),
        way[0] == cur,
        app_root_from(entries, cur, seen) == Some(way.last()),
        forall|i: int| 0 <= i < way.len() ==> !seen.contains(#[trigger] way[i]),
        ends_there(entries, way) || seen.contains(entries[way.last()].info.ppid),
    decreases entries.dom().difference(seen).len(),
{
    let alone = seq![cur];
    assert(alone[0] == cur);
    if !entries.dom().contains(cur) {
        alone
    } else {
        let ppid = entries[cur].info.ppid;
        let passed = seen.insert(cur);
        if ppid == 0 || ppid == 1 || passed.contains(ppid) || !entries.dom().contains(ppid)
            || at_boundary(entries, ppid) || in_rt_tier(entries[ppid]) {
            assert(ppid == cur ==> alone.contains(ppid));
            alone
        } else {
            lemma_less_ahead(entries.dom(), seen, cur);
            let rest = lemma_way_up(entries, ppid, passed);
            let way = seq![cur] + rest;
            assert(way.len() == rest.len() + 1);
            assert(way.last() == rest.last());
            assert(way[0] == cur && way[1] == rest[0]);
            assert forall|i: int| 0 <= i < way.len() implies !seen.contains(#[trigger] way[i]) by {
                if i > 0 {
                    assert(way[i] == rest[i - 1]);
                }
            }
            assert(!rest.contains(cur));
            assert(way.no_duplicates()) by {
                assert forall|i: int, j: int| 0 <= i < way.len() && 0 <= j < way.len() && i
                    != j implies way[i] != way[j] by {
                    if i > 0 {
                        assert(way[i] == rest[i - 1]);
                    }
                    if j > 0 {
                        assert(way[j] == rest[j - 1]);
                    }
                }
            }
            assert forall|i: int| 0 <= i < way.len() - 1 implies #[trigger] goes_on_at(
                entries,
                way,
                i,
            ) by {
                if i > 0 {
                    assert(goes_on_at(entries, rest, i - 1));
                    assert(way[i] == rest[i - 1] && way[i + 1] == rest[i]);
                }
            }
            let up = entries[way.last()].info.ppid;
            if rest.contains(up) {
                let k = choose|k: int| 0 <= k < rest.len() && rest[k] == up;
                assert(way[k + 1] == up);
            }
            assert(up == cur ==> way.contains(up));
            way
        }
    }
}

/// The root of an application is reached from the process by going from parent
/// to parent, and it is the topmost process that can be reached so: the walk
/// ends there only if the root is not known, or its parent is pid 0 or 1, or
/// not known, or a session root, or in the realtime tier, or was passed on the
/// way.
pub proof fn app_root_is_the_topmost(entries: Map<u32, EntryView>, pid: u32) -> (way: Seq<u32>)
    requires
        entries.dom().finite(),
        !(entries.dom().contains(pid) && session_roots().contains(entries[pid].info.comm)),
    ensures
        is_way_up(entries, way),
        ends_there(entries, way),
        way[0] == pid,
        app_root_from(entries, pid, Set::empty()) == Some(way.last()),
{
    lemma_way_up(entries, pid, Set::empty())
}

/// With every parent's children on record, the process that is brought to the
/// foreground comes there itself, and so does everything between it and the
/// root of its application.
pub proof fn focused_process_comes_to_front(t: ProcessTable, hint: u32)
    requires
        t.wf(),
        t.entries().dom().contains(hint),
        !session_roots().contains(t.entries()[hint].info.comm),
        forall|c: u32| #[trigger]
            t.entries().dom().contains(c) ==> t.kids(t.entries()[c].info.ppid).contains(c),
    ensures
        comes_to_front(t, hint, hint),
        comes_to_front(t, hint, foreground_root(t.entries(), hint)),
        has_foreground(t, hint),
{
    let entries = t.entries();
    let way = lemma_way_up(entries, hint, Set::empty());
    let root = way.last();
    let n = (way.len() - 1) as nat;
    lemma_way_down(t, way, n);
    assert(process_table::reaches(t, root, hint, n));
    assert(process_table::reaches(t, root, root, 0));
    if way.len() > 1 {
        assert(goes_on_at(entries, way, way.len() - 2));
    }
    assert(comes_to_front(t, hint, hint));
}

proof fn lemma_way_down(t: ProcessTable, way: Seq<u32>, n: nat)
    requires
        is_way_up(t.entries(), way),
        forall|c: u32| #[trigger]
            t.entries().dom().contains(c) ==> t.kids(t.entries()[c].info.ppid).contains(c),
        n < way.len(),
    ensures
        process_table::reaches(t, way.last(), way[way.len() - 1 - n], n),
    decreases n,
{
    if n > 0 {
        lemma_way_down(t, way, (n - 1) as nat);
        let i = way.len() - 1 - n;
        assert(goes_on_at(t.entries(), way, i));
        assert(way[i + 1] == way[way.len() - 1 - (n - 1)]);
        assert(t.kids(way[i + 1]).contains(way[i]));
    }
}

/// With the root of an application exactly those processes come to the front
/// that are the root or below it, known, and no session root.
pub proof fn whole_tree_comes_to_front(t: ProcessTable, hint: u32, root: u32, pid: u32)
    requires
        app_root_from(t.entries(), hint, Set::empty()) == Some(root),
    ensures
        comes_to_front(t, hint, pid) <==> t.entries().dom().contains(pid)
            && !session_roots().contains(t.entries()[pid].info.comm) && exists|n: nat| #[trigger]
            process_table::reaches(t, root, pid, n),
{
}

/// After a change the foreground holds exactly the processes that were
/// promoted. Of those that were there before, each that is not promoted is
/// demoted, or released if it is a session root; and no process is both
/// promoted and demoted.
pub proof fn change_accounts_for_every_process(
    before: ForegroundTracker,
    after: ForegroundTracker,
    t: ProcessTable,
    hint: u32,
    change: ForegroundChange,
    p: u32,
)
    requires
        front_changed(before, after, t, hint, change),
    ensures
        after.pids().contains(p) <==> change.promote@.contains(p),
        before.pids().contains(p) && !after.pids().contains(p) <==> change.demote@.contains(p)
            || change.release@.contains(p),
        change.demote@.contains(p) ==> before.pids().contains(p) && !change.promote@.contains(p)
            && !change.release@.contains(p),
        change.release@.contains(p) ==> before.pids().contains(p) && !change.promote@.contains(p)
            && t.entries().dom().contains(p) && session_roots().contains(
            t.entries()[p].info.comm,
        ),
{
    assert(after.pids().contains(p) <==> comes_to_front(t, hint, p));
    assert(change.promote@.contains(p) <==> comes_to_front(t, hint, p));
    assert(change.demote@.contains(p) <==> loses_front(t, hint, before.pids(), p) && !at_boundary(
        t.entries(),
        p,
    ));
    assert(change.release@.contains(p) <==> loses_front(t, hint, before.pids(), p) && at_boundary(
        t.entries(),
        p,
    ));
}

proof fn lemma_placed(pids: Seq<u32>, nice: i8, tier: CgroupTier, p: u32)
    requires
        pids.contains(p),
    ensures
        placements(pids, nice, tier).contains(Effect::Nice { pid: p, nice }),
        placements(pids, nice, tier).contains(Effect::Assign { pid: p, tier }),
    decreases pids.len(),
{
    let init = pids.drop_last();
    let head = placements(init, nice, tier);
    let all = placements(pids, nice, tier);
    if pids.last() == p {
        assert(all[head.len() as int] == Effect::Nice { pid: p, nice });
        assert(all[(head.len() + 1) as int] == Effect::Assign { pid: p, tier });
    } else {
        let k = choose|k: int| 0 <= k < pids.len() && pids[k] == p;
        assert(init[k] == p);
        lemma_placed(init, nice, tier, p);
        let a = choose|a: int| 0 <= a < head.len() && head[a] == Effect::Nice { pid: p, nice };
        let b = choose|b: int| 0 <= b < head.len() && head[b] == Effect::Assign { pid: p, tier };
        assert(all[a] == head[a] && all[b] == head[b]);
    }
}

proof fn lemma_placement(pids: Seq<u32>, nice: i8, tier: CgroupTier, i: int)
    requires
        0 <= i < placements(pids, nice, tier).len(),
    ensures
        match placements(pids, nice, tier)[i] {
            Effect::Nice { pid, nice: n } => pids.contains(pid) && n == nice,
            Effect::Assign { pid, tier: t } => pids.contains(pid) && t == tier,
            _ => false,
        },
    decreases pids.len(),
{
    let init = pids.drop_last();
    let head = placements(init, nice, tier);
    lemma_placements(pids, nice, tier, i);
    if i < head.len() {
        lemma_placement(init, nice, tier, i);
    }
}

/// Every promoted process gets nice -5 and goes to the interactive tier, every
/// demoted one gets nice 0 and goes to the system tier, and a released one gets
/// nice 0.
pub proof fn change_reaches_every_process(change: ForegroundChange, p: u32)
    ensures
        change.promote@.contains(p) ==> change_effects(change).contains(
            Effect::Nice { pid: p, nice: -5i8 },
        ) && change_effects(change).contains(
            Effect::Assign { pid: p, tier: CgroupTier::Interactive },
        ),
        change.demote@.contains(p) ==> change_effects(change).contains(
            Effect::Nice { pid: p, nice: 0 },
        ) && change_effects(change).contains(Effect::Assign { pid: p, tier: CgroupTier::System }),
        change.release@.contains(p) ==> change_effects(change).contains(
            Effect::Nice { pid: p, nice: 0 },
        ),
{
    let r = renices(change.release@, 0);
    let d = placements(change.demote@, 0, CgroupTier::System);
    let q = placements(change.promote@, -5i8, CgroupTier::Interactive);
    let all = change_effects(change);
    if change.promote@.contains(p) {
        lemma_placed(change.promote@, -5i8, CgroupTier::Interactive, p);
        let a = choose|a: int| 0 <= a < q.len() && q[a] == Effect::Nice { pid: p, nice: -5i8 };
        let b = choose|b: int|
            0 <= b < q.len() && q[b] == Effect::Assign { pid: p, tier: CgroupTier::Interactive };
        assert(all[r.len() + d.len() + a] == q[a]);
        assert(all[r.len() + d.len() + b] == q[b]);
    }
    if change.demote@.contains(p) {
        lemma_placed(change.demote@, 0, CgroupTier::System, p);
        let a = choose|a: int| 0 <= a < d.len() && d[a] == Effect::Nice { pid: p, nice: 0 };
        let b = choose|b: int|
            0 <= b < d.len() && d[b] == Effect::Assign { pid: p, tier: CgroupTier::System };
        assert(all[r.len() + a] == d[a]);
        assert(all[r.len() + b] == d[b]);
    }
    if change.release@.contains(p) {
        let k = choose|k: int| 0 <= k < change.release@.len() && change.release@[k] == p;
        assert(r[k] == Effect::Nice { pid: p, nice: 0 });
        assert(all[k] == r[k]);
    }
}

/// A change has no effect but those: what it moves to the interactive tier was
/// promoted, what it moves to the system tier was demoted, it moves nothing
/// elsewhere, and it sets no other nice levels, policies or scores.
pub proof fn change_has_no_other_effect(change: ForegroundChange, i: int)
    requires
        0 <= i < change_effects(change).len(),
    ensures
        match change_effects(change)[i] {
            Effect::Assign { pid, tier } => (tier == CgroupTier::Interactive
                && change.promote@.contains(pid)) || (tier == CgroupTier::System
                && change.demote@.contains(pid)),
            Effect::Nice { pid, nice } => (nice == -5 && change.promote@.contains(pid)) || (nice
                == 0 && (change.demote@.contains(pid) || change.release@.contains(pid))),
            _ => false,
        },
{
    let r = renices(change.release@, 0);
    let d = placements(change.demote@, 0, CgroupTier::System);
    if i < r.len() {
        assert(change.release@.contains(change.release@[i]));
    } else if i < r.len() + d.len() {
        lemma_placement(change.demote@, 0, CgroupTier::System, i - r.len());
    } else {
        lemma_placement(
            change.promote@,
            -5i8,
            CgroupTier::Interactive,
            i - r.len() - d.len(),
        );
    }
}

/// The compositors, window managers, display servers, session launchers,
/// session managers, display managers and init are session roots.
pub proof fn session_roots_are_complete()
    ensures
        session_roots().len() == 51,
        session_roots().contains("sway"@),
        session_roots().contains("kwin_wayland"@),
        session_roots().contains("kwin_x11"@),
        session_roots().contains("mutter"@),
        session_roots().contains("weston"@),
        session_roots().contains("gamescope"@),
        session_roots().contains("Hyprland"@),
        session_roots().contains("river"@),
        session_roots().contains("wayfire"@),
        session_roots().contains("labwc"@),
        session_roots().contains("openbox"@),
        session_roots().contains("i3"@),
        session_roots().contains("bspwm"@),
        session_roots().contains("herbstluftwm"@),
        session_roots().contains("qtile"@),
        session_roots().contains("awesome"@),
        session_roots().contains("xmonad"@),
        session_roots().contains("dwm"@),
        session_roots().contains("spectrwm"@),
        session_roots().contains("fluxbox"@),
        session_roots().contains("jwm"@),
        session_roots().contains("icewm"@),
        session_roots().contains("matchbox-window-manager"@),
        session_roots().contains("Xorg"@),
        session_roots().contains("X"@),
        session_roots().contains("Xwayland"@),
        session_roots().contains("dbus-run-session"@),
        session_roots().contains("dbus-launch"@),
        session_roots().contains("dbus-daemon"@),
        session_roots().contains("startx"@),
        session_roots().contains("xinit"@),
        session_roots().contains("sx"@),
        session_roots().contains("gnome-session"@),
        session_roots().contains("gnome-session-binary"@),
        session_roots().contains("plasma_session"@),
        session_roots().contains("startplasma-wayland"@),
        session_roots().contains("startplasma-x11"@),
        session_roots().contains("xfce4-session"@),
        session_roots().contains("lxsession"@),
        session_roots().contains("mate-session"@),
        session_roots().contains("openbox-session"@),
        session_roots().contains("i3-session"@),
        session_roots().contains("sddm"@),
        session_roots().contains("gdm"@),
        session_roots().contains("gdm3"@),
        session_roots().contains("lightdm"@),
        session_roots().contains("greetd"@),
        session_roots().contains("lxdm"@),
        session_roots().contains("slim"@),
        session_roots().contains("systemd"@),
        session_roots().contains("init"@),
{
    let s = session_roots();
    assert(s[0] == "sway"@);
    assert(s[1] == "kwin_wayland"@);
    assert(s[2] == "kwin_x11"@);
    assert(s[3] == "mutter"@);
    assert(s[4] == "weston"@);
    assert(s[5] == "gamescope"@);
    assert(s[6] == "Hyprland"@);
    assert(s[7] == "river"@);
    assert(s[8] == "wayfire"@);
    assert(s[9] == "labwc"@);
    assert(s[10] == "openbox"@);
    assert(s[11] == "i3"@);
    assert(s[12] == "bspwm"@);
    assert(s[13] == "herbstluftwm"@);
    assert(s[14] == "qtile"@);
    assert(s[15] == "awesome"@);
    assert(s[16] == "xmonad"@);
    assert(s[17] == "dwm"@);
    assert(s[18] == "spectrwm"@);
    assert(s[19] == "fluxbox"@);
    assert(s[20] == "jwm"@);
    assert(s[21] == "icewm"@);
    assert(s[22] == "matchbox-window-manager"@);
    assert(s[23] == "Xorg"@);
    assert(s[24] == "X"@);
    assert(s[25] == "Xwayland"@);
    assert(s[26] == "dbus-run-session"@);
    assert(s[27] == "dbus-launch"@);
    assert(s[28] == "dbus-daemon"@);
    assert(s[29] == "startx"@);
    assert(s[30] == "xinit"@);
    assert(s[31] == "sx"@);
    assert(s[32] == "gnome-session"@);
    assert(s[33] == "gnome-session-binary"@);
    assert(s[34] == "plasma_session"@);
    assert(s[35] == "startplasma-wayland"@);
    assert(s[36] == "startplasma-x11"@);
    assert(s[37] == "xfce4-session"@);
    assert(s[38] == "lxsession"@);
    assert(s[39] == "mate-session"@);
    assert(s[40] == "openbox-session"@);
    assert(s[41] == "i3-session"@);
    assert(s[42] == "sddm"@);
    assert(s[43] == "gdm"@);
    assert(s[44] == "gdm3"@);
    assert(s[45] == "lightdm"@);
    assert(s[46] == "greetd"@);
    assert(s[47] == "lxdm"@);
    assert(s[48] == "slim"@);
    assert(s[49] == "systemd"@);
    assert(s[50] == "init"@);
}

/// After a change exactly the processes of the application are in the
/// foreground: those that steps from parent to child lead to from its root,
/// without the session roots. The root is remembered.
pub proof fn front_is_the_application(
    before: ForegroundTracker,
    after: ForegroundTracker,
    t: ProcessTable,
    hint: u32,
    change: ForegroundChange,
    root: u32,
    p: u32,
)
    requires
        front_changed(before, after, t, hint, change),
        app_root_from(t.entries(), hint, Set::empty()) == Some(root),
    ensures
        after.root() == Some(root),
        after.pids().contains(p) <==> t.entries().dom().contains(p) && !session_roots().contains(
            t.entries()[p].info.comm,
        ) && exists|n: nat| #[trigger] process_table::reaches(t, root, p, n),
{
    whole_tree_comes_to_front(t, hint, root, p);
}

/// A session root does not come to the foreground, nor does what is not known
/// and has no known children.
pub proof fn session_root_is_no_foreground(t: ProcessTable, hint: u32, p: u32)
    ensures
        t.entries().dom().contains(hint) && session_roots().contains(t.entries()[hint].info.comm)
            ==> !has_foreground(t, hint),
        has_foreground(t, hint) ==> exists|pid: u32| #[trigger] comes_to_front(t, hint, pid),
        comes_to_front(t, hint, p) ==> t.entries().dom().contains(p) && !session_roots().contains(
            t.entries()[p].info.comm,
        ),
{
}

/// A session root belongs to no application, and what is not known is its own
/// root.
pub proof fn session_root_has_no_application(entries: Map<u32, EntryView>, pid: u32)
    requires
        entries.dom().finite(),
    ensures
        entries.dom().contains(pid) && session_roots().contains(entries[pid].info.comm)
            ==> app_root_from(entries, pid, Set::empty()) is None,
        !entries.dom().contains(pid) ==> app_root_from(entries, pid, Set::empty()) == Some(pid),
{
}

/// No process is promoted, demoted or released twice.
pub proof fn change_names_each_once(
    before: ForegroundTracker,
    after: ForegroundTracker,
    t: ProcessTable,
    hint: u32,
    change: ForegroundChange,
)
    requires
        front_changed(before, after, t, hint, change),
    ensures
        change.promote@.no_duplicates(),
        change.demote@.no_duplicates(),
        change.release@.no_duplicates(),
{
}

} // verus!
