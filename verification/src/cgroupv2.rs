//! The cgroup v2 hierarchy of the daemon.
//!
//! ```text
//! <root>/
//! ├── rt/           cpu.weight=9000  io.weight=9000  memory.oom.group=1
//! ├── interactive/  cpu.weight=5000
//! ├── system/       cpu.weight=2000
//! ├── background/   cpu.weight=500   io.weight=100
//! ├── idle/         cpu.weight=100   memory.high=256M
//! └── swapstorm/    cpu.weight=50    memory.max=128M  memory.swap.max=0  memory.oom.group=1
//! ```
//!
//! Every operation on the hierarchy is a list of writes, each a file and the
//! text to put into it.

use vstd::prelude::*;

use crate::path;
use crate::path::join_path;
use crate::text;
use crate::text::{format_u64, listed, owned, parse_u32, same, split_lines, split_words, trimmed, Space};

verus! {

// ---------------------------------------------------------------------------
// Writes
// ---------------------------------------------------------------------------

/// One write: a file and what to put into it.
#[derive(Clone, Debug, PartialEq, Eq)]
pub struct KnobWrite {
    pub path: String,
    pub value: String,
}

impl View for KnobWrite {
    type V = (Seq<char>, Seq<char>);

    open spec fn view(&self) -> (Seq<char>, Seq<char>) {
        (self.path@, self.value@)
    }
}

/// The files and texts of a list of writes.
pub open spec fn writes(v: Seq<KnobWrite>) -> Seq<(Seq<char>, Seq<char>)> {
    Seq::new(v.len(), |i: int| v[i]@)
}

/// A number on a line of its own.
pub open spec fn number_line(n: nat) -> Seq<char> {
    text::decimal(n).push('\n')
}

/// A number on a line of its own.
pub(crate) fn render_line(n: u64) -> (r: String)
    ensures
        r@ == number_line(n as nat),
{
    let mut r = format_u64(n);
    r.push('\n');
    r
}

/// `n`, moved into `low..=high` where it lies outside.
pub open spec fn clamped(n: int, low: int, high: int) -> int {
    if n < low {
        low
    } else if n > high {
        high
    } else {
        n
    }
}

fn clamp_weight(w: u32) -> (r: u32)
    ensures
        r == clamped(w as int, 1, 10_000),
{
    if w < 1 {
        1
    } else if w > 10_000 {
        10_000
    } else {
        w
    }
}

// ---------------------------------------------------------------------------
// A single cgroup
// ---------------------------------------------------------------------------

/// A single cgroup directory.
#[derive(Clone, Debug, PartialEq, Eq)]
pub struct Cgroup {
    pub path: String,
}

/// The write of `value` to the file `name` of the cgroup at `dir`.
pub open spec fn knob(dir: Seq<char>, name: Seq<char>, value: Seq<char>) -> (Seq<char>, Seq<char>) {
    (path::joined(dir, name), value)
}

/// The numbers on the first `n` lines, less the lines that hold none.
pub open spec fn pids_on_lines(lines: Seq<Seq<char>>, n: nat) -> Seq<u32>
    decreases n,
{
    if n == 0 {
        Seq::empty()
    } else {
        let done = pids_on_lines(lines, (n - 1) as nat);
        match text::unsigned_value(text::trim(lines[n - 1]), u32::MAX as nat) {
            Some(pid) => done.push(pid as u32),
            None => done,
        }
    }
}

/// The process ids that a `cgroup.procs` file lists, in order.
pub open spec fn listed_pids(content: Seq<char>) -> Seq<u32> {
    pids_on_lines(text::lines(content), text::lines(content).len())
}

impl Cgroup {
    /// The file `name` of this cgroup.
    pub fn file(&self, name: &str) -> (r: String)
        ensures
            r@ == path::joined(self.path@, name@),
    {
        join_path(self.path.as_str(), name)
    }

    /// The write of `value` to the file `name` of this cgroup.
    pub fn write(&self, name: &str, value: String) -> (r: KnobWrite)
        ensures
            r@ == knob(self.path@, name@, value@),
    {
        KnobWrite { path: self.file(name), value }
    }

    /// Puts a process into this cgroup.
    pub fn assign_pid(&self, pid: u32) -> (r: KnobWrite)
        ensures
            r@ == knob(self.path@, "cgroup.procs"@, number_line(pid as nat)),
    {
        self.write("cgroup.procs", render_line(pid as u64))
    }

    /// The processes that the text of a `cgroup.procs` file lists.
    pub fn pids(content: &str) -> (r: Vec<u32>)
        ensures
            r@ == listed_pids(content@),
    {
        let lines = split_lines(content);
        let ghost all = text::lines(content@);
        assert(text::texts(lines@).len() == lines@.len());
        let mut r: Vec<u32> = Vec::new();
        let mut i: usize = 0;
        while i < lines.len()
            invariant
                i <= lines@.len(),
                text::texts(lines@) == all,
                r@ == pids_on_lines(all, i as nat),
            decreases lines@.len() - i,
        {
            assert(all[i as int] == lines@[i as int]@);
            let line = trimmed(lines[i].as_str());
            match parse_u32(line.as_str()) {
                Some(pid) => {
                    r.push(pid);
                },
                None => {},
            }
            i = i + 1;
        }
        r
    }

    /// Kills every process of this cgroup.
    pub fn kill_all(&self) -> (r: KnobWrite)
        ensures
            r@ == knob(self.path@, "cgroup.kill"@, "1"@),
    {
        self.write("cgroup.kill", owned("1"))
    }

    /// Sets the CPU weight, within the kernel's `1..=10000`.
    pub fn set_cpu_weight(&self, weight: u32) -> (r: KnobWrite)
        ensures
            r@ == knob(
                self.path@,
                "cpu.weight"@,
                number_line(clamped(weight as int, 1, 10_000) as nat),
            ),
    {
        self.write("cpu.weight", render_line(clamp_weight(weight) as u64))
    }

    /// Sets the CPU bandwidth: `quota_us` of each `period_us`.
    pub fn set_cpu_max(&self, quota_us: u64, period_us: u64) -> (r: KnobWrite)
        ensures
            r@ == knob(
                self.path@,
                "cpu.max"@,
                text::decimal(quota_us as nat) + seq![' '] + number_line(period_us as nat),
            ),
    {
        let mut value = format_u64(quota_us);
        value.push(' ');
        let period = render_line(period_us);
        value.append(period.as_str());
        assert(value@ =~= text::decimal(quota_us as nat) + seq![' '] + number_line(
            period_us as nat,
        ));
        self.write("cpu.max", value)
    }

    /// Sets the memory throttling limit.
    pub fn set_memory_high(&self, bytes: u64) -> (r: KnobWrite)
        ensures
            r@ == knob(self.path@, "memory.high"@, number_line(bytes as nat)),
    {
        self.write("memory.high", render_line(bytes))
    }

    /// Sets the hard memory limit.
    pub fn set_memory_max(&self, bytes: u64) -> (r: KnobWrite)
        ensures
            r@ == knob(self.path@, "memory.max"@, number_line(bytes as nat)),
    {
        self.write("memory.max", render_line(bytes))
    }

    /// Sets the swap limit; zero disables swap.
    pub fn set_memory_swap_max(&self, bytes: u64) -> (r: KnobWrite)
        ensures
            r@ == knob(self.path@, "memory.swap.max"@, number_line(bytes as nat)),
    {
        self.write("memory.swap.max", render_line(bytes))
    }

    /// Sets the I/O weight, within the kernel's `1..=10000`.
    pub fn set_io_weight(&self, weight: u32) -> (r: KnobWrite)
        ensures
            r@ == knob(
                self.path@,
                "io.weight"@,
                number_line(clamped(weight as int, 1, 10_000) as nat),
            ),
    {
        self.write("io.weight", render_line(clamp_weight(weight) as u64))
    }

    /// Says whether the out-of-memory killer takes the cgroup as a whole.
    pub fn set_oom_group(&self, enable: bool) -> (r: KnobWrite)
        ensures
            r@ == knob(
                self.path@,
                "memory.oom.group"@,
                if enable {
                    "1\n"@
                } else {
                    "0\n"@
                },
            ),
    {
        self.write(
            "memory.oom.group",
            if enable {
                owned("1\n")
            } else {
                owned("0\n")
            },
        )
    }
}

// ---------------------------------------------------------------------------
// Tiers
// ---------------------------------------------------------------------------

/// The tiers that processes are sorted into.
#[derive(Clone, Copy, Debug, PartialEq, Eq, Hash, Structural)]
pub enum CgroupTier {
    Rt,
    Interactive,
    System,
    Background,
    Idle,
    Swapstorm,
}

/// The directory name of a tier.
pub open spec fn tier_name(tier: CgroupTier) -> Seq<char> {
    match tier {
        CgroupTier::Rt => "rt"@,
        CgroupTier::Interactive => "interactive"@,
        CgroupTier::System => "system"@,
        CgroupTier::Background => "background"@,
        CgroupTier::Idle => "idle"@,
        CgroupTier::Swapstorm => "swapstorm"@,
    }
}

/// The tier that `s` names.
pub open spec fn named_tier(s: Seq<char>) -> Option<CgroupTier> {
    if s == "rt"@ {
        Some(CgroupTier::Rt)
    } else if s == "interactive"@ {
        Some(CgroupTier::Interactive)
    } else if s == "system"@ {
        Some(CgroupTier::System)
    } else if s == "background"@ {
        Some(CgroupTier::Background)
    } else if s == "idle"@ {
        Some(CgroupTier::Idle)
    } else if s == "swapstorm"@ {
        Some(CgroupTier::Swapstorm)
    } else {
        None
    }
}

/// Every tier, in the order in which they are set up.
pub open spec fn tier_order() -> Seq<CgroupTier> {
    seq![
        CgroupTier::Rt,
        CgroupTier::Interactive,
        CgroupTier::System,
        CgroupTier::Background,
        CgroupTier::Idle,
        CgroupTier::Swapstorm,
    ]
}

impl CgroupTier {
    /// The name of the tier's directory.
    pub fn dir_name(self) -> (r: &'static str)
        ensures
            r@ == tier_name(self),
    {
        match self {
            CgroupTier::Rt => "rt",
            CgroupTier::Interactive => "interactive",
            CgroupTier::System => "system",
            CgroupTier::Background => "background",
            CgroupTier::Idle => "idle",
            CgroupTier::Swapstorm => "swapstorm",
        }
    }

    /// The tier with that directory name.
    pub fn from_str(s: &str) -> (r: Option<CgroupTier>)
        ensures
            r == named_tier(s@),
    {
        if same(s, "rt") {
            Some(CgroupTier::Rt)
        } else if same(s, "interactive") {
            Some(CgroupTier::Interactive)
        } else if same(s, "system") {
            Some(CgroupTier::System)
        } else if same(s, "background") {
            Some(CgroupTier::Background)
        } else if same(s, "idle") {
            Some(CgroupTier::Idle)
        } else if same(s, "swapstorm") {
            Some(CgroupTier::Swapstorm)
        } else {
            None
        }
    }
}

/// Every tier, in the order in which they are set up.
pub fn all_tiers() -> (r: Vec<CgroupTier>)
    ensures
        r@ == tier_order(),
{
    vec![
        CgroupTier::Rt,
        CgroupTier::Interactive,
        CgroupTier::System,
        CgroupTier::Background,
        CgroupTier::Idle,
        CgroupTier::Swapstorm,
    ]
}

/// The name of a tier names that tier.
pub proof fn tier_name_round_trip(tier: CgroupTier)
    ensures
        named_tier(tier_name(tier)) == Some(tier),
{
    reveal_strlit("rt");
    reveal_strlit("interactive");
    reveal_strlit("system");
    reveal_strlit("background");
    reveal_strlit("idle");
    reveal_strlit("swapstorm");
    assert("rt"@.len() == 2);
    assert("interactive"@.len() == 11);
    assert("system"@.len() == 6);
    assert("background"@.len() == 10);
    assert("idle"@.len() == 4);
    assert("swapstorm"@.len() == 9);
}

/// Only the name of a tier names it.
pub proof fn named_tier_has_that_name(s: Seq<char>)
    ensures
        named_tier(s) matches Some(tier) ==> tier_name(tier) == s,
{
}

/// Every tier stands in the setup order, and stands there once.
pub proof fn tier_order_is_complete(tier: CgroupTier)
    ensures
        tier_order().contains(tier),
        tier_order().no_duplicates(),
{
    let i: int = match tier {
        CgroupTier::Rt => 0,
        CgroupTier::Interactive => 1,
        CgroupTier::System => 2,
        CgroupTier::Background => 3,
        CgroupTier::Idle => 4,
        CgroupTier::Swapstorm => 5,
    };
    assert(tier_order()[i] == tier);
}

// ---------------------------------------------------------------------------
// Manager
// ---------------------------------------------------------------------------

/// What sets a tier up: its directory and the writes that configure it.
#[derive(Clone, Debug, PartialEq, Eq)]
pub struct TierSetup {
    pub dir: String,
    pub writes: Vec<KnobWrite>,
}

/// What takes the hierarchy down: the moves of processes back to the root
/// cgroup, and then the directories to remove.
#[derive(Clone, Debug, PartialEq, Eq)]
pub struct Teardown {
    pub moves: Vec<KnobWrite>,
    pub dirs: Vec<String>,
}

/// The root of a hierarchy that the daemon makes itself, with the writes that
/// enable the controllers above it.
#[derive(Clone, Debug, PartialEq, Eq)]
pub struct DirectRoot {
    pub root: String,
    pub writes: Vec<KnobWrite>,
}

/// The subtree of cgroups that the daemon manages.
#[derive(Clone, Debug, PartialEq, Eq)]
pub struct CgroupManager {
    /// The directory of the subtree.
    pub root: String,
    /// The controllers that the kernel offers there.
    pub controllers: Vec<String>,
    /// Whether a BPF scheduler is active, which leaves CPU weights alone.
    pub sched_ext_active: bool,
}

/// The CPU weight of each tier.
pub open spec fn cpu_weight(tier: CgroupTier) -> nat {
    match tier {
        CgroupTier::Rt => 9000,
        CgroupTier::Interactive => 5000,
        CgroupTier::System => 2000,
        CgroupTier::Background => 500,
        CgroupTier::Idle => 100,
        CgroupTier::Swapstorm => 50,
    }
}

/// What configures a tier besides its CPU weight.
pub open spec fn other_knobs(dir: Seq<char>, tier: CgroupTier) -> Seq<(Seq<char>, Seq<char>)> {
    match tier {
        CgroupTier::Rt => seq![
            knob(dir, "io.weight"@, number_line(9000)),
            knob(dir, "memory.oom.group"@, "1\n"@),
        ],
        CgroupTier::Interactive => Seq::empty(),
        CgroupTier::System => Seq::empty(),
        CgroupTier::Background => seq![knob(dir, "io.weight"@, number_line(100))],
        CgroupTier::Idle => seq![knob(dir, "memory.high"@, number_line(256 * 1024 * 1024))],
        CgroupTier::Swapstorm => seq![
            knob(dir, "memory.max"@, number_line(128 * 1024 * 1024)),
            knob(dir, "memory.swap.max"@, number_line(0)),
            knob(dir, "memory.oom.group"@, "1\n"@),
        ],
    }
}

/// The writes that configure a tier: its CPU weight, unless a BPF scheduler
/// is active, and its other limits.
pub open spec fn tier_knobs(dir: Seq<char>, tier: CgroupTier, sched_ext: bool) -> Seq<
    (Seq<char>, Seq<char>),
> {
    if sched_ext {
        other_knobs(dir, tier)
    } else {
        seq![knob(dir, "cpu.weight"@, number_line(cpu_weight(tier)))] + other_knobs(dir, tier)
    }
}

/// The setup of a tier below `root`.
pub open spec fn tier_setup(root: Seq<char>, tier: CgroupTier, sched_ext: bool) -> (
    Seq<char>,
    Seq<(Seq<char>, Seq<char>)>,
) {
    let dir = path::joined(root, tier_name(tier));
    (dir, tier_knobs(dir, tier, sched_ext))
}

impl View for TierSetup {
    type V = (Seq<char>, Seq<(Seq<char>, Seq<char>)>);

    open spec fn view(&self) -> (Seq<char>, Seq<(Seq<char>, Seq<char>)>) {
        (self.dir@, writes(self.writes@))
    }
}

/// The token that enables a controller, where the kernel offers it.
pub open spec fn enable_token(controllers: Seq<Seq<char>>, name: Seq<char>) -> Seq<Seq<char>> {
    if controllers.contains(name) {
        seq![seq!['+'] + name]
    } else {
        Seq::empty()
    }
}

/// The tokens that enable the controllers the daemon wants.
pub open spec fn enable_tokens(controllers: Seq<Seq<char>>) -> Seq<Seq<char>> {
    enable_token(controllers, "cpu"@) + enable_token(controllers, "memory"@) + enable_token(
        controllers,
        "io"@,
    ) + enable_token(controllers, "cpuset"@)
}

/// The cgroup of a tier, or the root cgroup.
pub open spec fn cgroup_path(root: Seq<char>, tier: Option<CgroupTier>) -> Seq<char> {
    match tier {
        Some(t) => path::joined(root, tier_name(t)),
        None => root,
    }
}

/// The tiers among the first `n` whose process list was read and is empty.
pub open spec fn empty_among(listings: Seq<Option<String>>, n: nat) -> Seq<CgroupTier>
    decreases n,
{
    if n == 0 {
        Seq::empty()
    } else {
        let done = empty_among(listings, (n - 1) as nat);
        if n <= listings.len() && (listings[n - 1] matches Some(content) && listed_pids(
            content@,
        ).len() == 0) {
            done.push(tier_order()[n - 1])
        } else {
            done
        }
    }
}

/// The directories of the tiers that are to be collected.
pub open spec fn empty_dirs(root: Seq<char>, listings: Seq<Option<String>>) -> Seq<Seq<char>> {
    let tiers = empty_among(listings, tier_order().len());
    Seq::new(tiers.len(), |i: int| cgroup_path(root, Some(tiers[i])))
}

proof fn lemma_empty_among(listings: Seq<Option<String>>, n: nat, i: int)
    requires
        n <= tier_order().len(),
        0 <= i < tier_order().len(),
    ensures
        empty_among(listings, n).contains(tier_order()[i]) <==> i < n && i < listings.len() && (
        listings[i] matches Some(content) && listed_pids(content@).len() == 0),
    decreases n,
{
    tier_order_is_complete(tier_order()[i]);
    if n > 0 {
        let done = empty_among(listings, (n - 1) as nat);
        lemma_empty_among(listings, (n - 1) as nat, i);
        let t = tier_order()[n - 1];
        if empty_among(listings, n) != done {
            assert(empty_among(listings, n) == done.push(t));
            assert(done.push(t)[done.len() as int] == t);
            if done.contains(tier_order()[i]) {
                let k = choose|k: int| 0 <= k < done.len() && done[k] == tier_order()[i];
                assert(done.push(t)[k] == tier_order()[i]);
            }
            if done.push(t).contains(tier_order()[i]) {
                let k = choose|k: int|
                    0 <= k < done.len() + 1 && done.push(t)[k] == tier_order()[i];
                if k < done.len() {
                    assert(done[k] == tier_order()[i]);
                }
            }
        }
    }
}

/// A tier is collected exactly when its process list was read and is empty: a
/// tier with processes, or one that could not be read, is left as it is.
pub proof fn only_empty_tiers_are_collected(listings: Seq<Option<String>>, i: int)
    requires
        0 <= i < tier_order().len(),
    ensures
        empty_among(listings, tier_order().len()).contains(tier_order()[i]) <==> i
            < listings.len() && (listings[i] matches Some(content) && listed_pids(
            content@,
        ).len() == 0),
{
    lemma_empty_among(listings, tier_order().len(), i);
}

/// Appends the token for a controller, where the kernel offers it.
fn push_token(tokens: &mut Vec<String>, controllers: &Vec<String>, name: &str)
    ensures
        text::texts(final(tokens)@) == text::texts(old(tokens)@) + enable_token(
            text::texts(controllers@),
            name@,
        ),
{
    if listed(controllers, name) {
        let mut t: String = String::new();
        t.push('+');
        t.append(name);
        assert(t@ =~= seq!['+'] + name@);
        tokens.push(t);
    }
    assert(text::texts(tokens@) =~= text::texts(old(tokens)@) + enable_token(
        text::texts(controllers@),
        name@,
    ));
}

impl CgroupManager {
    /// The manager of the hierarchy at `root`, where `available` is the text
    /// of its `cgroup.controllers` file.
    pub fn new(root: String, available: &str, sched_ext_active: bool) -> (r: CgroupManager)
        ensures
            r.root == root,
            text::texts(r.controllers@) == text::words(available@, Space::Unicode),
            r.sched_ext_active == sched_ext_active,
    {
        CgroupManager { root, controllers: read_available_controllers(available), sched_ext_active }
    }

    /// The cgroup of a tier.
    pub fn tier_cgroup(&self, tier: CgroupTier) -> (r: Cgroup)
        ensures
            r.path@ == cgroup_path(self.root@, Some(tier)),
    {
        Cgroup { path: join_path(self.root.as_str(), tier.dir_name()) }
    }

    /// The root cgroup of the hierarchy.
    pub fn root_cgroup(&self) -> (r: Cgroup)
        ensures
            r.path@ == cgroup_path(self.root@, None),
    {
        Cgroup { path: owned(self.root.as_str()) }
    }

    /// Puts a process into a tier, or into the root cgroup.
    pub fn assign_pid(&self, tier: Option<CgroupTier>, pid: u32) -> (r: KnobWrite)
        ensures
            r@ == knob(
                cgroup_path(self.root@, tier),
                "cgroup.procs"@,
                number_line(pid as nat),
            ),
    {
        let cgroup = match tier {
            Some(t) => self.tier_cgroup(t),
            None => self.root_cgroup(),
        };
        cgroup.assign_pid(pid)
    }

    /// The write that enables the wanted controllers for the tiers, if the
    /// kernel offers any of them.
    pub fn setup_hierarchy(&self) -> (r: Option<KnobWrite>)
        ensures
            ({
                let tokens = enable_tokens(text::texts(self.controllers@));
                match r {
                    Some(w) => tokens.len() > 0 && w@ == knob(
                        self.root@,
                        "cgroup.subtree_control"@,
                        text::join(tokens, " "@),
                    ),
                    None => tokens.len() == 0,
                }
            }),
    {
        let mut tokens: Vec<String> = Vec::new();
        assert(text::texts(tokens@) =~= Seq::empty());
        push_token(&mut tokens, &self.controllers, "cpu");
        push_token(&mut tokens, &self.controllers, "memory");
        push_token(&mut tokens, &self.controllers, "io");
        push_token(&mut tokens, &self.controllers, "cpuset");
        assert(text::texts(tokens@) =~= enable_tokens(text::texts(self.controllers@)));
        assert(text::texts(tokens@).len() == tokens@.len());
        if tokens.len() == 0 {
            return None;
        }
        let value = text::join_with(&tokens, " ");
        Some(self.root_cgroup().write("cgroup.subtree_control", value))
    }

    /// The directory of a tier and the writes that configure it.
    pub fn configure_tier(&self, tier: CgroupTier) -> (r: TierSetup)
        ensures
            r@ == tier_setup(self.root@, tier, self.sched_ext_active),
    {
        let cg = self.tier_cgroup(tier);
        let mut w: Vec<KnobWrite> = Vec::new();
        if !self.sched_ext_active {
            let weight: u32 = match tier {
                CgroupTier::Rt => 9000,
                CgroupTier::Interactive => 5000,
                CgroupTier::System => 2000,
                CgroupTier::Background => 500,
                CgroupTier::Idle => 100,
                CgroupTier::Swapstorm => 50,
            };
            w.push(cg.set_cpu_weight(weight));
        }
        match tier {
            CgroupTier::Rt => {
                w.push(cg.set_io_weight(9000));
                w.push(cg.set_oom_group(true));
            },
            CgroupTier::Interactive => {},
            CgroupTier::System => {},
            CgroupTier::Background => {
                w.push(cg.set_io_weight(100));
            },
            CgroupTier::Idle => {
                w.push(cg.set_memory_high(256 * 1024 * 1024));
            },
            CgroupTier::Swapstorm => {
                w.push(cg.set_memory_max(128 * 1024 * 1024));
                w.push(cg.set_memory_swap_max(0));
                w.push(cg.set_oom_group(true));
            },
        }
        assert(writes(w@) =~= tier_knobs(cg.path@, tier, self.sched_ext_active));
        TierSetup { dir: cg.path, writes: w }
    }

    /// The setup of every tier, in order.
    pub fn create_and_configure_tiers(&self) -> (r: Vec<TierSetup>)
        ensures
            r@.len() == tier_order().len(),
            forall|i: int|
                0 <= i < r@.len() ==> (#[trigger] r@[i])@ == tier_setup(
                    self.root@,
                    tier_order()[i],
                    self.sched_ext_active,
                ),
    {
        let tiers = all_tiers();
        let mut r: Vec<TierSetup> = Vec::new();
        let mut i: usize = 0;
        while i < tiers.len()
            invariant
                tiers@ == tier_order(),
                i <= tiers@.len(),
                r@.len() == i,
                forall|k: int|
                    0 <= k < i ==> (#[trigger] r@[k])@ == tier_setup(
                        self.root@,
                        tier_order()[k],
                        self.sched_ext_active,
                    ),
            decreases tiers@.len() - i,
        {
            r.push(self.configure_tier(tiers[i]));
            i = i + 1;
        }
        r
    }

    /// Collects the tiers without processes: their directories, which are to
    /// be removed. `listings` holds, tier by tier, what was read from
    /// `cgroup.procs`. A tier that is used again is set up again, see
    /// `configure_tier`.
    pub fn gc_empty_cgroups(&self, listings: &Vec<Option<String>>) -> (r: Vec<String>)
        ensures
            text::texts(r@) == empty_dirs(self.root@, listings@),
    {
        let tiers = all_tiers();
        let mut r: Vec<String> = Vec::new();
        let mut i: usize = 0;
        while i < tiers.len()
            invariant
                tiers@ == tier_order(),
                i <= tiers@.len(),
                r@.len() == empty_among(listings@, i as nat).len(),
                forall|k: int|
                    0 <= k < r@.len() ==> (#[trigger] r@[k])@ == cgroup_path(
                        self.root@,
                        Some(empty_among(listings@, i as nat)[k]),
                    ),
            decreases tiers@.len() - i,
        {
            if i < listings.len() {
                match &listings[i] {
                    Some(content) => {
                        let pids = Cgroup::pids(content.as_str());
                        if pids.len() == 0 {
                            let cg = self.tier_cgroup(tiers[i]);
                            r.push(cg.path);
                        }
                    },
                    None => {},
                }
            }
            i = i + 1;
        }
        assert(text::texts(r@) =~= empty_dirs(self.root@, listings@));
        r
    }

    /// Moves the given processes back to the root cgroup and removes the
    /// tiers.
    pub fn teardown(&self, pids: &Vec<u32>) -> (r: Teardown)
        ensures
            r.moves@.len() == pids@.len(),
            forall|i: int|
                0 <= i < pids@.len() ==> (#[trigger] r.moves@[i])@ == knob(
                    self.root@,
                    "cgroup.procs"@,
                    number_line(pids@[i] as nat),
                ),
            text::texts(r.dirs@) == Seq::new(
                tier_order().len(),
                |i: int| cgroup_path(self.root@, Some(tier_order()[i])),
            ),
    {
        let mut moves: Vec<KnobWrite> = Vec::new();
        let mut i: usize = 0;
        while i < pids.len()
            invariant
                i <= pids@.len(),
                moves@.len() == i,
                forall|k: int|
                    0 <= k < i ==> (#[trigger] moves@[k])@ == knob(
                        self.root@,
                        "cgroup.procs"@,
                        number_line(pids@[k] as nat),
                    ),
            decreases pids@.len() - i,
        {
            moves.push(self.assign_pid(None, pids[i]));
            i = i + 1;
        }
        let tiers = all_tiers();
        let mut dirs: Vec<String> = Vec::new();
        let mut k: usize = 0;
        while k < tiers.len()
            invariant
                tiers@ == tier_order(),
                k <= tiers@.len(),
                dirs@.len() == k,
                forall|j: int|
                    0 <= j < k ==> (#[trigger] dirs@[j])@ == cgroup_path(
                        self.root@,
                        Some(tier_order()[j]),
                    ),
            decreases tiers@.len() - k,
        {
            let cg = self.tier_cgroup(tiers[k]);
            dirs.push(cg.path);
            k = k + 1;
        }
        assert(text::texts(dirs@) =~= Seq::new(
            tier_order().len(),
            |i: int| cgroup_path(self.root@, Some(tier_order()[i])),
        ));
        Teardown { moves, dirs }
    }
}

/// The controllers that the text of a `cgroup.controllers` file names.
pub fn read_available_controllers(content: &str) -> (r: Vec<String>)
    ensures
        text::texts(r@) == text::words(content@, Space::Unicode),
{
    split_words(content, Space::Unicode)
}

/// The write that enables one controller in `file`.
fn enable_controller(file: &str, name: &str) -> (r: KnobWrite)
    ensures
        r@ == (file@, seq!['+'] + name@ + seq!['\n']),
{
    let mut value: String = String::new();
    value.push('+');
    value.append(name);
    value.push('\n');
    assert(value@ =~= seq!['+'] + name@ + seq!['\n']);
    KnobWrite { path: owned(file), value }
}

/// The hierarchy root for a system that delegates none to the daemon.
pub fn setup_direct_root() -> (r: DirectRoot)
    ensures
        r.root@ == "/sys/fs/cgroup/ulatencyd"@,
        writes(r.writes@) == ({
            let file = "/sys/fs/cgroup/cgroup.subtree_control"@;
            seq![
                (file, seq!['+'] + "cpu"@ + seq!['\n']),
                (file, seq!['+'] + "memory"@ + seq!['\n']),
                (file, seq!['+'] + "io"@ + seq!['\n']),
                (file, seq!['+'] + "cpuset"@ + seq!['\n']),
            ]
        }),
{
    let file = "/sys/fs/cgroup/cgroup.subtree_control";
    let mut w: Vec<KnobWrite> = Vec::new();
    w.push(enable_controller(file, "cpu"));
    w.push(enable_controller(file, "memory"));
    w.push(enable_controller(file, "io"));
    w.push(enable_controller(file, "cpuset"));
    assert(writes(w@) =~= seq![
        (file@, seq!['+'] + "cpu"@ + seq!['\n']),
        (file@, seq!['+'] + "memory"@ + seq!['\n']),
        (file@, seq!['+'] + "io"@ + seq!['\n']),
        (file@, seq!['+'] + "cpuset"@ + seq!['\n']),
    ]);
    DirectRoot { root: owned("/sys/fs/cgroup/ulatencyd"), writes: w }
}

/// Whether a BPF scheduler is active, from the text of
/// `/sys/kernel/sched_ext/state`, if that could be read.
pub fn detect_sched_ext(state: Option<&str>) -> (r: bool)
    ensures
        r == (state matches Some(s) && text::trim(s@) == "enabled"@),
{
    match state {
        Some(s) => {
            let t = trimmed(s);
            same(t.as_str(), "enabled")
        },
        None => false,
    }
}

/// A BPF scheduler keeps the daemon from writing CPU weights, and changes
/// nothing else of a tier's configuration.
pub proof fn sched_ext_only_drops_cpu_weight(dir: Seq<char>, tier: CgroupTier)
    ensures
        tier_knobs(dir, tier, false) == seq![
            knob(dir, "cpu.weight"@, number_line(cpu_weight(tier))),
        ] + tier_knobs(dir, tier, true),
        forall|i: int|
            0 <= i < tier_knobs(dir, tier, true).len() ==> (#[trigger] tier_knobs(
                dir,
                tier,
                true,
            )[i]).0 != path::joined(dir, "cpu.weight"@),
{
    reveal_strlit("cpu.weight");
    reveal_strlit("io.weight");
    reveal_strlit("memory.oom.group");
    reveal_strlit("memory.high");
    reveal_strlit("memory.max");
    reveal_strlit("memory.swap.max");
    assert("cpu.weight"@.len() == 10 && "cpu.weight"@[0] == 'c');
    assert("io.weight"@.len() == 9 && "io.weight"@[0] == 'i');
    assert("memory.oom.group"@.len() == 16 && "memory.oom.group"@[0] == 'm');
    assert("memory.high"@.len() == 11 && "memory.high"@[0] == 'm');
    assert("memory.max"@.len() == 10 && "memory.max"@[0] == 'm');
    assert("memory.swap.max"@.len() == 15 && "memory.swap.max"@[0] == 'm');
    lemma_joined_len(dir, "cpu.weight"@);
    lemma_joined_len(dir, "io.weight"@);
    lemma_joined_len(dir, "memory.oom.group"@);
    lemma_joined_len(dir, "memory.high"@);
    lemma_joined_len(dir, "memory.max"@);
    lemma_joined_len(dir, "memory.swap.max"@);
}

proof fn lemma_joined_len(dir: Seq<char>, name: Seq<char>)
    requires
        name.len() > 0,
        name[0] != '/',
    ensures
        ({
            let base = if dir.len() == 0 || dir.last() == '/' {
                dir.len()
            } else {
                dir.len() + 1
            };
            path::joined(dir, name).len() == base + name.len() && path::joined(
                dir,
                name,
            )[base as int] == name[0]
        }),
{
}

// ---------------------------------------------------------------------------
// Laws
// ---------------------------------------------------------------------------

/// Each tier has its name, and a cgroup of that name below the root.
pub proof fn tiers_have_their_names(root: Seq<char>)
    requires
        root.len() > 0,
        root.last() != '/',
    ensures
        tier_name(CgroupTier::Rt) == "rt"@,
        tier_name(CgroupTier::Interactive) == "interactive"@,
        tier_name(CgroupTier::System) == "system"@,
        tier_name(CgroupTier::Background) == "background"@,
        tier_name(CgroupTier::Idle) == "idle"@,
        tier_name(CgroupTier::Swapstorm) == "swapstorm"@,
        cgroup_path(root, Some(CgroupTier::Rt)) == root.push('/') + "rt"@,
        cgroup_path(root, Some(CgroupTier::Interactive)) == root.push('/') + "interactive"@,
        cgroup_path(root, Some(CgroupTier::System)) == root.push('/') + "system"@,
        cgroup_path(root, Some(CgroupTier::Background)) == root.push('/') + "background"@,
        cgroup_path(root, Some(CgroupTier::Idle)) == root.push('/') + "idle"@,
        cgroup_path(root, Some(CgroupTier::Swapstorm)) == root.push('/') + "swapstorm"@,
        cgroup_path(root, None) == root,
{
    reveal_strlit("rt");
    reveal_strlit("interactive");
    reveal_strlit("system");
    reveal_strlit("background");
    reveal_strlit("idle");
    reveal_strlit("swapstorm");
    path::joining_puts_one_slash(root, "rt"@);
    path::joining_puts_one_slash(root, "interactive"@);
    path::joining_puts_one_slash(root, "system"@);
    path::joining_puts_one_slash(root, "background"@);
    path::joining_puts_one_slash(root, "idle"@);
    path::joining_puts_one_slash(root, "swapstorm"@);
}

/// The tiers are kept in the order of their importance: a tier that comes
/// earlier has the greater share of the processor.
pub proof fn earlier_tiers_weigh_more(i: int, j: int)
    requires
        0 <= i < j < tier_order().len(),
    ensures
        cpu_weight(tier_order()[i]) > cpu_weight(tier_order()[j]),
        tier_order() == seq![
            CgroupTier::Rt,
            CgroupTier::Interactive,
            CgroupTier::System,
            CgroupTier::Background,
            CgroupTier::Idle,
            CgroupTier::Swapstorm,
        ],
        cpu_weight(CgroupTier::Rt) == 9000,
        cpu_weight(CgroupTier::Interactive) == 5000,
        cpu_weight(CgroupTier::System) == 2000,
        cpu_weight(CgroupTier::Background) == 500,
        cpu_weight(CgroupTier::Idle) == 100,
        cpu_weight(CgroupTier::Swapstorm) == 50,
{
}

/// A write goes to the file of that name in the directory, and a number is
/// written with its digits and a line break.
pub proof fn write_goes_to_the_file(dir: Seq<char>, name: Seq<char>, value: Seq<char>, n: nat)
    requires
        dir.len() > 0,
        dir.last() != '/',
        name.len() > 0,
        name[0] != '/',
    ensures
        knob(dir, name, value).0 == dir.push('/') + name,
        knob(dir, name, value).1 == value,
        number_line(n) == text::decimal(n) + seq!['\n'],
{
    path::joining_puts_one_slash(dir, name);
    assert(number_line(n) =~= text::decimal(n) + seq!['\n']);
}

/// Every tier gets its share of the processor, unless an extension of the
/// kernel schedules the processes; the most urgent tier gets its share of the
/// disks, the background tier a small one. Memory is limited in the idle tier,
/// and harder, without swap, in the swapstorm tier; there and in the most
/// urgent tier a kill takes all processes together.
pub proof fn tiers_have_their_limits(dir: Seq<char>, tier: CgroupTier)
    ensures
        tier_knobs(dir, tier, false) == seq![
            knob(dir, "cpu.weight"@, text::decimal(cpu_weight(tier)).push('\n')),
        ] + tier_knobs(dir, tier, true),
        tier_knobs(dir, CgroupTier::Rt, true) == seq![
            knob(dir, "io.weight"@, text::decimal(9000).push('\n')),
            knob(dir, "memory.oom.group"@, "1\n"@),
        ],
        tier_knobs(dir, CgroupTier::Interactive, true).len() == 0,
        tier_knobs(dir, CgroupTier::System, true).len() == 0,
        tier_knobs(dir, CgroupTier::Background, true) == seq![
            knob(dir, "io.weight"@, text::decimal(100).push('\n')),
        ],
        tier_knobs(dir, CgroupTier::Idle, true) == seq![
            knob(dir, "memory.high"@, text::decimal(268435456).push('\n')),
        ],
        tier_knobs(dir, CgroupTier::Swapstorm, true) == seq![
            knob(dir, "memory.max"@, text::decimal(134217728).push('\n')),
            knob(dir, "memory.swap.max"@, text::decimal(0).push('\n')),
            knob(dir, "memory.oom.group"@, "1\n"@),
        ],
{
}

/// A tier is set up in its own cgroup, and nowhere else.
pub proof fn tier_is_set_up_in_its_cgroup(
    root: Seq<char>,
    tier: CgroupTier,
    sched_ext: bool,
    i: int,
)
    requires
        root.len() > 0,
        root.last() != '/',
        0 <= i < tier_setup(root, tier, sched_ext).1.len(),
    ensures
        tier_setup(root, tier, sched_ext).0 == cgroup_path(root, Some(tier)),
        text::starts_with(
            tier_setup(root, tier, sched_ext).1[i].0,
            cgroup_path(root, Some(tier)).push('/'),
        ),
{
    let dir = cgroup_path(root, Some(tier));
    tiers_have_their_names(root);
    reveal_strlit("rt");
    reveal_strlit("interactive");
    reveal_strlit("system");
    reveal_strlit("background");
    reveal_strlit("idle");
    reveal_strlit("swapstorm");
    assert(dir.last() != '/');
    lemma_knob_within(dir, "cpu.weight"@);
    lemma_knob_within(dir, "io.weight"@);
    lemma_knob_within(dir, "memory.oom.group"@);
    lemma_knob_within(dir, "memory.high"@);
    lemma_knob_within(dir, "memory.max"@);
    lemma_knob_within(dir, "memory.swap.max"@);
    reveal_strlit("cpu.weight");
    reveal_strlit("io.weight");
    reveal_strlit("memory.oom.group");
    reveal_strlit("memory.high");
    reveal_strlit("memory.max");
    reveal_strlit("memory.swap.max");
    tiers_have_their_limits(dir, tier);
}

proof fn lemma_knob_within(dir: Seq<char>, name: Seq<char>)
    requires
        dir.len() > 0,
        dir.last() != '/',
    ensures
        name.len() > 0 && name[0] != '/' ==> text::starts_with(
            path::joined(dir, name),
            dir.push('/'),
        ),
{
    if name.len() > 0 && name[0] != '/' {
        path::joining_puts_one_slash(dir, name);
        text::parts_are_found(dir, dir.push('/'), name);
    }
}

/// A value is brought into its range and kept where it is within.
pub proof fn values_are_kept_in_range(n: int, low: int, high: int)
    requires
        low <= high,
    ensures
        low <= clamped(n, low, high) <= high,
        low <= n <= high ==> clamped(n, low, high) == n,
        n < low ==> clamped(n, low, high) == low,
        n > high ==> clamped(n, low, high) == high,
{
}

proof fn lemma_pids_concat(a: Seq<Seq<char>>, b: Seq<Seq<char>>, n: nat)
    requires
        n <= b.len(),
    ensures
        pids_on_lines(a + b, a.len() + n) == pids_on_lines(a, a.len()) + pids_on_lines(b, n),
    decreases n,
{
    if n == 0 {
        lemma_pids_prefix(a, a + b, a.len());
        assert(pids_on_lines(a, a.len()) + pids_on_lines(b, 0) =~= pids_on_lines(a, a.len()));
    } else {
        lemma_pids_concat(a, b, (n - 1) as nat);
        assert((a + b)[a.len() + n - 1] == b[n - 1]);
        assert(pids_on_lines(a + b, a.len() + n) =~= pids_on_lines(a, a.len()) + pids_on_lines(
            b,
            n,
        ));
    }
}

proof fn lemma_pids_prefix(a: Seq<Seq<char>>, b: Seq<Seq<char>>, n: nat)
    requires
        n <= a.len() <= b.len(),
        forall|i: int| 0 <= i < a.len() ==> #[trigger] a[i] == b[i],
    ensures
        pids_on_lines(a, n) == pids_on_lines(b, n),
    decreases n,
{
    if n > 0 {
        lemma_pids_prefix(a, b, (n - 1) as nat);
        assert(a[n - 1] == b[n - 1]);
    }
}

/// A list of processes is read line by line: each line with a number adds that
/// process, and each other line adds none.
pub proof fn each_line_lists_a_process(line: Seq<char>, rest: Seq<char>)
    requires
        !line.contains('\n'),
        line.len() > 0 ==> line.last() != '\r',
    ensures
        listed_pids(Seq::empty()) == Seq::<u32>::empty(),
        text::unsigned_value(text::trim(line), 0xffff_ffff) is None ==> listed_pids(
            line.push('\n') + rest,
        ) == listed_pids(rest),
        text::unsigned_value(text::trim(line), 0xffff_ffff) matches Some(pid) ==> listed_pids(
            line.push('\n') + rest,
        ) == seq![pid as u32] + listed_pids(rest),
{
    text::line_breaks_end_the_lines(line, rest);
    let first = seq![line];
    let others = text::lines(rest);
    lemma_pids_concat(first, others, others.len());
    assert(pids_on_lines(first, 1) == match text::unsigned_value(
        text::trim(line),
        u32::MAX as nat,
    ) {
        Some(pid) => pids_on_lines(first, 0).push(pid as u32),
        None => pids_on_lines(first, 0),
    });
    assert(pids_on_lines(first, 0) =~= Seq::<u32>::empty());
    assert(Seq::<u32>::empty() + listed_pids(rest) =~= listed_pids(rest));
    if let Some(pid) = text::unsigned_value(text::trim(line), u32::MAX as nat) {
        assert(Seq::<u32>::empty().push(pid as u32) =~= seq![pid as u32]);
    }
    assert(text::lines(Seq::empty()).len() == 0);
}

/// What is written to a list of processes is read back from it.
pub proof fn listed_processes_are_read_back(pid: u32, rest: Seq<char>)
    ensures
        listed_pids(number_line(pid as nat) + rest) == seq![pid] + listed_pids(rest),
{
    let line = text::decimal(pid as nat);
    text::decimal_is_digits(pid as nat);
    text::reading_undoes_writing(pid as nat, u32::MAX as nat);
    assert('0' <= line[0] <= '9');
    assert('0' <= line[line.len() - 1] <= '9');
    text::trimming_takes_the_spaces(Seq::empty(), line, Seq::empty());
    assert(Seq::<char>::empty() + line + Seq::<char>::empty() =~= line);
    assert(!line.contains('\n')) by {
        if line.contains('\n') {
            let i = choose|i: int| 0 <= i < line.len() && line[i] == '\n';
            assert('0' <= line[i] <= '9');
        }
    }
    each_line_lists_a_process(line, rest);
}

/// A controller is asked for exactly if it is one of the four that are used
/// and is available.
pub proof fn available_controllers_are_enabled(controllers: Seq<Seq<char>>, token: Seq<char>)
    ensures
        enable_tokens(controllers).contains(token) <==> exists|name: Seq<char>|
            #![trigger controllers.contains(name)]
            controllers.contains(name) && token == seq!['+'] + name && (name == "cpu"@ || name
                == "memory"@ || name == "io"@ || name == "cpuset"@),
{
    let a = enable_token(controllers, "cpu"@);
    let b = enable_token(controllers, "memory"@);
    let c = enable_token(controllers, "io"@);
    let d = enable_token(controllers, "cpuset"@);
    let all = enable_tokens(controllers);
    if all.contains(token) {
        let i = choose|i: int| 0 <= i < all.len() && all[i] == token;
        if i < a.len() {
            assert(a[i] == token);
            assert(controllers.contains("cpu"@));
        } else if i < a.len() + b.len() {
            assert(b[i - a.len()] == token);
            assert(controllers.contains("memory"@));
        } else if i < a.len() + b.len() + c.len() {
            assert(c[i - a.len() - b.len()] == token);
            assert(controllers.contains("io"@));
        } else {
            assert(d[i - a.len() - b.len() - c.len()] == token);
            assert(controllers.contains("cpuset"@));
        }
    }
    if controllers.contains("cpu"@) {
        assert(all[0] == seq!['+'] + "cpu"@);
    }
    if controllers.contains("memory"@) {
        assert(all[a.len() as int] == seq!['+'] + "memory"@);
    }
    if controllers.contains("io"@) {
        assert(all[(a.len() + b.len()) as int] == seq!['+'] + "io"@);
    }
    if controllers.contains("cpuset"@) {
        assert(all[(a.len() + b.len() + c.len()) as int] == seq!['+'] + "cpuset"@);
    }
}

/// Only the cgroups of tiers are collected, and of these exactly the ones
/// without a process.
pub proof fn only_empty_cgroups_are_collected(
    root: Seq<char>,
    listings: Seq<Option<String>>,
    dir: Seq<char>,
)
    ensures
        empty_dirs(root, listings).contains(dir) <==> exists|i: int|
            #![trigger tier_order()[i]]
            0 <= i < 6 && i < listings.len() && dir == cgroup_path(root, Some(tier_order()[i])) && (
            listings[i] matches Some(content) && listed_pids(content@).len() == 0),
{
    let tiers = empty_among(listings, tier_order().len());
    let dirs = empty_dirs(root, listings);
    if dirs.contains(dir) {
        let k = choose|k: int| 0 <= k < dirs.len() && dirs[k] == dir;
        assert(tiers.contains(tiers[k]));
        tier_order_is_complete(tiers[k]);
        let i = choose|i: int| 0 <= i < tier_order().len() && tier_order()[i] == tiers[k];
        only_empty_tiers_are_collected(listings, i);
        assert(dir == cgroup_path(root, Some(tier_order()[i])));
    }
    assert forall|i: int|
        #![trigger tier_order()[i]]
        0 <= i < 6 && i < listings.len() && dir == cgroup_path(root, Some(tier_order()[i])) && (
        listings[i] matches Some(content) && listed_pids(content@).len()
            == 0) implies dirs.contains(dir) by {
        only_empty_tiers_are_collected(listings, i);
        let k = choose|k: int| 0 <= k < tiers.len() && tiers[k] == tier_order()[i];
        assert(dirs[k] == dir);
    }
}

} // verus!
