//! What an action does to a process.
//!
//! An action is turned into a list of effects, which the program carries out
//! one by one.

use vstd::prelude::*;

use crate::cgroupv2;
use crate::cgroupv2::{render_line, CgroupTier, KnobWrite};
use crate::info;
use crate::info::{read_cgroup_v2, SCHED_BATCH, SCHED_FIFO, SCHED_IDLE, SCHED_NORMAL, SCHED_RR};
use crate::rules::{Action, ActionView};
use crate::text;
use crate::text::{format_i64, format_u64, same};

verus! {

/// One thing to do to a process.
#[derive(Clone, Copy, Debug, PartialEq, Eq, Structural)]
pub enum Effect {
    /// Move it to a tier.
    Assign { pid: u32, tier: CgroupTier },
    /// Set its nice level.
    Nice { pid: u32, nice: i8 },
    /// Set its scheduling policy and priority.
    Sched { pid: u32, policy: i32, priority: i32 },
    /// Set its OOM score adjustment.
    Oom { pid: u32, adj: i32 },
}

/// The process that an effect is about.
pub open spec fn effect_pid(e: Effect) -> u32 {
    match e {
        Effect::Assign { pid, .. } => pid,
        Effect::Nice { pid, .. } => pid,
        Effect::Sched { pid, .. } => pid,
        Effect::Oom { pid, .. } => pid,
    }
}

/// What an action comes to: its effects, in order, and whether everything in
/// it was understood.
#[derive(Clone, Debug, PartialEq, Eq)]
pub struct ActionPlan {
    pub effects: Vec<Effect>,
    pub valid: bool,
}

/// A realtime priority, held to what a policy takes: 1 to 99.
pub open spec fn rt_priority(priority: u8) -> i32 {
    if priority < 1 {
        1
    } else if priority > 99 {
        99
    } else {
        priority as i32
    }
}

/// The policy and priority that a policy name stands for.
pub open spec fn sched_choice(policy: Seq<char>, priority: u8) -> Option<(i32, i32)> {
    if policy == "normal"@ || policy == "other"@ {
        Some((SCHED_NORMAL, 0i32))
    } else if policy == "batch"@ {
        Some((SCHED_BATCH, 0i32))
    } else if policy == "idle"@ {
        Some((SCHED_IDLE, 0i32))
    } else if policy == "fifo"@ {
        Some((SCHED_FIFO, rt_priority(priority)))
    } else if policy == "rr"@ || policy == "round_robin"@ {
        Some((SCHED_RR, rt_priority(priority)))
    } else {
        None
    }
}

/// The policy and priority that a policy name stands for. Only the realtime
/// policies take a priority.
pub fn set_sched_policy(policy: &str, priority: u8) -> (r: Option<(i32, i32)>)
    ensures
        r == sched_choice(policy@, priority),
{
    let rt: i32 = if priority < 1 {
        1
    } else if priority > 99 {
        99
    } else {
        priority as i32
    };
    if same(policy, "normal") || same(policy, "other") {
        Some((SCHED_NORMAL, 0))
    } else if same(policy, "batch") {
        Some((SCHED_BATCH, 0))
    } else if same(policy, "idle") {
        Some((SCHED_IDLE, 0))
    } else if same(policy, "fifo") {
        Some((SCHED_FIFO, rt))
    } else if same(policy, "rr") || same(policy, "round_robin") {
        Some((SCHED_RR, rt))
    } else {
        None
    }
}

/// The move that an action asks for: none if it names no tier or an unknown
/// one.
pub open spec fn cgroup_effects(pid: u32, a: ActionView) -> Seq<Effect> {
    match a.cgroup {
        Some(name) => match cgroupv2::named_tier(name) {
            Some(tier) => seq![Effect::Assign { pid, tier }],
            None => Seq::empty(),
        },
        None => Seq::empty(),
    }
}

/// Whether the tier that an action names, if it names one, is known.
pub open spec fn cgroup_valid(a: ActionView) -> bool {
    a.cgroup matches Some(name) ==> cgroupv2::named_tier(name) is Some
}

/// The change of nice level that an action asks for.
pub open spec fn nice_effects(pid: u32, a: ActionView) -> Seq<Effect> {
    match a.nice {
        Some(nice) => seq![Effect::Nice { pid, nice }],
        None => Seq::empty(),
    }
}

/// The policy that an action asks for. A missing priority counts as 0.
pub open spec fn wanted_policy(a: ActionView) -> Option<(i32, i32)> {
    match a.sched_policy {
        Some(policy) => sched_choice(
            policy,
            match a.sched_priority {
                Some(p) => p,
                None => 0,
            },
        ),
        None => None,
    }
}

/// The change of policy that an action asks for.
pub open spec fn sched_effects(pid: u32, a: ActionView) -> Seq<Effect> {
    match wanted_policy(a) {
        Some(choice) => seq![Effect::Sched { pid, policy: choice.0, priority: choice.1 }],
        None => Seq::empty(),
    }
}

/// The change of OOM score that an action asks for.
pub open spec fn oom_effects(pid: u32, a: ActionView) -> Seq<Effect> {
    match a.oom_score_adj {
        Some(adj) => seq![Effect::Oom { pid, adj }],
        None => Seq::empty(),
    }
}

/// Everything that an action does, in order.
pub open spec fn action_effects(pid: u32, a: ActionView) -> Seq<Effect> {
    cgroup_effects(pid, a) + nice_effects(pid, a) + sched_effects(pid, a) + oom_effects(pid, a)
}

/// Whether everything in an action is understood.
pub open spec fn action_valid(a: ActionView) -> bool {
    cgroup_valid(a) && (a.sched_policy is Some ==> wanted_policy(a) is Some)
}

/// What an action does to a process.
///
/// A tier or policy with an unknown name is left out and makes the plan
/// invalid; the other parts are carried out all the same.
pub fn apply_action(pid: u32, action: &Action) -> (r: ActionPlan)
    ensures
        r.effects@ == action_effects(pid, action@),
        r.valid == action_valid(action@),
{
    let mut plan = apply_cgroup_only(pid, action);
    if let Some(nice) = action.nice {
        plan.effects.push(Effect::Nice { pid, nice });
    }
    assert(plan.effects@ =~= cgroup_effects(pid, action@) + nice_effects(pid, action@));
    if let Some(policy) = &action.sched_policy {
        let priority: u8 = match action.sched_priority {
            Some(p) => p,
            None => 0,
        };
        match set_sched_policy(policy.as_str(), priority) {
            Some((policy, priority)) => {
                plan.effects.push(Effect::Sched { pid, policy, priority });
            },
            None => {
                plan.valid = false;
            },
        }
    }
    assert(plan.effects@ =~= cgroup_effects(pid, action@) + nice_effects(pid, action@)
        + sched_effects(pid, action@));
    if let Some(adj) = action.oom_score_adj {
        plan.effects.push(Effect::Oom { pid, adj });
    }
    assert(plan.effects@ =~= action_effects(pid, action@));
    plan
}

/// The part of an action that also holds for the children of a process: the
/// tier alone.
pub fn apply_cgroup_only(pid: u32, action: &Action) -> (r: ActionPlan)
    ensures
        r.effects@ == cgroup_effects(pid, action@),
        r.valid == cgroup_valid(action@),
{
    let mut effects: Vec<Effect> = Vec::new();
    let mut valid = true;
    if let Some(name) = &action.cgroup {
        match CgroupTier::from_str(name.as_str()) {
            Some(tier) => {
                effects.push(Effect::Assign { pid, tier });
            },
            None => {
                valid = false;
            },
        }
    }
    assert(effects@ =~= cgroup_effects(pid, action@));
    ActionPlan { effects, valid }
}

/// The cgroup v2 path of a process, without the mount point, from the text of
/// its `cgroup` file.
pub fn read_current_cgroup(content: &str) -> (r: Option<String>)
    ensures
        text::opt_text(r) == info::unified_path(content@),
{
    read_cgroup_v2(content)
}

/// The write that moves a process back to a cgroup path.
pub open spec fn restore_write(pid: u32, cgroup_path: Seq<char>) -> (Seq<char>, Seq<char>) {
    (
        "/sys/fs/cgroup"@ + cgroup_path + "/cgroup.procs"@,
        cgroupv2::number_line(pid as nat),
    )
}

/// Moves a process back to a cgroup path.
pub fn restore_cgroup(pid: u32, cgroup_path: &str) -> (r: KnobWrite)
    ensures
        r@ == restore_write(pid, cgroup_path@),
{
    let mut path: String = String::new();
    path.append("/sys/fs/cgroup");
    path.append(cgroup_path);
    path.append("/cgroup.procs");
    assert(path@ =~= "/sys/fs/cgroup"@ + cgroup_path@ + "/cgroup.procs"@);
    KnobWrite { path, value: render_line(pid as u64) }
}

/// The write that sets the OOM score adjustment of a process, held to -1000
/// to 1000.
pub fn set_oom_score_adj(pid: u32, adj: i32) -> (r: KnobWrite)
    ensures
        r@ == (
            "/proc/"@ + text::decimal(pid as nat) + "/oom_score_adj"@,
            text::signed_decimal(cgroupv2::clamped(adj as int, -1000, 1000)) + seq!['\n'],
        ),
{
    let held: i64 = if adj < -1000 {
        -1000
    } else if adj > 1000 {
        1000
    } else {
        adj as i64
    };
    let mut path: String = String::new();
    path.append("/proc/");
    let digits = format_u64(pid as u64);
    path.append(digits.as_str());
    path.append("/oom_score_adj");
    assert(path@ =~= "/proc/"@ + text::decimal(pid as nat) + "/oom_score_adj"@);
    let mut value = format_i64(held);
    value.push('\n');
    assert(value@ =~= text::signed_decimal(held as int) + seq!['\n']);
    KnobWrite { path, value }
}

/// An action touches only the process it is applied to.
pub proof fn action_touches_one_process(pid: u32, a: ActionView, i: int)
    requires
        0 <= i < action_effects(pid, a).len(),
    ensures
        effect_pid(action_effects(pid, a)[i]) == pid,
{
}

/// An action never asks for a priority outside 1 to 99 with a realtime policy,
/// nor for a priority with any other.
pub proof fn priorities_fit_policies(policy: Seq<char>, priority: u8)
    ensures
        sched_choice(policy, priority) matches Some(c) ==> if c.0 == SCHED_FIFO || c.0 == SCHED_RR {
            1 <= c.1 <= 99
        } else {
            c.1 == 0
        },
{
}

/// What an action comes to: it sets the nice level and the score that it
/// names, moves the process if it names a known tier, and sets the policy if it
/// names a known one; and it does nothing else.
pub proof fn action_does_what_it_says(pid: u32, a: ActionView, e: Effect)
    ensures
        action_effects(pid, a).contains(e) <==> match e {
            Effect::Assign { pid: p, tier } => p == pid && (a.cgroup matches Some(name)
                && cgroupv2::named_tier(name) == Some(tier)),
            Effect::Nice { pid: p, nice } => p == pid && a.nice == Some(nice),
            Effect::Sched { pid: p, policy, priority } => p == pid && (
            a.sched_policy matches Some(name) && sched_choice(
                name,
                if a.sched_priority is Some {
                    a.sched_priority->0
                } else {
                    0
                },
            ) == Some((policy, priority))),
            Effect::Oom { pid: p, adj } => p == pid && a.oom_score_adj == Some(adj),
        },
{
    let c = cgroup_effects(pid, a);
    let n = nice_effects(pid, a);
    let s = sched_effects(pid, a);
    let o = oom_effects(pid, a);
    let all = action_effects(pid, a);
    if c.len() > 0 {
        assert(all[0] == c[0]);
    }
    if n.len() > 0 {
        assert(all[c.len() as int] == n[0]);
    }
    if s.len() > 0 {
        assert(all[(c.len() + n.len()) as int] == s[0]);
    }
    if o.len() > 0 {
        assert(all[(c.len() + n.len() + s.len()) as int] == o[0]);
    }
}

/// The move comes first, then the nice level, the policy and the score, each
/// at most once.
pub proof fn effects_come_in_order(pid: u32, a: ActionView, i: int, j: int)
    requires
        0 <= i < j < action_effects(pid, a).len(),
    ensures
        action_effects(pid, a).len() <= 4,
        effect_rank(action_effects(pid, a)[i]) < effect_rank(action_effects(pid, a)[j]),
{
}

/// The place of an effect among those of one action.
pub open spec fn effect_rank(e: Effect) -> int {
    match e {
        Effect::Assign { .. } => 0,
        Effect::Nice { .. } => 1,
        Effect::Sched { .. } => 2,
        Effect::Oom { .. } => 3,
    }
}

/// Only the move of an action is passed on to other processes.
pub proof fn only_the_move_is_passed_on(pid: u32, a: ActionView, e: Effect)
    ensures
        cgroup_effects(pid, a).len() <= 1,
        cgroup_effects(pid, a).contains(e) <==> (e matches Effect::Assign { pid: p, tier } && p
            == pid && (a.cgroup matches Some(name) && cgroupv2::named_tier(name) == Some(tier))),
{
    let effects = cgroup_effects(pid, a);
    if let Some(name) = a.cgroup {
        if let Some(tier) = cgroupv2::named_tier(name) {
            assert(effects[0] == (Effect::Assign { pid, tier }));
        }
    }
    if effects.contains(e) {
        let i = choose|i: int| 0 <= i < effects.len() && effects[i] == e;
        assert(effects[i] == e);
    }
}

/// An action is understood unless it names a tier or a policy that does not
/// exist.
pub proof fn action_is_understood(a: ActionView)
    ensures
        action_valid(a) <==> (a.cgroup matches Some(name) ==> cgroupv2::named_tier(name) is Some)
            && (a.sched_policy matches Some(name) ==> sched_choice(name, 0) is Some),
{
}

/// The policies by name, with the numbers that the kernel has for them. A
/// realtime policy takes the priority as it is where it is from 1 to 99, and
/// the nearest of these otherwise; the others take none.
pub proof fn policies_have_their_numbers(name: Seq<char>, priority: u8)
    ensures
        sched_choice("normal"@, priority) == Some((0i32, 0i32)),
        sched_choice("other"@, priority) == Some((0i32, 0i32)),
        sched_choice("batch"@, priority) == Some((3i32, 0i32)),
        sched_choice("idle"@, priority) == Some((5i32, 0i32)),
        1 <= priority <= 99 ==> sched_choice("fifo"@, priority) == Some((1i32, priority as i32)),
        1 <= priority <= 99 ==> sched_choice("rr"@, priority) == Some((2i32, priority as i32)),
        sched_choice("round_robin"@, priority) == sched_choice("rr"@, priority),
        sched_choice("fifo"@, 0) == Some((1i32, 1i32)),
        sched_choice("rr"@, 0) == Some((2i32, 1i32)),
        priority > 99 ==> sched_choice("fifo"@, priority) == Some((1i32, 99i32)) && sched_choice(
            "rr"@,
            priority,
        ) == Some((2i32, 99i32)),
        name != "normal"@ && name != "other"@ && name != "batch"@ && name != "idle"@ && name
            != "fifo"@ && name != "rr"@ && name != "round_robin"@ ==> sched_choice(
            name,
            priority,
        ) is None,
{
    reveal_strlit("normal");
    reveal_strlit("other");
    reveal_strlit("batch");
    reveal_strlit("idle");
    reveal_strlit("fifo");
    reveal_strlit("rr");
    reveal_strlit("round_robin");
    assert("normal"@.len() == 6 && "other"@.len() == 5 && "batch"@.len() == 5 && "idle"@.len() == 4
        && "fifo"@.len() == 4 && "rr"@.len() == 2 && "round_robin"@.len() == 11);
    assert("other"@[0] == 'o' && "batch"@[0] == 'b' && "idle"@[0] == 'i' && "fifo"@[0] == 'f');
}

/// A process is put back by writing its pid to the process list of the cgroup.
pub proof fn putting_back_writes_the_pid(pid: u32, cgroup_path: Seq<char>)
    ensures
        restore_write(pid, cgroup_path).0 == "/sys/fs/cgroup"@ + cgroup_path + "/cgroup.procs"@,
        restore_write(pid, cgroup_path).1 == text::decimal(pid as nat).push('\n'),
{
}

} // verus!
