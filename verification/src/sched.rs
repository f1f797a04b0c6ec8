//! Scheduler tuning and power-aware profile switching.
//!
//! There are two scheduling profiles: a responsive one for mains power and a
//! conservative one for battery. A machine counts as running on battery only
//! when a battery is discharging and no mains adapter is online.

use vstd::prelude::*;

use crate::cgroupv2;
use crate::cgroupv2::{render_line, KnobWrite};
use crate::text;
use crate::text::{owned, same, same_text_ignoring_case, trimmed};

verus! {

// ---------------------------------------------------------------------------
// Profiles
// ---------------------------------------------------------------------------

/// The knobs of a scheduling profile.
#[derive(Clone, Debug)]
pub struct SchedProfile {
    /// Scheduling period in nanoseconds. Lower is more responsive.
    pub latency_ns: u64,
    /// The least time that a task runs before preemption.
    pub min_granularity_ns: u64,
    /// How far ahead a waking task must be to preempt the current one.
    pub wakeup_granularity_ns: u64,
    /// The size of a bandwidth slice in microseconds.
    pub bandwidth_slice_us: u64,
    /// The preemption model of the kernel.
    pub preempt: Option<&'static str>,
}

/// Whether a profile is the responsive one.
pub open spec fn is_responsive(p: SchedProfile) -> bool {
    &&& p.latency_ns == 4_000_000
    &&& p.min_granularity_ns == 750_000
    &&& p.wakeup_granularity_ns == 1_000_000
    &&& p.bandwidth_slice_us == 3_000
    &&& p.preempt matches Some(m) && m@ == "full"@
}

/// Whether a profile is the conservative one.
pub open spec fn is_conservative(p: SchedProfile) -> bool {
    &&& p.latency_ns == 6_000_000
    &&& p.min_granularity_ns == 500_000
    &&& p.wakeup_granularity_ns == 750_000
    &&& p.bandwidth_slice_us == 5_000
    &&& p.preempt matches Some(m) && m@ == "voluntary"@
}

/// The profile for mains power.
pub fn responsive() -> (r: SchedProfile)
    ensures
        is_responsive(r),
{
    SchedProfile {
        latency_ns: 4_000_000,
        min_granularity_ns: 750_000,
        wakeup_granularity_ns: 1_000_000,
        bandwidth_slice_us: 3_000,
        preempt: Some("full"),
    }
}

/// The profile for battery.
pub fn conservative() -> (r: SchedProfile)
    ensures
        is_conservative(r),
{
    SchedProfile {
        latency_ns: 6_000_000,
        min_granularity_ns: 500_000,
        wakeup_granularity_ns: 750_000,
        bandwidth_slice_us: 5_000,
        preempt: Some("voluntary"),
    }
}

/// Where the power comes from.
#[derive(Clone, Copy, Debug, PartialEq, Eq, Structural)]
pub enum PowerState {
    AC,
    Battery,
}

/// The profile for a power source.
pub fn profile_for(power: PowerState) -> (r: SchedProfile)
    ensures
        match power {
            PowerState::Battery => is_conservative(r),
            PowerState::AC => is_responsive(r),
        },
{
    match power {
        PowerState::Battery => conservative(),
        PowerState::AC => responsive(),
    }
}

// ---------------------------------------------------------------------------
// Autogroup
// ---------------------------------------------------------------------------

/// The setting of automatic task grouping before it was disabled.
#[derive(Clone, Debug)]
pub struct AutogroupGuard {
    original_value: String,
}

/// The file of the setting.
pub open spec fn autogroup_path() -> Seq<char> {
    "/proc/sys/kernel/sched_autogroup_enabled"@
}

impl AutogroupGuard {
    /// The saved setting.
    pub closed spec fn original(&self) -> Seq<char> {
        self.original_value@
    }

    /// Saves the current setting, enabled if it could not be read, and gives
    /// the write that disables grouping.
    pub fn disable(current: Option<String>) -> (r: (AutogroupGuard, KnobWrite))
        ensures
            r.0.original() == (match current {
                Some(s) => s@,
                None => "1\n"@,
            }),
            r.1@ == (autogroup_path(), "0\n"@),
    {
        let original_value = match current {
            Some(s) => s,
            None => owned("1\n"),
        };
        (
            AutogroupGuard { original_value },
            KnobWrite {
                path: owned("/proc/sys/kernel/sched_autogroup_enabled"),
                value: owned("0\n"),
            },
        )
    }

    /// The write that restores the saved setting.
    pub fn restore(&self) -> (r: KnobWrite)
        ensures
            r@ == (autogroup_path(), self.original()),
    {
        KnobWrite {
            path: owned("/proc/sys/kernel/sched_autogroup_enabled"),
            value: owned(self.original_value.as_str()),
        }
    }
}

// ---------------------------------------------------------------------------
// Probes
// ---------------------------------------------------------------------------

/// The file of the preemption model, which differs by kernel: the first
/// candidate that exists.
pub fn preempt_model_path(new_exists: bool, old_exists: bool) -> (r: Option<&'static str>)
    ensures
        match r {
            Some(p) => if new_exists {
                p@ == "/sys/kernel/debug/sched/preempt"@
            } else {
                old_exists && p@ == "/sys/kernel/debug/preempt"@
            },
            None => !new_exists && !old_exists,
        },
{
    if new_exists {
        Some("/sys/kernel/debug/sched/preempt")
    } else if old_exists {
        Some("/sys/kernel/debug/preempt")
    } else {
        None
    }
}

/// The write that tells whether the preemption model can be switched: the
/// current model is written back unchanged. If there is nothing to write, it
/// cannot.
pub fn probe_preempt_model_switchable(path: Option<&str>, current: Option<&str>) -> (r: Option<
    KnobWrite,
>)
    ensures
        match r {
            Some(w) => path matches Some(p) && (current matches Some(c) && w@ == (
                p@,
                text::trim(c@),
            )),
            None => path is None || current is None,
        },
{
    match path {
        Some(p) => match current {
            Some(c) => Some(KnobWrite { path: owned(p), value: trimmed(c) }),
            None => None,
        },
        None => None,
    }
}

// ---------------------------------------------------------------------------
// Applying a profile
// ---------------------------------------------------------------------------

/// The write that sets a kernel parameter.
pub open spec fn sysctl(key: Seq<char>, value: u64) -> (Seq<char>, Seq<char>) {
    ("/proc/sys/"@ + key, cgroupv2::number_line(value as nat))
}

/// The write that sets a kernel parameter.
pub fn write_sysctl(key: &str, value: u64) -> (r: KnobWrite)
    ensures
        r@ == sysctl(key@, value),
{
    let mut path: String = String::new();
    path.append("/proc/sys/");
    path.append(key);
    assert(path@ =~= "/proc/sys/"@ + key@);
    KnobWrite { path, value: render_line(value) }
}

/// The latency knobs of a profile: one on kernels that have it, two others on
/// those that do not.
pub open spec fn latency_writes(p: SchedProfile, latency_available: bool) -> Seq<
    (Seq<char>, Seq<char>),
> {
    if latency_available {
        seq![sysctl("kernel/sched_latency_ns"@, p.latency_ns)]
    } else {
        seq![
            sysctl("kernel/sched_min_granularity_ns"@, p.min_granularity_ns),
            sysctl("kernel/sched_wakeup_granularity_ns"@, p.wakeup_granularity_ns),
        ]
    }
}

/// The change of preemption model that a profile asks for.
pub open spec fn preempt_writes(
    p: SchedProfile,
    switchable: bool,
    preempt_path: Option<&str>,
) -> Seq<(Seq<char>, Seq<char>)> {
    match (p.preempt, preempt_path) {
        (Some(model), Some(path)) => if switchable {
            seq![(path@, model@)]
        } else {
            Seq::empty()
        },
        _ => Seq::empty(),
    }
}

/// All writes that a profile asks for, in order.
pub open spec fn profile_writes(
    p: SchedProfile,
    latency_available: bool,
    switchable: bool,
    preempt_path: Option<&str>,
) -> Seq<(Seq<char>, Seq<char>)> {
    seq![sysctl("kernel/sched_cfs_bandwidth_slice_us"@, p.bandwidth_slice_us)] + latency_writes(
        p,
        latency_available,
    ) + preempt_writes(p, switchable, preempt_path)
}

/// The writes that apply a profile, in order. Each of them may fail without
/// harm to the others.
pub fn apply_sched_profile(
    profile: &SchedProfile,
    sched_latency_ns_available: bool,
    preempt_switchable: bool,
    preempt_path: Option<&str>,
) -> (r: Vec<KnobWrite>)
    ensures
        cgroupv2::writes(r@) == profile_writes(
            *profile,
            sched_latency_ns_available,
            preempt_switchable,
            preempt_path,
        ),
{
    let mut w: Vec<KnobWrite> = Vec::new();
    w.push(write_sysctl("kernel/sched_cfs_bandwidth_slice_us", profile.bandwidth_slice_us));
    if sched_latency_ns_available {
        w.push(write_sysctl("kernel/sched_latency_ns", profile.latency_ns));
    } else {
        w.push(write_sysctl("kernel/sched_min_granularity_ns", profile.min_granularity_ns));
        w.push(write_sysctl("kernel/sched_wakeup_granularity_ns", profile.wakeup_granularity_ns));
    }
    if preempt_switchable {
        if let Some(model) = profile.preempt {
            if let Some(path) = preempt_path {
                w.push(KnobWrite { path: owned(path), value: owned(model) });
            }
        }
    }
    assert(cgroupv2::writes(w@) =~= profile_writes(
        *profile,
        sched_latency_ns_available,
        preempt_switchable,
        preempt_path,
    ));
    w
}

// ---------------------------------------------------------------------------
// Power state
// ---------------------------------------------------------------------------

/// What the kernel says of one power supply: the texts of its `type`,
/// `online` and `status` files, empty where a file could not be read.
#[derive(Clone, Debug)]
pub struct PowerSupply {
    pub kind: String,
    pub online: String,
    pub status: String,
}

/// Whether the supply is a mains adapter that is online.
pub open spec fn mains_online(s: PowerSupply) -> bool {
    text::trim(s.kind@) == "Mains"@ && text::trim(s.online@) == "1"@
}

/// Whether the supply is a battery that is discharging.
pub open spec fn discharging(s: PowerSupply) -> bool {
    text::trim(s.kind@) == "Battery"@ && text::same_ignoring_case(
        text::trim(s.status@),
        "discharging"@,
    )
}

/// Whether one of the supplies is a mains adapter that is online.
pub open spec fn some_mains_online(supplies: Seq<PowerSupply>) -> bool {
    exists|i: int| 0 <= i < supplies.len() && mains_online(#[trigger] supplies[i])
}

/// Whether one of the supplies is a battery that is discharging.
pub open spec fn some_discharging(supplies: Seq<PowerSupply>) -> bool {
    exists|i: int| 0 <= i < supplies.len() && discharging(#[trigger] supplies[i])
}

/// The power source: battery only when a battery is discharging and no mains
/// adapter is online. Without any information it is mains power.
pub fn detect_power_state_sysfs(supplies: Option<&Vec<PowerSupply>>) -> (r: PowerState)
    ensures
        (r == PowerState::Battery) <==> (supplies matches Some(v) && some_discharging(v@)
            && !some_mains_online(v@)),
{
    let v = match supplies {
        Some(v) => v,
        None => {
            return PowerState::AC;
        },
    };
    let mut any_ac_online = false;
    let mut any_bat_discharging = false;
    let mut i: usize = 0;
    while i < v.len()
        invariant
            i <= v@.len(),
            any_ac_online == exists|k: int| 0 <= k < i && mains_online(#[trigger] v@[k]),
            any_bat_discharging == exists|k: int| 0 <= k < i && discharging(#[trigger] v@[k]),
        decreases v@.len() - i,
    {
        let kind = trimmed(v[i].kind.as_str());
        proof {
            reveal_strlit("Mains");
            reveal_strlit("Battery");
            assert("Mains"@.len() == 5 && "Battery"@.len() == 7);
        }
        if same(kind.as_str(), "Mains") {
            let online = trimmed(v[i].online.as_str());
            if same(online.as_str(), "1") {
                assert(mains_online(v@[i as int]));
                any_ac_online = true;
            }
        } else if same(kind.as_str(), "Battery") {
            let status = trimmed(v[i].status.as_str());
            if same_text_ignoring_case(status.as_str(), "discharging") {
                assert(discharging(v@[i as int]));
                any_bat_discharging = true;
            }
        }
        i = i + 1;
    }
    if any_bat_discharging && !any_ac_online {
        PowerState::Battery
    } else {
        PowerState::AC
    }
}

/// The state to report after a poll: only a change is reported.
pub fn monitor_power_state(last: PowerState, polled: PowerState) -> (r: Option<PowerState>)
    ensures
        r == if last == polled {
            None
        } else {
            Some(polled)
        },
{
    if last == polled {
        None
    } else {
        Some(polled)
    }
}

/// A machine without a battery is never taken to run on battery.
pub proof fn no_battery_means_mains(supplies: Seq<PowerSupply>)
    requires
        forall|i: int|
            0 <= i < supplies.len() ==> text::trim((#[trigger] supplies[i]).kind@) != "Battery"@,
    ensures
        !some_discharging(supplies),
{
}

/// Where the preemption model cannot be switched, no profile touches it.
pub proof fn fixed_model_is_left_alone(
    p: SchedProfile,
    latency_available: bool,
    preempt_path: Option<&str>,
)
    ensures
        profile_writes(p, latency_available, false, preempt_path) == profile_writes(
            p,
            latency_available,
            true,
            None,
        ),
{
}

/// What the two profiles hold. On mains the latency is the lower one and
/// preemption is full; on battery it is voluntary.
pub proof fn profiles_differ_by_power(responsive: SchedProfile, conservative: SchedProfile)
    requires
        is_responsive(responsive),
        is_conservative(conservative),
    ensures
        responsive.latency_ns == 4_000_000,
        responsive.min_granularity_ns == 750_000,
        responsive.wakeup_granularity_ns == 1_000_000,
        responsive.bandwidth_slice_us == 3_000,
        responsive.preempt matches Some(m) && m@ == "full"@,
        conservative.latency_ns == 6_000_000,
        conservative.min_granularity_ns == 500_000,
        conservative.wakeup_granularity_ns == 750_000,
        conservative.bandwidth_slice_us == 5_000,
        conservative.preempt matches Some(m) && m@ == "voluntary"@,
        responsive.latency_ns < conservative.latency_ns,
        responsive.bandwidth_slice_us < conservative.bandwidth_slice_us,
{
}

/// A profile is applied knob by knob: the bandwidth slice always, the latency
/// where the kernel has that knob, the two granularities where it has not, and
/// the preemption model where it can be switched. Nothing else is written.
pub proof fn profile_is_written_knob_by_knob(
    p: SchedProfile,
    latency_available: bool,
    switchable: bool,
    preempt_path: Option<&str>,
    w: (Seq<char>, Seq<char>),
)
    ensures
        profile_writes(p, latency_available, switchable, preempt_path).contains(w) <==> {
            ||| w.0 == "/proc/sys/"@ + "kernel/sched_cfs_bandwidth_slice_us"@ && w.1
                == text::decimal(p.bandwidth_slice_us as nat).push('\n')
            ||| latency_available && w.0 == "/proc/sys/"@ + "kernel/sched_latency_ns"@ && w.1
                == text::decimal(p.latency_ns as nat).push('\n')
            ||| !latency_available && w.0 == "/proc/sys/"@ + "kernel/sched_min_granularity_ns"@
                && w.1 == text::decimal(p.min_granularity_ns as nat).push('\n')
            ||| !latency_available && w.0 == "/proc/sys/"@ + "kernel/sched_wakeup_granularity_ns"@
                && w.1 == text::decimal(p.wakeup_granularity_ns as nat).push('\n')
            ||| switchable && (preempt_path matches Some(f) && w.0 == f@) && (
            p.preempt matches Some(m) && w.1 == m@)
        },
{
    let all = profile_writes(p, latency_available, switchable, preempt_path);
    let second = latency_writes(p, latency_available);
    let third = preempt_writes(p, switchable, preempt_path);
    assert(all[0] == sysctl("kernel/sched_cfs_bandwidth_slice_us"@, p.bandwidth_slice_us));
    assert(all[1] == second[0]);
    if !latency_available {
        assert(all[2] == second[1]);
    }
    if third.len() > 0 {
        assert(all[(1 + second.len()) as int] == third[0]);
    }
    if all.contains(w) {
        let i = choose|i: int| 0 <= i < all.len() && all[i] == w;
        if i == 0 {
        } else if i < 1 + second.len() {
            assert(w == second[i - 1]);
        } else {
            assert(w == third[i - 1 - second.len()]);
        }
    }
}

/// Power comes from the mains if some mains adapter is online, and from a
/// battery if one is discharging; capital letters in its state do not matter.
pub proof fn supplies_tell_their_kind(s: PowerSupply)
    ensures
        mains_online(s) <==> text::trim(s.kind@) == "Mains"@ && text::trim(s.online@) == "1"@,
        discharging(s) ==> text::trim(s.kind@) == "Battery"@,
        text::trim(s.kind@) == "Battery"@ && (text::trim(s.status@) == "Discharging"@ || text::trim(
            s.status@,
        ) == "discharging"@) ==> discharging(s),
        discharging(s) ==> text::trim(s.status@).len() == 11,
        !(mains_online(s) && discharging(s)),
{
    reveal_strlit("Discharging");
    reveal_strlit("discharging");
    reveal_strlit("Mains");
    reveal_strlit("Battery");
    text::case_is_ignored_for_letters("Discharging"@, "discharging"@);
    assert("Mains"@[0] == 'M' && "Battery"@[0] == 'B');
}

/// More supplies never hide one: what some supply shows, it shows among others
/// too.
pub proof fn every_supply_counts(a: Seq<PowerSupply>, s: PowerSupply, b: Seq<PowerSupply>)
    ensures
        some_mains_online(a + seq![s] + b) <==> some_mains_online(a) || mains_online(s)
            || some_mains_online(b),
        some_discharging(a + seq![s] + b) <==> some_discharging(a) || discharging(s)
            || some_discharging(b),
{
    let all = a + seq![s] + b;
    assert forall|i: int| 0 <= i < a.len() implies all[i] == #[trigger] a[i] by {}
    assert(all[a.len() as int] == s);
    assert forall|i: int| 0 <= i < b.len() implies all[a.len() + 1 + i] == #[trigger] b[i] by {}
    assert forall|i: int| 0 <= i < all.len() implies (if i < a.len() {
        #[trigger] all[i] == a[i]
    } else if i == a.len() {
        all[i] == s
    } else {
        all[i] == b[i - a.len() - 1]
    }) by {}
}

/// The grouping of tasks that was found is put back.
pub proof fn grouping_has_its_file()
    ensures
        autogroup_path() == "/proc/sys/kernel/sched_autogroup_enabled"@,
{
}

} // verus!
