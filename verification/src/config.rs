//! The configuration of the daemon.
//!
//! Every key has a default: what a configuration file leaves out, a section or
//! a key within one, keeps it. The thresholds for pressure are fractions and
//! stay with the program.

use vstd::prelude::*;

use crate::text;
use crate::text::owned;

verus! {

// ---------------------------------------------------------------------------
// Sections
// ---------------------------------------------------------------------------

/// General settings.
#[derive(Clone, Debug)]
pub struct DaemonConfig {
    pub log_level: String,
    pub pid_file: String,
    pub rules_dir: Vec<String>,
    pub rescan_interval_secs: u64,
    pub apply_to_existing_processes: bool,
}

/// The directories with rule files, in the order of precedence.
pub open spec fn default_rules_dir() -> Seq<Seq<char>> {
    seq!["/etc/ulatencyd/rules"@, "/usr/lib/ulatencyd/rules"@]
}

impl Default for DaemonConfig {
    fn default() -> (r: DaemonConfig)
        ensures
            r.log_level@ == "info"@,
            r.pid_file@ == "/run/ulatencyd.pid"@,
            text::texts(r.rules_dir@) == default_rules_dir(),
            r.rescan_interval_secs == 30,
            r.apply_to_existing_processes,
    {
        let rules_dir: Vec<String> = vec![
            owned("/etc/ulatencyd/rules"),
            owned("/usr/lib/ulatencyd/rules"),
        ];
        assert(text::texts(rules_dir@) =~= default_rules_dir());
        DaemonConfig {
            log_level: owned("info"),
            pid_file: owned("/run/ulatencyd.pid"),
            rules_dir,
            rescan_interval_secs: 30,
            apply_to_existing_processes: true,
        }
    }
}

/// Settings for the cgroup hierarchy.
#[derive(Clone, Debug)]
pub struct CgroupsConfig {
    /// The root of the hierarchy, where it is not to be detected.
    pub cgroup_root: Option<String>,
}

impl Default for CgroupsConfig {
    fn default() -> (r: CgroupsConfig)
        ensures
            r.cgroup_root is None,
    {
        CgroupsConfig { cgroup_root: None }
    }
}

/// Settings for the fork-bomb detector.
#[derive(Clone, Copy, Debug, PartialEq, Eq, Structural)]
pub struct ForkBombConfig {
    pub threshold_per_second: u32,
    pub lineage_depth: u32,
}

impl Default for ForkBombConfig {
    fn default() -> (r: ForkBombConfig)
        ensures
            r.threshold_per_second == 50,
            r.lineage_depth == 5,
    {
        ForkBombConfig { threshold_per_second: 50, lineage_depth: 5 }
    }
}

/// Settings for the scheduler.
#[derive(Clone, Copy, Debug, PartialEq, Eq, Structural)]
pub struct SchedConfig {
    /// Whether automatic task grouping stays enabled.
    pub autogroup_enabled: bool,
    /// Whether CPU weights are left alone while a BPF scheduler is active.
    pub detect_and_defer: bool,
}

impl Default for SchedConfig {
    fn default() -> (r: SchedConfig)
        ensures
            !r.autogroup_enabled,
            r.detect_and_defer,
    {
        SchedConfig { autogroup_enabled: false, detect_and_defer: true }
    }
}

/// Settings for the control socket.
#[derive(Clone, Debug)]
pub struct ControlSocketConfig {
    pub enabled: bool,
    pub path: String,
    /// The group whose members may connect.
    pub group: String,
}

impl Default for ControlSocketConfig {
    fn default() -> (r: ControlSocketConfig)
        ensures
            r.enabled,
            r.path@ == "/run/ulatencyd/control.sock"@,
            r.group@ == "ulatencyd"@,
    {
        ControlSocketConfig {
            enabled: true,
            path: owned("/run/ulatencyd/control.sock"),
            group: owned("ulatencyd"),
        }
    }
}

/// The whole configuration.
#[derive(Clone, Debug)]
pub struct Config {
    pub daemon: DaemonConfig,
    pub cgroups: CgroupsConfig,
    pub fork_bomb: ForkBombConfig,
    pub sched: SchedConfig,
    pub control_socket: ControlSocketConfig,
}

/// Whether every setting has its default.
pub open spec fn is_default(c: Config) -> bool {
    agrees_with_keys(c, no_keys())
}

impl Default for Config {
    fn default() -> (r: Config)
        ensures
            is_default(r),
    {
        Config {
            daemon: DaemonConfig::default(),
            cgroups: CgroupsConfig::default(),
            fork_bomb: ForkBombConfig::default(),
            sched: SchedConfig::default(),
            control_socket: ControlSocketConfig::default(),
        }
    }
}

// ---------------------------------------------------------------------------
// Keys of a file
// ---------------------------------------------------------------------------

/// The keys that a configuration file has set.
#[derive(Clone, Debug)]
pub struct ConfigKeys {
    pub log_level: Option<String>,
    pub pid_file: Option<String>,
    pub rules_dir: Option<Vec<String>>,
    pub rescan_interval_secs: Option<u64>,
    pub apply_to_existing_processes: Option<bool>,
    pub cgroup_root: Option<String>,
    pub threshold_per_second: Option<u32>,
    pub lineage_depth: Option<u32>,
    pub autogroup_enabled: Option<bool>,
    pub detect_and_defer: Option<bool>,
    pub socket_enabled: Option<bool>,
    pub socket_path: Option<String>,
    pub socket_group: Option<String>,
}

/// The keys of an empty file.
pub open spec fn no_keys() -> ConfigKeys {
    ConfigKeys {
        log_level: None,
        pid_file: None,
        rules_dir: None,
        rescan_interval_secs: None,
        apply_to_existing_processes: None,
        cgroup_root: None,
        threshold_per_second: None,
        lineage_depth: None,
        autogroup_enabled: None,
        detect_and_defer: None,
        socket_enabled: None,
        socket_path: None,
        socket_group: None,
    }
}

/// A setting: what the file says, or else the default.
pub open spec fn set_or<A>(key: Option<A>, default: A) -> A {
    match key {
        Some(v) => v,
        None => default,
    }
}

/// A text: what the file says, or else the default.
pub open spec fn text_or(key: Option<String>, default: Seq<char>) -> Seq<char> {
    match key {
        Some(s) => s@,
        None => default,
    }
}

/// Whether every setting is what the file says, or its default where the file
/// says nothing.
pub open spec fn agrees_with_keys(c: Config, k: ConfigKeys) -> bool {
    &&& c.daemon.log_level@ == text_or(k.log_level, "info"@)
    &&& c.daemon.pid_file@ == text_or(k.pid_file, "/run/ulatencyd.pid"@)
    &&& text::texts(c.daemon.rules_dir@) == (match k.rules_dir {
        Some(v) => text::texts(v@),
        None => default_rules_dir(),
    })
    &&& c.daemon.rescan_interval_secs == set_or(k.rescan_interval_secs, 30)
    &&& c.daemon.apply_to_existing_processes == set_or(k.apply_to_existing_processes, true)
    &&& text::opt_text(c.cgroups.cgroup_root) == text::opt_text(k.cgroup_root)
    &&& c.fork_bomb.threshold_per_second == set_or(k.threshold_per_second, 50)
    &&& c.fork_bomb.lineage_depth == set_or(k.lineage_depth, 5)
    &&& c.sched.autogroup_enabled == set_or(k.autogroup_enabled, false)
    &&& c.sched.detect_and_defer == set_or(k.detect_and_defer, true)
    &&& c.control_socket.enabled == set_or(k.socket_enabled, true)
    &&& c.control_socket.path@ == text_or(k.socket_path, "/run/ulatencyd/control.sock"@)
    &&& c.control_socket.group@ == text_or(k.socket_group, "ulatencyd"@)
}

fn choose_text(key: Option<String>, default: String) -> (r: String)
    ensures
        r@ == text_or(key, default@),
{
    match key {
        Some(s) => s,
        None => default,
    }
}

fn choose_value<A: Copy>(key: Option<A>, default: A) -> (r: A)
    ensures
        r == set_or(key, default),
{
    match key {
        Some(v) => v,
        None => default,
    }
}

impl Config {
    /// The configuration that a file with these keys asks for.
    pub fn load(keys: ConfigKeys) -> (r: Config)
        ensures
            agrees_with_keys(r, keys),
    {
        let base = Config::default();
        Config {
            daemon: DaemonConfig {
                log_level: choose_text(keys.log_level, base.daemon.log_level),
                pid_file: choose_text(keys.pid_file, base.daemon.pid_file),
                rules_dir: match keys.rules_dir {
                    Some(v) => v,
                    None => base.daemon.rules_dir,
                },
                rescan_interval_secs: choose_value(
                    keys.rescan_interval_secs,
                    base.daemon.rescan_interval_secs,
                ),
                apply_to_existing_processes: choose_value(
                    keys.apply_to_existing_processes,
                    base.daemon.apply_to_existing_processes,
                ),
            },
            cgroups: CgroupsConfig { cgroup_root: keys.cgroup_root },
            fork_bomb: ForkBombConfig {
                threshold_per_second: choose_value(
                    keys.threshold_per_second,
                    base.fork_bomb.threshold_per_second,
                ),
                lineage_depth: choose_value(keys.lineage_depth, base.fork_bomb.lineage_depth),
            },
            sched: SchedConfig {
                autogroup_enabled: choose_value(
                    keys.autogroup_enabled,
                    base.sched.autogroup_enabled,
                ),
                detect_and_defer: choose_value(keys.detect_and_defer, base.sched.detect_and_defer),
            },
            control_socket: ControlSocketConfig {
                enabled: choose_value(keys.socket_enabled, base.control_socket.enabled),
                path: choose_text(keys.socket_path, base.control_socket.path),
                group: choose_text(keys.socket_group, base.control_socket.group),
            },
        }
    }

    /// The configuration of a file, or the defaults where it could not be
    /// read.
    pub fn load_or_default(keys: Option<ConfigKeys>) -> (r: Config)
        ensures
            match keys {
                Some(k) => agrees_with_keys(r, k),
                None => is_default(r),
            },
    {
        match keys {
            Some(k) => Config::load(k),
            None => Config::default(),
        }
    }
}

/// A key that is set is taken as it is, and one that is not has its default,
/// whatever the other keys say.
pub proof fn keys_are_taken(c: Config, k: ConfigKeys)
    requires
        agrees_with_keys(c, k),
    ensures
        k.log_level matches Some(v) ==> c.daemon.log_level@ == v@,
        k.log_level is None ==> c.daemon.log_level@ == "info"@,
        k.pid_file matches Some(v) ==> c.daemon.pid_file@ == v@,
        k.pid_file is None ==> c.daemon.pid_file@ == "/run/ulatencyd.pid"@,
        k.rules_dir matches Some(v) ==> text::texts(c.daemon.rules_dir@) == text::texts(v@),
        k.rules_dir is None ==> text::texts(c.daemon.rules_dir@) == seq![
            "/etc/ulatencyd/rules"@,
            "/usr/lib/ulatencyd/rules"@,
        ],
        k.rescan_interval_secs matches Some(v) ==> c.daemon.rescan_interval_secs == v,
        k.rescan_interval_secs is None ==> c.daemon.rescan_interval_secs == 30,
        k.apply_to_existing_processes matches Some(v) ==> c.daemon.apply_to_existing_processes == v,
        k.apply_to_existing_processes is None ==> c.daemon.apply_to_existing_processes,
        k.cgroup_root matches Some(v) ==> (c.cgroups.cgroup_root matches Some(r) && r@ == v@),
        k.cgroup_root is None ==> c.cgroups.cgroup_root is None,
        k.threshold_per_second matches Some(v) ==> c.fork_bomb.threshold_per_second == v,
        k.threshold_per_second is None ==> c.fork_bomb.threshold_per_second == 50,
        k.lineage_depth matches Some(v) ==> c.fork_bomb.lineage_depth == v,
        k.lineage_depth is None ==> c.fork_bomb.lineage_depth == 5,
        k.autogroup_enabled matches Some(v) ==> c.sched.autogroup_enabled == v,
        k.autogroup_enabled is None ==> !c.sched.autogroup_enabled,
        k.detect_and_defer matches Some(v) ==> c.sched.detect_and_defer == v,
        k.detect_and_defer is None ==> c.sched.detect_and_defer,
        k.socket_enabled matches Some(v) ==> c.control_socket.enabled == v,
        k.socket_enabled is None ==> c.control_socket.enabled,
        k.socket_path matches Some(v) ==> c.control_socket.path@ == v@,
        k.socket_path is None ==> c.control_socket.path@ == "/run/ulatencyd/control.sock"@,
        k.socket_group matches Some(v) ==> c.control_socket.group@ == v@,
        k.socket_group is None ==> c.control_socket.group@ == "ulatencyd"@,
{
}

/// Without a file every key has its default.
pub proof fn defaults_hold_without_a_file(c: Config)
    requires
        is_default(c),
    ensures
        c.daemon.log_level@ == "info"@,
        c.daemon.pid_file@ == "/run/ulatencyd.pid"@,
        text::texts(c.daemon.rules_dir@) == seq![
            "/etc/ulatencyd/rules"@,
            "/usr/lib/ulatencyd/rules"@,
        ],
        c.daemon.rescan_interval_secs == 30,
        c.daemon.apply_to_existing_processes,
        c.cgroups.cgroup_root is None,
        c.fork_bomb.threshold_per_second == 50,
        c.fork_bomb.lineage_depth == 5,
        !c.sched.autogroup_enabled,
        c.sched.detect_and_defer,
        c.control_socket.enabled,
        c.control_socket.path@ == "/run/ulatencyd/control.sock"@,
        c.control_socket.group@ == "ulatencyd"@,
{
    keys_are_taken(c, no_keys());
}

} // verus!
