//! The command line client: what it says and what it checks.

use vstd::prelude::*;

use crate::cgroupv2;
use crate::cgroupv2::CgroupTier;
use crate::control::{ProcessRecord, StatusReply};
use crate::info::{SCHED_BATCH, SCHED_FIFO, SCHED_IDLE, SCHED_NORMAL, SCHED_RR};
use crate::path;
use crate::path::parent_path;
use crate::text;
use crate::text::{
    after_prefix, append_left, debug_quoted, format_i64, format_u64, owned, same,
};

verus! {

// ---------------------------------------------------------------------------
// Connection diagnostics
// ---------------------------------------------------------------------------

/// What was found out about a socket that could not be used.
#[derive(Clone, Debug, PartialEq, Eq)]
pub enum ConnectProbe {
    /// There is nothing at the path.
    Missing,
    /// The path cannot be reached: its directory is closed.
    Unreachable,
    /// Looking at the path failed otherwise, with this message.
    StatFailed(String),
    /// What stands there is no socket.
    NotASocket,
    /// A plain connection succeeds.
    Connects,
    /// A plain connection is denied.
    Denied,
    /// A plain connection is refused: nobody listens.
    Refused,
    /// A plain connection fails otherwise, with this message.
    ConnectFailed(String),
}

/// The path in the address of a socket.
pub open spec fn address_path(address: Seq<char>) -> Seq<char> {
    match text::strip_prefix(address, "unix:"@) {
        Some(p) => p,
        None => address,
    }
}

/// The directory of a path, as it is shown.
pub open spec fn shown_parent(p: Seq<char>) -> Seq<char> {
    match path::parent(p) {
        Some(d) => d,
        None => "."@,
    }
}

/// The message for what was found out about the socket at `p`.
pub open spec fn connect_message(p: Seq<char>, probe: ConnectProbe) -> Seq<char> {
    match probe {
        ConnectProbe::Missing => "control socket "@ + p
            + " does not exist.\n\nIs ulatencyd running? Check with e.g.:\n  systemctl status ulatencyd\n(or the runit/s6/OpenRC equivalent).\n\nIf it's not running, start it and check its logs for a startup error, e.g.:\n  journalctl -u ulatencyd -e"@,
        ConnectProbe::Unreachable => "permission denied reaching "@ + p
            + ".\n\nYou don't have search access to "@ + shown_parent(p)
            + " — you're likely not a member of the group that owns it. Check:\n  ls -ld "@
            + shown_parent(p) + "\nagainst your own groups:\n  groups\n\nIf you need to be added:\n  sudo usermod -aG <group> $USER\nthen log out and back in (or run `newgrp <group>`) — group membership changes don't apply to an already-running shell session."@,
        ConnectProbe::StatFailed(e) => "cannot stat control socket "@ + p + ": "@ + e@,
        ConnectProbe::NotASocket => p
            + " exists but is not a socket — something else is using that path."@,
        ConnectProbe::Connects => "connected to "@ + p
            + " at the raw socket level, but the varlink handshake failed. Is something other than ulatencyd listening on this path?"@,
        ConnectProbe::Denied => "permission denied connecting to "@ + p
            + ".\n\nYou're likely not a member of the socket's group. Check:\n  ls -l "@ + p
            + "\nagainst your own groups:\n  groups\n\nIf you need to be added:\n  sudo usermod -aG <group> $USER\nthen log out and back in (or run `newgrp <group>`) — group membership changes don't apply to an already-running shell session."@,
        ConnectProbe::Refused => "connection refused at "@ + p
            + ".\n\nThis usually means a stale socket file was left behind by a crashed ulatencyd instance — nothing is listening on it anymore. Restart ulatencyd (it removes and recreates the socket on startup); if the file is still there afterwards, check its logs for why it isn't reaching that point."@,
        ConnectProbe::ConnectFailed(e) => "cannot connect to "@ + p + ": "@ + e@,
    }
}

/// The path in the address of a socket.
pub fn socket_path(address: &str) -> (r: String)
    ensures
        r@ == address_path(address@),
{
    match after_prefix(address, "unix:") {
        Some(p) => p,
        None => owned(address),
    }
}

/// The message for a connection that failed, given what was found out about
/// the socket.
pub fn diagnose_connect_failure(address: &str, probe: &ConnectProbe) -> (r: String)
    ensures
        r@ == connect_message(address_path(address@), *probe),
{
    let p = socket_path(address);
    let mut m: String = String::new();
    match probe {
        ConnectProbe::Missing => {
            m.append("control socket ");
            m.append(p.as_str());
            m.append(
                " does not exist.\n\nIs ulatencyd running? Check with e.g.:\n  systemctl status ulatencyd\n(or the runit/s6/OpenRC equivalent).\n\nIf it's not running, start it and check its logs for a startup error, e.g.:\n  journalctl -u ulatencyd -e",
            );
        },
        ConnectProbe::Unreachable => {
            let parent = match parent_path(p.as_str()) {
                Some(d) => d,
                None => owned("."),
            };
            m.append("permission denied reaching ");
            m.append(p.as_str());
            m.append(".\n\nYou don't have search access to ");
            m.append(parent.as_str());
            m.append(
                " — you're likely not a member of the group that owns it. Check:\n  ls -ld ",
            );
            m.append(parent.as_str());
            m.append(
                "\nagainst your own groups:\n  groups\n\nIf you need to be added:\n  sudo usermod -aG <group> $USER\nthen log out and back in (or run `newgrp <group>`) — group membership changes don't apply to an already-running shell session.",
            );
        },
        ConnectProbe::StatFailed(e) => {
            m.append("cannot stat control socket ");
            m.append(p.as_str());
            m.append(": ");
            m.append(e.as_str());
        },
        ConnectProbe::NotASocket => {
            m.append(p.as_str());
            m.append(" exists but is not a socket — something else is using that path.");
        },
        ConnectProbe::Connects => {
            m.append("connected to ");
            m.append(p.as_str());
            m.append(
                " at the raw socket level, but the varlink handshake failed. Is something other than ulatencyd listening on this path?",
            );
        },
        ConnectProbe::Denied => {
            m.append("permission denied connecting to ");
            m.append(p.as_str());
            m.append(
                ".\n\nYou're likely not a member of the socket's group. Check:\n  ls -l ",
            );
            m.append(p.as_str());
            m.append(
                "\nagainst your own groups:\n  groups\n\nIf you need to be added:\n  sudo usermod -aG <group> $USER\nthen log out and back in (or run `newgrp <group>`) — group membership changes don't apply to an already-running shell session.",
            );
        },
        ConnectProbe::Refused => {
            m.append("connection refused at ");
            m.append(p.as_str());
            m.append(
                ".\n\nThis usually means a stale socket file was left behind by a crashed ulatencyd instance — nothing is listening on it anymore. Restart ulatencyd (it removes and recreates the socket on startup); if the file is still there afterwards, check its logs for why it isn't reaching that point.",
            );
        },
        ConnectProbe::ConnectFailed(e) => {
            m.append("cannot connect to ");
            m.append(p.as_str());
            m.append(": ");
            m.append(e.as_str());
        },
    }
    assert(m@ =~= connect_message(p@, *probe));
    m
}

// ---------------------------------------------------------------------------
// Output
// ---------------------------------------------------------------------------

/// The status, as it is printed.
pub fn render_status(s: &StatusReply) -> (r: String)
    ensures
        r@ == "ulatencyd status\n  version:       "@ + s.version@ + "\n  mode:          "@ + s.mode@
            + "\n  processes:     "@ + text::signed_decimal(s.process_count as int)
            + "\n  uptime (secs): "@ + text::signed_decimal(s.uptime_secs as int) + seq!['\n'],
{
    let mut o: String = String::new();
    o.append("ulatencyd status\n  version:       ");
    o.append(s.version.as_str());
    o.append("\n  mode:          ");
    o.append(s.mode.as_str());
    o.append("\n  processes:     ");
    let n = format_i64(s.process_count);
    o.append(n.as_str());
    o.append("\n  uptime (secs): ");
    let u = format_i64(s.uptime_secs);
    o.append(u.as_str());
    o.push('\n');
    assert(o@ =~= "ulatencyd status\n  version:       "@ + s.version@ + "\n  mode:          "@
        + s.mode@ + "\n  processes:     "@ + text::signed_decimal(s.process_count as int)
        + "\n  uptime (secs): "@ + text::signed_decimal(s.uptime_secs as int) + seq!['\n']);
    o
}

/// A row of the process list.
pub open spec fn list_row(pid: Seq<char>, cgroup: Seq<char>, rule: Seq<char>) -> Seq<char> {
    text::left_column(pid, 8) + "  "@ + text::left_column(cgroup, 20) + "  "@ + rule + seq!['\n']
}

/// The rows of the first `n` processes.
pub open spec fn list_rows(v: Seq<ProcessRecord>, n: nat) -> Seq<char>
    decreases n,
{
    if n == 0 {
        Seq::empty()
    } else {
        list_rows(v, (n - 1) as nat) + list_row(
            text::signed_decimal(v[n - 1].pid as int),
            v[n - 1].cgroup@,
            v[n - 1].rule@,
        )
    }
}

/// The process list, as it is printed.
pub open spec fn process_list(v: Seq<ProcessRecord>) -> Seq<char> {
    if v.len() == 0 {
        "No managed processes.\n"@
    } else {
        list_row("PID"@, "CGROUP"@, "RULE"@) + list_rows(v, v.len()) + seq!['\n'] + text::decimal(
            v.len(),
        ) + " process(es) total\n"@
    }
}

fn append_row(o: &mut String, pid: &str, cgroup: &str, rule: &str)
    ensures
        final(o)@ == old(o)@ + list_row(pid@, cgroup@, rule@),
{
    append_left(o, pid, 8);
    o.append("  ");
    append_left(o, cgroup, 20);
    o.append("  ");
    o.append(rule);
    o.push('\n');
    assert(o@ =~= old(o)@ + list_row(pid@, cgroup@, rule@));
}

/// The process list, as it is printed.
pub fn render_list(v: &Vec<ProcessRecord>) -> (r: String)
    ensures
        r@ == process_list(v@),
{
    if v.len() == 0 {
        return owned("No managed processes.\n");
    }
    let mut o: String = String::new();
    append_row(&mut o, "PID", "CGROUP", "RULE");
    let ghost head = list_row("PID"@, "CGROUP"@, "RULE"@);
    assert(o@ =~= head + list_rows(v@, 0));
    let mut i: usize = 0;
    while i < v.len()
        invariant
            i <= v@.len(),
            o@ == head + list_rows(v@, i as nat),
        decreases v@.len() - i,
    {
        let pid = format_i64(v[i].pid);
        append_row(&mut o, pid.as_str(), v[i].cgroup.as_str(), v[i].rule.as_str());
        i = i + 1;
        assert(o@ =~= head + list_rows(v@, i as nat));
    }
    o.push('\n');
    let n = format_u64(v.len() as u64);
    o.append(n.as_str());
    o.append(" process(es) total\n");
    assert(o@ =~= process_list(v@));
    o
}

/// One process, as it is printed.
pub fn render_info(p: &ProcessRecord) -> (r: String)
    ensures
        r@ == "  pid:    "@ + text::signed_decimal(p.pid as int) + "\n  comm:   "@ + p.comm@
            + "\n  cgroup: "@ + p.cgroup@ + "\n  rule:   "@ + p.rule@ + seq!['\n'],
{
    let mut o: String = String::new();
    o.append("  pid:    ");
    let pid = format_i64(p.pid);
    o.append(pid.as_str());
    o.append("\n  comm:   ");
    o.append(p.comm.as_str());
    o.append("\n  cgroup: ");
    o.append(p.cgroup.as_str());
    o.append("\n  rule:   ");
    o.append(p.rule.as_str());
    o.push('\n');
    assert(o@ =~= "  pid:    "@ + text::signed_decimal(p.pid as int) + "\n  comm:   "@ + p.comm@
        + "\n  cgroup: "@ + p.cgroup@ + "\n  rule:   "@ + p.rule@ + seq!['\n']);
    o
}

// ---------------------------------------------------------------------------
// Running a command in a tier
// ---------------------------------------------------------------------------

/// Why a command is not run.
#[derive(Clone, Debug, PartialEq, Eq)]
pub enum RunError {
    UnknownTier(String),
    NoCommand,
    UnknownPolicy(String),
}

/// What an error says.
pub open spec fn run_error_text(e: RunError) -> Seq<char> {
    match e {
        RunError::UnknownTier(t) => "unknown tier "@ + text::debug_form(t@)
            + ". Valid: rt|interactive|system|background|idle|swapstorm"@,
        RunError::NoCommand => "no command specified"@,
        RunError::UnknownPolicy(p) => "unknown sched policy "@ + text::debug_form(p@),
    }
}

impl RunError {
    /// The error in words.
    pub fn message(&self) -> (r: String)
        ensures
            r@ == run_error_text(*self),
    {
        let mut m: String = String::new();
        match self {
            RunError::UnknownTier(t) => {
                m.append("unknown tier ");
                let q = debug_quoted(t.as_str());
                m.append(q.as_str());
                m.append(". Valid: rt|interactive|system|background|idle|swapstorm");
            },
            RunError::NoCommand => {
                m.append("no command specified");
            },
            RunError::UnknownPolicy(p) => {
                m.append("unknown sched policy ");
                let q = debug_quoted(p.as_str());
                m.append(q.as_str());
            },
        }
        assert(m@ =~= run_error_text(*self));
        m
    }
}

/// One thing to do before the command is run.
#[derive(Clone, Copy, Debug, PartialEq, Eq, Structural)]
pub enum RunStep {
    /// Ask the daemon to move this process to a tier.
    Move(CgroupTier),
    /// Set the nice level. A failure is reported and ignored.
    Nice(i8),
    /// Set the scheduling policy and priority. A failure is reported and
    /// ignored.
    Sched { policy: i32, priority: i32 },
}

/// What is done before the command is run, in order, and what then keeps it
/// from being run, if anything.
#[derive(Clone, Debug, PartialEq, Eq)]
pub struct RunPlan {
    pub steps: Vec<RunStep>,
    pub error: Option<RunError>,
}

/// The policy and priority for a command.
pub open spec fn run_policy(policy: Seq<char>) -> Option<(i32, i32)> {
    if policy == "normal"@ || policy == "other"@ {
        Some((SCHED_NORMAL, 0i32))
    } else if policy == "batch"@ {
        Some((SCHED_BATCH, 0i32))
    } else if policy == "idle"@ {
        Some((SCHED_IDLE, 0i32))
    } else if policy == "fifo"@ {
        Some((SCHED_FIFO, 1i32))
    } else if policy == "rr"@ {
        Some((SCHED_RR, 1i32))
    } else {
        None
    }
}

fn choose_policy(policy: &str) -> (r: Option<(i32, i32)>)
    ensures
        r == run_policy(policy@),
{
    if same(policy, "normal") || same(policy, "other") {
        Some((SCHED_NORMAL, 0))
    } else if same(policy, "batch") {
        Some((SCHED_BATCH, 0))
    } else if same(policy, "idle") {
        Some((SCHED_IDLE, 0))
    } else if same(policy, "fifo") {
        Some((SCHED_FIFO, 1))
    } else if same(policy, "rr") {
        Some((SCHED_RR, 1))
    } else {
        None
    }
}

/// The change of nice level that was asked for.
pub open spec fn nice_steps(nice: Option<i8>) -> Seq<RunStep> {
    match nice {
        Some(n) => seq![RunStep::Nice(n)],
        None => Seq::empty(),
    }
}

/// The change of policy that was asked for, where the policy is known.
pub open spec fn sched_steps(sched: Option<Seq<char>>) -> Seq<RunStep> {
    match sched {
        Some(s) => match run_policy(s) {
            Some(c) => seq![RunStep::Sched { policy: c.0, priority: c.1 }],
            None => Seq::empty(),
        },
        None => Seq::empty(),
    }
}

/// What is done before a command is run in a tier.
///
/// An unknown tier or a missing command ends it before anything is done. An
/// unknown policy ends it after the move and the change of nice level.
pub fn cmd_run(tier: &str, nice: Option<i8>, sched: &Option<String>, command: &Vec<String>) -> (r:
    RunPlan)
    ensures
        match cgroupv2::named_tier(tier@) {
            None => r.steps@.len() == 0 && (r.error matches Some(RunError::UnknownTier(t)) && t@
                == tier@),
            Some(t) => if command@.len() == 0 {
                r.steps@.len() == 0 && r.error == Some(RunError::NoCommand)
            } else {
                &&& r.steps@ == seq![RunStep::Move(t)] + nice_steps(nice) + sched_steps(
                    text::opt_text(*sched),
                )
                &&& match r.error {
                    Some(e) => sched matches Some(s) && run_policy(s@) is None && (
                    e matches RunError::UnknownPolicy(p) && p@ == s@),
                    None => sched matches Some(s) ==> run_policy(s@) is Some,
                }
            },
        },
{
    let mut steps: Vec<RunStep> = Vec::new();
    let t = match CgroupTier::from_str(tier) {
        Some(t) => t,
        None => {
            return RunPlan { steps, error: Some(RunError::UnknownTier(owned(tier))) };
        },
    };
    if command.len() == 0 {
        return RunPlan { steps, error: Some(RunError::NoCommand) };
    }
    steps.push(RunStep::Move(t));
    if let Some(n) = nice {
        steps.push(RunStep::Nice(n));
    }
    assert(steps@ =~= seq![RunStep::Move(t)] + nice_steps(nice));
    let mut error: Option<RunError> = None;
    if let Some(s) = sched {
        match choose_policy(s.as_str()) {
            Some((policy, priority)) => {
                steps.push(RunStep::Sched { policy, priority });
            },
            None => {
                error = Some(RunError::UnknownPolicy(owned(s.as_str())));
            },
        }
    }
    assert(steps@ =~= seq![RunStep::Move(t)] + nice_steps(nice) + sched_steps(
        text::opt_text(*sched),
    ));
    RunPlan { steps, error }
}

/// The path of the socket is what follows the scheme of the address, or the
/// whole address where it has none.
pub proof fn address_leads_to_the_path(p: Seq<char>, address: Seq<char>)
    ensures
        address_path("unix:"@ + p) == p,
        !text::starts_with(address, "unix:"@) ==> address_path(address) == address,
{
    text::parts_are_found(Seq::empty(), "unix:"@, p);
}

/// The policies that a command can be run with, with their numbers and the
/// priority that each gets.
pub proof fn run_policies_have_their_numbers(policy: Seq<char>)
    ensures
        run_policy("normal"@) == Some((0i32, 0i32)),
        run_policy("other"@) == Some((0i32, 0i32)),
        run_policy("batch"@) == Some((3i32, 0i32)),
        run_policy("idle"@) == Some((5i32, 0i32)),
        run_policy("fifo"@) == Some((1i32, 1i32)),
        run_policy("rr"@) == Some((2i32, 1i32)),
        run_policy(policy) is Some <==> policy == "normal"@ || policy == "other"@ || policy
            == "batch"@ || policy == "idle"@ || policy == "fifo"@ || policy == "rr"@,
{
    reveal_strlit("normal");
    reveal_strlit("other");
    reveal_strlit("batch");
    reveal_strlit("idle");
    reveal_strlit("fifo");
    reveal_strlit("rr");
    assert("normal"@.len() == 6 && "other"@.len() == 5 && "batch"@.len() == 5 && "idle"@.len() == 4
        && "fifo"@.len() == 4 && "rr"@.len() == 2);
    assert("other"@[0] == 'o' && "batch"@[0] == 'b' && "idle"@[0] == 'i' && "fifo"@[0] == 'f');
}

/// Before a command runs, its nice level and its policy are set exactly if
/// they were asked for.
pub proof fn steps_are_taken_if_asked_for(nice: i8, sched: Seq<char>, policy: i32, priority: i32)
    ensures
        nice_steps(Some(nice)) == seq![RunStep::Nice(nice)],
        nice_steps(None).len() == 0,
        sched_steps(None).len() == 0,
        run_policy(sched) == Some((policy, priority)) ==> sched_steps(Some(sched)) == seq![
            RunStep::Sched { policy, priority },
        ],
        run_policy(sched) is None ==> sched_steps(Some(sched)).len() == 0,
{
}

/// The list has a row for each process, in the order given.
pub proof fn list_has_a_row_for_each(v: Seq<ProcessRecord>, n: nat, i: int)
    requires
        n <= v.len(),
        0 <= i < n,
    ensures
        text::contains(
            list_rows(v, n),
            text::left_column(text::signed_decimal(v[i].pid as int), 8) + "  "@ + text::left_column(
                v[i].cgroup@,
                20,
            ) + "  "@ + v[i].rule@ + seq!['\n'],
        ),
        list_rows(v, n) == list_rows(v, (n - 1) as nat) + text::left_column(
            text::signed_decimal(v[n - 1].pid as int),
            8,
        ) + "  "@ + text::left_column(v[n - 1].cgroup@, 20) + "  "@ + v[n - 1].rule@ + seq!['\n'],
    decreases n,
{
    let row = list_row(
        text::signed_decimal(v[i].pid as int),
        v[i].cgroup@,
        v[i].rule@,
    );
    let last = list_row(
        text::signed_decimal(v[n - 1].pid as int),
        v[n - 1].cgroup@,
        v[n - 1].rule@,
    );
    let head = list_rows(v, (n - 1) as nat);
    assert(head + last =~= head + text::left_column(
        text::signed_decimal(v[n - 1].pid as int),
        8,
    ) + "  "@ + text::left_column(v[n - 1].cgroup@, 20) + "  "@ + v[n - 1].rule@ + seq!['\n']);
    if i == n - 1 {
        text::parts_are_found(head, row, Seq::empty());
        assert(head + row + Seq::<char>::empty() =~= list_rows(v, n));
    } else {
        list_has_a_row_for_each(v, (n - 1) as nat, i);
        text::found_parts_are_there(head, row);
        let k = choose|k: int|
            0 <= k <= head.len() - row.len() && head == #[trigger] head.take(k) + row + head.skip(
                k + row.len(),
            );
        text::parts_are_found(head.take(k), row, head.skip(k + row.len()) + last);
        assert(head.take(k) + row + (head.skip(k + row.len()) + last) =~= head + last);
    }
}

/// The list of processes says how many there are, and holds all the rows.
pub proof fn list_says_how_many(v: Seq<ProcessRecord>)
    ensures
        v.len() == 0 ==> process_list(v) == "No managed processes.\n"@,
        v.len() > 0 ==> text::contains(process_list(v), list_rows(v, v.len())) && text::ends_with(
            process_list(v),
            seq!['\n'] + text::decimal(v.len()) + " process(es) total\n"@,
        ) && text::starts_with(
            process_list(v),
            text::left_column("PID"@, 8) + "  "@ + text::left_column("CGROUP"@, 20) + "  "@
                + "RULE"@ + seq!['\n'],
        ),
{
    if v.len() > 0 {
        let head = list_row("PID"@, "CGROUP"@, "RULE"@);
        let rows = list_rows(v, v.len());
        let tail = seq!['\n'] + text::decimal(v.len()) + " process(es) total\n"@;
        assert(process_list(v) =~= head + rows + tail);
        text::parts_are_found(head, rows, tail);
        text::parts_are_found(head + rows, tail, Seq::empty());
        text::parts_are_found(Seq::empty(), head, rows + tail);
        assert(head + rows + tail =~= head + (rows + tail));
    }
}

/// Whatever goes wrong with the socket, the message names its path.
pub proof fn message_names_the_path(p: Seq<char>, probe: ConnectProbe)
    ensures
        text::contains(connect_message(p, probe), p),
{
    let m = connect_message(p, probe);
    match probe {
        ConnectProbe::Missing => {
            lemma_named(m, "control socket "@, p);
        },
        ConnectProbe::Unreachable => {
            lemma_named(m, "permission denied reaching "@, p);
        },
        ConnectProbe::StatFailed(_) => {
            lemma_named(m, "cannot stat control socket "@, p);
        },
        ConnectProbe::NotASocket => {
            lemma_named(m, Seq::empty(), p);
        },
        ConnectProbe::Connects => {
            lemma_named(m, "connected to "@, p);
        },
        ConnectProbe::Denied => {
            lemma_named(m, "permission denied connecting to "@, p);
        },
        ConnectProbe::Refused => {
            lemma_named(m, "connection refused at "@, p);
        },
        ConnectProbe::ConnectFailed(_) => {
            lemma_named(m, "cannot connect to "@, p);
        },
    }
}

proof fn lemma_named(m: Seq<char>, head: Seq<char>, p: Seq<char>)
    requires
        m.len() >= head.len() + p.len(),
        m.take((head.len() + p.len()) as int) =~= head + p,
    ensures
        text::contains(m, p),
{
    let rest = m.skip((head.len() + p.len()) as int);
    assert(m =~= head + p + rest);
    text::parts_are_found(head, p, rest);
}

/// The message about a command that cannot be run names what was wrong.
pub proof fn run_error_names_the_cause(t: String)
    ensures
        text::contains(run_error_text(RunError::UnknownTier(t)), text::debug_form(t@)),
        text::contains(run_error_text(RunError::UnknownPolicy(t)), text::debug_form(t@)),
        run_error_text(RunError::NoCommand) == "no command specified"@,
{
    let shown = text::debug_form(t@);
    text::parts_are_found(
        "unknown tier "@,
        shown,
        ". Valid: rt|interactive|system|background|idle|swapstorm"@,
    );
    text::parts_are_found("unknown sched policy "@, shown, Seq::empty());
    assert("unknown sched policy "@ + shown + Seq::<char>::empty() =~= "unknown sched policy "@
        + shown);
}

/// Each cause has its own message: what could not be done, with the path, comes
/// first. Where the directory of the socket matters it is named too.
pub proof fn message_tells_the_cause(p: Seq<char>, e: String)
    ensures
        text::starts_with(connect_message(p, ConnectProbe::Missing), "control socket "@ + p),
        text::starts_with(
            connect_message(p, ConnectProbe::Unreachable),
            "permission denied reaching "@ + p,
        ),
        connect_message(p, ConnectProbe::StatFailed(e)) == "cannot stat control socket "@ + p
            + ": "@ + e@,
        text::starts_with(connect_message(p, ConnectProbe::NotASocket), p),
        text::starts_with(connect_message(p, ConnectProbe::Connects), "connected to "@ + p),
        text::starts_with(
            connect_message(p, ConnectProbe::Denied),
            "permission denied connecting to "@ + p,
        ),
        text::starts_with(connect_message(p, ConnectProbe::Refused), "connection refused at "@ + p),
        connect_message(p, ConnectProbe::ConnectFailed(e)) == "cannot connect to "@ + p + ": "@
            + e@,
        path::parent(p) matches Some(dir) ==> shown_parent(p) == dir,
        path::parent(p) is None ==> shown_parent(p) == "."@,
{
    lemma_begins(connect_message(p, ConnectProbe::Missing), "control socket "@ + p);
    lemma_begins(
        connect_message(p, ConnectProbe::Unreachable),
        "permission denied reaching "@ + p,
    );
    lemma_begins(connect_message(p, ConnectProbe::NotASocket), p);
    lemma_begins(connect_message(p, ConnectProbe::Connects), "connected to "@ + p);
    lemma_begins(
        connect_message(p, ConnectProbe::Denied),
        "permission denied connecting to "@ + p,
    );
    lemma_begins(connect_message(p, ConnectProbe::Refused), "connection refused at "@ + p);
}

proof fn lemma_begins(m: Seq<char>, head: Seq<char>)
    requires
        m.len() >= head.len(),
        m.take(head.len() as int) =~= head,
    ensures
        text::starts_with(m, head),
{
    assert(m.subrange(0, head.len() as int) =~= head);
}

} // verus!
