//! What is known of one process, and how it is read from the texts that the
//! kernel keeps below `/proc/<pid>/`.

use vstd::prelude::*;
use vstd::utf8;

use crate::text;
use crate::text::{
    after_prefix, has_prefix, has_substring, owned, owned_all, owned_opt, parse_i8, parse_unsigned,
    same, split_at_first, split_lines, split_words, trimmed, Space,
};

verus! {

// ---------------------------------------------------------------------------
// Bytes and text
// ---------------------------------------------------------------------------

/// The text that `String::from_utf8_lossy` makes of a list of bytes.
pub uninterp spec fn lossy_utf8(bytes: Seq<u8>) -> Seq<char>;

/// The text of a list of bytes: `std::string::String::from_utf8_lossy`.
///
/// The text depends on the bytes alone, and bytes that are UTF-8 are decoded.
/// Where replacement characters go in other bytes is not stated.
#[verifier::external_body]
pub(crate) fn utf8_lossy(bytes: &Vec<u8>) -> (r: String)
    ensures
        r@ == lossy_utf8(bytes@),
        utf8::valid_utf8(bytes@) ==> r@ == utf8::decode_utf8(bytes@),
{
    String::from_utf8_lossy(bytes).into_owned()
}

/// The text of a list of bytes. Bytes that are UTF-8 are decoded; in others
/// there are replacement characters, see `lossy_utf8`.
pub open spec fn decoded(bytes: Seq<u8>) -> Seq<char> {
    if utf8::valid_utf8(bytes) {
        utf8::decode_utf8(bytes)
    } else {
        lossy_utf8(bytes)
    }
}

/// The words of the error that `std::str::from_utf8` gives for bytes that are
/// not UTF-8.
pub uninterp spec fn utf8_complaint(bytes: Seq<u8>) -> Seq<char>;

/// The text of a list of bytes, if it is UTF-8, and the words of the error if
/// it is not: `std::str::from_utf8`.
///
/// A text comes back for exactly the bytes that are UTF-8, and it is what
/// they decode to. The words of the error depend on the bytes alone; what they
/// are is not stated.
#[verifier::external_body]
pub(crate) fn utf8_strict(bytes: &Vec<u8>) -> (r: Result<String, String>)
    ensures
        match r {
            Ok(s) => utf8::valid_utf8(bytes@) && s@ == utf8::decode_utf8(bytes@),
            Err(words) => !utf8::valid_utf8(bytes@) && words@ == utf8_complaint(bytes@),
        },
{
    match std::str::from_utf8(bytes) {
        Ok(s) => Ok(s.to_string()),
        Err(e) => Err(e.to_string()),
    }
}

/// The bytes of each list.
pub open spec fn byte_lists(v: Seq<Vec<u8>>) -> Seq<Seq<u8>> {
    Seq::new(v.len(), |i: int| v[i]@)
}

/// The pieces between zero bytes.
pub open spec fn split_at_zero(s: Seq<u8>) -> Seq<Seq<u8>>
    decreases s.len(),
{
    if s.len() == 0 {
        seq![Seq::<u8>::empty()]
    } else {
        let done = split_at_zero(s.drop_last());
        if s.last() == 0 {
            done.push(Seq::<u8>::empty())
        } else {
            done.drop_last().push(done.last().push(s.last()))
        }
    }
}

/// Splits a list of bytes at its zero bytes.
pub fn split_zero(raw: &Vec<u8>) -> (r: Vec<Vec<u8>>)
    ensures
        byte_lists(r@) == split_at_zero(raw@),
{
    let mut done: Vec<Vec<u8>> = Vec::new();
    let mut cur: Vec<u8> = Vec::new();
    let mut i: usize = 0;
    assert(byte_lists(done@).push(cur@) =~= split_at_zero(raw@.take(0)));
    while i < raw.len()
        invariant
            i <= raw@.len(),
            byte_lists(done@).push(cur@) == split_at_zero(raw@.take(i as int)),
        decreases raw@.len() - i,
    {
        let b: u8 = raw[i];
        let ghost before = byte_lists(done@).push(cur@);
        let ghost earlier = done@;
        assert(raw@.take(i + 1).drop_last() =~= raw@.take(i as int));
        if b == 0 {
            done.push(cur);
            cur = Vec::new();
            assert(byte_lists(done@) =~= before);
        } else {
            cur.push(b);
            assert(before.drop_last() =~= byte_lists(earlier));
        }
        i = i + 1;
    }
    assert(raw@.take(raw@.len() as int) =~= raw@);
    let ghost all = byte_lists(done@).push(cur@);
    done.push(cur);
    assert(byte_lists(done@) =~= all);
    done
}

/// A copy of part of a list of bytes.
pub fn bytes_between(v: &Vec<u8>, from: usize, to: usize) -> (r: Vec<u8>)
    requires
        from <= to <= v@.len(),
    ensures
        r@ == v@.subrange(from as int, to as int),
{
    let mut r: Vec<u8> = Vec::new();
    let mut i: usize = from;
    while i < to
        invariant
            from <= i <= to <= v@.len(),
            r@ == v@.subrange(from as int, i as int),
        decreases to - i,
    {
        r.push(v[i]);
        i = i + 1;
        assert(r@ =~= v@.subrange(from as int, i as int));
    }
    r
}

/// The first position of a byte at or after `i`, or the length.
pub open spec fn byte_position_from(s: Seq<u8>, b: u8, i: int) -> int
    decreases s.len() - i,
{
    if i >= s.len() {
        s.len() as int
    } else if s[i] == b {
        i
    } else {
        byte_position_from(s, b, i + 1)
    }
}

/// The last position of a byte before `n`, or -1.
pub open spec fn last_byte_position(s: Seq<u8>, b: u8, n: int) -> int
    decreases n,
{
    if n <= 0 {
        -1
    } else if s[n - 1] == b {
        n - 1
    } else {
        last_byte_position(s, b, n - 1)
    }
}

fn first_byte(raw: &Vec<u8>, b: u8) -> (r: usize)
    ensures
        r == byte_position_from(raw@, b, 0),
        r <= raw@.len(),
{
    let mut i: usize = 0;
    while i < raw.len() && raw[i] != b
        invariant
            i <= raw@.len(),
            byte_position_from(raw@, b, 0) == byte_position_from(raw@, b, i as int),
        decreases raw@.len() - i,
    {
        i = i + 1;
    }
    i
}

/// One past the last position of a byte, or 0.
fn after_last_byte(raw: &Vec<u8>, b: u8) -> (r: usize)
    ensures
        r == last_byte_position(raw@, b, raw@.len() as int) + 1,
        r <= raw@.len(),
{
    let mut n: usize = raw.len();
    while n > 0 && raw[n - 1] != b
        invariant
            n <= raw@.len(),
            last_byte_position(raw@, b, raw@.len() as int) == last_byte_position(
                raw@,
                b,
                n as int,
            ),
        decreases n,
    {
        n = n - 1;
    }
    n
}

// ---------------------------------------------------------------------------
// Types
// ---------------------------------------------------------------------------

/// The scheduling policy of a process.
#[derive(Clone, Copy, Debug, PartialEq, Eq, Structural)]
pub enum SchedPolicy {
    Normal,
    Batch,
    Idle,
    Fifo(u8),
    RoundRobin(u8),
    Deadline,
    Unknown(i32),
}

pub const SCHED_NORMAL: i32 = 0;

pub const SCHED_FIFO: i32 = 1;

pub const SCHED_RR: i32 = 2;

pub const SCHED_BATCH: i32 = 3;

pub const SCHED_IDLE: i32 = 5;

pub const SCHED_DEADLINE: i32 = 6;

/// A realtime priority, held to what the kernel knows: 0 to 99.
pub open spec fn known_priority(priority: int) -> u8 {
    if priority < 0 {
        0
    } else if priority > 99 {
        99
    } else {
        priority as u8
    }
}

/// The policy that the kernel's number stands for.
pub open spec fn policy_of(policy: i32, priority: int) -> SchedPolicy {
    if policy == SCHED_NORMAL {
        SchedPolicy::Normal
    } else if policy == SCHED_BATCH {
        SchedPolicy::Batch
    } else if policy == SCHED_IDLE {
        SchedPolicy::Idle
    } else if policy == SCHED_DEADLINE {
        SchedPolicy::Deadline
    } else if policy == SCHED_FIFO {
        SchedPolicy::Fifo(known_priority(priority))
    } else if policy == SCHED_RR {
        SchedPolicy::RoundRobin(known_priority(priority))
    } else {
        SchedPolicy::Unknown(policy)
    }
}

/// The scheduling policy, from the number that `sched_getscheduler` gave and
/// the priority that `sched_getparam` gave.
pub fn get_sched_policy(policy: i32, priority: i32) -> (r: SchedPolicy)
    ensures
        r == policy_of(policy, priority as int),
{
    let p: u8 = if priority < 0 {
        0
    } else if priority > 99 {
        99
    } else {
        priority as u8
    };
    if policy == SCHED_NORMAL {
        SchedPolicy::Normal
    } else if policy == SCHED_BATCH {
        SchedPolicy::Batch
    } else if policy == SCHED_IDLE {
        SchedPolicy::Idle
    } else if policy == SCHED_DEADLINE {
        SchedPolicy::Deadline
    } else if policy == SCHED_FIFO {
        SchedPolicy::Fifo(p)
    } else if policy == SCHED_RR {
        SchedPolicy::RoundRobin(p)
    } else {
        SchedPolicy::Unknown(policy)
    }
}

/// Where a process lives according to the cgroup v2 hierarchy.
#[derive(Clone, Copy, Debug, PartialEq, Eq, Structural)]
pub enum SessionOrigin {
    /// User process in an interactive login session
    UserInteractive,
    /// User process launched as an app or service
    UserService,
    /// System-level service or uid=0 process
    SystemService,
    /// Kernel thread (uid=0, no exe in /proc/pid/exe)
    KernelThread,
    /// Unclassified: treat conservatively
    Unknown,
}

/// Where a process with this cgroup path and user lives. `our_mark` marks the
/// daemon's own hierarchy.
pub open spec fn origin_of(path: Seq<char>, uid: u32, our_mark: Seq<char>) -> SessionOrigin {
    let by_user = if uid == 0 {
        SessionOrigin::SystemService
    } else {
        SessionOrigin::UserInteractive
    };
    if text::contains(path, our_mark) {
        by_user
    } else if text::contains(path, "/user.slice/"@) {
        if text::contains(path, "/session-"@) {
            SessionOrigin::UserInteractive
        } else {
            SessionOrigin::UserService
        }
    } else if text::contains(path, "/system.slice/"@) || text::starts_with(path, "/init.scope"@) {
        SessionOrigin::SystemService
    } else if path == "/"@ || path.len() == 0 {
        by_user
    } else {
        SessionOrigin::Unknown
    }
}

impl SessionOrigin {
    /// Derives the origin from the raw cgroup v2 path.
    ///
    /// `our_mark` is a substring that identifies the daemon's own cgroup root.
    pub fn from_cgroup_path(path: &str, uid: u32, our_mark: &str) -> (r: SessionOrigin)
        ensures
            r == origin_of(path@, uid, our_mark@),
    {
        if has_substring(path, our_mark) {
            if uid == 0 {
                return SessionOrigin::SystemService;
            }
            return SessionOrigin::UserInteractive;
        }
        if has_substring(path, "/user.slice/") {
            if has_substring(path, "/session-") {
                return SessionOrigin::UserInteractive;
            }
            return SessionOrigin::UserService;
        }
        if has_substring(path, "/system.slice/") || has_prefix(path, "/init.scope") {
            return SessionOrigin::SystemService;
        }
        if same(path, "/") || same(path, "") {
            proof {
                reveal_strlit("");
                assert(path@.len() == 0 || path@ == "/"@);
            }
            if uid == 0 {
                return SessionOrigin::SystemService;
            }
            return SessionOrigin::UserInteractive;
        }
        proof {
            reveal_strlit("");
            if path@.len() == 0 {
                assert(path@ =~= ""@);
            }
        }
        SessionOrigin::Unknown
    }

    /// Whether this is the origin of a kernel thread. Kernel threads are told
    /// by their missing executable instead, so this is always false.
    pub fn is_kernel() -> (r: bool)
        ensures
            r == false,
    {
        false
    }
}

/// What is known of one process.
#[derive(Clone, Debug)]
pub struct ProcessInfo {
    pub pid: u32,
    pub ppid: u32,
    pub uid: u32,
    pub gid: u32,
    pub comm: String,
    pub cmdline: Vec<String>,
    pub exe: Option<String>,
    pub threads: u32,
    pub vm_rss_kb: u64,
    pub sched_policy: SchedPolicy,
    pub nice: i8,
    pub cgroup_path: Option<String>,
    /// Derived from the cgroup path and the user.
    pub session_origin: SessionOrigin,
    /// True when uid=0 and there is no executable (kernel thread).
    pub is_kernel_thread: bool,
    /// The environment, in the order of the file. Of two entries with one
    /// name the later counts.
    pub environ: Vec<(String, String)>,
}

/// What a `ProcessInfo` says, with texts as sequences of characters.
#[verifier::ext_equal]
pub struct ProcessView {
    pub pid: u32,
    pub ppid: u32,
    pub uid: u32,
    pub gid: u32,
    pub comm: Seq<char>,
    pub cmdline: Seq<Seq<char>>,
    pub exe: Option<Seq<char>>,
    pub threads: u32,
    pub vm_rss_kb: u64,
    pub sched_policy: SchedPolicy,
    pub nice: i8,
    pub cgroup_path: Option<Seq<char>>,
    pub session_origin: SessionOrigin,
    pub is_kernel_thread: bool,
    pub environ: Map<Seq<char>, Seq<char>>,
}

/// The environment that a list of entries makes: the later entry counts.
pub open spec fn environ_map(entries: Seq<(String, String)>) -> Map<Seq<char>, Seq<char>>
    decreases entries.len(),
{
    if entries.len() == 0 {
        Map::empty()
    } else {
        environ_map(entries.drop_last()).insert(entries.last().0@, entries.last().1@)
    }
}

impl View for ProcessInfo {
    type V = ProcessView;

    open spec fn view(&self) -> ProcessView {
        ProcessView {
            pid: self.pid,
            ppid: self.ppid,
            uid: self.uid,
            gid: self.gid,
            comm: self.comm@,
            cmdline: text::texts(self.cmdline@),
            exe: text::opt_text(self.exe),
            threads: self.threads,
            vm_rss_kb: self.vm_rss_kb,
            sched_policy: self.sched_policy,
            nice: self.nice,
            cgroup_path: text::opt_text(self.cgroup_path),
            session_origin: self.session_origin,
            is_kernel_thread: self.is_kernel_thread,
            environ: environ_map(self.environ@),
        }
    }
}

/// A name is in the environment exactly if some entry has it.
pub proof fn environ_has_each_name(entries: Seq<(String, String)>, name: Seq<char>)
    ensures
        environ_map(entries).dom().contains(name) <==> exists|i: int|
            0 <= i < entries.len() && (#[trigger] entries[i]).0@ == name,
    decreases entries.len(),
{
    if entries.len() > 0 {
        environ_has_each_name(entries.drop_last(), name);
        let init = entries.drop_last();
        if environ_map(init).dom().contains(name) {
            let i = choose|i: int| 0 <= i < init.len() && (#[trigger] init[i]).0@ == name;
            assert(entries[i].0@ == name);
        }
        if exists|i: int| 0 <= i < entries.len() && (#[trigger] entries[i]).0@ == name {
            let i = choose|i: int| 0 <= i < entries.len() && (#[trigger] entries[i]).0@ == name;
            if i < init.len() {
                assert(init[i].0@ == name);
            }
        }
        assert(entries[entries.len() - 1] == entries.last());
    }
}

// ---------------------------------------------------------------------------
// Reading
// ---------------------------------------------------------------------------

/// Why a `stat` file could not be read.
#[derive(Clone, Debug, PartialEq, Eq)]
pub enum InfoError {
    /// There is no `(` before the name.
    NoOpenParen,
    /// There is no `)` after the name.
    NoCloseParen,
    /// What follows the name is not UTF-8, in the words of the decoder.
    InvalidUtf8(String),
}

/// What an `InfoError` says.
#[verifier::ext_equal]
pub enum InfoErrorView {
    NoOpenParen,
    NoCloseParen,
    InvalidUtf8(Seq<char>),
}

impl View for InfoError {
    type V = InfoErrorView;

    open spec fn view(&self) -> InfoErrorView {
        match self {
            InfoError::NoOpenParen => InfoErrorView::NoOpenParen,
            InfoError::NoCloseParen => InfoErrorView::NoCloseParen,
            InfoError::InvalidUtf8(words) => InfoErrorView::InvalidUtf8(words@),
        }
    }
}

impl InfoError {
    /// The error in words.
    pub fn message(&self) -> (r: &str)
        ensures
            r@ == match self@ {
                InfoErrorView::NoOpenParen => "malformed stat: no '('"@,
                InfoErrorView::NoCloseParen => "malformed stat: no ')'"@,
                InfoErrorView::InvalidUtf8(words) => words,
            },
    {
        match self {
            InfoError::NoOpenParen => "malformed stat: no '('",
            InfoError::NoCloseParen => "malformed stat: no ')'",
            InfoError::InvalidUtf8(words) => words.as_str(),
        }
    }
}

pub const OPEN_PAREN: u8 = 40;

pub const CLOSE_PAREN: u8 = 41;

/// Where the name of the process begins in a `stat` file.
pub open spec fn name_open(raw: Seq<u8>) -> int {
    byte_position_from(raw, OPEN_PAREN, 0)
}

/// Where the name of the process ends.
pub open spec fn name_close(raw: Seq<u8>) -> int {
    last_byte_position(raw, CLOSE_PAREN, raw.len() as int)
}

/// If both parentheses are there, they stand in order and something follows
/// them.
pub open spec fn splittable(raw: Seq<u8>) -> bool {
    name_open(raw) < raw.len() && name_close(raw) >= 0 ==> name_open(raw) < name_close(raw)
        && name_close(raw) + 2 <= raw.len()
}

/// The number in a field, or `default` where there is none.
pub open spec fn number_field(fields: Seq<Seq<char>>, i: int, max: nat, default: nat) -> nat {
    if i < fields.len() {
        match text::unsigned_value(fields[i], max) {
            Some(n) => n,
            None => default,
        }
    } else {
        default
    }
}

/// The signed number in a field, or 0 where there is none.
pub open spec fn nice_field(fields: Seq<Seq<char>>, i: int) -> int {
    if i < fields.len() {
        match text::signed_value(fields[i], i8::MIN as int, i8::MAX as int) {
            Some(n) => n,
            None => 0,
        }
    } else {
        0
    }
}

/// The bytes of the name: those between the first `(` and the last `)`.
pub open spec fn name_bytes(raw: Seq<u8>) -> Seq<u8> {
    raw.subrange(name_open(raw) + 1, name_close(raw))
}

/// Parent, name, nice level and number of threads from a `stat` file.
pub open spec fn stat_fields(raw: Seq<u8>) -> Result<(nat, Seq<char>, int, nat), InfoErrorView> {
    if name_open(raw) >= raw.len() {
        Err(InfoErrorView::NoOpenParen)
    } else if name_close(raw) < 0 {
        Err(InfoErrorView::NoCloseParen)
    } else {
        let rest = raw.subrange(name_close(raw) + 2, raw.len() as int);
        if !utf8::valid_utf8(rest) {
            Err(InfoErrorView::InvalidUtf8(utf8_complaint(rest)))
        } else {
            let fields = text::words(utf8::decode_utf8(rest), Space::Ascii);
            Ok(
                (
                    number_field(fields, 1, u32::MAX as nat, 0),
                    decoded(name_bytes(raw)),
                    nice_field(fields, 18),
                    number_field(fields, 17, u32::MAX as nat, 1),
                ),
            )
        }
    }
}

fn parse_number_field(fields: &Vec<String>, i: usize, max: u64, default: u64) -> (r: u64)
    requires
        default <= max,
    ensures
        r == number_field(text::texts(fields@), i as int, max as nat, default as nat),
        r <= max,
{
    if i < fields.len() {
        match parse_unsigned(fields[i].as_str(), max) {
            Some(n) => n,
            None => default,
        }
    } else {
        default
    }
}

/// Whether a `stat` file can be split at the name of the process.
pub fn stat_is_splittable(raw: &Vec<u8>) -> (r: bool)
    ensures
        r == splittable(raw@),
{
    let open: usize = first_byte(raw, OPEN_PAREN);
    let close: usize = after_last_byte(raw, CLOSE_PAREN);
    if open < raw.len() && close > 0 {
        open < close - 1 && close < raw.len()
    } else {
        true
    }
}

/// Parent, name, nice level and number of threads from a `stat` file.
///
/// The name stands between the first `(` and the last `)`; it may hold
/// parentheses and spaces itself.
pub fn parse_stat(raw: &Vec<u8>) -> (r: Result<(u32, String, i8, u32), InfoError>)
    requires
        splittable(raw@),
    ensures
        match r {
            Ok(f) => {
                &&& stat_fields(raw@) == Ok::<(nat, Seq<char>, int, nat), InfoErrorView>(
                    (f.0 as nat, f.1@, f.2 as int, f.3 as nat),
                )
                &&& utf8::valid_utf8(name_bytes(raw@)) ==> f.1@ == utf8::decode_utf8(
                    name_bytes(raw@),
                )
            },
            Err(e) => stat_fields(raw@) == Err::<(nat, Seq<char>, int, nat), InfoErrorView>(e@),
        },
{
    let open: usize = first_byte(raw, OPEN_PAREN);
    if open >= raw.len() {
        return Err(InfoError::NoOpenParen);
    }
    let close: usize = after_last_byte(raw, CLOSE_PAREN);
    if close == 0 {
        return Err(InfoError::NoCloseParen);
    }
    let name = bytes_between(raw, open + 1, close - 1);
    let comm = utf8_lossy(&name);
    let tail = bytes_between(raw, close + 1, raw.len());
    match utf8_strict(&tail) {
        Err(words) => Err(InfoError::InvalidUtf8(words)),
        Ok(rest) => {
            let fields = split_words(rest.as_str(), Space::Ascii);
            let ppid: u32 = parse_number_field(&fields, 1, u32::MAX as u64, 0) as u32;
            let threads: u32 = parse_number_field(&fields, 17, u32::MAX as u64, 1) as u32;
            let nice: i8 = if 18 < fields.len() {
                match parse_i8(fields[18].as_str()) {
                    Some(n) => n,
                    None => 0,
                }
            } else {
                0
            };
            Ok((ppid, comm, nice, threads))
        },
    }
}

/// The number on the last line with that label among the first `n`, or 0.
pub open spec fn labelled_number(lines: Seq<Seq<char>>, n: nat, label: Seq<char>, max: nat) -> nat
    decreases n,
{
    if n == 0 {
        0
    } else {
        match text::strip_prefix(lines[n - 1], label) {
            Some(rest) => number_field(text::words(rest, Space::Ascii), 0, max, 0),
            None => labelled_number(lines, (n - 1) as nat, label, max),
        }
    }
}

/// User, group and resident memory from a `status` file.
pub open spec fn status_fields(status: Seq<char>) -> (nat, nat, nat) {
    let l = text::lines(status);
    (
        labelled_number(l, l.len(), "Uid:"@, u32::MAX as nat),
        labelled_number(l, l.len(), "Gid:"@, u32::MAX as nat),
        labelled_number(l, l.len(), "VmRSS:"@, u64::MAX as nat),
    )
}

fn labelled(line: &str, label: &str, max: u64) -> (r: Option<u64>)
    ensures
        match r {
            Some(n) => n <= max && (text::strip_prefix(line@, label@) matches Some(rest)
                && number_field(text::words(rest, Space::Ascii), 0, max as nat, 0) == n),
            None => text::strip_prefix(line@, label@) is None,
        },
{
    match after_prefix(line, label) {
        Some(rest) => {
            let fields = split_words(rest.as_str(), Space::Ascii);
            Some(parse_number_field(&fields, 0, max, 0))
        },
        None => None,
    }
}

/// User, group and resident memory in kilobytes from a `status` file.
pub fn parse_status(status: &str) -> (r: (u32, u32, u64))
    ensures
        (r.0 as nat, r.1 as nat, r.2 as nat) == status_fields(status@),
{
    let all = split_lines(status);
    let ghost l = text::lines(status@);
    assert(all@.len() == text::texts(all@).len());
    let mut uid: u64 = 0;
    let mut gid: u64 = 0;
    let mut rss: u64 = 0;
    let mut i: usize = 0;
    while i < all.len()
        invariant
            text::texts(all@) == l,
            all@.len() == l.len(),
            i <= all@.len(),
            uid <= u32::MAX,
            gid <= u32::MAX,
            uid == labelled_number(l, i as nat, "Uid:"@, u32::MAX as nat),
            gid == labelled_number(l, i as nat, "Gid:"@, u32::MAX as nat),
            rss == labelled_number(l, i as nat, "VmRSS:"@, u64::MAX as nat),
        decreases all@.len() - i,
    {
        let line = all[i].as_str();
        assert(line@ == l[i as int]);
        match labelled(line, "Uid:", u32::MAX as u64) {
            Some(n) => {
                uid = n;
            },
            None => {},
        }
        match labelled(line, "Gid:", u32::MAX as u64) {
            Some(n) => {
                gid = n;
            },
            None => {},
        }
        match labelled(line, "VmRSS:", u64::MAX) {
            Some(n) => {
                rss = n;
            },
            None => {},
        }
        i = i + 1;
    }
    (uid as u32, gid as u32, rss)
}

/// The path on the first line of the unified hierarchy at or after `i`.
pub open spec fn unified_from(lines: Seq<Seq<char>>, i: int) -> Option<Seq<char>>
    decreases lines.len() - i,
{
    if i >= lines.len() {
        None
    } else {
        match text::strip_prefix(lines[i], "0::"@) {
            Some(path) => Some(text::trim(path)),
            None => unified_from(lines, i + 1),
        }
    }
}

/// The cgroup v2 path in the text of a `cgroup` file.
pub open spec fn unified_path(content: Seq<char>) -> Option<Seq<char>> {
    unified_from(text::lines(content), 0)
}

/// The cgroup v2 path in the text of a `cgroup` file.
pub fn read_cgroup_v2(content: &str) -> (r: Option<String>)
    ensures
        text::opt_text(r) == unified_path(content@),
{
    let all = split_lines(content);
    let ghost l = text::lines(content@);
    assert(all@.len() == text::texts(all@).len());
    let mut i: usize = 0;
    while i < all.len()
        invariant
            l == text::lines(content@),
            text::texts(all@) == l,
            all@.len() == l.len(),
            i <= all@.len(),
            unified_from(l, 0) == unified_from(l, i as int),
        decreases all@.len() - i,
    {
        assert(all@[i as int]@ == l[i as int]);
        match after_prefix(all[i].as_str(), "0::") {
            Some(path) => {
                return Some(trimmed(path.as_str()));
            },
            None => {},
        }
        i = i + 1;
    }
    None
}

/// The pieces among the first `n` that are not empty.
pub open spec fn args_among(pieces: Seq<Seq<u8>>, n: nat) -> Seq<Seq<u8>>
    decreases n,
{
    if n == 0 {
        Seq::empty()
    } else {
        let done = args_among(pieces, (n - 1) as nat);
        if pieces[n - 1].len() == 0 {
            done
        } else {
            done.push(pieces[n - 1])
        }
    }
}

/// The bytes of each argument in a `cmdline` file: what stands between zero
/// bytes and is not empty.
pub open spec fn arg_bytes(raw: Seq<u8>) -> Seq<Seq<u8>> {
    args_among(split_at_zero(raw), split_at_zero(raw).len())
}

/// The text of each list of bytes.
pub open spec fn decoded_each(lists: Seq<Seq<u8>>) -> Seq<Seq<char>> {
    Seq::new(lists.len(), |i: int| decoded(lists[i]))
}

/// The arguments in the bytes of a `cmdline` file.
pub open spec fn command_line(raw: Seq<u8>) -> Seq<Seq<char>> {
    decoded_each(arg_bytes(raw))
}

/// The arguments in the bytes of a `cmdline` file.
pub fn parse_cmdline(raw: &Vec<u8>) -> (r: Vec<String>)
    ensures
        text::texts(r@) == command_line(raw@),
        forall|i: int|
            0 <= i < r@.len() && utf8::valid_utf8(arg_bytes(raw@)[i]) ==> (#[trigger] r@[i])@
                == utf8::decode_utf8(arg_bytes(raw@)[i]),
{
    let pieces = split_zero(raw);
    let ghost p = split_at_zero(raw@);
    assert(pieces@.len() == byte_lists(pieces@).len());
    let mut r: Vec<String> = Vec::new();
    let mut i: usize = 0;
    assert(text::texts(r@) =~= decoded_each(args_among(p, 0)));
    while i < pieces.len()
        invariant
            byte_lists(pieces@) == p,
            pieces@.len() == p.len(),
            i <= pieces@.len(),
            text::texts(r@) == decoded_each(args_among(p, i as nat)),
        decreases pieces@.len() - i,
    {
        assert(pieces@[i as int]@ == p[i as int]);
        if pieces[i].len() > 0 {
            let ghost before = text::texts(r@);
            let arg = utf8_lossy(&pieces[i]);
            r.push(arg);
            assert(text::texts(r@) =~= before.push(arg@));
            assert(args_among(p, (i + 1) as nat) == args_among(p, i as nat).push(p[i as int]));
            assert(text::texts(r@) =~= decoded_each(args_among(p, (i + 1) as nat)));
        }
        i = i + 1;
    }
    assert forall|k: int|
        0 <= k < r@.len() && utf8::valid_utf8(arg_bytes(raw@)[k]) implies (#[trigger] r@[k])@
        == utf8::decode_utf8(arg_bytes(raw@)[k]) by {
        assert(text::texts(r@)[k] == r@[k]@);
    }
    r
}

/// The environment that the first `n` pieces make: one entry per piece that
/// is UTF-8 and not empty.
pub open spec fn environ_among(pieces: Seq<Seq<u8>>, n: nat) -> Map<Seq<char>, Seq<char>>
    decreases n,
{
    if n == 0 {
        Map::empty()
    } else {
        let done = environ_among(pieces, (n - 1) as nat);
        if pieces[n - 1].len() == 0 || !utf8::valid_utf8(pieces[n - 1]) {
            done
        } else {
            let entry = text::split_once(utf8::decode_utf8(pieces[n - 1]), '=');
            done.insert(entry.0, entry.1)
        }
    }
}

/// The environment in the bytes of an `environ` file.
pub open spec fn environment(raw: Seq<u8>) -> Map<Seq<char>, Seq<char>> {
    environ_among(split_at_zero(raw), split_at_zero(raw).len())
}

/// The environment in the bytes of an `environ` file.
pub fn parse_environ(raw: &Vec<u8>) -> (r: Vec<(String, String)>)
    ensures
        environ_map(r@) == environment(raw@),
{
    let pieces = split_zero(raw);
    let ghost p = split_at_zero(raw@);
    assert(pieces@.len() == byte_lists(pieces@).len());
    let mut r: Vec<(String, String)> = Vec::new();
    let mut i: usize = 0;
    while i < pieces.len()
        invariant
            byte_lists(pieces@) == p,
            pieces@.len() == p.len(),
            i <= pieces@.len(),
            environ_map(r@) == environ_among(p, i as nat),
        decreases pieces@.len() - i,
    {
        assert(pieces@[i as int]@ == p[i as int]);
        if pieces[i].len() > 0 {
            match utf8_strict(&pieces[i]) {
                Ok(s) => {
                    let entry = split_at_first(s.as_str(), '=');
                    let ghost before = r@;
                    r.push(entry);
                    assert(r@.drop_last() =~= before);
                },
                Err(_) => {},
            }
        }
        i = i + 1;
    }
    r
}

/// What was read of one process.
#[derive(Clone, Debug)]
pub struct RawProcess {
    /// The bytes of `stat`.
    pub stat: Vec<u8>,
    /// The text of `status`.
    pub status: String,
    /// The bytes of `cmdline`, if it could be read.
    pub cmdline: Option<Vec<u8>>,
    /// The target of `exe`, if it could be read.
    pub exe: Option<String>,
    /// The text of `cgroup`, if it could be read.
    pub cgroup: Option<String>,
    /// What `sched_getscheduler` gave.
    pub policy: i32,
    /// What `sched_getparam` gave.
    pub priority: i32,
}

/// The arguments of a process, none where they could not be read.
pub open spec fn raw_args(raw: RawProcess) -> Seq<Seq<char>> {
    match raw.cmdline {
        Some(bytes) => command_line(bytes@),
        None => Seq::empty(),
    }
}

/// The cgroup path of a process, if it could be read.
pub open spec fn raw_cgroup(raw: RawProcess) -> Option<Seq<char>> {
    match raw.cgroup {
        Some(content) => unified_path(content@),
        None => None,
    }
}

/// The process that the raw texts describe, where `stat` has these fields.
pub open spec fn described(
    pid: u32,
    raw: RawProcess,
    stat: (nat, Seq<char>, int, nat),
) -> ProcessView {
    let status = status_fields(raw.status@);
    let uid = status.0 as u32;
    ProcessView {
        pid,
        ppid: stat.0 as u32,
        uid,
        gid: status.1 as u32,
        comm: stat.1,
        cmdline: raw_args(raw),
        exe: text::opt_text(raw.exe),
        threads: stat.3 as u32,
        vm_rss_kb: status.2 as u64,
        sched_policy: policy_of(raw.policy, raw.priority as int),
        nice: stat.2 as i8,
        cgroup_path: raw_cgroup(raw),
        session_origin: match raw_cgroup(raw) {
            Some(path) => origin_of(path, uid, "ulatencyd"@),
            None => SessionOrigin::Unknown,
        },
        is_kernel_thread: uid == 0 && raw.exe is None,
        environ: Map::empty(),
    }
}

impl ProcessInfo {
    /// The process that the raw texts describe.
    pub fn from_pid(pid: u32, raw: &RawProcess) -> (r: Result<ProcessInfo, InfoError>)
        requires
            splittable(raw.stat@),
        ensures
            match r {
                Ok(p) => {
                    &&& stat_fields(raw.stat@) matches Ok(stat) && p@ == described(pid, *raw, stat)
                    &&& utf8::valid_utf8(name_bytes(raw.stat@)) ==> p.comm@ == utf8::decode_utf8(
                        name_bytes(raw.stat@),
                    )
                    &&& raw.cmdline matches Some(bytes) ==> p.cmdline@.len() == arg_bytes(
                        bytes@,
                    ).len() && forall|i: int|
                        0 <= i < p.cmdline@.len() && utf8::valid_utf8(arg_bytes(bytes@)[i]) ==> (
                        #[trigger] p.cmdline@[i])@ == utf8::decode_utf8(arg_bytes(bytes@)[i])
                },
                Err(e) => stat_fields(raw.stat@) == Err::<
                    (nat, Seq<char>, int, nat),
                    InfoErrorView,
                >(e@),
            },
    {
        let (ppid, comm, nice, threads) = match parse_stat(&raw.stat) {
            Ok(f) => f,
            Err(e) => {
                return Err(e);
            },
        };
        let (uid, gid, vm_rss_kb) = parse_status(raw.status.as_str());
        let cmdline = match &raw.cmdline {
            Some(bytes) => parse_cmdline(bytes),
            None => Vec::new(),
        };
        assert(text::texts(cmdline@) =~= raw_args(*raw));
        assert(text::texts(cmdline@).len() == cmdline@.len());
        let exe = owned_opt(&raw.exe);
        let is_kernel_thread = uid == 0 && exe.is_none();
        let cgroup_path = match &raw.cgroup {
            Some(content) => read_cgroup_v2(content.as_str()),
            None => None,
        };
        let session_origin = match &cgroup_path {
            Some(path) => SessionOrigin::from_cgroup_path(path.as_str(), uid, "ulatencyd"),
            None => SessionOrigin::Unknown,
        };
        let sched_policy = get_sched_policy(raw.policy, raw.priority);
        let environ: Vec<(String, String)> = Vec::new();
        Ok(
            ProcessInfo {
                pid,
                ppid,
                uid,
                gid,
                comm,
                cmdline,
                exe,
                threads,
                vm_rss_kb,
                sched_policy,
                nice,
                cgroup_path,
                session_origin,
                is_kernel_thread,
                environ,
            },
        )
    }

    /// Takes the environment from the bytes of an `environ` file.
    pub fn load_environ(&mut self, raw: &Vec<u8>)
        ensures
            final(self)@ == (ProcessView { environ: environment(raw@), ..old(self)@ }),
    {
        self.environ = parse_environ(raw);
    }

    /// Whether the environment has a variable of that name.
    pub fn has_variable(&self, name: &str) -> (r: bool)
        ensures
            r == self@.environ.dom().contains(name@),
    {
        let mut i: usize = 0;
        while i < self.environ.len()
            invariant
                i <= self.environ@.len(),
                forall|k: int| 0 <= k < i ==> (#[trigger] self.environ@[k]).0@ != name@,
            decreases self.environ@.len() - i,
        {
            if same(self.environ[i].0.as_str(), name) {
                proof {
                    environ_has_each_name(self.environ@, name@);
                }
                return true;
            }
            i = i + 1;
        }
        proof {
            environ_has_each_name(self.environ@, name@);
        }
        false
    }

    /// A copy.
    pub fn copied(&self) -> (r: ProcessInfo)
        ensures
            r@ == self@,
    {
        let mut environ: Vec<(String, String)> = Vec::new();
        let mut i: usize = 0;
        while i < self.environ.len()
            invariant
                i <= self.environ@.len(),
                environ@.len() == i,
                environ_map(environ@) == environ_map(self.environ@.take(i as int)),
            decreases self.environ@.len() - i,
        {
            let ghost before = environ@;
            let entry = (
                owned(self.environ[i].0.as_str()),
                owned(self.environ[i].1.as_str()),
            );
            environ.push(entry);
            assert(environ@.drop_last() =~= before);
            assert(self.environ@.take(i + 1).drop_last() =~= self.environ@.take(i as int));
            i = i + 1;
        }
        assert(self.environ@.take(self.environ@.len() as int) =~= self.environ@);
        ProcessInfo {
            pid: self.pid,
            ppid: self.ppid,
            uid: self.uid,
            gid: self.gid,
            comm: owned(self.comm.as_str()),
            cmdline: owned_all(&self.cmdline),
            exe: owned_opt(&self.exe),
            threads: self.threads,
            vm_rss_kb: self.vm_rss_kb,
            sched_policy: self.sched_policy,
            nice: self.nice,
            cgroup_path: owned_opt(&self.cgroup_path),
            session_origin: self.session_origin,
            is_kernel_thread: self.is_kernel_thread,
            environ,
        }
    }
}

// ---------------------------------------------------------------------------
// Laws
// ---------------------------------------------------------------------------

proof fn lemma_byte_position(s: Seq<u8>, b: u8, i: int, at: int)
    requires
        0 <= i <= at <= s.len(),
        forall|k: int| i <= k < at ==> #[trigger] s[k] != b,
        at < s.len() ==> s[at] == b,
    ensures
        byte_position_from(s, b, i) == at,
    decreases at - i,
{
    if i < at {
        lemma_byte_position(s, b, i + 1, at);
    }
}

proof fn lemma_last_byte_position(s: Seq<u8>, b: u8, n: int, at: int)
    requires
        -1 <= at < n <= s.len(),
        forall|k: int| at < k < n ==> #[trigger] s[k] != b,
        at >= 0 ==> s[at] == b,
    ensures
        last_byte_position(s, b, n) == at,
    decreases n,
{
    if n > 0 && n - 1 > at {
        assert(s[n - 1] != b);
        lemma_last_byte_position(s, b, n - 1, at);
    }
}

/// A stat line in its parts: what comes before the name, the name in round
/// brackets, and the fields after it. The name is found whatever it holds,
/// round brackets too.
pub proof fn stat_line_is_taken_apart(head: Seq<u8>, name: Seq<u8>, rest: Seq<u8>)
    requires
        !head.contains(0x28),
        !rest.contains(0x29),
    ensures
        ({
            let raw = head + seq![0x28u8] + name + seq![0x29u8, 0x20u8] + rest;
            &&& splittable(raw)
            &&& name_bytes(raw) == name
            &&& raw.subrange(name_close(raw) + 2, raw.len() as int) == rest
            &&& name_open(raw) < raw.len()
            &&& name_close(raw) >= 0
            &&& stat_fields(raw) is Ok <==> utf8::valid_utf8(rest)
        }),
{
    let raw = head + seq![0x28u8] + name + seq![0x29u8, 0x20u8] + rest;
    let open = head.len() as int;
    let close = (head.len() + 1 + name.len()) as int;
    assert forall|k: int| 0 <= k < open implies #[trigger] raw[k] != 0x28 by {
        assert(head.contains(head[k]));
    }
    assert(raw[open] == 0x28);
    lemma_byte_position(raw, 0x28, 0, open);
    assert forall|k: int| close < k < raw.len() implies #[trigger] raw[k] != 0x29 by {
        if k == close + 1 {
            assert(raw[k] == 0x20);
        } else {
            assert(raw[k] == rest[k - close - 2]);
            assert(rest.contains(rest[k - close - 2]));
        }
    }
    assert(raw[close] == 0x29);
    lemma_last_byte_position(raw, 0x29, raw.len() as int, close);
    assert(name_bytes(raw) =~= name);
    assert(raw.subrange(close + 2, raw.len() as int) =~= rest);
}

/// What a stat line says: the name as it stands in the brackets, the parent
/// from the second field after it, the number of threads from the eighteenth
/// and the nice level from the nineteenth.
pub proof fn stat_line_is_read(
    head: Seq<u8>,
    name: Seq<u8>,
    rest: Seq<u8>,
    fields: Seq<Seq<char>>,
    ppid: u32,
    threads: u32,
    nice: i8,
)
    requires
        !head.contains(0x28),
        !rest.contains(0x29),
        utf8::valid_utf8(rest),
        fields == text::words(utf8::decode_utf8(rest), Space::Ascii),
        fields.len() > 18,
        fields[1] == text::decimal(ppid as nat),
        fields[17] == text::decimal(threads as nat),
        fields[18] == text::signed_decimal(nice as int),
    ensures
        stat_fields(head + seq![0x28u8] + name + seq![0x29u8, 0x20u8] + rest) matches Ok(f) && f.0
            == ppid && f.1 == decoded(name) && f.2 == nice && f.3 == threads,
{
    stat_line_is_taken_apart(head, name, rest);
    text::reading_undoes_writing(ppid as nat, u32::MAX as nat);
    text::reading_undoes_writing(threads as nat, u32::MAX as nat);
    text::reading_undoes_signed_writing(nice as int, i8::MIN as int, i8::MAX as int);
}

/// Where a stat line ends early the parent is unknown, the nice level is zero
/// and there is one thread. Without brackets there is no name to read.
pub proof fn short_stat_line_has_defaults(head: Seq<u8>, name: Seq<u8>, rest: Seq<u8>, raw: Seq<u8>)
    requires
        !head.contains(0x28),
        !rest.contains(0x29),
        utf8::valid_utf8(rest),
        text::words(utf8::decode_utf8(rest), Space::Ascii).len() <= 1,
    ensures
        stat_fields(head + seq![0x28u8] + name + seq![0x29u8, 0x20u8] + rest) matches Ok(f) && f.0
            == 0 && f.1 == decoded(name) && f.2 == 0 && f.3 == 1,
        !raw.contains(0x28) ==> stat_fields(raw) == Err::<
            (nat, Seq<char>, int, nat),
            InfoErrorView,
        >(InfoErrorView::NoOpenParen),
        raw.contains(0x28) && !raw.contains(0x29) ==> stat_fields(raw) == Err::<
            (nat, Seq<char>, int, nat),
            InfoErrorView,
        >(InfoErrorView::NoCloseParen),
        !raw.contains(0x28) || !raw.contains(0x29) ==> splittable(raw),
{
    stat_line_is_taken_apart(head, name, rest);
    lemma_found_byte(raw, 0x28, 0);
    lemma_found_last_byte(raw, 0x29, raw.len() as int);
}

proof fn lemma_found_byte(s: Seq<u8>, b: u8, i: int)
    requires
        0 <= i <= s.len(),
    ensures
        byte_position_from(s, b, i) < s.len() <==> exists|k: int| i <= k < s.len() && s[k] == b,
    decreases s.len() - i,
{
    if i < s.len() && s[i] != b {
        lemma_found_byte(s, b, i + 1);
    }
}

proof fn lemma_found_last_byte(s: Seq<u8>, b: u8, n: int)
    requires
        0 <= n <= s.len(),
    ensures
        last_byte_position(s, b, n) >= 0 <==> exists|k: int| 0 <= k < n && s[k] == b,
    decreases n,
{
    if n > 0 && s[n - 1] != b {
        lemma_found_last_byte(s, b, n - 1);
    }
}

/// Text that is UTF-8 is decoded.
pub proof fn utf8_is_decoded(bytes: Seq<u8>)
    requires
        utf8::valid_utf8(bytes),
    ensures
        decoded(bytes) == utf8::decode_utf8(bytes),
{
}

/// The last line with a label decides, by the number that comes first after
/// the label; without one the number is zero.
pub proof fn label_leads_to_the_number(
    lines: Seq<Seq<char>>,
    n: nat,
    label: Seq<char>,
    max: nat,
    k: int,
    value: nat,
)
    requires
        n <= lines.len(),
    ensures
        0 <= k < n && value <= max && text::starts_with(lines[k], label) && text::words(
            lines[k].skip(label.len() as int),
            Space::Ascii,
        ).len() > 0 && text::words(lines[k].skip(label.len() as int), Space::Ascii)[0]
            == text::decimal(value) && (forall|j: int|
            k < j < n ==> !text::starts_with(#[trigger] lines[j], label)) ==> labelled_number(
            lines,
            n,
            label,
            max,
        ) == value,
        (forall|j: int| 0 <= j < n ==> !text::starts_with(#[trigger] lines[j], label))
            ==> labelled_number(lines, n, label, max) == 0,
    decreases n,
{
    if n > 0 {
        label_leads_to_the_number(lines, (n - 1) as nat, label, max, k, value);
        text::found_parts_are_there(lines[n - 1], label);
        if value <= max {
            text::reading_undoes_writing(value, max);
        }
        assert(lines[n - 1] == lines[n - 1]);
        if k == n - 1 && text::starts_with(lines[k], label) {
            assert(text::strip_prefix(lines[k], label)->0 =~= lines[k].skip(label.len() as int));
        }
    }
}

/// User, group and memory are read each from the line with its label.
pub proof fn status_has_its_labels(status: Seq<char>)
    ensures
        status_fields(status).0 == labelled_number(
            text::lines(status),
            text::lines(status).len(),
            "Uid:"@,
            0xffff_ffff,
        ),
        status_fields(status).1 == labelled_number(
            text::lines(status),
            text::lines(status).len(),
            "Gid:"@,
            0xffff_ffff,
        ),
        status_fields(status).2 == labelled_number(
            text::lines(status),
            text::lines(status).len(),
            "VmRSS:"@,
            0xffff_ffff_ffff_ffff,
        ),
{
}

/// The cgroup of a process is on the first line of the unified hierarchy.
pub proof fn first_unified_line_decides(content: Seq<char>, k: int, place: Seq<char>)
    ensures
        0 <= k < text::lines(content).len() && text::lines(content)[k] == "0::"@ + place && (
        forall|j: int|
            0 <= j < k ==> !text::starts_with(#[trigger] text::lines(content)[j], "0::"@))
            ==> unified_path(content) == Some(text::trim(place)),
        (forall|j: int|
            0 <= j < text::lines(content).len() ==> !text::starts_with(
                #[trigger] text::lines(content)[j],
                "0::"@,
            )) ==> unified_path(content) is None,
{
    lemma_unified(text::lines(content), 0, k, place);
}

proof fn lemma_unified(lines: Seq<Seq<char>>, i: int, k: int, place: Seq<char>)
    requires
        0 <= i <= lines.len(),
    ensures
        i <= k < lines.len() && lines[k] == "0::"@ + place && (forall|j: int|
            i <= j < k ==> !text::starts_with(#[trigger] lines[j], "0::"@)) ==> unified_from(
            lines,
            i,
        ) == Some(text::trim(place)),
        (forall|j: int| i <= j < lines.len() ==> !text::starts_with(#[trigger] lines[j], "0::"@))
            ==> unified_from(lines, i) is None,
    decreases lines.len() - i,
{
    if i < lines.len() {
        lemma_unified(lines, i + 1, k, place);
        text::parts_are_found(Seq::empty(), "0::"@, place);
        assert(lines[i] == lines[i]);
    }
}

proof fn lemma_pieces_some(s: Seq<u8>)
    ensures
        split_at_zero(s).len() > 0,
    decreases s.len(),
{
    if s.len() > 0 {
        lemma_pieces_some(s.drop_last());
    }
}

/// Bytes without a zero are one piece, and the pieces of two lists of bytes
/// with a zero between them are those of the first and those of the second.
pub proof fn zeros_part_the_pieces(a: Seq<u8>, b: Seq<u8>)
    ensures
        !a.contains(0) ==> split_at_zero(a) == seq![a],
        split_at_zero(a.push(0) + b) == split_at_zero(a) + split_at_zero(b),
{
    lemma_piece_plain(a);
    lemma_pieces_concat(a, b);
}

proof fn lemma_piece_plain(a: Seq<u8>)
    ensures
        !a.contains(0) ==> split_at_zero(a) == seq![a],
    decreases a.len(),
{
    if a.len() == 0 {
        assert(a =~= Seq::<u8>::empty());
    } else if !a.contains(0) {
        let head = a.drop_last();
        assert(!head.contains(0)) by {
            if head.contains(0) {
                let i = choose|i: int| 0 <= i < head.len() && head[i] == 0;
                assert(a[i] == 0);
            }
        }
        lemma_piece_plain(head);
        assert(a.contains(a[a.len() - 1]));
        assert(head.push(a.last()) =~= a);
        assert(split_at_zero(a) =~= seq![a]);
    }
}

proof fn lemma_pieces_concat(a: Seq<u8>, b: Seq<u8>)
    ensures
        split_at_zero(a.push(0) + b) == split_at_zero(a) + split_at_zero(b),
    decreases b.len(),
{
    let all = a.push(0) + b;
    if b.len() == 0 {
        assert(all =~= a.push(0));
        assert(all.drop_last() =~= a);
        assert(split_at_zero(all) =~= split_at_zero(a) + split_at_zero(b));
    } else {
        let head = b.drop_last();
        lemma_pieces_concat(a, head);
        lemma_pieces_some(head);
        assert(all.drop_last() =~= a.push(0) + head);
        assert(all.last() == b.last());
        let done = split_at_zero(head);
        let both = split_at_zero(a) + done;
        assert(both.last() == done.last());
        assert(both.drop_last() =~= split_at_zero(a) + done.drop_last());
        assert(split_at_zero(all) =~= split_at_zero(a) + split_at_zero(b));
    }
}

proof fn lemma_args_prefix(a: Seq<Seq<u8>>, b: Seq<Seq<u8>>, n: nat)
    requires
        n <= a.len(),
        n <= b.len(),
        forall|i: int| 0 <= i < n ==> #[trigger] a[i] == b[i],
    ensures
        args_among(a, n) == args_among(b, n),
        environ_among(a, n) == environ_among(b, n),
    decreases n,
{
    if n > 0 {
        lemma_args_prefix(a, b, (n - 1) as nat);
        assert(a[n - 1] == b[n - 1]);
    }
}

/// Arguments are kept in their order, empty ones left out, whether the last of
/// them is ended by a zero or not.
pub proof fn arguments_are_kept_in_order(raw: Seq<u8>, arg: Seq<u8>)
    requires
        !arg.contains(0),
    ensures
        arg_bytes(Seq::empty()) == Seq::<Seq<u8>>::empty(),
        arg.len() > 0 ==> arg_bytes(raw.push(0) + arg) == arg_bytes(raw).push(arg),
        arg.len() > 0 ==> arg_bytes(arg) == seq![arg],
        arg_bytes(raw.push(0)) == arg_bytes(raw),
        command_line(raw).len() == arg_bytes(raw).len(),
{
    lemma_one_more_piece(raw, arg);
    lemma_one_more_piece(raw, Seq::empty());
    assert(raw.push(0) + Seq::<u8>::empty() =~= raw.push(0));
    zeros_part_the_pieces(arg, arg);
    zeros_part_the_pieces(Seq::empty(), arg);
    assert(args_among(seq![arg], 0) =~= Seq::<Seq<u8>>::empty());
    assert(args_among(seq![arg], 1) =~= if arg.len() == 0 {
        Seq::<Seq<u8>>::empty()
    } else {
        seq![arg]
    });
    assert(args_among(seq![Seq::<u8>::empty()], 0) =~= Seq::<Seq<u8>>::empty());
    assert(args_among(seq![Seq::<u8>::empty()], 1) =~= Seq::<Seq<u8>>::empty());
}

proof fn lemma_one_more_piece(raw: Seq<u8>, piece: Seq<u8>)
    requires
        !piece.contains(0),
    ensures
        arg_bytes(raw.push(0) + piece) == if piece.len() == 0 {
            arg_bytes(raw)
        } else {
            arg_bytes(raw).push(piece)
        },
        environment(raw.push(0) + piece) == if piece.len() == 0 || !utf8::valid_utf8(piece) {
            environment(raw)
        } else {
            environment(raw).insert(
                text::split_once(utf8::decode_utf8(piece), '=').0,
                text::split_once(utf8::decode_utf8(piece), '=').1,
            )
        },
{
    zeros_part_the_pieces(raw, piece);
    zeros_part_the_pieces(piece, piece);
    let before = split_at_zero(raw);
    let all = split_at_zero(raw.push(0) + piece);
    assert(all =~= before.push(piece));
    lemma_args_prefix(before, all, before.len());
    assert(all[before.len() as int] == piece);
}

/// The environment is read entry by entry: each sets the variable before its
/// first equals sign to what follows, so that a later entry wins. Empty entries
/// and those that are not UTF-8 set nothing.
pub proof fn entries_set_variables(
    raw: Seq<u8>,
    entry: Seq<u8>,
    name: Seq<char>,
    value: Seq<char>,
)
    requires
        !entry.contains(0),
    ensures
        entry.len() > 0 && utf8::valid_utf8(entry) && utf8::decode_utf8(entry) == name.push('=')
            + value && !name.contains('=') ==> environment(raw.push(0) + entry) == environment(
            raw,
        ).insert(name, value),
        entry.len() == 0 || !utf8::valid_utf8(entry) ==> environment(raw.push(0) + entry)
            == environment(raw),
        environment(raw.push(0)) == environment(raw),
{
    lemma_one_more_piece(raw, entry);
    lemma_one_more_piece(raw, Seq::empty());
    assert(raw.push(0) + Seq::<u8>::empty() =~= raw.push(0));
    if !name.contains('=') {
        text::first_separator_parts(name, value, '=');
    }
}

/// The policies by the numbers that the kernel has for them; a priority is
/// known from 0 to 99, and taken as the nearest of these otherwise.
pub proof fn policies_are_told_by_number(policy: i32, priority: int)
    ensures
        policy_of(0, priority) == SchedPolicy::Normal,
        policy_of(3, priority) == SchedPolicy::Batch,
        policy_of(5, priority) == SchedPolicy::Idle,
        policy_of(6, priority) == SchedPolicy::Deadline,
        0 <= priority <= 99 ==> policy_of(1, priority) == SchedPolicy::Fifo(priority as u8),
        0 <= priority <= 99 ==> policy_of(2, priority) == SchedPolicy::RoundRobin(priority as u8),
        priority < 0 ==> policy_of(1, priority) == SchedPolicy::Fifo(0) && policy_of(2, priority)
            == SchedPolicy::RoundRobin(0),
        priority > 99 ==> policy_of(1, priority) == SchedPolicy::Fifo(99) && policy_of(2, priority)
            == SchedPolicy::RoundRobin(99),
        policy < 0 || policy == 4 || policy > 6 ==> policy_of(policy, priority)
            == SchedPolicy::Unknown(policy),
{
}

/// Where a process comes from is told by its cgroup. What the daemon moved, and
/// what is at the root, is told by its user instead.
pub proof fn origin_is_told_by_the_cgroup(path: Seq<char>, uid: u32, our_mark: Seq<char>)
    ensures
        text::contains(path, our_mark) || path.len() == 0 || (path == "/"@) ==> origin_of(
            path,
            uid,
            our_mark,
        ) == (if uid == 0 {
            SessionOrigin::SystemService
        } else {
            SessionOrigin::UserInteractive
        }),
        !text::contains(path, our_mark) && text::contains(path, "/user.slice/"@) && text::contains(
            path,
            "/session-"@,
        ) ==> origin_of(path, uid, our_mark) == SessionOrigin::UserInteractive,
        !text::contains(path, our_mark) && text::contains(path, "/user.slice/"@) && !text::contains(
            path,
            "/session-"@,
        ) ==> origin_of(path, uid, our_mark) == SessionOrigin::UserService,
        !text::contains(path, our_mark) && !text::contains(path, "/user.slice/"@) && (
        text::contains(path, "/system.slice/"@) || text::starts_with(path, "/init.scope"@))
            ==> origin_of(path, uid, our_mark) == SessionOrigin::SystemService,
        !text::contains(path, our_mark) && !text::contains(path, "/user.slice/"@)
            && !text::contains(path, "/system.slice/"@) && !text::starts_with(
            path,
            "/init.scope"@,
        ) && path.len() > 0 && path != "/"@ ==> origin_of(path, uid, our_mark)
            == SessionOrigin::Unknown,
{
    reveal_strlit("/");
    reveal_strlit("/user.slice/");
    reveal_strlit("/system.slice/");
    reveal_strlit("/init.scope");
    if path.len() <= 1 {
        text::found_parts_are_there(path, "/user.slice/"@);
        text::found_parts_are_there(path, "/system.slice/"@);
        assert(!text::contains(path, "/user.slice/"@));
        assert(!text::contains(path, "/system.slice/"@));
        assert(!text::starts_with(path, "/init.scope"@));
    }
}

/// A process is described by what was read of it, each thing in its place. It
/// is a kernel thread exactly if it belongs to the superuser and has no
/// program file.
pub proof fn description_says_what_was_read(
    pid: u32,
    raw: RawProcess,
    stat: (nat, Seq<char>, int, nat),
)
    requires
        stat.0 <= u32::MAX,
        stat.3 <= u32::MAX,
        i8::MIN <= stat.2 <= i8::MAX,
        status_fields(raw.status@).0 <= u32::MAX,
        status_fields(raw.status@).1 <= u32::MAX,
        status_fields(raw.status@).2 <= u64::MAX,
    ensures
        ({
            let p = described(pid, raw, stat);
            &&& p.pid == pid
            &&& p.ppid == stat.0
            &&& p.comm == stat.1
            &&& p.nice == stat.2
            &&& p.threads == stat.3
            &&& p.uid == status_fields(raw.status@).0
            &&& p.gid == status_fields(raw.status@).1
            &&& p.vm_rss_kb == status_fields(raw.status@).2
            &&& raw.cmdline matches Some(bytes) ==> p.cmdline == command_line(bytes@)
            &&& raw.cmdline is None ==> p.cmdline.len() == 0
            &&& raw.exe matches Some(exe) ==> p.exe == Some(exe@)
            &&& raw.exe is None ==> p.exe is None
            &&& raw.cgroup matches Some(content) ==> p.cgroup_path == unified_path(content@)
            &&& raw.cgroup is None ==> p.cgroup_path is None
            &&& p.cgroup_path matches Some(place) ==> p.session_origin == origin_of(
                place,
                p.uid,
                "ulatencyd"@,
            )
            &&& p.cgroup_path is None ==> p.session_origin == SessionOrigin::Unknown
            &&& p.sched_policy == policy_of(raw.policy, raw.priority as int)
            &&& p.is_kernel_thread <==> p.uid == 0 && raw.exe is None
            &&& p.environ == Map::<Seq<char>, Seq<char>>::empty()
        }),
{
}

/// The description of a process holds each of its fields.
pub proof fn every_field_is_shown(p: ProcessInfo)
    ensures
        p@.pid == p.pid,
        p@.ppid == p.ppid,
        p@.uid == p.uid,
        p@.gid == p.gid,
        p@.comm == p.comm@,
        p@.cmdline.len() == p.cmdline@.len(),
        forall|i: int| 0 <= i < p.cmdline@.len() ==> p@.cmdline[i] == (#[trigger] p.cmdline@[i])@,
        p.exe matches Some(exe) ==> p@.exe == Some(exe@),
        p.exe is None ==> p@.exe is None,
        p@.threads == p.threads,
        p@.vm_rss_kb == p.vm_rss_kb,
        p@.sched_policy == p.sched_policy,
        p@.nice == p.nice,
        p.cgroup_path matches Some(place) ==> p@.cgroup_path == Some(place@),
        p.cgroup_path is None ==> p@.cgroup_path is None,
        p@.session_origin == p.session_origin,
        p@.is_kernel_thread == p.is_kernel_thread,
        p@.environ == environ_map(p.environ@),
{
}

/// A later entry of an environment wins.
pub proof fn later_entry_wins(
    entries: Seq<(String, String)>,
    name: String,
    value: String,
    other: Seq<char>,
)
    ensures
        environ_map(entries.push((name, value)))[name@] == value@,
        environ_map(entries.push((name, value))).dom().contains(name@),
        other != name@ ==> (environ_map(entries.push((name, value))).dom().contains(other)
            <==> environ_map(entries).dom().contains(other)),
        other != name@ && environ_map(entries).dom().contains(other) ==> environ_map(
            entries.push((name, value)),
        )[other] == environ_map(entries)[other],
        environ_map(Seq::empty()) == Map::<Seq<char>, Seq<char>>::empty(),
{
    assert(entries.push((name, value)).drop_last() =~= entries);
}

/// A field that is missing or is no number counts with its default.
pub proof fn unreadable_fields_have_defaults(fields: Seq<Seq<char>>, i: int, max: nat, default: nat)
    requires
        0 <= i,
    ensures
        i >= fields.len() ==> number_field(fields, i, max, default) == default && nice_field(
            fields,
            i,
        ) == 0,
        i < fields.len() && text::unsigned_value(fields[i], max) is None ==> number_field(
            fields,
            i,
            max,
            default,
        ) == default,
        i < fields.len() ==> (text::unsigned_value(fields[i], max) matches Some(n) ==> number_field(
            fields,
            i,
            max,
            default,
        ) == n),
        i < fields.len() && text::signed_value(fields[i], -128, 127) is None ==> nice_field(
            fields,
            i,
        ) == 0,
        i < fields.len() ==> (text::signed_value(fields[i], -128, 127) matches Some(n)
            ==> nice_field(fields, i) == n),
{
}

/// Where the fields of a stat line cannot be read as text there is an error
/// with the words for these bytes.
pub proof fn unreadable_stat_line_is_an_error(head: Seq<u8>, name: Seq<u8>, rest: Seq<u8>)
    requires
        !head.contains(0x28),
        !rest.contains(0x29),
        !utf8::valid_utf8(rest),
    ensures
        stat_fields(head + seq![0x28u8] + name + seq![0x29u8, 0x20u8] + rest) == Err::<
            (nat, Seq<char>, int, nat),
            InfoErrorView,
        >(InfoErrorView::InvalidUtf8(utf8_complaint(rest))),
{
    stat_line_is_taken_apart(head, name, rest);
}

/// A line is split at every zero, and each argument is decoded in its place.
pub proof fn arguments_are_decoded_in_place(raw: Seq<u8>, i: int)
    requires
        0 <= i < command_line(raw).len(),
    ensures
        command_line(raw)[i] == decoded(arg_bytes(raw)[i]),
{
}

} // verus!
