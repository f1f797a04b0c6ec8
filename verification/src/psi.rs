//! Pressure stall information.
//!
//! The kernel reports how much time tasks lose waiting for memory, I/O or CPU.
//! The monitor arms threshold triggers and waits for one of them to fire, or
//! for a timeout, and then reads the current averages. The averages and the
//! thresholds are fractions and stay with the program; the library reads the
//! file format and makes the decisions.

use vstd::prelude::*;

use crate::text;
use crate::text::{after_prefix, format_u64, same, split_lines, split_words, Space};

verus! {

/// How much pressure there is on memory.
#[derive(Clone, Copy, Debug, PartialEq, Eq, PartialOrd, Ord, Structural)]
pub enum PressureLevel {
    Normal,
    Low,
    High,
    Critical,
}

/// The rank of a level, the calmest first.
pub open spec fn level_rank(level: PressureLevel) -> u32 {
    match level {
        PressureLevel::Normal => 0,
        PressureLevel::Low => 1,
        PressureLevel::High => 2,
        PressureLevel::Critical => 3,
    }
}

/// The level for a reading that reaches these thresholds.
pub open spec fn level_of(critical: bool, high: bool, low: bool) -> PressureLevel {
    if critical {
        PressureLevel::Critical
    } else if high {
        PressureLevel::High
    } else if low {
        PressureLevel::Low
    } else {
        PressureLevel::Normal
    }
}

impl PressureLevel {
    /// The level for a reading, given which thresholds its ten-second average
    /// reaches: one and a half times the high one, the high one, the low one.
    pub fn from_memory(reaches_critical: bool, reaches_high: bool, reaches_low: bool) -> (r:
        PressureLevel)
        ensures
            r == level_of(reaches_critical, reaches_high, reaches_low),
    {
        if reaches_critical {
            PressureLevel::Critical
        } else if reaches_high {
            PressureLevel::High
        } else if reaches_low {
            PressureLevel::Low
        } else {
            PressureLevel::Normal
        }
    }

    /// The rank of the level.
    pub fn rank(self) -> (r: u32)
        ensures
            r == level_rank(self),
    {
        match self {
            PressureLevel::Normal => 0,
            PressureLevel::Low => 1,
            PressureLevel::High => 2,
            PressureLevel::Critical => 3,
        }
    }
}

/// A reading that reaches more thresholds never gets a lower level.
pub proof fn more_pressure_never_ranks_lower(
    critical: bool,
    high: bool,
    low: bool,
    critical2: bool,
    high2: bool,
    low2: bool,
)
    requires
        critical ==> critical2,
        high ==> high2,
        low ==> low2,
    ensures
        level_rank(level_of(critical, high, low)) <= level_rank(level_of(critical2, high2, low2)),
{
}

// ---------------------------------------------------------------------------
// File format
// ---------------------------------------------------------------------------

/// The averages of one line, as they stand there.
#[derive(Clone, Debug, PartialEq, Eq)]
pub struct PsiLine {
    pub avg10: Option<String>,
    pub avg60: Option<String>,
    pub avg300: Option<String>,
}

/// The lines of a pressure file. An average that is missing counts as zero.
#[derive(Clone, Debug, PartialEq, Eq)]
pub struct PsiTexts {
    pub some: PsiLine,
    pub full: PsiLine,
}

/// The averages of one line.
#[verifier::ext_equal]
pub struct PsiLineView {
    pub avg10: Option<Seq<char>>,
    pub avg60: Option<Seq<char>>,
    pub avg300: Option<Seq<char>>,
}

impl View for PsiLine {
    type V = PsiLineView;

    open spec fn view(&self) -> PsiLineView {
        PsiLineView {
            avg10: text::opt_text(self.avg10),
            avg60: text::opt_text(self.avg60),
            avg300: text::opt_text(self.avg300),
        }
    }
}

/// What follows `label` in the last of the first `n` fields that has it, the
/// kind of the line not counted.
pub open spec fn field_value(fields: Seq<Seq<char>>, n: nat, label: Seq<char>) -> Option<Seq<char>>
    decreases n,
{
    if n <= 1 {
        None
    } else {
        match text::strip_prefix(fields[n - 1], label) {
            Some(v) => Some(v),
            None => field_value(fields, (n - 1) as nat, label),
        }
    }
}

/// The averages on a line.
pub open spec fn line_averages(line: Seq<char>) -> PsiLineView {
    let fields = text::words(line, Space::Ascii);
    PsiLineView {
        avg10: field_value(fields, fields.len(), "avg10="@),
        avg60: field_value(fields, fields.len(), "avg60="@),
        avg300: field_value(fields, fields.len(), "avg300="@),
    }
}

/// The kind of a line: its first field.
pub open spec fn line_kind(line: Seq<char>) -> Seq<char> {
    let fields = text::words(line, Space::Ascii);
    if fields.len() > 0 {
        fields[0]
    } else {
        Seq::empty()
    }
}

/// The averages on the last of the first `n` lines that is of that kind.
pub open spec fn averages_of(lines: Seq<Seq<char>>, n: nat, kind: Seq<char>) -> PsiLineView
    decreases n,
{
    if n == 0 {
        PsiLineView { avg10: None, avg60: None, avg300: None }
    } else if line_kind(lines[n - 1]) == kind {
        line_averages(lines[n - 1])
    } else {
        averages_of(lines, (n - 1) as nat, kind)
    }
}

fn find_field(fields: &Vec<String>, label: &str) -> (r: Option<String>)
    ensures
        text::opt_text(r) == field_value(text::texts(fields@), fields@.len(), label@),
{
    let ghost all = text::texts(fields@);
    let mut n: usize = fields.len();
    while n > 1
        invariant
            all == text::texts(fields@),
            n <= fields@.len(),
            field_value(all, fields@.len(), label@) == field_value(all, n as nat, label@),
        decreases n,
    {
        assert(all[n - 1] == fields@[n - 1]@);
        match after_prefix(fields[n - 1].as_str(), label) {
            Some(v) => {
                return Some(v);
            },
            None => {},
        }
        n = n - 1;
    }
    None
}

fn no_averages() -> (r: PsiLine)
    ensures
        r@ == (PsiLineView { avg10: None, avg60: None, avg300: None }),
{
    PsiLine { avg10: None, avg60: None, avg300: None }
}

/// The averages in the text of a pressure file. Of several lines of one kind,
/// and of several fields of one name, the last counts.
pub fn read_psi_into(content: &str) -> (r: PsiTexts)
    ensures
        ({
            let l = text::lines(content@);
            &&& r.some@ == averages_of(l, l.len(), "some"@)
            &&& r.full@ == averages_of(l, l.len(), "full"@)
        }),
{
    let all = split_lines(content);
    let ghost l = text::lines(content@);
    assert(all@.len() == text::texts(all@).len());
    let mut some = no_averages();
    let mut full = no_averages();
    let mut i: usize = 0;
    while i < all.len()
        invariant
            l == text::lines(content@),
            text::texts(all@) == l,
            all@.len() == l.len(),
            i <= all@.len(),
            some@ == averages_of(l, i as nat, "some"@),
            full@ == averages_of(l, i as nat, "full"@),
        decreases all@.len() - i,
    {
        let fields = split_words(all[i].as_str(), Space::Ascii);
        assert(all@[i as int]@ == l[i as int]);
        assert(text::texts(fields@).len() == fields@.len());
        proof {
            reveal_strlit("some");
            reveal_strlit("full");
            assert("some"@.len() == 4 && "full"@.len() == 4);
            assert("some"@[0] == 's' && "full"@[0] == 'f');
            assert(Seq::<char>::empty().len() == 0);
        }
        if fields.len() > 0 {
            assert(text::texts(fields@)[0] == fields@[0]@);
            let is_some = same(fields[0].as_str(), "some");
            let is_full = same(fields[0].as_str(), "full");
            if is_some || is_full {
                let line = PsiLine {
                    avg10: find_field(&fields, "avg10="),
                    avg60: find_field(&fields, "avg60="),
                    avg300: find_field(&fields, "avg300="),
                };
                assert(line@ == line_averages(l[i as int]));
                if is_some {
                    some = line;
                } else {
                    full = line;
                }
            }
        }
        i = i + 1;
    }
    PsiTexts { some, full }
}

// ---------------------------------------------------------------------------
// Triggers
// ---------------------------------------------------------------------------

/// The window of a trigger: one second.
pub const WINDOW_US: u64 = 1_000_000;

/// The text that arms a trigger: it fires when the tasks that stall lose
/// `stall_us` within `window_us`.
pub fn trigger_text(stall_us: u64, window_us: u64) -> (r: String)
    ensures
        r@ == "some "@ + text::decimal(stall_us as nat) + seq![' '] + text::decimal(
            window_us as nat,
        ) + seq!['\0'],
{
    let mut t: String = String::new();
    t.append("some ");
    let stall = format_u64(stall_us);
    t.append(stall.as_str());
    t.push(' ');
    let window = format_u64(window_us);
    t.append(window.as_str());
    t.push('\0');
    assert(t@ =~= "some "@ + text::decimal(stall_us as nat) + seq![' '] + text::decimal(
        window_us as nat,
    ) + seq!['\0']);
    t
}

/// The timeout for a poll: the interval, held to what `poll` takes.
pub fn poll_timeout_ms(check_interval_ms: u64) -> (r: i32)
    ensures
        r == if check_interval_ms < 1 {
            1
        } else if check_interval_ms > i32::MAX {
            i32::MAX as int
        } else {
            check_interval_ms as int
        },
{
    if check_interval_ms < 1 {
        1
    } else if check_interval_ms > 2147483647 {
        2147483647
    } else {
        check_interval_ms as i32
    }
}

pub const EINTR: i32 = 4;

pub const POLLPRI: i16 = 2;

pub const POLLERR: i16 = 8;

pub const POLLHUP: i16 = 16;

/// What the monitor does after a poll.
#[derive(Clone, Copy, Debug, PartialEq, Eq, Structural)]
pub enum MonitorStep {
    /// A signal came: poll again at once.
    Repoll,
    /// The poll failed: sleep for the timeout, then read.
    SleepThenRead(u64),
    /// A trigger fired or the timeout elapsed: read.
    Read,
}

/// What the monitor does after a poll that returned `n`, with `errno` where
/// it failed.
pub open spec fn step_after(n: i32, errno: i32, timeout_ms: i32) -> MonitorStep {
    if n >= 0 {
        MonitorStep::Read
    } else if errno == EINTR {
        MonitorStep::Repoll
    } else {
        MonitorStep::SleepThenRead(timeout_ms as u64)
    }
}

/// What the monitor does after a poll. Whatever happened, short of a signal,
/// ends in a fresh reading: the kernel never says that pressure is over.
pub fn run_monitor(n: i32, errno: i32, timeout_ms: i32) -> (r: MonitorStep)
    requires
        timeout_ms >= 0,
    ensures
        r == step_after(n, errno, timeout_ms),
{
    if n >= 0 {
        MonitorStep::Read
    } else if errno == EINTR {
        MonitorStep::Repoll
    } else {
        MonitorStep::SleepThenRead(timeout_ms as u64)
    }
}

/// What a poll said of one trigger.
#[derive(Clone, Copy, Debug, PartialEq, Eq, Structural)]
pub struct TriggerReport {
    pub fired: bool,
    pub failed: bool,
}

/// What the returned events say of a trigger.
pub open spec fn report_of(revents: i16) -> TriggerReport {
    TriggerReport {
        fired: revents & POLLPRI != 0,
        failed: revents & (POLLERR | POLLHUP) != 0,
    }
}

/// What a poll said of each trigger.
pub fn trigger_reports(revents: &Vec<i16>) -> (r: Vec<TriggerReport>)
    ensures
        r@ == Seq::new(revents@.len(), |i: int| report_of(revents@[i])),
{
    let mut r: Vec<TriggerReport> = Vec::new();
    let mut i: usize = 0;
    while i < revents.len()
        invariant
            i <= revents@.len(),
            r@ == Seq::new(i as nat, |k: int| report_of(revents@[k])),
        decreases revents@.len() - i,
    {
        let e: i16 = revents[i];
        r.push(
            TriggerReport { fired: e & POLLPRI != 0, failed: e & (POLLERR | POLLHUP) != 0 },
        );
        i = i + 1;
        assert(r@ =~= Seq::new(i as nat, |k: int| report_of(revents@[k])));
    }
    r
}

/// Without working triggers every poll still leads to a reading.
pub proof fn every_timeout_leads_to_a_reading(errno: i32, timeout_ms: i32)
    ensures
        step_after(0, errno, timeout_ms) == MonitorStep::Read,
{
}

/// The level is the highest whose bound is reached.
pub proof fn highest_bound_decides(critical: bool, high: bool, low: bool)
    ensures
        level_of(critical, high, low) == PressureLevel::Critical <==> critical,
        level_of(critical, high, low) == PressureLevel::High <==> high && !critical,
        level_of(critical, high, low) == PressureLevel::Low <==> low && !high && !critical,
        level_of(critical, high, low) == PressureLevel::Normal <==> !low && !high && !critical,
{
}

/// The levels are ranked from normal to critical.
pub proof fn levels_are_ranked()
    ensures
        level_rank(PressureLevel::Normal) == 0,
        level_rank(PressureLevel::Low) == 1,
        level_rank(PressureLevel::High) == 2,
        level_rank(PressureLevel::Critical) == 3,
{
}

/// After a wait the pressure is read, at once or after a pause if the wait
/// failed; only an interrupted wait is repeated.
pub proof fn wait_leads_to_a_reading(n: i32, errno: i32, timeout_ms: i32)
    requires
        timeout_ms >= 0,
    ensures
        n >= 0 ==> step_after(n, errno, timeout_ms) == MonitorStep::Read,
        n < 0 && errno == 4 ==> step_after(n, errno, timeout_ms) == MonitorStep::Repoll,
        n < 0 && errno != 4 ==> (step_after(
            n,
            errno,
            timeout_ms,
        ) matches MonitorStep::SleepThenRead(pause) && pause == timeout_ms),
{
}

/// A trigger fired if the urgent bit is set, and failed if the bit for an error
/// or for a hangup is.
pub proof fn bits_are_reported(revents: i16)
    ensures
        report_of(revents).fired <==> revents & 2 != 0,
        report_of(revents).failed <==> revents & 8 != 0 || revents & 16 != 0,
{
    assert(revents & (8i16 | 16i16) != 0 <==> revents & 8 != 0 || revents & 16 != 0) by (bit_vector);
}

/// The last line of a kind decides, and where there is none nothing is known.
pub proof fn last_line_of_a_kind_decides(lines: Seq<Seq<char>>, n: nat, kind: Seq<char>, k: int)
    requires
        n <= lines.len(),
    ensures
        0 <= k < n && line_kind(lines[k]) == kind && (forall|j: int|
            k < j < n ==> line_kind(#[trigger] lines[j]) != kind) ==> averages_of(lines, n, kind)
            == line_averages(lines[k]),
        (forall|j: int| 0 <= j < n ==> line_kind(#[trigger] lines[j]) != kind) ==> averages_of(
            lines,
            n,
            kind,
        ) == (PsiLineView { avg10: None, avg60: None, avg300: None }),
    decreases n,
{
    if n > 0 {
        last_line_of_a_kind_decides(lines, (n - 1) as nat, kind, k);
        assert(lines[n - 1] == lines[n - 1]);
    }
}

/// A value is what follows its label in the last field that has it; the first
/// field, which names the kind, holds no value.
pub proof fn label_leads_to_the_value(
    fields: Seq<Seq<char>>,
    n: nat,
    label: Seq<char>,
    value: Seq<char>,
    k: int,
)
    requires
        n <= fields.len(),
    ensures
        1 <= k < n && fields[k] == label + value && (forall|j: int|
            k < j < n ==> !text::starts_with(#[trigger] fields[j], label)) ==> field_value(
            fields,
            n,
            label,
        ) == Some(value),
        (forall|j: int| 1 <= j < n ==> !text::starts_with(#[trigger] fields[j], label))
            ==> field_value(fields, n, label) is None,
    decreases n,
{
    if n > 1 {
        label_leads_to_the_value(fields, (n - 1) as nat, label, value, k);
        text::parts_are_found(Seq::empty(), label, value);
        assert(fields[n - 1] == fields[n - 1]);
    }
}

/// A line is read word by word: the first is its kind, and the three averages
/// follow their labels.
pub proof fn line_is_read_word_by_word(
    line: Seq<char>,
    kind: Seq<char>,
    a: Seq<char>,
    b: Seq<char>,
    c: Seq<char>,
    total: Seq<char>,
)
    requires
        text::words(line, Space::Ascii) == seq![
            kind,
            "avg10="@ + a,
            "avg60="@ + b,
            "avg300="@ + c,
            "total="@ + total,
        ],
    ensures
        line_kind(line) == kind,
        line_averages(line) == (PsiLineView { avg10: Some(a), avg60: Some(b), avg300: Some(c) }),
{
    let fields = text::words(line, Space::Ascii);
    reveal_strlit("avg10=");
    reveal_strlit("avg60=");
    reveal_strlit("avg300=");
    reveal_strlit("total=");
    lemma_other_label(fields[1], a, "avg10="@, "avg60="@, 3);
    lemma_other_label(fields[1], a, "avg10="@, "avg300="@, 3);
    lemma_other_label(fields[2], b, "avg60="@, "avg10="@, 3);
    lemma_other_label(fields[2], b, "avg60="@, "avg300="@, 3);
    lemma_other_label(fields[3], c, "avg300="@, "avg10="@, 3);
    lemma_other_label(fields[3], c, "avg300="@, "avg60="@, 3);
    lemma_other_label(fields[4], total, "total="@, "avg10="@, 0);
    lemma_other_label(fields[4], total, "total="@, "avg60="@, 0);
    lemma_other_label(fields[4], total, "total="@, "avg300="@, 0);
    label_leads_to_the_value(fields, 5, "avg10="@, a, 1);
    label_leads_to_the_value(fields, 5, "avg60="@, b, 2);
    label_leads_to_the_value(fields, 5, "avg300="@, c, 3);
}

proof fn lemma_other_label(
    field: Seq<char>,
    value: Seq<char>,
    own: Seq<char>,
    label: Seq<char>,
    i: int,
)
    requires
        field == own + value,
        0 <= i < own.len(),
        i < label.len(),
        own[i] != label[i],
    ensures
        !text::starts_with(field, label),
{
    if text::starts_with(field, label) {
        assert(field.subrange(0, label.len() as int)[i] == field[i]);
        assert(field[i] == own[i]);
    }
}

/// The kind of a line is its first word; an empty line has none.
pub proof fn kind_is_the_first_word(line: Seq<char>)
    ensures
        text::words(line, Space::Ascii).len() > 0 ==> line_kind(line) == text::words(
            line,
            Space::Ascii,
        )[0],
        text::words(line, Space::Ascii).len() == 0 ==> line_kind(line).len() == 0,
{
}

} // verus!
