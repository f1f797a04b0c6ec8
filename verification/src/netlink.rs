//! The wire format of the kernel's process connector.
//!
//! A datagram holds netlink messages, each a header of 16 bytes and a payload.
//! The payload of a message of the connector is a header of 20 bytes (two
//! words of identification, two of sequencing, a length and flags), then a
//! process event: a header of 16 bytes that begins with the kind of the event,
//! and the data of that kind. All numbers are in the byte order of the machine.

use std::collections::VecDeque;
use vstd::prelude::*;
use vstd::utf8;

use crate::info::{bytes_between, utf8_strict};
use crate::text;
use crate::text::trimmed_nul;

verus! {

// ---------------------------------------------------------------------------
// Protocol constants (linux/netlink.h, linux/connector.h, linux/cn_proc.h)
// ---------------------------------------------------------------------------

pub const NETLINK_CONNECTOR: i32 = 11;

pub const CN_IDX_PROC: u32 = 1;

pub const CN_VAL_PROC: u32 = 1;

pub const PROC_CN_MCAST_LISTEN: u32 = 1;

pub const NLMSG_DONE: u16 = 3;

pub const PROC_EVENT_FORK: u32 = 0x0000_0001;

pub const PROC_EVENT_EXEC: u32 = 0x0000_0002;

pub const PROC_EVENT_UID: u32 = 0x0000_0004;

pub const PROC_EVENT_COMM: u32 = 0x0000_0200;

pub const PROC_EVENT_EXIT: u32 = 0x8000_0000;

/// The length of a netlink message header.
pub const NL_HDR_LEN: usize = 16;

/// The length of a connector message header.
pub const CN_HDR_LEN: usize = 20;

/// The length of a process event header.
pub const EVENT_HDR_LEN: usize = 16;

// ---------------------------------------------------------------------------
// Numbers
// ---------------------------------------------------------------------------

/// The order of the bytes of a number.
#[derive(Clone, Copy, Debug, PartialEq, Eq, Structural)]
pub enum ByteOrder {
    Little,
    Big,
}

/// The number in the two bytes at `i`.
pub open spec fn u16_at(order: ByteOrder, b: Seq<u8>, i: int) -> u16 {
    match order {
        ByteOrder::Little => (b[i] + 256 * b[i + 1]) as u16,
        ByteOrder::Big => (b[i + 1] + 256 * b[i]) as u16,
    }
}

/// The number in the four bytes at `i`.
pub open spec fn u32_at(order: ByteOrder, b: Seq<u8>, i: int) -> u32 {
    match order {
        ByteOrder::Little => (b[i] + 0x100 * b[i + 1] + 0x1_0000 * b[i + 2] + 0x100_0000 * b[i
            + 3]) as u32,
        ByteOrder::Big => (b[i + 3] + 0x100 * b[i + 2] + 0x1_0000 * b[i + 1] + 0x100_0000
            * b[i]) as u32,
    }
}

/// The two bytes of a number.
pub open spec fn u16_bytes(order: ByteOrder, n: u16) -> Seq<u8> {
    let low = (n % 256) as u8;
    let high = (n / 256) as u8;
    match order {
        ByteOrder::Little => seq![low, high],
        ByteOrder::Big => seq![high, low],
    }
}

/// The four bytes of a number.
pub open spec fn u32_bytes(order: ByteOrder, n: u32) -> Seq<u8> {
    let b0 = (n % 0x100) as u8;
    let b1 = (n / 0x100 % 0x100) as u8;
    let b2 = (n / 0x1_0000 % 0x100) as u8;
    let b3 = (n / 0x100_0000) as u8;
    match order {
        ByteOrder::Little => seq![b0, b1, b2, b3],
        ByteOrder::Big => seq![b3, b2, b1, b0],
    }
}

fn read_u16(order: ByteOrder, b: &Vec<u8>, i: usize) -> (r: u16)
    requires
        i + 2 <= b@.len(),
    ensures
        r == u16_at(order, b@, i as int),
{
    let total: usize = b.len();
    assert(i + 2 <= total);
    match order {
        ByteOrder::Little => b[i] as u16 + 256 * (b[i + 1] as u16),
        ByteOrder::Big => b[i + 1] as u16 + 256 * (b[i] as u16),
    }
}

fn read_u32(order: ByteOrder, b: &Vec<u8>, i: usize) -> (r: u32)
    requires
        i + 4 <= b@.len(),
    ensures
        r == u32_at(order, b@, i as int),
{
    let total: usize = b.len();
    assert(i + 4 <= total);
    match order {
        ByteOrder::Little => b[i] as u32 + 0x100 * (b[i + 1] as u32) + 0x1_0000 * (b[i + 2] as u32)
            + 0x100_0000 * (b[i + 3] as u32),
        ByteOrder::Big => b[i + 3] as u32 + 0x100 * (b[i + 2] as u32) + 0x1_0000 * (b[i
            + 1] as u32) + 0x100_0000 * (b[i] as u32),
    }
}

fn push_u16(order: ByteOrder, out: &mut Vec<u8>, n: u16)
    ensures
        final(out)@ == old(out)@ + u16_bytes(order, n),
{
    let low: u8 = (n % 256) as u8;
    let high: u8 = (n / 256) as u8;
    match order {
        ByteOrder::Little => {
            out.push(low);
            out.push(high);
        },
        ByteOrder::Big => {
            out.push(high);
            out.push(low);
        },
    }
    assert(out@ =~= old(out)@ + u16_bytes(order, n));
}

fn push_u32(order: ByteOrder, out: &mut Vec<u8>, n: u32)
    ensures
        final(out)@ == old(out)@ + u32_bytes(order, n),
{
    let b0: u8 = (n % 0x100) as u8;
    let b1: u8 = (n / 0x100 % 0x100) as u8;
    let b2: u8 = (n / 0x1_0000 % 0x100) as u8;
    let b3: u8 = (n / 0x100_0000) as u8;
    match order {
        ByteOrder::Little => {
            out.push(b0);
            out.push(b1);
            out.push(b2);
            out.push(b3);
        },
        ByteOrder::Big => {
            out.push(b3);
            out.push(b2);
            out.push(b1);
            out.push(b0);
        },
    }
    assert(out@ =~= old(out)@ + u32_bytes(order, n));
}

/// A number that was written into a message is read back from it.
pub proof fn number_round_trip(order: ByteOrder, n: u32, before: Seq<u8>, after: Seq<u8>)
    ensures
        u32_at(order, before + u32_bytes(order, n) + after, before.len() as int) == n,
{
    let all = before + u32_bytes(order, n) + after;
    let at = before.len() as int;
    let w = u32_bytes(order, n);
    assert(w.len() == 4);
    assert(all[at] == w[0] && all[at + 1] == w[1] && all[at + 2] == w[2] && all[at + 3] == w[3]);
    assert(n == n % 0x100 + 0x100 * (n / 0x100 % 0x100) + 0x1_0000 * (n / 0x1_0000 % 0x100)
        + 0x100_0000 * (n / 0x100_0000)) by (bit_vector);
    assert(n / 0x100_0000 < 0x100) by (bit_vector);
}

// ---------------------------------------------------------------------------
// Events
// ---------------------------------------------------------------------------

/// An event received from the kernel's process connector.
#[derive(Clone, Debug, PartialEq, Eq)]
pub enum ProcEvent {
    Fork { parent_pid: u32, child_pid: u32, child_tgid: u32 },
    Exec { pid: u32 },
    Exit { pid: u32, exit_code: u32 },
    Comm { pid: u32, comm: String },
    Uid { pid: u32 },
}

/// What an event says.
#[verifier::ext_equal]
pub enum EventView {
    Fork { parent_pid: u32, child_pid: u32, child_tgid: u32 },
    Exec { pid: u32 },
    Exit { pid: u32, exit_code: u32 },
    Comm { pid: u32, comm: Seq<char> },
    Uid { pid: u32 },
}

impl View for ProcEvent {
    type V = EventView;

    open spec fn view(&self) -> EventView {
        match self {
            ProcEvent::Fork { parent_pid, child_pid, child_tgid } => EventView::Fork {
                parent_pid: *parent_pid,
                child_pid: *child_pid,
                child_tgid: *child_tgid,
            },
            ProcEvent::Exec { pid } => EventView::Exec { pid: *pid },
            ProcEvent::Exit { pid, exit_code } => EventView::Exit {
                pid: *pid,
                exit_code: *exit_code,
            },
            ProcEvent::Comm { pid, comm } => EventView::Comm { pid: *pid, comm: comm@ },
            ProcEvent::Uid { pid } => EventView::Uid { pid: *pid },
        }
    }
}

/// What each event of a sequence says.
pub open spec fn event_views(events: Seq<ProcEvent>) -> Seq<EventView> {
    Seq::new(events.len(), |i: int| events[i]@)
}

/// The name in a fixed-width field: UTF-8, padded with zero bytes. A field
/// that is not UTF-8 counts as empty.
pub open spec fn field_name(bytes: Seq<u8>) -> Seq<char> {
    if utf8::valid_utf8(bytes) {
        text::trim_nul(utf8::decode_utf8(bytes))
    } else {
        Seq::empty()
    }
}

/// The event in the connector message that begins at `at` and may reach to
/// the end of `b`.
#[verifier::opaque]
pub open spec fn event_at(order: ByteOrder, b: Seq<u8>, at: int) -> Option<EventView> {
    let len = b.len() - at;
    let data = at + CN_HDR_LEN + EVENT_HDR_LEN;
    let room = len - CN_HDR_LEN - EVENT_HDR_LEN;
    let what = u32_at(order, b, at + CN_HDR_LEN);
    if room < 0 || u32_at(order, b, at) != CN_IDX_PROC || u32_at(order, b, at + 4) != CN_VAL_PROC {
        None
    } else if what == PROC_EVENT_FORK && room >= 16 {
        Some(
            EventView::Fork {
                parent_pid: u32_at(order, b, data),
                child_pid: u32_at(order, b, data + 8),
                child_tgid: u32_at(order, b, data + 12),
            },
        )
    } else if what == PROC_EVENT_EXEC && room >= 8 {
        Some(EventView::Exec { pid: u32_at(order, b, data) })
    } else if what == PROC_EVENT_EXIT && room >= 24 {
        Some(
            EventView::Exit {
                pid: u32_at(order, b, data),
                exit_code: u32_at(order, b, data + 8),
            },
        )
    } else if what == PROC_EVENT_COMM && room >= 24 {
        Some(
            EventView::Comm {
                pid: u32_at(order, b, data),
                comm: field_name(b.subrange(data + 8, data + 24)),
            },
        )
    } else if what == PROC_EVENT_UID && room >= 16 {
        Some(EventView::Uid { pid: u32_at(order, b, data) })
    } else {
        None
    }
}

/// The event in the connector message that begins at `at`.
///
/// A message of another connector, of an unknown kind, or too short for its
/// kind holds no event.
pub fn parse_cn_msg(order: ByteOrder, buf: &Vec<u8>, at: usize) -> (r: Option<ProcEvent>)
    requires
        at <= buf@.len(),
    ensures
        match r {
            Some(e) => event_at(order, buf@, at as int) == Some(e@),
            None => event_at(order, buf@, at as int) is None,
        },
{
    reveal(event_at);
    let len: usize = buf.len() - at;
    if len < CN_HDR_LEN + EVENT_HDR_LEN {
        return None;
    }
    if read_u32(order, buf, at) != CN_IDX_PROC || read_u32(order, buf, at + 4) != CN_VAL_PROC {
        return None;
    }
    let what: u32 = read_u32(order, buf, at + CN_HDR_LEN);
    let data: usize = at + CN_HDR_LEN + EVENT_HDR_LEN;
    let room: usize = len - CN_HDR_LEN - EVENT_HDR_LEN;
    if what == PROC_EVENT_FORK {
        if room < 16 {
            return None;
        }
        Some(
            ProcEvent::Fork {
                parent_pid: read_u32(order, buf, data),
                child_pid: read_u32(order, buf, data + 8),
                child_tgid: read_u32(order, buf, data + 12),
            },
        )
    } else if what == PROC_EVENT_EXEC {
        if room < 8 {
            return None;
        }
        Some(ProcEvent::Exec { pid: read_u32(order, buf, data) })
    } else if what == PROC_EVENT_EXIT {
        if room < 24 {
            return None;
        }
        Some(
            ProcEvent::Exit {
                pid: read_u32(order, buf, data),
                exit_code: read_u32(order, buf, data + 8),
            },
        )
    } else if what == PROC_EVENT_COMM {
        if room < 24 {
            return None;
        }
        let field = bytes_between(buf, data + 8, data + 24);
        let comm = match utf8_strict(&field) {
            Ok(s) => trimmed_nul(s.as_str()),
            Err(_) => String::new(),
        };
        Some(ProcEvent::Comm { pid: read_u32(order, buf, data), comm })
    } else if what == PROC_EVENT_UID {
        if room < 16 {
            return None;
        }
        Some(ProcEvent::Uid { pid: read_u32(order, buf, data) })
    } else {
        None
    }
}

/// A length rounded up to a multiple of 4.
pub open spec fn aligned(n: int) -> int {
    (n + 3) / 4 * 4
}

/// The length of the message at `offset`, if there is one: it has at least a
/// header and fits into the datagram.
pub open spec fn message_len(order: ByteOrder, data: Seq<u8>, offset: int) -> Option<int> {
    let len = u32_at(order, data, offset);
    if offset < 0 || offset + NL_HDR_LEN > data.len() || len < NL_HDR_LEN || offset + len
        > data.len() {
        None
    } else {
        Some(len as int)
    }
}

/// The event in the message at `offset`: only messages of one type hold one.
pub open spec fn message_event(order: ByteOrder, data: Seq<u8>, offset: int) -> Seq<EventView> {
    if u16_at(order, data, offset + 4) == NLMSG_DONE {
        match event_at(order, data, offset + NL_HDR_LEN) {
            Some(e) => seq![e],
            None => Seq::empty(),
        }
    } else {
        Seq::empty()
    }
}

/// The events in the messages of a datagram from `offset` on.
///
/// A message that does not fit into the datagram, or is shorter than its own
/// header, ends the datagram.
pub open spec fn events_from(order: ByteOrder, data: Seq<u8>, offset: int) -> Seq<EventView>
    decreases data.len() + 4 - offset,
{
    match message_len(order, data, offset) {
        Some(len) => message_event(order, data, offset) + events_from(
            order,
            data,
            offset + aligned(len),
        ),
        None => Seq::empty(),
    }
}

fn read_len(order: ByteOrder, data: &Vec<u8>, offset: usize) -> (r: Option<usize>)
    requires
        offset <= data@.len(),
    ensures
        match r {
            Some(len) => message_len(order, data@, offset as int) == Some(len as int)
                && NL_HDR_LEN <= len <= data@.len() - offset,
            None => message_len(order, data@, offset as int) is None,
        },
{
    let room: usize = data.len() - offset;
    if room < NL_HDR_LEN {
        return None;
    }
    let msg_len: u32 = read_u32(order, data, offset);
    if msg_len < NL_HDR_LEN as u32 || msg_len as u64 > room as u64 {
        None
    } else {
        Some(msg_len as usize)
    }
}

fn read_event(order: ByteOrder, data: &Vec<u8>, offset: usize) -> (r: Option<ProcEvent>)
    requires
        offset + NL_HDR_LEN <= data@.len(),
    ensures
        message_event(order, data@, offset as int) == match r {
            Some(e) => seq![e@],
            None => Seq::empty(),
        },
{
    let total: usize = data.len();
    assert(offset + NL_HDR_LEN <= total);
    if read_u16(order, data, offset + 4) == NLMSG_DONE {
        parse_cn_msg(order, data, offset + NL_HDR_LEN)
    } else {
        None
    }
}

fn padding(len: usize) -> (r: usize)
    ensures
        len + r == aligned(len as int),
        r < 4,
{
    (4 - len % 4) % 4
}

/// The events in a datagram, in order.
pub fn parse_datagram(order: ByteOrder, data: &Vec<u8>) -> (r: Vec<ProcEvent>)
    ensures
        event_views(r@) == events_from(order, data@, 0),
{
    let mut events: Vec<ProcEvent> = Vec::new();
    let mut offset: usize = 0;
    let total: usize = data.len();
    assert(event_views(events@) =~= Seq::empty());
    assert(event_views(events@) + events_from(order, data@, 0) =~= events_from(order, data@, 0));
    loop
        invariant
            total == data@.len(),
            offset <= total,
            events_from(order, data@, 0) == event_views(events@) + events_from(
                order,
                data@,
                offset as int,
            ),
        decreases total - offset,
    {
        let ghost before = event_views(events@);
        let len: usize = match read_len(order, data, offset) {
            Some(len) => len,
            None => {
                assert(events_from(order, data@, offset as int) =~= Seq::empty());
                assert(before + Seq::<EventView>::empty() =~= before);
                return events;
            },
        };
        let ghost here = message_event(order, data@, offset as int);
        let ghost rest = events_from(order, data@, offset + aligned(len as int));
        assert(before + (here + rest) =~= (before + here) + rest);
        match read_event(order, data, offset) {
            Some(e) => {
                events.push(e);
                assert(event_views(events@) =~= before + here);
            },
            None => {
                assert(event_views(events@) =~= before + here);
            },
        }
        let pad: usize = padding(len);
        let left: usize = total - offset - len;
        if left < pad {
            assert(message_len(order, data@, offset + aligned(len as int)) is None);
            assert(rest =~= Seq::empty());
            assert(event_views(events@) + Seq::<EventView>::empty() =~= event_views(events@));
            return events;
        }
        offset = offset + len + pad;
    }
}

/// The bytes of the request to be sent process events.
pub open spec fn listen_request(order: ByteOrder, pid: u32) -> Seq<u8> {
    u32_bytes(order, 40) + u16_bytes(order, NLMSG_DONE) + u16_bytes(order, 0) + u32_bytes(order, 0)
        + u32_bytes(order, pid) + u32_bytes(order, CN_IDX_PROC) + u32_bytes(order, CN_VAL_PROC)
        + u32_bytes(order, 0) + u32_bytes(order, 0) + u16_bytes(order, 4) + u16_bytes(order, 0)
        + u32_bytes(order, PROC_CN_MCAST_LISTEN)
}

/// The request of process `pid` to be sent process events: a netlink header,
/// a connector header and the operation.
pub fn subscribe_to_proc_events(order: ByteOrder, pid: u32) -> (r: Vec<u8>)
    ensures
        r@ == listen_request(order, pid),
        r@.len() == NL_HDR_LEN + CN_HDR_LEN + 4,
{
    let mut out: Vec<u8> = Vec::new();
    push_u32(order, &mut out, 40);
    assert(out@ =~= u32_bytes(order, 40));
    push_u16(order, &mut out, NLMSG_DONE);
    push_u16(order, &mut out, 0);
    push_u32(order, &mut out, 0);
    push_u32(order, &mut out, pid);
    push_u32(order, &mut out, CN_IDX_PROC);
    push_u32(order, &mut out, CN_VAL_PROC);
    push_u32(order, &mut out, 0);
    push_u32(order, &mut out, 0);
    push_u16(order, &mut out, 4);
    push_u16(order, &mut out, 0);
    push_u32(order, &mut out, PROC_CN_MCAST_LISTEN);
    out
}

// ---------------------------------------------------------------------------
// Monitor
// ---------------------------------------------------------------------------

/// The events that have arrived and were not handed out yet.
pub struct ProcMonitor {
    queue: VecDeque<ProcEvent>,
}

impl ProcMonitor {
    /// The events in the order in which they will be handed out.
    pub closed spec fn pending(&self) -> Seq<EventView> {
        event_views(self.queue@)
    }

    /// A monitor without events.
    pub fn new() -> (r: ProcMonitor)
        ensures
            r.pending() == Seq::<EventView>::empty(),
    {
        let r = ProcMonitor { queue: VecDeque::new() };
        assert(r.pending() =~= Seq::empty());
        r
    }

    /// Takes in a datagram.
    pub fn receive(&mut self, order: ByteOrder, data: &Vec<u8>)
        ensures
            final(self).pending() == old(self).pending() + events_from(order, data@, 0),
    {
        let mut events = parse_datagram(order, data);
        let ghost all = event_views(events@);
        let ghost start = self.pending();
        let ghost taken = events@;
        assert(start + all.take(0) =~= start);
        let ghost mut n: int = 0;
        while events.len() > 0
            invariant
                0 <= n <= taken.len(),
                all == event_views(taken),
                events@ == taken.skip(n),
                self.pending() == start + all.take(n),
            decreases events@.len(),
        {
            let ghost before = self.queue@;
            let e = events.remove(0);
            self.queue.push_back(e);
            proof {
                assert(e == taken[n]);
                assert(event_views(self.queue@) =~= event_views(before).push(e@));
                assert(all.take(n + 1) =~= all.take(n).push(e@));
                n = n + 1;
                assert(events@ =~= taken.skip(n));
                assert(self.pending() =~= start + all.take(n));
            }
        }
        assert(all.take(n) =~= all);
    }

    /// The event that arrived first, if there is one.
    pub fn next_event(&mut self) -> (r: Option<ProcEvent>)
        ensures
            match r {
                Some(e) => old(self).pending().len() > 0 && e@ == old(self).pending()[0]
                    && final(self).pending() == old(self).pending().skip(1),
                None => old(self).pending().len() == 0 && final(self).pending() == old(self).pending(),
            },
    {
        let r = self.queue.pop_front();
        assert(r is Some ==> self.pending() =~= old(self).pending().skip(1));
        r
    }
}

impl Default for ProcMonitor {
    fn default() -> (r: ProcMonitor)
        ensures
            r.pending() == Seq::<EventView>::empty(),
    {
        ProcMonitor::new()
    }
}

// ---------------------------------------------------------------------------
// Laws
// ---------------------------------------------------------------------------

/// In the one order the byte of the lowest weight comes first, in the other it
/// comes last.
pub proof fn bytes_have_their_weights(b: Seq<u8>, i: int)
    ensures
        u16_at(ByteOrder::Little, b, i) == b[i] + 256 * b[i + 1],
        u16_at(ByteOrder::Big, b, i) == 256 * b[i] + b[i + 1],
        u32_at(ByteOrder::Little, b, i) == b[i] + 256 * (b[i + 1] + 256 * (b[i + 2] + 256 * b[i
            + 3])),
        u32_at(ByteOrder::Big, b, i) == b[i + 3] + 256 * (b[i + 2] + 256 * (b[i + 1] + 256 * b[i])),
{
}

proof fn lemma_short_round_trip(order: ByteOrder, n: u16, before: Seq<u8>, after: Seq<u8>)
    ensures
        u16_at(order, before + u16_bytes(order, n) + after, before.len() as int) == n,
{
    let all = before + u16_bytes(order, n) + after;
    let at = before.len() as int;
    let w = u16_bytes(order, n);
    assert(w.len() == 2);
    assert(all[at] == w[0] && all[at + 1] == w[1]);
    assert(n == n % 256 + 256 * (n / 256));
    assert(n / 256 < 256);
}

/// The event in a message, field by field: the message must come from the
/// process connector, the kind of the event stands at byte 20, and what it
/// tells starts at byte 36. A message that is too short for its kind tells
/// nothing.
pub proof fn events_are_read_field_by_field(order: ByteOrder, b: Seq<u8>, at: int)
    requires
        0 <= at <= b.len(),
    ensures
        ({
            let room = b.len() - at - 36;
            let ours = room >= 0 && u32_at(order, b, at) == 1 && u32_at(order, b, at + 4) == 1;
            let what = u32_at(order, b, at + 20);
            let pid = u32_at(order, b, at + 36);
            &&& !ours ==> event_at(order, b, at) is None
            &&& ours && what == 1 ==> event_at(order, b, at) == (if room >= 16 {
                Some(
                    EventView::Fork {
                        parent_pid: pid,
                        child_pid: u32_at(order, b, at + 44),
                        child_tgid: u32_at(order, b, at + 48),
                    },
                )
            } else {
                None
            })
            &&& ours && what == 2 ==> event_at(order, b, at) == (if room >= 8 {
                Some(EventView::Exec { pid })
            } else {
                None
            })
            &&& ours && what == 0x8000_0000u32 ==> event_at(order, b, at) == (if room >= 24 {
                Some(EventView::Exit { pid, exit_code: u32_at(order, b, at + 44) })
            } else {
                None
            })
            &&& ours && what == 0x200 ==> event_at(order, b, at) == (if room >= 24 {
                Some(EventView::Comm { pid, comm: field_name(b.subrange(at + 44, at + 60)) })
            } else {
                None
            })
            &&& ours && what == 4 ==> event_at(order, b, at) == (if room >= 16 {
                Some(EventView::Uid { pid })
            } else {
                None
            })
            &&& ours && what != 1 && what != 2 && what != 4 && what != 0x200 && what
                != 0x8000_0000u32 ==> event_at(order, b, at) is None
        }),
{
    reveal(event_at);
}

/// A name is what stands before the zeros that fill its field.
pub proof fn name_ends_at_the_filling(bytes: Seq<u8>, name: Seq<char>, n: nat)
    requires
        name.len() > 0 ==> name.last() != '\0',
    ensures
        utf8::valid_utf8(bytes) && utf8::decode_utf8(bytes) == name + text::repeated('\0', n)
            ==> field_name(bytes) == name,
        !utf8::valid_utf8(bytes) ==> field_name(bytes).len() == 0,
{
    text::trimming_takes_the_zeros(name, n);
}

/// The next message starts at the next multiple of four.
pub proof fn messages_start_at_multiples_of_four(n: int)
    requires
        n >= 0,
    ensures
        aligned(n) % 4 == 0,
        n <= aligned(n) < n + 4,
{
}

/// A datagram is read message by message: one that is whole and marked as the
/// last of its kind gives the event that follows its header, another one that
/// is whole gives none, and at one that is not whole reading ends.
pub proof fn datagram_is_read_message_by_message(order: ByteOrder, data: Seq<u8>, offset: int)
    requires
        0 <= offset,
    ensures
        ({
            let len = u32_at(order, data, offset);
            let whole = offset + 16 <= data.len() && 16 <= len && offset + len <= data.len();
            let rest = events_from(order, data, offset + aligned(len as int));
            &&& !whole ==> events_from(order, data, offset).len() == 0
            &&& whole && u16_at(order, data, offset + 4) != 3 ==> events_from(order, data, offset)
                == rest
            &&& whole && u16_at(order, data, offset + 4) == 3 && event_at(
                order,
                data,
                offset + 16,
            ) is None ==> events_from(order, data, offset) == rest
            &&& whole && u16_at(order, data, offset + 4) == 3 ==> (event_at(
                order,
                data,
                offset + 16,
            ) matches Some(e) ==> events_from(order, data, offset) == seq![e] + rest)
        }),
{
    let len = u32_at(order, data, offset);
    let rest = events_from(order, data, offset + aligned(len as int));
    assert(Seq::<EventView>::empty() + rest =~= rest);
}

/// The request to listen, field by field: forty bytes of one message from this
/// process to the process connector, whose four bytes ask to listen.
pub proof fn request_asks_to_listen(order: ByteOrder, pid: u32)
    ensures
        ({
            let r = listen_request(order, pid);
            &&& r.len() == 40
            &&& u32_at(order, r, 0) == 40
            &&& u16_at(order, r, 4) == 3
            &&& u16_at(order, r, 6) == 0
            &&& u32_at(order, r, 8) == 0
            &&& u32_at(order, r, 12) == pid
            &&& u32_at(order, r, 16) == 1
            &&& u32_at(order, r, 20) == 1
            &&& u32_at(order, r, 24) == 0
            &&& u32_at(order, r, 28) == 0
            &&& u16_at(order, r, 32) == 4
            &&& u16_at(order, r, 34) == 0
            &&& u32_at(order, r, 36) == 1
        }),
{
    let r = listen_request(order, pid);
    lemma_long_within(order, r, 0, 40);
    lemma_short_within(order, r, 4, 3);
    lemma_short_within(order, r, 6, 0);
    lemma_long_within(order, r, 8, 0);
    lemma_long_within(order, r, 12, pid);
    lemma_long_within(order, r, 16, 1);
    lemma_long_within(order, r, 20, 1);
    lemma_long_within(order, r, 24, 0);
    lemma_long_within(order, r, 28, 0);
    lemma_short_within(order, r, 32, 4);
    lemma_short_within(order, r, 34, 0);
    lemma_long_within(order, r, 36, 1);
}

proof fn lemma_long_within(order: ByteOrder, r: Seq<u8>, i: int, n: u32)
    requires
        0 <= i <= r.len() - 4,
        r[i] == u32_bytes(order, n)[0],
        r[i + 1] == u32_bytes(order, n)[1],
        r[i + 2] == u32_bytes(order, n)[2],
        r[i + 3] == u32_bytes(order, n)[3],
    ensures
        u32_at(order, r, i) == n,
{
    number_round_trip(order, n, r.take(i), r.skip(i + 4));
    assert(r =~= r.take(i) + u32_bytes(order, n) + r.skip(i + 4));
}

proof fn lemma_short_within(order: ByteOrder, r: Seq<u8>, i: int, n: u16)
    requires
        0 <= i <= r.len() - 2,
        r[i] == u16_bytes(order, n)[0],
        r[i + 1] == u16_bytes(order, n)[1],
    ensures
        u16_at(order, r, i) == n,
{
    lemma_short_round_trip(order, n, r.take(i), r.skip(i + 2));
    assert(r =~= r.take(i) + u16_bytes(order, n) + r.skip(i + 2));
}

} // verus!
