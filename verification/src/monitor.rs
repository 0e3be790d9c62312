//! Packets of the HCI monitor channel: the ATT notifications and
//! indications that BlueZ's D-Bus interface drops (characteristics without
//! the NOTIFY property bit), and how they are merged with D-Bus ones.

use vstd::prelude::*;
use std::collections::HashSet;
use crate::output::{fmt_indication, fmt_indication_text, fmt_notification, fmt_notification_text, OutputMode};
use crate::text::{parse_uint, uint_parse, chars_of, starts_with, starts_with_at};

verus! {

/// Monitor header opcode of incoming ACL data (controller to host).
pub const HCI_MON_ACL_RX_PKT: u16 = 5;

/// ATT fixed channel identifier over LE.
pub const ATT_CID: u16 = 0x0004;

/// ATT opcode of a Handle Value Notification.
pub const ATT_OP_HANDLE_NOTIFY: u8 = 0x1B;

/// ATT opcode of a Handle Value Indication.
pub const ATT_OP_HANDLE_IND: u8 = 0x1D;

/// A notification or indication taken from a monitor packet.
pub struct NotificationEvent {
    pub handle: u16,
    pub is_indication: bool,
    pub value: Vec<u8>,
}

/// Little-endian 16-bit value of two bytes.
pub open spec fn le16(lo: u8, hi: u8) -> u16 {
    (lo as int + hi as int * 256) as u16
}

fn le16_of(lo: u8, hi: u8) -> (r: u16)
    ensures
        r == le16(lo, hi),
{
    lo as u16 + (hi as u16) * 256
}

/// The event a monitor packet carries, if it is an ATT notification or
/// indication received on adapter `target`: header (opcode, index,
/// length), ACL header, L2CAP header on the ATT channel, ATT opcode,
/// handle, value.
pub open spec fn monitor_event(p: Seq<u8>, target: u16) -> Option<(u16, bool, Seq<u8>)> {
    if p.len() < 6 || le16(p[0], p[1]) != HCI_MON_ACL_RX_PKT || le16(p[2], p[3]) != target {
        None
    } else {
        let d = p.skip(6);
        if d.len() < 11 || le16(d[6], d[7]) != ATT_CID || (d[8] != ATT_OP_HANDLE_NOTIFY && d[8]
            != ATT_OP_HANDLE_IND) {
            None
        } else {
            Some((le16(d[9], d[10]), d[8] == ATT_OP_HANDLE_IND, d.skip(11)))
        }
    }
}

/// Parses one packet read from the monitor socket.
pub fn parse_monitor_packet(buf: &[u8], target: u16) -> (r: Option<NotificationEvent>)
    ensures
        match monitor_event(buf@, target) {
            None => r is None,
            Some((h, ind, v)) => (r matches Some(e) && e.handle == h && e.is_indication == ind
                && e.value@ == v),
        },
{
    let n = buf.len();
    if n < 6 {
        return None;
    }
    let opcode = le16_of(buf[0], buf[1]);
    let index = le16_of(buf[2], buf[3]);
    if opcode != HCI_MON_ACL_RX_PKT || index != target {
        return None;
    }
    let ghost d = buf@.skip(6);
    if n - 6 < 11 {
        return None;
    }
    assert(d[6] == buf@[12] && d[7] == buf@[13] && d[8] == buf@[14]);
    assert(d[9] == buf@[15] && d[10] == buf@[16]);
    let cid = le16_of(buf[12], buf[13]);
    if cid != ATT_CID {
        return None;
    }
    let att_opcode = buf[14];
    let is_notification = att_opcode == ATT_OP_HANDLE_NOTIFY;
    let is_indication = att_opcode == ATT_OP_HANDLE_IND;
    if !is_notification && !is_indication {
        return None;
    }
    let handle = le16_of(buf[15], buf[16]);
    let mut value: Vec<u8> = Vec::new();
    let mut i: usize = 17;
    while i < n
        invariant
            17 <= i <= n,
            n == buf@.len(),
            value@ == buf@.subrange(17, i as int),
        decreases n - i,
    {
        value.push(buf[i]);
        assert(buf@.subrange(17, i + 1) =~= buf@.subrange(17, i as int).push(buf@[i as int]));
        i += 1;
    }
    assert(d.skip(11) =~= buf@.subrange(17, n as int));
    Some(NotificationEvent { handle, is_indication, value })
}

/// `hciN` gives `N` where that is a 16-bit decimal number; anything else 0.
pub open spec fn adapter_index_spec(name: Seq<char>) -> u16 {
    if starts_with(name, "hci"@) {
        match uint_parse(name.skip(3), 10, 0xffff) {
            Ok(v) => v as u16,
            Err(_) => 0,
        }
    } else {
        0
    }
}

/// The index of an adapter named like `hci0`, `hci1`; 0 otherwise.
pub fn adapter_index(name: &str) -> (r: u16)
    ensures
        r == adapter_index_spec(name@),
{
    let v = chars_of(name);
    assert(v@.skip(0) =~= v@);
    if !starts_with_at(&v, 0, "hci") {
        return 0;
    }
    proof {
        reveal_strlit("hci");
    }
    assert(v@.len() >= 3);
    match parse_uint(&v, 3, 10, 0xffff) {
        Ok(x) => x as u16,
        Err(_) => 0,
    }
}

// ───────────────────────────── merging with D-Bus ─────────────────────────────

/// The line printed for an event.
pub open spec fn event_line(handle: u16, is_indication: bool, value: Seq<u8>, mode: OutputMode) -> Seq<char> {
    if is_indication {
        fmt_indication_text(handle, value, mode)
    } else {
        fmt_notification_text(handle, value, mode)
    }
}

/// The line printed for an event.
pub fn format_event(handle: u16, is_indication: bool, value: &[u8], mode: OutputMode) -> (r: String)
    ensures
        r@ == event_line(handle, is_indication, value@, mode),
{
    if is_indication {
        fmt_indication(handle, value, mode)
    } else {
        fmt_notification(handle, value, mode)
    }
}

/// Listening on both sources: the handles that D-Bus has delivered.
pub struct ListenState {
    dbus_handles: HashSet<u16>,
}

impl View for ListenState {
    type V = Set<u16>;

    closed spec fn view(&self) -> Set<u16> {
        self.dbus_handles@
    }
}

impl ListenState {
    /// Nothing delivered yet.
    pub fn new() -> (r: ListenState)
        ensures
            r@ == Set::<u16>::empty(),
    {
        ListenState { dbus_handles: HashSet::new() }
    }

    /// A D-Bus notification: its handle is remembered, and it is printed.
    pub fn on_dbus(&mut self, handle: u16, is_indication: bool, value: &[u8], mode: OutputMode) -> (r:
        String)
        ensures
            final(self)@ == old(self)@.insert(handle),
            r@ == event_line(handle, is_indication, value@, mode),
    {
        broadcast use vstd::std_specs::hash::group_hash_axioms;

        self.dbus_handles.insert(handle);
        format_event(handle, is_indication, value, mode)
    }

    /// A monitor event: dropped when D-Bus has delivered its handle (it
    /// would be printed twice), printed otherwise.
    pub fn on_monitor(&self, evt: &NotificationEvent, mode: OutputMode) -> (r: Option<String>)
        ensures
            self@.contains(evt.handle) ==> r is None,
            !self@.contains(evt.handle) ==> (r matches Some(s) && s@ == event_line(
                evt.handle,
                evt.is_indication,
                evt.value@,
                mode,
            )),
    {
        broadcast use vstd::std_specs::hash::group_hash_axioms;

        if self.dbus_handles.contains(&evt.handle) {
            None
        } else {
            Some(format_event(evt.handle, evt.is_indication, evt.value.as_slice(), mode))
        }
    }

    /// Whether D-Bus has delivered this handle.
    pub fn delivered(&self, handle: u16) -> (r: bool)
        ensures
            r == self@.contains(handle),
    {
        broadcast use vstd::std_specs::hash::group_hash_axioms;

        self.dbus_handles.contains(&handle)
    }
}

/// The delivered handles after D-Bus delivers the handles `hs` in turn.
pub open spec fn after_deliveries(delivered: Set<u16>, hs: Seq<u16>) -> Set<u16>
    decreases hs.len(),
{
    if hs.len() == 0 {
        delivered
    } else {
        after_deliveries(delivered.insert(hs[0]), hs.drop_first())
    }
}

/// Once D-Bus has delivered a handle, the monitor's copies of it are
/// dropped for the rest of the listen, whatever D-Bus delivers after it:
/// a handle is never printed from both sources.
pub proof fn lemma_delivered_stays_silent(delivered: Set<u16>, h: u16, later: Seq<u16>)
    ensures
        after_deliveries(delivered, seq![h] + later).contains(h),
{
    lemma_deliveries_keep(delivered.insert(h), later, h);
    assert((seq![h] + later).drop_first() =~= later);
}

proof fn lemma_deliveries_keep(delivered: Set<u16>, hs: Seq<u16>, h: u16)
    requires
        delivered.contains(h),
    ensures
        after_deliveries(delivered, hs).contains(h),
    decreases hs.len(),
{
    if hs.len() > 0 {
        lemma_deliveries_keep(delivered.insert(hs[0]), hs.drop_first(), h);
    }
}

} // verus!
