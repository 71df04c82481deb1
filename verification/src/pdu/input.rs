//! Client input: the slow-path Input Event PDU, a Share Data PDU
//! (`PDUTYPE2_INPUT`) carrying fixed 12-byte `TS_INPUT_EVENT`s: `eventTime`
//! (4 bytes, left zero), `messageType` (2) and six bytes of event data.
use vstd::prelude::*;
use crate::bytes::{le16, le32, put_u16, push_all};
use super::finalization::{share_data, spec_share_data};

verus! {

/// Share Data `pduType2` for an input event PDU.
pub const PDUTYPE2_INPUT: u8 = 28;

// messageType values.
pub const INPUT_EVENT_SYNC: u16 = 0x0000;
pub const INPUT_EVENT_SCANCODE: u16 = 0x0004;
pub const INPUT_EVENT_UNICODE: u16 = 0x0005;
pub const INPUT_EVENT_MOUSE: u16 = 0x8001;
pub const INPUT_EVENT_MOUSEX: u16 = 0x8002;
/// Relative mouse motion and buttons (only when the server allows it).
pub const INPUT_EVENT_MOUSEREL: u16 = 0x8004;

// Keyboard event flags.
pub const KBDFLAGS_EXTENDED: u16 = 0x0100;
pub const KBDFLAGS_DOWN: u16 = 0x4000;
pub const KBDFLAGS_RELEASE: u16 = 0x8000;

// Pointer event flags.
pub const PTRFLAGS_HWHEEL: u16 = 0x0400;
pub const PTRFLAGS_WHEEL: u16 = 0x0200;
pub const PTRFLAGS_WHEEL_NEGATIVE: u16 = 0x0100;
/// The 9-bit signed wheel-rotation field within the pointer flags.
pub const PTRFLAGS_WHEEL_ROTATION_MASK: u16 = 0x01ff;
pub const PTRFLAGS_MOVE: u16 = 0x0800;
pub const PTRFLAGS_DOWN: u16 = 0x8000;
pub const PTRFLAGS_BUTTON1: u16 = 0x1000;
pub const PTRFLAGS_BUTTON2: u16 = 0x2000;
pub const PTRFLAGS_BUTTON3: u16 = 0x4000;

// Extended pointer event flags.
pub const PTRXFLAGS_DOWN: u16 = 0x8000;
pub const PTRXFLAGS_BUTTON1: u16 = 0x0001;
pub const PTRXFLAGS_BUTTON2: u16 = 0x0002;

/// One encoded 12-byte input event.
pub type EventBytes = [u8; 12];

/// An event: zero time, the message type and three 16-bit data fields.
pub open spec fn spec_event(message_type: u16, a: u16, b: u16, c: u16) -> Seq<u8> {
    seq![0u8, 0u8, 0u8, 0u8] + le16(message_type) + le16(a) + le16(b) + le16(c)
}

fn event(message_type: u16, a: u16, b: u16, c: u16) -> (r: EventBytes)
    ensures
        r@ == spec_event(message_type, a, b, c),
{
    let mut e = [0u8; 12];
    e[4] = (message_type % 256) as u8;
    e[5] = (message_type / 256) as u8;
    e[6] = (a % 256) as u8;
    e[7] = (a / 256) as u8;
    e[8] = (b % 256) as u8;
    e[9] = (b / 256) as u8;
    e[10] = (c % 256) as u8;
    e[11] = (c / 256) as u8;
    assert(e@ =~= spec_event(message_type, a, b, c));
    e
}

/// A keyboard scancode event; `flags` is a mask of `KBDFLAGS_*`.
pub fn keyboard_event(flags: u16, key_code: u16) -> (r: EventBytes)
    ensures
        r@ == spec_event(INPUT_EVENT_SCANCODE, flags, key_code, 0),
{
    event(INPUT_EVENT_SCANCODE, flags, key_code, 0)
}

/// A Unicode keyboard event (for keys with no scancode).
pub fn unicode_event(flags: u16, code: u16) -> (r: EventBytes)
    ensures
        r@ == spec_event(INPUT_EVENT_UNICODE, flags, code, 0),
{
    event(INPUT_EVENT_UNICODE, flags, code, 0)
}

/// A mouse event; `flags` is a mask of `PTRFLAGS_*`, `x`/`y` desktop pixels.
pub fn mouse_event(flags: u16, x: u16, y: u16) -> (r: EventBytes)
    ensures
        r@ == spec_event(INPUT_EVENT_MOUSE, flags, x, y),
{
    event(INPUT_EVENT_MOUSE, flags, x, y)
}

/// An extended mouse event (XBUTTON1/2); `flags` is a mask of `PTRXFLAGS_*`.
pub fn mouse_x_event(flags: u16, x: u16, y: u16) -> (r: EventBytes)
    ensures
        r@ == spec_event(INPUT_EVENT_MOUSEX, flags, x, y),
{
    event(INPUT_EVENT_MOUSEX, flags, x, y)
}

/// A relative mouse event: signed motion deltas in two's complement.
pub fn rel_mouse_event(flags: u16, dx: i16, dy: i16) -> (r: EventBytes)
    ensures
        r@ == spec_event(INPUT_EVENT_MOUSEREL, flags, dx as u16, dy as u16),
{
    event(INPUT_EVENT_MOUSEREL, flags, dx as u16, dy as u16)
}

/// A synchronize event carrying the lock-key toggle state.
pub open spec fn spec_sync_event(toggle_flags: u32) -> Seq<u8> {
    seq![0u8, 0u8, 0u8, 0u8] + le16(INPUT_EVENT_SYNC) + seq![0u8, 0u8] + le32(toggle_flags)
}

/// A synchronize event carrying the lock-key toggle state (`toggle_flags`:
/// SCROLL_LOCK 0x1, NUM_LOCK 0x2, CAPS_LOCK 0x4, KANA_LOCK 0x8).
pub fn sync_event(toggle_flags: u32) -> (r: EventBytes)
    ensures
        r@ == spec_sync_event(toggle_flags),
{
    let mut e = [0u8; 12];
    e[8] = (toggle_flags % 256) as u8;
    e[9] = ((toggle_flags / 256) % 256) as u8;
    e[10] = ((toggle_flags / 65536) % 256) as u8;
    e[11] = (toggle_flags / 16777216) as u8;
    assert(e@ =~= spec_sync_event(toggle_flags));
    e
}

/// The events' bytes, in order.
pub open spec fn events_bytes(events: Seq<EventBytes>) -> Seq<u8>
    decreases events.len(),
{
    if events.len() == 0 {
        Seq::empty()
    } else {
        events_bytes(events.drop_last()) + events.last()@
    }
}

/// The body of an Input Event PDU: the event count (wrapping), padding, the
/// events.
pub open spec fn spec_input_body(events: Seq<EventBytes>) -> Seq<u8> {
    le16((events.len() % 65536) as u16) + le16(0) + events_bytes(events)
}

/// Build a slow-path Input Event PDU carrying `events`.
pub fn input_pdu(share_id: u32, user_id: u16, events: &[EventBytes]) -> (r: Vec<u8>)
    ensures
        r@ == spec_share_data(share_id, user_id, PDUTYPE2_INPUT, spec_input_body(events@)),
{
    let mut body: Vec<u8> = Vec::new();
    put_u16((events.len() % 65536) as u16, &mut body);
    put_u16(0, &mut body);
    let ghost head = body@;
    let mut i: usize = 0;
    while i < events.len()
        invariant
            i <= events@.len(),
            body@ == head + events_bytes(events@.take(i as int)),
        decreases events@.len() - i,
    {
        let ev: &EventBytes = &events[i];
        push_all(&mut body, ev.as_slice());
        assert(events@.take(i as int + 1).drop_last() =~= events@.take(i as int));
        i = i + 1;
        assert(body@ =~= head + events_bytes(events@.take(i as int)));
    }
    assert(events@.take(i as int) =~= events@);
    share_data(share_id, user_id, PDUTYPE2_INPUT, body.as_slice())
}

} // verus!
