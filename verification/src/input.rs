//! Keyboard activity from Linux input event records.
use vstd::prelude::*;

verus! {

/// Size of one Linux `input_event` record on a 64-bit system: a 16-byte timestamp, then
/// the type (2 bytes), the code (2 bytes) and the value (4 bytes).
pub const EVENT_RECORD_LEN: usize = 24;

/// An input event is a key being pressed: an `EV_KEY` event (type 1) with value 1 (press,
/// not release or repeat) for a keyboard key (code below 256).
pub open spec fn spec_is_key_press(ev_type: u16, ev_code: u16, ev_value: i32) -> bool {
    ev_type == 1 && ev_value == 1 && ev_code < 256
}

/// Whether an input event with these fields is a key being pressed.
pub fn is_key_press(ev_type: u16, ev_code: u16, ev_value: i32) -> (res: bool)
    ensures
        res == spec_is_key_press(ev_type, ev_code, ev_value),
{
    ev_type == 1 && ev_value == 1 && ev_code < 256
}

/// The `u16` whose bytes, least significant first, are `b0`, `b1`.
pub open spec fn u16_le(b0: u8, b1: u8) -> int {
    b0 as int + 256 * b1 as int
}

/// The `u32` whose bytes, least significant first, are `b0` to `b3`.
pub open spec fn u32_le(b0: u8, b1: u8, b2: u8, b3: u8) -> int {
    b0 as int + 256 * b1 as int + 65536 * b2 as int + 16777216 * b3 as int
}

/// The `i32` with the two's-complement bit pattern of the `u32` value `u`.
pub open spec fn as_signed32(u: int) -> int {
    if u >= 0x8000_0000 { u - 0x1_0000_0000 } else { u }
}

/// `v` is what two bytes say in the machine's byte order, whichever of the two it is.
pub open spec fn reads_u16(b: Seq<u8>, v: u16) -> bool {
    v == u16_le(b[0], b[1]) || v == u16_le(b[1], b[0])
}

/// Calls `u16::from_ne_bytes`. Trusted to read the bytes little-endian or big-endian, as the
/// standard library documents; which of the two depends on the machine and is not stated.
#[verifier::external_body]
fn u16_from_ne_bytes(bytes: [u8; 2]) -> (v: u16)
    ensures
        reads_u16(bytes@, v),
{
    u16::from_ne_bytes(bytes)
}

/// Whether the machine stores integers least significant byte first: the bytes 1, 0 read
/// in its byte order give 1.
pub fn machine_is_little_endian() -> (le: bool)
    ensures
        exists|v: u16| reads_u16(seq![1u8, 0u8], v) && le == (v == 1),
{
    let bytes: [u8; 2] = [1, 0];
    let v = u16_from_ne_bytes(bytes);
    assert(bytes@ =~= seq![1u8, 0u8]);
    v == 1
}

/// The `u16` stored in bytes `b0`, `b1`, in little-endian or big-endian order.
pub open spec fn u16_in(b0: u8, b1: u8, little_endian: bool) -> u16 {
    (if little_endian { u16_le(b0, b1) } else { u16_le(b1, b0) }) as u16
}

/// The `i32` stored in the four bytes `b`, in little-endian or big-endian order.
pub open spec fn i32_in(b: Seq<u8>, little_endian: bool) -> i32 {
    as_signed32(if little_endian { u32_le(b[0], b[1], b[2], b[3]) } else { u32_le(b[3], b[2], b[1], b[0]) }) as i32
}

/// The input event record `rec`, read in the given byte order, reports a key being pressed.
pub open spec fn record_press(rec: Seq<u8>, little_endian: bool) -> bool {
    spec_is_key_press(
        u16_in(rec[16], rec[17], little_endian),
        u16_in(rec[18], rec[19], little_endian),
        i32_in(rec.subrange(20, 24), little_endian),
    )
}

/// Reads a `u16` from two bytes in the given byte order.
pub fn read_u16(b0: u8, b1: u8, little_endian: bool) -> (v: u16)
    ensures
        v == u16_in(b0, b1, little_endian),
{
    let (lo, hi) = if little_endian { (b0, b1) } else { (b1, b0) };
    lo as u16 + (hi as u16) * 256
}

/// Reads an `i32` (two's complement) from four bytes in the given byte order.
pub fn read_i32(b0: u8, b1: u8, b2: u8, b3: u8, little_endian: bool) -> (v: i32)
    ensures
        v == i32_in(seq![b0, b1, b2, b3], little_endian),
{
    let (x0, x1, x2, x3) = if little_endian { (b0, b1, b2, b3) } else { (b3, b2, b1, b0) };
    let u: u32 = x0 as u32 + (x1 as u32) * 256 + (x2 as u32) * 65536 + (x3 as u32) * 16777216;
    if u >= 0x8000_0000 {
        (u as i64 - 0x1_0000_0000) as i32
    } else {
        u as i32
    }
}

/// Whether the input event record `rec` reports a key being pressed, reading its type,
/// code and value in the given byte order.
pub fn record_is_key_press_in(rec: &[u8], little_endian: bool) -> (res: bool)
    requires
        rec@.len() == EVENT_RECORD_LEN,
    ensures
        res == record_press(rec@, little_endian),
{
    let ev_type = read_u16(rec[16], rec[17], little_endian);
    let ev_code = read_u16(rec[18], rec[19], little_endian);
    let ev_value = read_i32(rec[20], rec[21], rec[22], rec[23], little_endian);
    assert(rec@.subrange(20, 24) =~= seq![rec@[20], rec@[21], rec@[22], rec@[23]]);
    is_key_press(ev_type, ev_code, ev_value)
}

/// Whether the input event record `rec` reports a key being pressed, reading all its fields
/// in the machine's byte order; also which byte order that is (`true`: little-endian).
pub fn record_is_key_press(rec: &[u8]) -> (r: (bool, bool))
    requires
        rec@.len() == EVENT_RECORD_LEN,
    ensures
        r.0 == record_press(rec@, r.1),
{
    let little_endian = machine_is_little_endian();
    (record_is_key_press_in(rec, little_endian), little_endian)
}

} // verus!

verus! {

/// A key press is exactly a key event (type 1) whose value is 1 (pressed, not released or
/// repeated) and whose code is below 256: codes from 256 up, mouse and other buttons among
/// them, never count.
pub proof fn law_key_press_is_a_keyboard_key_going_down(ev_type: u16, ev_code: u16, ev_value: i32)
    ensures
        spec_is_key_press(ev_type, ev_code, ev_value) ==> ev_code < 256,
        spec_is_key_press(ev_type, ev_code, ev_value) ==> ev_type == 1 && ev_value == 1,
        (ev_type == 1 && ev_value == 1 && ev_code <= 255) ==> spec_is_key_press(ev_type, ev_code, ev_value),
{
}

/// Read in either byte order, a record reports a key press only for a code below 256.
pub proof fn law_record_press_needs_a_key_code(rec: Seq<u8>, little_endian: bool)
    requires
        rec.len() == EVENT_RECORD_LEN,
    ensures
        record_press(rec, little_endian) ==> u16_in(rec[18], rec[19], little_endian) < 256,
        record_press(rec, little_endian) ==> u16_in(rec[16], rec[17], little_endian) == 1,
{
}

} // verus!
