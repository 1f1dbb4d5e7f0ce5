use nekopet::config::{contains_str, corner_edges, Config};
use nekopet::input::{is_key_press, read_i32, read_u16, record_is_key_press, record_is_key_press_in, EVENT_RECORD_LEN};
use nekopet::state::State;

#[test]
fn default_config_values() {
    let c = Config::default();
    assert_eq!(c.scale, 3);
    assert_eq!(c.anim_ms, 120);
    assert_eq!(c.corner, "bottom-right");
    assert_eq!(c.stretch_every_secs, 1800);
    assert_eq!(c.stretch_anim_ms, 400);
    assert_eq!(c.stretch_hold_ms, 1500);
    assert_eq!(c.bounce_every_secs, 60);
    assert_eq!(c.lean_every_secs, 45);
}

#[test]
fn corners() {
    assert_eq!(corner_edges("bottom-right"), (true, false));
    assert_eq!(corner_edges("bottom-left"), (false, false));
    assert_eq!(corner_edges("top-right"), (true, true));
    assert_eq!(corner_edges("top-left"), (false, true));
    assert_eq!(corner_edges("nowhere"), (false, false));
    assert_eq!(corner_edges("upright"), (true, false));
}

#[test]
fn contains_matches_str_contains() {
    for (h, n) in [("abc", ""), ("", ""), ("", "a"), ("abc", "abc"), ("abcd", "bcd"), ("ab", "abc"), ("aab", "ab"), ("héllo", "llo"), ("héllo", "é")] {
        assert_eq!(contains_str(h, n), h.contains(n), "{:?} in {:?}", n, h);
    }
}

#[test]
fn key_press_rule() {
    assert!(is_key_press(1, 30, 1));
    assert!(!is_key_press(1, 30, 0));
    assert!(!is_key_press(1, 30, 2));
    assert!(!is_key_press(1, 256, 1));
    assert!(!is_key_press(2, 30, 1));
}

fn record(ev_type: u16, code: u16, value: i32) -> Vec<u8> {
    let mut r = vec![0u8; EVENT_RECORD_LEN];
    r[16..18].copy_from_slice(&ev_type.to_ne_bytes());
    r[18..20].copy_from_slice(&code.to_ne_bytes());
    r[20..24].copy_from_slice(&value.to_ne_bytes());
    r
}

#[test]
fn key_press_records() {
    let little_endian = u16::from_ne_bytes([1, 0]) == 1;
    assert_eq!(record_is_key_press(&record(1, 30, 1)), (true, little_endian));
    assert_eq!(record_is_key_press(&record(1, 30, 0)), (false, little_endian));
    assert_eq!(record_is_key_press(&record(4, 4, 1)), (false, little_endian));
    assert_eq!(record_is_key_press(&record(1, 300, 1)), (false, little_endian));
    assert_eq!(record_is_key_press(&record(1, 30, -1)), (false, little_endian));
}

#[test]
fn state_durations() {
    assert_eq!(State::Idle.frame_count(), 4);
    assert_eq!(State::Idle.duration_ms(0), 3000);
    assert_eq!(State::Idle.duration_ms(5000), 4000);
    assert_eq!(State::Idle.duration_ms(3999), 6999);
    assert_eq!(State::Typing.duration_ms(5000), u32::MAX);
    assert_eq!(State::Lean.duration_ms(1), u32::MAX);
}

#[test]
fn key_press_records_in_either_byte_order() {
    let mut le = vec![0u8; EVENT_RECORD_LEN];
    le[16..18].copy_from_slice(&1u16.to_le_bytes());
    le[18..20].copy_from_slice(&30u16.to_le_bytes());
    le[20..24].copy_from_slice(&1i32.to_le_bytes());
    let mut be = vec![0u8; EVENT_RECORD_LEN];
    be[16..18].copy_from_slice(&1u16.to_be_bytes());
    be[18..20].copy_from_slice(&30u16.to_be_bytes());
    be[20..24].copy_from_slice(&1i32.to_be_bytes());
    assert!(record_is_key_press_in(&le, true));
    assert!(!record_is_key_press_in(&le, false));
    assert!(record_is_key_press_in(&be, false));
    assert!(!record_is_key_press_in(&be, true));
    // a release (value 0) and a negative value are no press
    le[20..24].copy_from_slice(&0i32.to_le_bytes());
    assert!(!record_is_key_press_in(&le, true));
    le[20..24].copy_from_slice(&(-255i32).to_le_bytes());
    assert!(!record_is_key_press_in(&le, true));
}

#[test]
fn field_readers() {
    assert_eq!(read_u16(0x34, 0x12, true), 0x1234);
    assert_eq!(read_u16(0x34, 0x12, false), 0x3412);
    assert_eq!(read_i32(0xff, 0xff, 0xff, 0xff, true), -1);
    assert_eq!(read_i32(0x00, 0x00, 0x00, 0x80, true), i32::MIN);
    assert_eq!(read_i32(0x00, 0x00, 0x00, 0x80, false), 128);
    assert_eq!(read_i32(0x78, 0x56, 0x34, 0x12, true), 0x1234_5678);
}

#[test]
fn machine_byte_order() {
    assert_eq!(nekopet::input::machine_is_little_endian(), u16::from_ne_bytes([1, 0]) == 1);
}
