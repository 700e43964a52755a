use pi_dashboard::touch::{
    clamp_screen, is_fixed_device_name, is_fixed_device_path, parse_event, HwDecoder, HwKind, StateMachine, TouchEvent, TouchKind,
};

#[test]
fn tap_sequence() {
    let mut m = StateMachine::new();
    let e1 = m.on_down(100, 200, 1000);
    let e2 = m.on_up(101, 201, 1100);
    assert_eq!(e1.unwrap().kind, TouchKind::Press);
    assert_eq!(e2.unwrap().kind, TouchKind::Tap);
}

#[test]
fn drag_sequence() {
    let mut m = StateMachine::new();
    let e = m.on_down(100, 200, 1000);
    // Small jitter stays as pressed.
    let jitter = m.on_move(103, 200, 1010);
    assert_eq!(e.unwrap().kind, TouchKind::Press);
    assert!(jitter.is_none());
    // Cross threshold -> drag.
    let ev = m.on_move(115, 205, 1020).unwrap();
    assert!(matches!(ev.kind, TouchKind::Drag { .. }));
    // Coalesced until sampling threshold is exceeded.
    assert!(m.on_move(118, 207, 1030).is_none());
    let ev = m.on_move(125, 215, 1040).unwrap();
    assert!(matches!(ev.kind, TouchKind::Drag { dx, dy } if dx == 10 && dy == 10));
    let up = m.on_up(125, 215, 1050);
    assert_eq!(up.unwrap().kind, TouchKind::Release);
}

#[test]
fn long_press() {
    let mut m = StateMachine::new();
    assert_eq!(m.on_down(100, 200, 1000).unwrap().kind, TouchKind::Press);
    assert!(m.on_tick(1499).is_none());
    assert_eq!(m.on_tick(1500).unwrap().kind, TouchKind::LongPress);
    assert_eq!(m.on_up(100, 200, 1600).unwrap().kind, TouchKind::Release);
}

#[test]
fn moving_prevents_long_press() {
    let mut m = StateMachine::new();
    assert_eq!(m.on_down(100, 200, 1000).unwrap().kind, TouchKind::Press);
    assert!(matches!(m.on_move(115, 200, 1200).unwrap().kind, TouchKind::Drag { .. }));
    assert!(m.on_tick(1600).is_none());
}

#[test]
fn touch_event_is_activate() {
    let tap = TouchEvent { x: 0, y: 0, kind: TouchKind::Tap, timestamp_ms: 0 };
    let long = TouchEvent { x: 0, y: 0, kind: TouchKind::LongPress, timestamp_ms: 0 };
    let press = TouchEvent { x: 0, y: 0, kind: TouchKind::Press, timestamp_ms: 0 };
    assert!(tap.is_activate());
    assert!(long.is_activate());
    assert!(!press.is_activate());
}

#[test]
fn long_press_reported_once() {
    let mut m = StateMachine::new();
    m.on_down(10, 10, 0);
    assert_eq!(m.on_tick(600).unwrap().kind, TouchKind::LongPress);
    assert!(m.on_tick(700).is_none());
    assert!(m.on_tick(5000).is_none());
}

#[test]
fn slow_release_is_not_a_tap() {
    let mut m = StateMachine::new();
    m.on_down(10, 10, 0);
    assert_eq!(m.on_up(10, 10, 200).unwrap().kind, TouchKind::Release);
    assert!(m.on_up(10, 10, 300).is_none());
}

#[test]
fn raw_event_decoding() {
    let mut buf = [0u8; 24];
    buf[0..8].copy_from_slice(&5i64.to_le_bytes());
    buf[8..16].copy_from_slice(&250_000i64.to_le_bytes());
    buf[16..18].copy_from_slice(&1u16.to_le_bytes());
    buf[18..20].copy_from_slice(&330u16.to_le_bytes());
    buf[20..24].copy_from_slice(&1i32.to_le_bytes());
    assert_eq!(parse_event(&buf), Some((5250, 1, 330, 1)));
    assert_eq!(parse_event(&buf[..23]), None);
}

#[test]
fn decoder_reports_finger() {
    let mut d = HwDecoder::new();
    assert_eq!(d.feed(3, 0, 40, 1), None);
    assert_eq!(d.feed(3, 1, 50, 2), None);
    assert_eq!(d.feed(1, 330, 1, 3), Some((HwKind::Down, 40, 50, 3)));
    assert_eq!(d.feed(3, 0, 45, 4), Some((HwKind::Move, 45, 50, 4)));
    assert_eq!(d.feed(1, 330, 0, 5), Some((HwKind::Up, 45, 50, 5)));
    assert_eq!(d.feed(0, 0, 0, 6), None);
}

#[test]
fn clamp_to_panel() {
    assert_eq!(clamp_screen(-5, 400), (0, 319));
    assert_eq!(clamp_screen(500, 10), (479, 10));
}

#[test]
fn fixed_device_detection() {
    assert!(is_fixed_device_path("/dev/input/touchscreen-fixed"));
    assert!(!is_fixed_device_path("/dev/input/event1"));
    assert!(is_fixed_device_name("Touchscreen-Fixed\n"));
    assert!(is_fixed_device_name("  Touchscreen-Fixed  "));
    assert!(!is_fixed_device_name("ADS7846 Touchscreen"));
    assert!(!is_fixed_device_name(""));
}
