use middleclick_scroll::config::{Config, DeviceConfig, DeviceTable, DEFAULT_SCROLL_SPEED_BITS};
use middleclick_scroll::engine::{Engine, MouseDevice, ScrollState, UpAction};

const TP: isize = 0x11;
const USB: isize = 0x22;
const TP_PATH: &str = r"\\?\ACPI#LEN0307#4&1#{g}";
const USB_PATH: &str = r"\\?\HID#VID_046D&PID_C077#7&1#{g}";
const MS: u64 = 1_000_000;

fn mice() -> Vec<MouseDevice> {
    vec![
        MouseDevice { handle: TP, path: TP_PATH.to_string(), name: "TPPS/2 Elan TrackPoint".to_string() },
        MouseDevice { handle: USB, path: USB_PATH.to_string(), name: "USB Optical Mouse".to_string() },
    ]
}

fn engine() -> Engine {
    Engine::new(Config::default(), mice()).0
}

fn enabled(e: &Engine, path: &str) -> Option<bool> {
    e.config().devices.get(path).map(|c| c.enabled)
}

#[test]
fn config_defaults() {
    let c = Config::default();
    assert_eq!(f64::from_bits(c.scroll_speed_bits), 4.0);
    assert_eq!(c.scroll_speed_bits, DEFAULT_SCROLL_SPEED_BITS);
    assert!(c.horizontal_scroll);
    assert!(!c.invert_vertical);
    assert_eq!(c.drag_threshold, 3);
    assert!(c.devices.entries().is_empty());
}

#[test]
fn device_table_insert_get_toggle() {
    let mut t = DeviceTable::new();
    assert!(!t.contains_key("a"));
    t.insert("a".to_string(), DeviceConfig { enabled: true, name: "A".to_string() });
    t.insert("b".to_string(), DeviceConfig { enabled: false, name: "B".to_string() });
    t.insert("a".to_string(), DeviceConfig { enabled: false, name: "A2".to_string() });
    assert_eq!(t.entries().len(), 2);
    let a = t.get("a").unwrap();
    assert!(!a.enabled);
    assert_eq!(a.name, "A2");
    assert!(t.toggle("a"));
    assert!(t.get("a").unwrap().enabled);
    assert!(!t.toggle("zzz"));
    assert!(t.get("zzz").is_none());
}

#[test]
fn new_registers_devices() {
    let (e, changed) = Engine::new(Config::default(), mice());
    assert!(changed);
    assert_eq!(enabled(&e, TP_PATH), Some(true));
    assert_eq!(enabled(&e, USB_PATH), Some(false));
    assert_eq!(e.config().devices.get(USB_PATH).unwrap().name, "USB Optical Mouse");
    assert!(matches!(e.state(), ScrollState::Idle));
    assert_eq!(e.pending_count(), 0);
}

#[test]
fn refresh_keeps_stored_settings() {
    let mut e = engine();
    assert!(e.toggle_device(USB_PATH));
    assert!(!e.refresh_devices(mice()));
    assert_eq!(enabled(&e, USB_PATH), Some(true));
    let mut more = mice();
    more.push(MouseDevice { handle: 0x33, path: "new".to_string(), name: "Other".to_string() });
    assert!(e.refresh_devices(more));
    assert_eq!(enabled(&e, "new"), Some(false));
    assert_eq!(e.devices().len(), 3);
}

#[test]
fn stored_setting_not_overwritten_by_new() {
    let mut c = Config::default();
    c.devices.insert(TP_PATH.to_string(), DeviceConfig { enabled: false, name: "old".to_string() });
    let (e, changed) = Engine::new(c, mice());
    assert!(changed);
    assert_eq!(enabled(&e, TP_PATH), Some(false));
    assert_eq!(e.config().devices.get(TP_PATH).unwrap().name, "old");
}

#[test]
fn duplicate_paths_registered_once() {
    let mut ds = mice();
    ds.push(MouseDevice { handle: 0x44, path: TP_PATH.to_string(), name: "second".to_string() });
    let (e, _) = Engine::new(Config::default(), ds);
    assert_eq!(e.config().devices.entries().len(), 2);
    assert_eq!(e.config().devices.get(TP_PATH).unwrap().name, "TPPS/2 Elan TrackPoint");
}

#[test]
fn click_without_moving() {
    let mut e = engine();
    e.push_middle_down(TP, 10 * MS);
    assert!(e.has_pending_down(11 * MS));
    assert!(e.on_middle_down(11 * MS));
    assert!(e.is_active());
    assert_eq!(e.pending_count(), 0);
    assert!(e.on_raw_move(TP, 1, -1).is_none());
    assert!(matches!(e.state(), ScrollState::Pending { device: TP, moved: 2 }));
    assert!(matches!(e.on_middle_up(), UpAction::SynthClick));
    assert!(!e.is_active());
}

#[test]
fn drag_scrolls() {
    let mut e = engine();
    e.push_middle_down(TP, 0);
    assert!(e.on_middle_down(1));
    assert!(e.on_raw_move(TP, 1, 1).is_none());
    assert!(matches!(e.state(), ScrollState::Pending { moved: 2, .. }));
    assert!(e.on_raw_move(TP, 0, 1).is_none());
    assert!(matches!(e.state(), ScrollState::Scrolling { device: TP }));
    let d = e.on_raw_move(TP, 5, 7).unwrap();
    assert_eq!(d.dy, 7);
    assert_eq!(d.vertical_sign, -1);
    assert_eq!(d.dx, Some(5));
    assert!(e.on_raw_move(USB, 5, 7).is_none());
    assert!(matches!(e.on_middle_up(), UpAction::Swallow));
    assert!(matches!(e.on_middle_up(), UpAction::Pass));
}

#[test]
fn reaching_threshold_starts_drag() {
    let mut e = engine();
    e.push_middle_down(TP, 0);
    assert!(e.on_middle_down(0));
    assert!(e.on_raw_move(TP, 3, 0).is_none());
    assert!(matches!(e.state(), ScrollState::Scrolling { device: TP }));
    let d = e.on_raw_move(TP, 0, 1).unwrap();
    assert_eq!(d.dy, 1);
    assert_eq!(d.vertical_sign, -1);
    assert_eq!(d.dx, Some(0));
}

#[test]
fn just_below_threshold_is_click() {
    let mut e = engine();
    e.push_middle_down(TP, 0);
    assert!(e.on_middle_down(0));
    assert!(e.on_raw_move(TP, -1, 0).is_none());
    assert!(e.on_raw_move(TP, 0, -1).is_none());
    assert!(matches!(e.state(), ScrollState::Pending { device: TP, moved: 2 }));
    assert!(matches!(e.on_middle_up(), UpAction::SynthClick));
}

#[test]
fn inverted_and_vertical_only() {
    let mut c = Config::default();
    c.invert_vertical = true;
    c.horizontal_scroll = false;
    c.drag_threshold = 0;
    let (mut e, _) = Engine::new(c, mice());
    e.push_middle_down(TP, 0);
    assert!(e.on_middle_down(0));
    assert!(e.on_raw_move(TP, 1, 0).is_none());
    let d = e.on_raw_move(TP, 4, -2).unwrap();
    assert_eq!(d.vertical_sign, 1);
    assert_eq!(d.dy, -2);
    assert_eq!(d.dx, None);
}

#[test]
fn large_threshold_is_a_count() {
    let mut c = Config::default();
    c.drag_threshold = u32::MAX;
    let (mut e, _) = Engine::new(c, mice());
    e.push_middle_down(TP, 0);
    assert!(e.on_middle_down(0));
    assert!(e.on_raw_move(TP, i32::MIN, i32::MAX - 1).is_none());
    match e.state() {
        ScrollState::Pending { moved, .. } => assert_eq!(moved, u32::MAX - 1),
        _ => panic!("expected a pending press"),
    }
    assert!(e.on_raw_move(TP, 0, 0).is_none());
    assert!(matches!(e.state(), ScrollState::Pending { .. }));
    assert!(e.on_raw_move(TP, 0, 1).is_none());
    assert!(matches!(e.state(), ScrollState::Scrolling { .. }));
}

#[test]
fn zero_threshold_any_move_drags() {
    let mut c = Config::default();
    c.drag_threshold = 0;
    let (mut e, _) = Engine::new(c, mice());
    e.push_middle_down(TP, 0);
    assert!(e.on_middle_down(0));
    assert!(e.on_raw_move(TP, 0, 0).is_none());
    assert!(matches!(e.state(), ScrollState::Scrolling { .. }));
}

#[test]
fn disabled_device_passes() {
    let mut e = engine();
    e.push_middle_down(USB, 0);
    assert!(!e.on_middle_down(0));
    assert!(!e.is_active());
    assert_eq!(e.pending_count(), 0);
}

#[test]
fn unknown_handle_passes() {
    let mut e = engine();
    e.push_middle_down(0x99, 0);
    assert!(!e.on_middle_down(0));
}

#[test]
fn no_source_passes() {
    let mut e = engine();
    assert!(!e.has_pending_down(0));
    assert!(!e.on_middle_down(0));
    assert!(matches!(e.on_middle_up(), UpAction::Pass));
}

#[test]
fn stale_presses_expire() {
    let mut e = engine();
    e.push_middle_down(TP, 0);
    assert!(e.has_pending_down(499 * MS));
    assert!(!e.has_pending_down(500 * MS));
    assert!(!e.on_middle_down(500 * MS));
    assert_eq!(e.pending_count(), 0);
}

#[test]
fn stale_press_skipped_for_fresh_one() {
    let mut e = engine();
    e.push_middle_down(USB, 0);
    e.push_middle_down(TP, 400 * MS);
    assert!(e.on_middle_down(600 * MS));
    assert!(matches!(e.state(), ScrollState::Pending { device: TP, .. }));
}

#[test]
fn press_from_the_future_is_fresh() {
    let mut e = engine();
    e.push_middle_down(TP, 1000 * MS);
    assert!(e.has_pending_down(0));
    assert!(e.on_middle_down(0));
}

#[test]
fn queue_capacity() {
    let mut e = engine();
    e.push_middle_down(USB, 0);
    for i in 0..8 {
        e.push_middle_down(TP, i);
    }
    assert_eq!(e.pending_count(), 8);
    // the oldest (USB) was dropped, so the first match is the TrackPoint
    assert!(e.on_middle_down(10));
    assert_eq!(e.pending_count(), 7);
}

#[test]
fn second_press_while_active_passes() {
    let mut e = engine();
    e.push_middle_down(TP, 0);
    e.push_middle_down(TP, 1);
    assert!(e.on_middle_down(2));
    assert!(!e.on_middle_down(3));
    assert_eq!(e.pending_count(), 0);
    assert!(matches!(e.state(), ScrollState::Pending { .. }));
}

#[test]
fn raw_input_events() {
    let mut e = engine();
    assert!(e.on_raw_input(TP, 0x0010, 0, 0, 0, 5).is_none());
    assert_eq!(e.pending_count(), 1);
    assert!(e.on_raw_input(0, 0x0010, 0, 0, 0, 5).is_none());
    assert_eq!(e.pending_count(), 1);
    assert!(e.on_middle_down(6));
    assert!(e.on_raw_input(TP, 0, 0, 10, 0, 7).is_none());
    let d = e.on_raw_input(TP, 0, 0, 0, 3, 8).unwrap();
    assert_eq!(d.dy, 3);
    assert!(e.on_raw_input(TP, 0, 0x0001, 0, 3, 9).is_none());
}

#[test]
fn toggle_device_flips_setting() {
    let mut e = engine();
    assert!(e.toggle_device(TP_PATH));
    assert_eq!(enabled(&e, TP_PATH), Some(false));
    e.push_middle_down(TP, 0);
    assert!(!e.on_middle_down(0));
    assert!(e.toggle_device(TP_PATH));
    assert_eq!(enabled(&e, TP_PATH), Some(true));
    assert!(!e.toggle_device("missing"));
}
