use middleclick_scroll::names::{
    clean_name, default_enabled, devnode_instance_id, friendly_name, short_name,
    utf16_units_from_le_bytes, wide_len,
};
use middleclick_scroll::text::{decimal_string, str_contains, str_eq};

#[test]
fn short_name_takes_two_fields() {
    assert_eq!(
        short_name(r"\\?\HID#VID_1234&PID_5678#7&abc#{guid}"),
        r"HID\VID_1234&PID_5678"
    );
}

#[test]
fn short_name_without_prefix() {
    assert_eq!(short_name("ACPI#PNP0F13#4&1"), r"ACPI\PNP0F13");
}

#[test]
fn short_name_single_field() {
    assert_eq!(short_name(r"\\?\plain"), "plain");
    assert_eq!(short_name("plain"), "plain");
}

#[test]
fn short_name_two_fields_only() {
    assert_eq!(short_name("A#B"), r"A\B");
    assert_eq!(short_name("A#"), r"A\");
}

#[test]
fn devnode_instance_id_of_hid_path() {
    assert_eq!(
        devnode_instance_id(r"\\?\HID#VID_1234&PID_5678#7&abc#{guid}").as_deref(),
        Some(r"HID\VID_1234&PID_5678\7&abc")
    );
}

#[test]
fn devnode_instance_id_three_fields_exactly() {
    assert_eq!(devnode_instance_id(r"\\?\A#B#C").as_deref(), Some(r"A\B\C"));
}

#[test]
fn devnode_instance_id_needs_prefix_and_fields() {
    assert_eq!(devnode_instance_id("HID#VID#7&abc#{g}"), None);
    assert_eq!(devnode_instance_id(r"\\?\HID#VID"), None);
    assert_eq!(devnode_instance_id(r"\\?\HID"), None);
}

#[test]
fn le_bytes_to_units() {
    assert_eq!(utf16_units_from_le_bytes(&[0x41, 0x00, 0x42, 0x30, 0xff]), vec![0x0041, 0x3042]);
    assert_eq!(utf16_units_from_le_bytes(&[]), Vec::<u16>::new());
}

#[test]
fn wide_len_stops_at_nul() {
    assert_eq!(wide_len(&[0x41, 0x42, 0, 0x43]), 2);
    assert_eq!(wide_len(&[0x41, 0x42]), 2);
    assert_eq!(wide_len(&[0]), 0);
}

#[test]
fn clean_name_trims() {
    assert_eq!(clean_name("  TrackPoint \t\n").as_deref(), Some("TrackPoint"));
    assert_eq!(clean_name("\u{3000}x\u{a0}").as_deref(), Some("x"));
    assert_eq!(clean_name(" \t "), None);
    assert_eq!(clean_name(""), None);
}

#[test]
fn friendly_name_prefers_product_then_devnode() {
    let path = r"\\?\HID#VID_1#X#{g}";
    assert_eq!(friendly_name(path, Some("Prod".to_string()), Some("Dev".to_string())), "Prod");
    assert_eq!(friendly_name(path, None, Some("Dev".to_string())), "Dev");
    assert_eq!(friendly_name(path, None, None), r"HID\VID_1");
}

#[test]
fn trackpoint_devices_enabled_by_default() {
    assert!(default_enabled("TPPS/2 Elan TrackPoint", r"\\?\ACPI#LEN0307#4&1"));
    assert!(default_enabled("TrackPoint Device", "x"));
    assert!(default_enabled("Mouse", r"\\?\HID#TRACKPOINT_KBD#1"));
    assert!(!default_enabled("USB Optical Mouse", r"\\?\HID#VID_046D&PID_C077#7&1"));
    assert!(!default_enabled("Track", "point"));
}

#[test]
fn decimal_strings() {
    assert_eq!(decimal_string(0), "0");
    assert_eq!(decimal_string(7), "7");
    assert_eq!(decimal_string(120), "120");
    assert_eq!(decimal_string(usize::MAX), usize::MAX.to_string());
}

#[test]
fn string_search_and_equality() {
    assert!(str_contains("abc trackpoint", "trackpoint"));
    assert!(str_contains("abc", ""));
    assert!(!str_contains("trackpoin", "trackpoint"));
    assert!(str_eq("héllo", "héllo"));
    assert!(!str_eq("hello", "hellO"));
    assert!(!str_eq("hello", "hell"));
}
