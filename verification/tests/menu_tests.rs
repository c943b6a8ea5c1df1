use middleclick_scroll::config::Config;
use middleclick_scroll::engine::{Engine, MouseDevice, ScrollState};
use middleclick_scroll::input::{
    classify_hook_event, wheel_inputs, HookEvent, HookResponse, WheelInput, WM_MBUTTONDOWN,
    WM_MBUTTONUP, WM_MOUSEMOVE,
};
use middleclick_scroll::engine::MAGIC_EXTRA;
use middleclick_scroll::menu::{
    decode_menu_command, device_command_id, menu_labels, opens_menu, MenuCommand,
};

fn names(v: &[&str]) -> Vec<String> {
    v.iter().map(|s| s.to_string()).collect()
}

#[test]
fn labels_number_duplicates() {
    assert_eq!(menu_labels(&names(&["A", "B", "A"])), names(&["A #1", "B", "A #2"]));
    assert_eq!(menu_labels(&names(&["X", "Y"])), names(&["X", "Y"]));
    assert!(menu_labels(&Vec::new()).is_empty());
}

#[test]
fn labels_count_beyond_nine() {
    let many = vec!["M".to_string(); 12];
    let labels = menu_labels(&many);
    assert_eq!(labels[0], "M #1");
    assert_eq!(labels[11], "M #12");
}

#[test]
fn menu_commands() {
    assert!(matches!(decode_menu_command(0, 3), MenuCommand::Nothing));
    assert!(matches!(decode_menu_command(1, 3), MenuCommand::Exit));
    assert!(matches!(decode_menu_command(2, 3), MenuCommand::OpenConfig));
    assert!(matches!(decode_menu_command(100, 3), MenuCommand::ToggleDevice(0)));
    assert!(matches!(decode_menu_command(102, 3), MenuCommand::ToggleDevice(2)));
    assert!(matches!(decode_menu_command(103, 3), MenuCommand::Nothing));
    assert!(matches!(decode_menu_command(50, 3), MenuCommand::Nothing));
    assert_eq!(device_command_id(4), 104);
    assert!(matches!(decode_menu_command(device_command_id(4), 5), MenuCommand::ToggleDevice(4)));
}

#[test]
fn tray_clicks_open_menu() {
    assert!(opens_menu(0x0202));
    assert!(opens_menu(0x0205));
    assert!(!opens_menu(0x0200));
}

#[test]
fn menu_items_snapshot() {
    let mice = vec![
        MouseDevice { handle: 1, path: "p1".to_string(), name: "TrackPoint".to_string() },
        MouseDevice { handle: 2, path: "p2".to_string(), name: "Mouse".to_string() },
    ];
    let (e, _) = Engine::new(Config::default(), mice);
    let items = e.menu_items();
    assert_eq!(items.len(), 2);
    assert_eq!(items[0].path, "p1");
    assert_eq!(items[0].name, "TrackPoint");
    assert!(items[0].enabled);
    assert!(!items[1].enabled);
}

#[test]
fn hook_classification() {
    assert!(matches!(classify_hook_event(0, WM_MBUTTONDOWN, 0, 0), HookEvent::MiddleDown));
    assert!(matches!(classify_hook_event(0, WM_MBUTTONUP, 0, 0), HookEvent::MiddleUp));
    assert!(matches!(classify_hook_event(0, WM_MOUSEMOVE, 1, MAGIC_EXTRA), HookEvent::Move));
    assert!(matches!(classify_hook_event(-1, WM_MBUTTONDOWN, 0, 0), HookEvent::Other));
    assert!(matches!(classify_hook_event(0, WM_MBUTTONDOWN, 1, MAGIC_EXTRA), HookEvent::Other));
    assert!(matches!(classify_hook_event(0, WM_MBUTTONUP, 1, MAGIC_EXTRA), HookEvent::Other));
    assert!(matches!(classify_hook_event(0, WM_MBUTTONDOWN, 1, 7), HookEvent::MiddleDown));
    assert!(matches!(classify_hook_event(0, WM_MBUTTONDOWN, 0, MAGIC_EXTRA), HookEvent::MiddleDown));
    assert!(matches!(classify_hook_event(0, 0x0201, 0, 0), HookEvent::Other));
}

#[test]
fn hook_responses() {
    let mice = vec![MouseDevice { handle: 1, path: "p1".to_string(), name: "TrackPoint".to_string() }];
    let (mut e, _) = Engine::new(Config::default(), mice);
    assert!(matches!(e.hook_response(HookEvent::Move, 0), HookResponse::Pass));
    assert!(matches!(e.hook_response(HookEvent::MiddleDown, 0), HookResponse::Pass));
    e.push_middle_down(1, 0);
    assert!(matches!(e.hook_response(HookEvent::MiddleDown, 1), HookResponse::Swallow));
    assert!(matches!(e.hook_response(HookEvent::Move, 2), HookResponse::Swallow));
    assert!(matches!(e.hook_response(HookEvent::Other, 2), HookResponse::Pass));
    assert!(matches!(e.hook_response(HookEvent::MiddleUp, 3), HookResponse::SwallowAndClick));
    assert!(matches!(e.state(), ScrollState::Idle));
    assert!(matches!(e.hook_response(HookEvent::MiddleUp, 3), HookResponse::Pass));
}

#[test]
fn wheel_events() {
    let both = wheel_inputs(120, -240);
    assert_eq!(both.len(), 2);
    assert!(matches!(both[0], WheelInput::Vertical(120)));
    assert!(matches!(both[1], WheelInput::Horizontal(-240)));
    let h = wheel_inputs(0, 5);
    assert_eq!(h.len(), 1);
    assert!(matches!(h[0], WheelInput::Horizontal(5)));
    assert!(wheel_inputs(0, 0).is_empty());
}
