use bluetooth_monitor::bluetooth::DeviceInfo;
use bluetooth_monitor::tray::{tooltip_text, tray_menu, MenuEntry, TrayAction};

fn device(name: &str, address: &str, connected: bool, paired: bool, battery: Option<u8>) -> DeviceInfo {
    DeviceInfo {
        name: name.to_string(),
        address: address.to_string(),
        connected,
        paired,
        trusted: false,
        blocked: false,
        battery,
        rssi: None,
        tx_power: None,
        icon: None,
        uuids: vec![],
        manufacturer: None,
        class_of_device: None,
        components: None,
    }
}

#[test]
fn tooltip_without_devices() {
    let (title, description) = tooltip_text(&[]);
    assert_eq!(title, "Bluetooth Monitor \u{2014} no devices connected");
    assert_eq!(description, "");
}

#[test]
fn tooltip_lists_connected_devices() {
    let devices = vec![
        device("Buds", "1", true, true, Some(80)),
        device("Laptop", "2", false, true, Some(50)),
        device("Mouse", "3", true, false, None),
    ];
    let (title, description) = tooltip_text(&devices);
    assert_eq!(title, "Bluetooth Monitor \u{2014} 2 connected");
    assert_eq!(description, "\u{2022} Buds \u{2014} 80%\n\u{2022} Mouse");
}

fn label(e: &MenuEntry) -> (&str, bool) {
    match e {
        MenuEntry::Separator => ("---", false),
        MenuEntry::Item { label, enabled, .. } => (label.as_str(), *enabled),
    }
}

#[test]
fn menu_with_connected_and_offline_devices() {
    let devices = vec![
        device("Buds", "11", true, true, Some(80)),
        device("Laptop", "22", false, true, None),
        device("Stranger", "33", false, false, None),
    ];
    let menu = tray_menu(&devices);
    let labels: Vec<(&str, bool)> = menu.iter().map(label).collect();
    assert_eq!(
        labels,
        vec![
            ("Connected (1)", false),
            ("  Buds \u{2014} 80%", true),
            ("---", false),
            ("Reconnect (1)", false),
            ("  Laptop", true),
            ("---", false),
            ("Show / hide window", true),
            ("Refresh", true),
            ("---", false),
            ("Quit", true),
        ]
    );
    match &menu[1] {
        MenuEntry::Item { action: Some(TrayAction::Disconnect(a)), .. } => assert_eq!(a, "11"),
        other => panic!("unexpected {other:?}"),
    }
    match &menu[4] {
        MenuEntry::Item { action: Some(TrayAction::Connect(a)), .. } => assert_eq!(a, "22"),
        other => panic!("unexpected {other:?}"),
    }
    assert!(matches!(&menu[9], MenuEntry::Item { action: Some(TrayAction::Quit), .. }));
}

#[test]
fn menu_without_devices() {
    let menu = tray_menu(&[]);
    let labels: Vec<(&str, bool)> = menu.iter().map(label).collect();
    assert_eq!(
        labels,
        vec![
            ("Connected (0)", false),
            ("  (none)", false),
            ("---", false),
            ("Show / hide window", true),
            ("Refresh", true),
            ("---", false),
            ("Quit", true),
        ]
    );
}
