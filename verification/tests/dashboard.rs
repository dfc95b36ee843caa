use bluetooth_monitor::bluetooth::{BluetoothCommand, DeviceInfo};
use bluetooth_monitor::theme::{battery_accent, rssi_accent, Accent};
use bluetooth_monitor::ui::{
    battery_cell, block_toggle, device_emoji, device_stats, filter_devices, header_subtitle,
    header_title, row_action, signal_bars_accent, signal_bars_from_rssi, splash_visible,
    trust_toggle, BatteryCell, DeviceFilter, HeaderFacts, Tab,
};

fn device(name: &str, connected: bool, paired: bool, battery: Option<u8>, rssi: Option<i16>) -> DeviceInfo {
    DeviceInfo {
        name: name.to_string(),
        address: format!("addr-{name}"),
        connected,
        paired,
        trusted: false,
        blocked: false,
        battery,
        rssi,
        tx_power: None,
        icon: None,
        uuids: vec![],
        manufacturer: None,
        class_of_device: None,
        components: None,
    }
}

fn sample() -> Vec<DeviceInfo> {
    vec![
        device("a", true, true, Some(81), Some(-41)),
        device("b", false, true, Some(10), Some(-90)),
        device("c", true, false, Some(40), Some(-60)),
        device("d", true, true, None, None),
        device("e", false, false, None, None),
    ]
}

#[test]
fn filters() {
    let all = filter_devices(&sample(), DeviceFilter::All);
    assert_eq!(all.len(), 5);
    let connected: Vec<String> = filter_devices(&sample(), DeviceFilter::Connected).into_iter().map(|d| d.name).collect();
    assert_eq!(connected, vec!["a", "c", "d"]);
    let paired: Vec<String> = filter_devices(&sample(), DeviceFilter::Paired).into_iter().map(|d| d.name).collect();
    assert_eq!(paired, vec!["a", "b", "d"]);
}

#[test]
fn stats_of_connected_devices() {
    let st = device_stats(&sample());
    assert_eq!(st.connected, 3);
    assert_eq!(st.paired, 3);
    assert_eq!(st.total, 5);
    assert_eq!(st.battery_readings, 2);
    assert_eq!(st.battery_avg, Some(60));
    // (-41 + -60) / 2 = -50.5, rounded toward zero.
    assert_eq!(st.rssi_avg, Some(-50));
    let empty = device_stats(&[]);
    assert_eq!(empty.battery_avg, None);
    assert_eq!(empty.rssi_avg, None);
    assert_eq!(empty.total, 0);
}

#[test]
fn stats_round_down_batteries() {
    let st = device_stats(&[device("x", true, false, Some(255), Some(5)), device("y", true, false, Some(254), Some(2))]);
    assert_eq!(st.battery_avg, Some(254));
    assert_eq!(st.rssi_avg, Some(3));
}

#[test]
fn signal_bars() {
    assert_eq!(signal_bars_from_rssi(-49), 4);
    assert_eq!(signal_bars_from_rssi(-50), 3);
    assert_eq!(signal_bars_from_rssi(-64), 3);
    assert_eq!(signal_bars_from_rssi(-65), 2);
    assert_eq!(signal_bars_from_rssi(-79), 2);
    assert_eq!(signal_bars_from_rssi(-80), 1);
    assert_eq!(signal_bars_from_rssi(i16::MIN), 1);
    for r in [-100i16, -80, -79, -65, -64, -50, -49, 0] {
        assert_eq!(signal_bars_accent(signal_bars_from_rssi(r)), rssi_accent(r));
    }
    assert_eq!(signal_bars_accent(0), Accent::Coral);
}

#[test]
fn accents() {
    assert_eq!(battery_accent(60), Accent::Teal);
    assert_eq!(battery_accent(59), Accent::Yellow);
    assert_eq!(battery_accent(30), Accent::Yellow);
    assert_eq!(battery_accent(29), Accent::Orange);
    assert_eq!(battery_accent(15), Accent::Orange);
    assert_eq!(battery_accent(14), Accent::Coral);
    assert_eq!(rssi_accent(-30), Accent::Teal);
    assert_eq!(rssi_accent(-81), Accent::Coral);
}

#[test]
fn emoji_by_icon() {
    assert_eq!(device_emoji(Some("audio-headset")), "\u{1f3a7}");
    assert_eq!(device_emoji(Some("Audio-Card")), "\u{1f3a7}");
    assert_eq!(device_emoji(Some("input-mouse")), "\u{1f5b1}");
    assert_eq!(device_emoji(Some("input-keyboard")), "\u{2328}");
    assert_eq!(device_emoji(Some("phone")), "\u{1f4f1}");
    assert_eq!(device_emoji(Some("computer")), "\u{1f4bb}");
    assert_eq!(device_emoji(Some("input-gaming")), "\u{1f535}");
    assert_eq!(device_emoji(Some("input-gamepad")), "\u{1f3ae}");
    assert_eq!(device_emoji(Some("JOYSTICK")), "\u{1f3ae}");
    assert_eq!(device_emoji(Some("watch")), "\u{231a}");
    assert_eq!(device_emoji(Some("printer")), "\u{1f5a8}");
    assert_eq!(device_emoji(Some("speaker")), "\u{1f3a7}");
    assert_eq!(device_emoji(None), "\u{1f535}");
    assert_eq!(device_emoji(Some("")), "\u{1f535}");
}

#[test]
fn splash_timing() {
    assert!(splash_visible(0, true));
    assert!(splash_visible(1799, true));
    assert!(!splash_visible(1800, true));
    assert!(splash_visible(3499, false));
    assert!(!splash_visible(3500, false));
}

#[test]
fn row_button_command() {
    let c = device("a", true, true, None, None);
    assert!(matches!(row_action(&c), Some(BluetoothCommand::Disconnect(ref a)) if a == "addr-a"));
    let p = device("b", false, true, None, None);
    assert!(matches!(row_action(&p), Some(BluetoothCommand::Connect(ref a)) if a == "addr-b"));
    let n = device("c", false, false, None, None);
    assert!(row_action(&n).is_none());
}

fn facts<'a>(adapter: Option<&'a str>, scanning: bool, selected: Option<&'a str>) -> HeaderFacts<'a> {
    HeaderFacts { adapter, known: 12, scanning, scan_secs: 7, found: 3, selected }
}

#[test]
fn header_titles_and_subtitles() {
    assert_eq!(header_title(Tab::Dashboard), "BLUETOOTH");
    assert_eq!(header_title(Tab::Discover), "DISCOVER");
    assert_eq!(header_title(Tab::Detail), "DEVICE");
    assert_eq!(header_title(Tab::Settings), "SETTINGS");
    assert_eq!(header_subtitle(Tab::Dashboard, &facts(Some("hci0"), false, None)), "HCI0 \u{b7} 12 KNOWN");
    assert_eq!(header_subtitle(Tab::Dashboard, &facts(None, false, None)), "HCI \u{b7} \u{2014}");
    assert_eq!(
        header_subtitle(Tab::Discover, &facts(None, true, None)),
        "SCANNING \u{b7} 7s \u{b7} 3 FOUND"
    );
    assert_eq!(header_subtitle(Tab::Discover, &facts(None, false, None)), "IDLE \u{b7} TAP RADAR TO SCAN");
    assert_eq!(header_subtitle(Tab::Detail, &facts(None, false, Some("aa:bb:0c"))), "AA:BB:0C");
    assert_eq!(header_subtitle(Tab::Detail, &facts(None, false, None)), "");
    assert_eq!(header_subtitle(Tab::Settings, &facts(None, false, None)), "PREFERENCES");
}

#[test]
fn battery_cell_bar_only_when_connected() {
    assert_eq!(battery_cell(&device("a", true, true, Some(80), None)), BatteryCell::BarAndPercent(80));
    assert_eq!(battery_cell(&device("b", false, true, Some(40), None)), BatteryCell::Percent(40));
    assert_eq!(battery_cell(&device("c", true, true, None, None)), BatteryCell::Unknown);
}

#[test]
fn trust_and_block_toggles() {
    let mut d = device("a", true, true, None, None);
    let (label, cmd) = trust_toggle(&d);
    assert_eq!(label, "Trust");
    assert!(matches!(cmd, BluetoothCommand::SetTrusted(ref a, true) if a == "addr-a"));
    let (label, cmd) = block_toggle(&d);
    assert_eq!(label, "Block");
    assert!(matches!(cmd, BluetoothCommand::SetBlocked(ref a, true) if a == "addr-a"));
    d.trusted = true;
    d.blocked = true;
    let (label, cmd) = trust_toggle(&d);
    assert_eq!(label, "Untrust");
    assert!(matches!(cmd, BluetoothCommand::SetTrusted(_, false)));
    let (label, cmd) = block_toggle(&d);
    assert_eq!(label, "Unblock");
    assert!(matches!(cmd, BluetoothCommand::SetBlocked(_, false)));
}
