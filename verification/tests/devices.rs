use std::collections::VecDeque;

use bluetooth_monitor::bluetooth::{
    discovery_action, DiscoveryAction, manufacturer_label, prune_nearby, push_rssi_sample, remove_nearby, sort_devices, upsert_nearby,
    DeviceInfo, DiscoveredDevice, RSSI_HISTORY_MAX,
};

fn device(name: &str, address: &str, connected: bool, paired: bool) -> DeviceInfo {
    DeviceInfo {
        name: name.to_string(),
        address: address.to_string(),
        connected,
        paired,
        trusted: false,
        blocked: false,
        battery: None,
        rssi: None,
        tx_power: None,
        icon: None,
        uuids: vec![],
        manufacturer: None,
        class_of_device: None,
        components: None,
    }
}

#[test]
fn devices_sorted_connected_paired_then_name() {
    let list = vec![
        device("zeta", "1", false, false),
        device("Beta", "2", false, true),
        device("alpha", "3", false, true),
        device("Mouse", "4", true, false),
        device("keyboard", "5", true, true),
        device("ALPHA", "6", false, true),
    ];
    let sorted = sort_devices(list);
    let addrs: Vec<&str> = sorted.iter().map(|d| d.address.as_str()).collect();
    // Connected first (paired before unpaired), then paired by name without
    // regard to case; "alpha" and "ALPHA" tie and keep their order.
    assert_eq!(addrs, vec!["5", "4", "3", "6", "2", "1"]);
}

#[test]
fn sorting_empty_and_single() {
    assert!(sort_devices(vec![]).is_empty());
    let one = sort_devices(vec![device("x", "9", false, false)]);
    assert_eq!(one.len(), 1);
    assert_eq!(one[0].address, "9");
}

#[test]
fn manufacturer_labels() {
    assert_eq!(manufacturer_label(0x004C), "0x004C");
    assert_eq!(manufacturer_label(0x038F), "0x038F");
    assert_eq!(manufacturer_label(0xABCD), "0xABCD");
    assert_eq!(manufacturer_label(0), "0x0000");
}

#[test]
fn device_clone_keeps_everything() {
    let mut d = device("Buds", "AA:BB", true, true);
    d.uuids = vec!["u1".to_string(), "u2".to_string()];
    d.icon = Some("audio-headset".to_string());
    let c = d.clone();
    assert_eq!(c.uuids, d.uuids);
    assert_eq!(c.icon, d.icon);
    assert_eq!(c.name, d.name);
}

fn seen(address: &str, rssi: Option<i16>, at: u64) -> DiscoveredDevice {
    DiscoveredDevice { address: address.to_string(), name: None, rssi, seen_at_ms: at }
}

#[test]
fn nearby_upsert_replaces_and_orders_by_signal() {
    let mut nearby = Vec::new();
    upsert_nearby(&mut nearby, seen("a", Some(-70), 0));
    upsert_nearby(&mut nearby, seen("b", None, 0));
    upsert_nearby(&mut nearby, seen("c", Some(-40), 0));
    upsert_nearby(&mut nearby, seen("a", Some(-30), 5));
    let order: Vec<&str> = nearby.iter().map(|d| d.address.as_str()).collect();
    assert_eq!(order, vec!["a", "c", "b"]);
    assert_eq!(nearby[0].seen_at_ms, 5);
    remove_nearby(&mut nearby, "c");
    let order: Vec<&str> = nearby.iter().map(|d| d.address.as_str()).collect();
    assert_eq!(order, vec!["a", "b"]);
}

#[test]
fn nearby_prune_after_fifteen_seconds() {
    let mut nearby = vec![seen("old", None, 1_000), seen("fresh", None, 10_000), seen("edge", None, 5_001)];
    prune_nearby(&mut nearby, 20_000);
    let order: Vec<&str> = nearby.iter().map(|d| d.address.as_str()).collect();
    assert_eq!(order, vec!["fresh", "edge"]);
    let mut future = vec![seen("later", None, 50_000)];
    prune_nearby(&mut future, 20_000);
    assert_eq!(future.len(), 1);
}

#[test]
fn rssi_history_carries_gaps_and_is_capped() {
    let mut h: VecDeque<i16> = VecDeque::new();
    push_rssi_sample(&mut h, None);
    assert!(h.is_empty());
    push_rssi_sample(&mut h, Some(-60));
    push_rssi_sample(&mut h, None);
    assert_eq!(h, VecDeque::from(vec![-60, -60]));
    for i in 0..100 {
        push_rssi_sample(&mut h, Some(-(i as i16)));
    }
    assert_eq!(h.len(), RSSI_HISTORY_MAX);
    assert_eq!(*h.back().unwrap(), -99);
    assert_eq!(*h.front().unwrap(), -40);
}

#[test]
fn sorting_twice_changes_nothing() {
    let list = vec![
        device("b", "1", false, true),
        device("A", "2", true, false),
        device("c", "3", false, false),
        device("a", "4", false, true),
    ];
    let once = sort_devices(list);
    let order_once: Vec<String> = once.iter().map(|d| d.address.clone()).collect();
    let twice = sort_devices(once);
    let order_twice: Vec<String> = twice.iter().map(|d| d.address.clone()).collect();
    assert_eq!(order_once, vec!["2", "4", "1", "3"]);
    assert_eq!(order_once, order_twice);
}

fn well_kept(nearby: &[DiscoveredDevice]) -> bool {
    let distinct = nearby
        .iter()
        .enumerate()
        .all(|(i, a)| nearby[i + 1..].iter().all(|b| b.address != a.address));
    let ranked = nearby.windows(2).all(|w| match (w[0].rssi, w[1].rssi) {
        (_, None) => true,
        (None, Some(_)) => false,
        (Some(x), Some(y)) => y <= x,
    });
    distinct && ranked
}

#[test]
fn nearby_list_stays_well_kept() {
    let mut nearby = Vec::new();
    let events: [(&str, Option<i16>, u64); 8] = [
        ("a", Some(-60), 0),
        ("b", Some(-20), 1_000),
        ("a", None, 2_000),
        ("c", Some(-90), 3_000),
        ("b", Some(-95), 4_000),
        ("d", Some(-20), 5_000),
        ("c", Some(-10), 6_000),
        ("a", Some(-50), 7_000),
    ];
    for (address, rssi, at) in events {
        upsert_nearby(&mut nearby, seen(address, rssi, at));
        assert!(well_kept(&nearby));
        assert_eq!(nearby.iter().filter(|d| d.address == address).count(), 1);
    }
    remove_nearby(&mut nearby, "b");
    assert!(well_kept(&nearby));
    assert!(nearby.iter().all(|d| d.address != "b"));
    prune_nearby(&mut nearby, 20_000);
    assert!(well_kept(&nearby));
    let order: Vec<&str> = nearby.iter().map(|d| d.address.as_str()).collect();
    assert_eq!(order, vec!["c", "a"]);
}

#[test]
fn discovery_requests() {
    assert!(matches!(discovery_action(false, true), DiscoveryAction::Spawn));
    assert!(matches!(discovery_action(true, true), DiscoveryAction::KeepRunning));
    assert!(matches!(discovery_action(true, false), DiscoveryAction::Stop { abort_task: true }));
    assert!(matches!(discovery_action(false, false), DiscoveryAction::Stop { abort_task: false }));
}
