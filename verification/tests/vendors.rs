use std::collections::HashMap;

use bluetooth_monitor::vendors::{apple, decode, decode_map, samsung, xiaomi, Components};

fn airpods_pro_payload() -> Vec<u8> {
    let mut d = vec![0u8; 16];
    d[0] = 0x07;
    d[1] = 0x19;
    d[2] = 0x0F;
    d[3] = 0x20;
    d[10] = 0x02 | 0x08;
    d[11] = 0x9A;
    d[12] = 0x30;
    d[14] = 0x05;
    d
}

#[test]
fn apple_decodes_airpods_pro() {
    let c = apple::decode(&airpods_pro_payload()).expect("decodes");
    assert_eq!(c.source, "AirPods Pro");
    // Status bit 1 set: left bud in the low nibble.
    assert_eq!(c.left_battery, Some(100));
    assert_eq!(c.right_battery, Some(90));
    assert_eq!(c.case_battery, Some(50));
    assert_eq!(c.right_charging, Some(true));
    assert_eq!(c.left_charging, Some(true));
    assert_eq!(c.case_charging, Some(false));
    assert_eq!(c.case_open, Some(true));
    assert_eq!(c.in_ear_left, None);
    assert_eq!(c.in_ear_right, None);
}

#[test]
fn apple_status_bit_swaps_buds() {
    let mut d = airpods_pro_payload();
    d[10] = 0x00;
    let c = apple::decode(&d).expect("decodes");
    assert_eq!(c.left_battery, Some(90));
    assert_eq!(c.right_battery, Some(100));
    assert_eq!(c.case_open, Some(false));
}

#[test]
fn apple_rejects_bad_payloads() {
    let d = airpods_pro_payload();
    assert!(apple::decode(&d[..15]).is_none());
    let mut bad = d.clone();
    bad[0] = 0x06;
    assert!(apple::decode(&bad).is_none());
    let mut bad = d.clone();
    bad[1] = 0x18;
    assert!(apple::decode(&bad).is_none());
    let mut unknown = d.clone();
    unknown[2] = 0x7F;
    assert!(apple::decode(&unknown).is_none());
}

#[test]
fn apple_nibbles_above_ten_do_not_report() {
    let mut d = airpods_pro_payload();
    d[11] = 0xFB;
    d[14] = 0x0F;
    let c = apple::decode(&d).expect("decodes");
    assert_eq!(c.left_battery, None);
    assert_eq!(c.right_battery, None);
    assert_eq!(c.case_battery, None);
    // Nothing meaningful left: the dispatch drops it.
    assert!(decode(0x004C, &d, "AirPods").is_none());
}

#[test]
fn apple_nibble_and_model_tables() {
    assert_eq!(apple::nibble_to_pct(0), Some(0));
    assert_eq!(apple::nibble_to_pct(7), Some(70));
    assert_eq!(apple::nibble_to_pct(10), Some(100));
    assert_eq!(apple::nibble_to_pct(11), None);
    assert_eq!(apple::nibble_to_pct(15), None);
    assert_eq!(apple::model_name(0x0220), Some("AirPods 1st gen"));
    assert_eq!(apple::model_name(0x1220), Some("Beats Studio Buds+"));
    assert_eq!(apple::model_name(0x0D20), Some("Beats Fit Pro"));
    assert_eq!(apple::model_name(0x0000), None);
}

#[test]
fn samsung_never_decodes() {
    let mut d = vec![0u8; 20];
    d[0] = 0x01;
    assert!(samsung::decode(&d).is_none());
    assert!(samsung::decode(&[0x02u8; 20]).is_none());
    assert!(decode(0x0075, &d, "Galaxy Buds").is_none());
}

#[test]
fn xiaomi_reads_batteries() {
    let d = [0x45u8, 0, 0, 0, 0, 80, 0xFF, 101];
    let c: Components = xiaomi::decode(&d).expect("decodes");
    assert_eq!(c.left_battery, Some(80));
    assert_eq!(c.right_battery, None);
    assert_eq!(c.case_battery, None);
    assert_eq!(c.source, "Xiaomi / Redmi TWS");
    assert!(decode(0x038F, &d, "buds").is_some());
}

#[test]
fn xiaomi_rejects_other_peripherals() {
    assert!(xiaomi::decode(&[0x45u8, 0, 0, 0, 0, 80, 70]).is_none());
    assert!(xiaomi::decode(&[0x3Fu8, 0, 0, 0, 0, 80, 70, 60]).is_none());
    assert!(xiaomi::decode(&[0x70u8, 0, 0, 0, 0, 80, 70, 60]).is_none());
    assert!(xiaomi::decode(&[0x6Fu8, 0, 0, 0, 0, 0xFF, 200, 101]).is_none());
    let c = xiaomi::decode(&[0x6Fu8, 0, 0, 0, 0, 0, 100, 55]).expect("decodes");
    assert_eq!((c.left_battery, c.right_battery, c.case_battery), (Some(0), Some(100), Some(55)));
}

#[test]
fn dispatch_ignores_unknown_vendors() {
    assert!(decode(0x1234, &airpods_pro_payload(), "x").is_none());
    let c = decode(0x004C, &airpods_pro_payload(), "x").expect("decodes");
    assert!(c.is_meaningful());
}

#[test]
fn components_default_is_not_meaningful() {
    let c = Components::default();
    assert!(!c.is_meaningful());
    assert_eq!(c.source, "");
    let mut c2 = c;
    c2.in_ear_right = Some(false);
    assert!(c2.is_meaningful());
}

#[test]
fn decode_map_finds_the_decodable_entry() {
    let mut map: HashMap<u16, Vec<u8>> = HashMap::new();
    map.insert(0x0006, vec![1, 2, 3]);
    map.insert(0x004C, airpods_pro_payload());
    let c = decode_map(&map, "AirPods").expect("decodes");
    assert_eq!(c.source, "AirPods Pro");
    map.remove(&0x004C);
    assert!(decode_map(&map, "AirPods").is_none());
    assert!(decode_map(&HashMap::new(), "none").is_none());
}
