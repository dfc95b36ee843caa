use bluetooth_monitor::sdp::{channel_from_sdp_records, parse_u8};
use bluetooth_monitor::text::is_whitespace;

const RECORDS: &str = "Service Name: Headset Gateway
Service RecHandle: 0x10001
Service Class ID List:
  \"Headset Audio Gateway\" (0x1112)
Protocol Descriptor List:
  \"RFCOMM\" (0x0003)
    Channel: 2

Service Name: SPP
Service RecHandle: 0x10002
Service Class ID List:
  \"Serial Port\" (0x1101)
Protocol Descriptor List:
  \"L2CAP\" (0x0100)
  \"RFCOMM\" (0x0003)
    Channel: 5
";

#[test]
fn finds_serial_port_channel() {
    assert_eq!(channel_from_sdp_records(RECORDS), Some(5));
}

#[test]
fn vendor_uuid_block_wins_first() {
    let txt = "Service RecHandle: 0x1\n  UUID 128: DF21FE2C-2515-4FDB-8886-F12C4D67927C\n  Channel: 9\nService RecHandle: 0x2\n \"Serial Port\" (0x1101)\n  Channel: 1\n";
    assert_eq!(channel_from_sdp_records(txt), Some(9));
}

#[test]
fn vendor_uuid_block_preferred_over_earlier_serial_port() {
    let txt = "Service RecHandle: 0x1\n \"Serial Port\" (0x1101)\n  Channel: 1\nService RecHandle: 0x2\n  UUID 128: df21fe2c-2515-4fdb-8886-f12c4d67927c\n  Channel: 12\n";
    assert_eq!(channel_from_sdp_records(txt), Some(12));
}

#[test]
fn vendor_block_without_channel_falls_back_to_serial_port() {
    let txt = "Service RecHandle: 0x1\n \"Serial Port\" (0x1101)\n  Channel: 4\nService RecHandle: 0x2\n  UUID 128: df21fe2c-2515-4fdb-8886-f12c4d67927c\n";
    assert_eq!(channel_from_sdp_records(txt), Some(4));
}

#[test]
fn ignores_zero_and_garbage_channels() {
    let txt = "Service RecHandle: 0x1\n (0x1101)\n Channel: 0\n Channel: x\n Channel: 300\n\tChannel:  +7 \r\n";
    assert_eq!(channel_from_sdp_records(txt), Some(7));
    assert_eq!(channel_from_sdp_records(""), None);
    assert_eq!(channel_from_sdp_records("Service RecHandle: 0x1\n Channel: 3\n"), None);
}

#[test]
fn parse_u8_like_std() {
    let p = |s: &str| parse_u8(&s.chars().collect());
    assert_eq!(p("0"), Some(0));
    assert_eq!(p("255"), Some(255));
    assert_eq!(p("+12"), Some(12));
    assert_eq!(p("007"), Some(7));
    assert_eq!(p("256"), None);
    assert_eq!(p(""), None);
    assert_eq!(p("+"), None);
    assert_eq!(p("-1"), None);
    assert_eq!(p("1a"), None);
    assert_eq!(p("99999999999"), None);
    for s in ["0", "255", "+12", "007", "256", "", "+", "-1", "1a", "99999999999", "+0"] {
        assert_eq!(p(s), s.parse::<u8>().ok(), "{s}");
    }
}

#[test]
fn whitespace_matches_std_for_every_char() {
    for n in 0u32..=0x10FFFF {
        if let Some(c) = char::from_u32(n) {
            assert_eq!(is_whitespace(c), c.is_whitespace(), "U+{n:04X}");
        }
    }
}
