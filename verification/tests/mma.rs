use bluetooth_monitor::xiaomi_mma::{
    advertises_xiaomi_spp, AttemptOutcome, ChannelSearch, ConnectStep,
    components_from_frames, connect_candidates, default_probe, format_probe, no_channel_message,
    parse_battery, parse_frames, probe_report, received_bytes, trace_accepted, trace_refused,
    trace_suggested, ProbeResult, XmFrame, FRAME_TYPE_BATTERY, MMA_MAGIC, TRACE_NO_SUGGESTION,
};

#[test]
fn frames_back_to_back() {
    let data = [0x03u8, 0x01, 0x00, 0x03, 1, 2, 3, 0x03, 0x03, 0x00, 0x03, 80, 90, 0xFF];
    let frames = parse_frames(&data);
    assert_eq!(frames.len(), 2);
    assert_eq!(frames[0].kind, 0x01);
    assert_eq!(frames[0].payload, vec![1, 2, 3]);
    assert_eq!(frames[1].kind, FRAME_TYPE_BATTERY);
    assert_eq!(frames[1].payload, vec![80, 90, 0xFF]);
}

#[test]
fn frames_skip_junk_and_stop_at_truncated_tail() {
    let data = [0x00u8, 0xAA, 0x03, 0x02, 0x00, 0x01, 7, 0x03, 0x03, 0x00, 0x05, 1, 2];
    let frames = parse_frames(&data);
    assert_eq!(frames.len(), 1);
    assert_eq!(frames[0].kind, 0x02);
    assert_eq!(frames[0].payload, vec![7]);
    assert!(parse_frames(&[]).is_empty());
    assert!(parse_frames(&[0x03, 0x01, 0x00]).is_empty());
    let empty_payload = parse_frames(&[0x03, 0x09, 0x00, 0x00]);
    assert_eq!(empty_payload.len(), 1);
    assert!(empty_payload[0].payload.is_empty());
}

#[test]
fn frames_with_long_lengths() {
    let mut data = vec![0x03u8, 0x05, 0x01, 0x00];
    data.extend(std::iter::repeat(9u8).take(256));
    let frames = parse_frames(&data);
    assert_eq!(frames.len(), 1);
    assert_eq!(frames[0].payload.len(), 256);
}

#[test]
fn battery_payloads() {
    assert_eq!(parse_battery(&[80, 90, 100]), Some((Some(80), Some(90), Some(100))));
    assert_eq!(parse_battery(&[0x7F, 0xFF, 101, 5]), Some((None, None, None)));
    assert_eq!(parse_battery(&[1, 2]), None);
}

#[test]
fn components_come_from_first_battery_frame() {
    let frames = vec![
        XmFrame { kind: 0x01, payload: vec![1, 2, 3] },
        XmFrame { kind: 0x03, payload: vec![70, 0x7F, 40] },
        XmFrame { kind: 0x03, payload: vec![10, 10, 10] },
    ];
    let c = components_from_frames(&frames).expect("battery");
    assert_eq!(c.left_battery, Some(70));
    assert_eq!(c.right_battery, None);
    assert_eq!(c.case_battery, Some(40));
    assert_eq!(c.source, "Redmi/Xiaomi TWS (SPP)");
    let short_first = vec![
        XmFrame { kind: 0x03, payload: vec![1] },
        XmFrame { kind: 0x03, payload: vec![10, 10, 10] },
    ];
    assert!(components_from_frames(&short_first).is_none());
    assert!(components_from_frames(&[]).is_none());
}

#[test]
fn default_probe_frame() {
    assert_eq!(default_probe(), vec![0xFE, 0xDC, 0xBA, 0x00, 0x00, 0x01, 0x00, 0x00]);
    assert_eq!(&default_probe()[..3], &MMA_MAGIC[..]);
}

fn sample_result() -> ProbeResult {
    ProbeResult {
        channel: 5,
        connect_trace: "sdptool suggests channel 5\n".to_string(),
        sent: default_probe(),
        received: vec![
            (12, vec![0x03, 0x01, 0x00, 0x01]),
            (1234, vec![0x0A, 0x03, 0x03, 0x00, 0x03, 0x50, 0x5A, 0xFF]),
        ],
    }
}

#[test]
fn probe_report_text() {
    let r = sample_result();
    let text = format_probe(&r);
    assert_eq!(
        text,
        "sdptool suggests channel 5\nchannel 5 \u{b7} sent 8 bytes\n> fedcba0000010000\n\
         < +  12 ms \u{b7} 4 bytes \u{b7} 03010001\n\
         < +1234 ms \u{b7} 8 bytes \u{b7} 0a03030003505aff\n"
    );
    let quiet = ProbeResult { received: vec![], ..sample_result() };
    assert!(format_probe(&quiet).ends_with("< (no bytes back within timeout)\n"));
    assert_eq!(
        format_probe(&ProbeResult { received: vec![(98765, vec![])], ..sample_result() })
            .lines()
            .last()
            .unwrap(),
        "< +98765 ms \u{b7} 0 bytes \u{b7} "
    );
}

#[test]
fn probe_report_parses_frames_across_chunks() {
    let r = sample_result();
    assert_eq!(
        received_bytes(&r),
        vec![0x03, 0x01, 0x00, 0x01, 0x0A, 0x03, 0x03, 0x00, 0x03, 0x50, 0x5A, 0xFF]
    );
    let (log, comps) = probe_report(&r);
    assert_eq!(
        log,
        format_probe(&r)
            + "\nparsed frames:\n  \u{b7} type 0x01  len 1  payload 0a\n  \u{b7} type 0x03  len 3  payload 505aff\n"
    );
    let c = comps.expect("battery frame");
    assert_eq!((c.left_battery, c.right_battery, c.case_battery), (Some(80), Some(90), None));
}

#[test]
fn probe_report_exact_log() {
    let r = ProbeResult {
        channel: 1,
        connect_trace: String::new(),
        sent: vec![0xAB],
        received: vec![(0, vec![0x03, 0x03, 0x00, 0x03, 60, 70, 80])],
    };
    let (log, comps) = probe_report(&r);
    assert_eq!(
        log,
        "channel 1 \u{b7} sent 1 bytes\n> ab\n< +   0 ms \u{b7} 7 bytes \u{b7} 030300033c4650\n\
         \nparsed frames:\n  \u{b7} type 0x03  len 3  payload 3c4650\n"
    );
    let c = comps.expect("battery frame");
    assert_eq!((c.left_battery, c.right_battery, c.case_battery), (Some(60), Some(70), Some(80)));
}

#[test]
fn connection_plan_and_trace() {
    assert_eq!(connect_candidates(None), vec![1, 25, 22, 24, 26, 20, 21, 23, 30, 3, 5]);
    assert_eq!(connect_candidates(Some(7)), vec![7, 1, 25, 22, 24, 26, 20, 21, 23, 30, 3, 5]);
    assert_eq!(trace_suggested(12), "sdptool suggests channel 12\n");
    assert_eq!(trace_accepted(1), "\u{2192} channel 1 accepted\n");
    assert_eq!(trace_refused(25, "timed out"), "\u{2192} channel 25 refused: timed out\n");
    assert_eq!(no_channel_message("x\n"), "no RFCOMM channel accepted the connection\nx\n");
    assert!(TRACE_NO_SUGGESTION.starts_with("sdptool: no SPP-style channel matched"));
}

#[test]
fn xiaomi_spp_detection_ignores_ascii_case() {
    let upper = "DF21FE2C-2515-4FDB-8886-F12C4D67927C".to_string();
    assert!(advertises_xiaomi_spp(&["0000110b-0000-1000-8000-00805f9b34fb".to_string(), upper]));
    assert!(!advertises_xiaomi_spp(&["df21fe2c-2515-4fdb-8886-f12c4d67927".to_string()]));
    assert!(!advertises_xiaomi_spp(&[]));
}

#[test]
fn encoded_frames_parse_back_with_tail_left() {
    let mut data = vec![0x03u8, 0x02, 0x00, 0x02, 0xAA, 0xBB];
    data.extend([0x03u8, 0x03, 0x00, 0x03, 10, 20, 30]);
    // A frame announced with 5 payload bytes of which only 2 arrived.
    data.extend([0x03u8, 0x01, 0x00, 0x05, 1, 2]);
    let frames = parse_frames(&data);
    assert_eq!(frames.len(), 2);
    assert_eq!((frames[0].kind, frames[0].payload.clone()), (0x02, vec![0xAA, 0xBB]));
    assert_eq!((frames[1].kind, frames[1].payload.clone()), (0x03, vec![10, 20, 30]));
}

#[test]
fn channel_search_tries_suggested_then_fallbacks() {
    let mut search = ChannelSearch::new(Some(7));
    assert!(matches!(search.step(None), ConnectStep::Try(7)));
    assert!(matches!(search.step(Some(AttemptOutcome::Refused("busy".to_string()))), ConnectStep::Try(1)));
    match search.step(Some(AttemptOutcome::Accepted)) {
        ConnectStep::Connected(1, trace) => assert_eq!(
            trace,
            "sdptool suggests channel 7\n\u{2192} channel 7 refused: busy\n\u{2192} channel 1 accepted\n"
        ),
        other => panic!("unexpected step {other:?}"),
    }
}

#[test]
fn channel_search_gives_up_after_every_channel() {
    let mut search = ChannelSearch::new(None);
    let mut outcome = None;
    let mut tried = Vec::new();
    loop {
        match search.step(outcome.take()) {
            ConnectStep::Try(c) => {
                tried.push(c);
                outcome = Some(AttemptOutcome::Refused("no".to_string()));
            }
            ConnectStep::NoChannel(message) => {
                assert!(message.starts_with("no RFCOMM channel accepted the connection\nsdptool: no SPP-style"));
                assert!(message.ends_with("\u{2192} channel 5 refused: no\n"));
                break;
            }
            other => panic!("unexpected step {other:?}"),
        }
    }
    assert_eq!(tried, vec![1, 25, 22, 24, 26, 20, 21, 23, 30, 3, 5]);
}
