use bluetooth_monitor::backend::{Backend, BackendAction, BackendEvent};
use bluetooth_monitor::bluetooth::DiscoveredDevice;

fn seen(address: &str, rssi: Option<i16>, at: u64) -> DiscoveredDevice {
    DiscoveredDevice { address: address.to_string(), name: None, rssi, seen_at_ms: at }
}

fn addresses(b: &Backend) -> Vec<String> {
    b.nearby().iter().map(|d| d.address.clone()).collect()
}

#[test]
fn backend_interval_never_below_one_second() {
    let mut b = Backend::new(0);
    assert_eq!(b.interval_secs(), 1);
    assert_eq!(b.apply(BackendEvent::ConfigRead(0)), BackendAction::Nothing);
    assert_eq!(b.apply(BackendEvent::ConfigRead(5)), BackendAction::RestartTimer(5));
    assert_eq!(b.interval_secs(), 5);
    assert_eq!(b.apply(BackendEvent::ConfigRead(5)), BackendAction::Nothing);
    assert_eq!(b.apply(BackendEvent::ConfigRead(0)), BackendAction::RestartTimer(1));
    assert_eq!(Backend::new(3).interval_secs(), 3);
}

#[test]
fn backend_discovery_start_and_stop() {
    let mut b = Backend::new(3);
    assert!(!b.scanning());
    assert_eq!(b.apply(BackendEvent::StartDiscovery), BackendAction::SpawnDiscovery);
    assert!(b.scanning());
    assert_eq!(b.apply(BackendEvent::StartDiscovery), BackendAction::Nothing);
    b.apply(BackendEvent::Found(seen("a", Some(-40), 1_000)));
    b.apply(BackendEvent::Found(seen("b", Some(-20), 2_000)));
    b.apply(BackendEvent::Found(seen("a", Some(-10), 3_000)));
    assert_eq!(addresses(&b), vec!["a", "b"]);
    assert_eq!(b.apply(BackendEvent::StopDiscovery), BackendAction::AbortDiscovery);
    assert!(!b.scanning());
    assert!(b.nearby().is_empty());
    assert_eq!(b.apply(BackendEvent::StopDiscovery), BackendAction::Nothing);
}

#[test]
fn backend_failed_discovery_stops_scanning() {
    let mut b = Backend::new(3);
    assert_eq!(b.apply(BackendEvent::StartDiscovery), BackendAction::SpawnDiscovery);
    assert_eq!(b.apply(BackendEvent::DiscoveryFailed), BackendAction::Nothing);
    assert!(!b.scanning());
    // The task handle is still held, so no second task is started.
    assert_eq!(b.apply(BackendEvent::StartDiscovery), BackendAction::Nothing);
}

#[test]
fn backend_tick_prunes_and_gone_removes() {
    let mut b = Backend::new(3);
    b.apply(BackendEvent::StartDiscovery);
    b.apply(BackendEvent::Found(seen("old", Some(-30), 1_000)));
    b.apply(BackendEvent::Found(seen("new", Some(-60), 10_000)));
    b.apply(BackendEvent::Found(seen("gone", None, 10_000)));
    b.apply(BackendEvent::Gone("gone".to_string()));
    assert_eq!(addresses(&b), vec!["old", "new"]);
    assert_eq!(b.apply(BackendEvent::Tick(16_000)), BackendAction::Nothing);
    assert_eq!(addresses(&b), vec!["new"]);
}
