use netgauge::{DeltaTracker, InterfaceStats, InterfaceType};

fn sample(name: &str, rx: u64, tx: u64, kind: InterfaceType) -> InterfaceStats {
    InterfaceStats { interface: name.to_string(), rx_bytes: rx, tx_bytes: tx, kind }
}

#[test]
fn first_observation_yields_zero_delta() {
    let mut tracker = DeltaTracker::new();
    let deltas = tracker.update(&[sample("eth0", 123456789, 987654321, InterfaceType::Net)]);
    assert_eq!(deltas.len(), 1);
    assert_eq!(deltas[0].interface, "eth0");
    assert_eq!(deltas[0].rx_delta, 0);
    assert_eq!(deltas[0].tx_delta, 0);
}

#[test]
fn growing_counters_yield_exact_differences() {
    let mut tracker = DeltaTracker::new();
    tracker.update(&[sample("eth0", 1000, 2000, InterfaceType::Net)]);
    let deltas = tracker.update(&[sample("eth0", 1600, 2300, InterfaceType::Net)]);
    assert_eq!(deltas[0].rx_delta, 600);
    assert_eq!(deltas[0].tx_delta, 300);
}

#[test]
fn decreasing_counter_clamps_to_zero() {
    let mut tracker = DeltaTracker::new();
    tracker.update(&[sample("eth0", 1000, 1000, InterfaceType::Net)]);
    let deltas = tracker.update(&[sample("eth0", 400, 999, InterfaceType::Net)]);
    assert_eq!(deltas[0].rx_delta, 0);
    assert_eq!(deltas[0].tx_delta, 0);
}

#[test]
fn stored_pair_is_replaced_even_after_a_reset() {
    let mut tracker = DeltaTracker::new();
    tracker.update(&[sample("eth0", 1000, 1000, InterfaceType::Net)]);
    tracker.update(&[sample("eth0", 400, 400, InterfaceType::Net)]);
    let deltas = tracker.update(&[sample("eth0", 700, 450, InterfaceType::Net)]);
    assert_eq!(deltas[0].rx_delta, 300);
    assert_eq!(deltas[0].tx_delta, 50);
}

#[test]
fn two_wan_fetches_baseline_then_difference() {
    // Two sequential WAN samples with raw counters 1000 then 1500 yield
    // deltas 0 then 500 through one tracker instance.
    let mut tracker = DeltaTracker::new();
    let first = tracker.update(&[sample("WAN", 1000, 1000, InterfaceType::Wan)]);
    let second = tracker.update(&[sample("WAN", 1500, 1500, InterfaceType::Wan)]);
    assert_eq!(first[0].rx_delta, 0);
    assert_eq!(first[0].tx_delta, 0);
    assert_eq!(second[0].rx_delta, 500);
    assert_eq!(second[0].tx_delta, 500);
    assert!(matches!(second[0].kind, InterfaceType::Wan));
}

#[test]
fn batch_keeps_order_and_tracks_names_independently() {
    let mut tracker = DeltaTracker::new();
    tracker.update(&[
        sample("eth0", 100, 100, InterfaceType::Net),
        sample("wlan0", 50, 50, InterfaceType::Net),
    ]);
    let deltas = tracker.update(&[
        sample("wlan0", 80, 70, InterfaceType::Net),
        sample("eth0", 150, 160, InterfaceType::Net),
    ]);
    assert_eq!(deltas.len(), 2);
    assert_eq!(deltas[0].interface, "wlan0");
    assert_eq!(deltas[0].rx_delta, 30);
    assert_eq!(deltas[0].tx_delta, 20);
    assert_eq!(deltas[1].interface, "eth0");
    assert_eq!(deltas[1].rx_delta, 50);
    assert_eq!(deltas[1].tx_delta, 60);
}

#[test]
fn duplicate_name_within_a_batch_uses_updated_baseline() {
    let mut tracker = DeltaTracker::new();
    let deltas = tracker.update(&[
        sample("eth0", 100, 100, InterfaceType::Net),
        sample("eth0", 130, 90, InterfaceType::Net),
    ]);
    assert_eq!(deltas[0].rx_delta, 0);
    assert_eq!(deltas[0].tx_delta, 0);
    assert_eq!(deltas[1].rx_delta, 30);
    assert_eq!(deltas[1].tx_delta, 0);
}

#[test]
fn default_tracker_behaves_like_new() {
    let mut tracker = DeltaTracker::default();
    let deltas = tracker.update(&[sample("lo", 42, 42, InterfaceType::Net)]);
    assert_eq!(deltas[0].rx_delta, 0);
    assert_eq!(deltas[0].tx_delta, 0);
}
