use usbtop_ng::stats::BandwidthStats;

#[test]
fn test_bandwidth_calculation() {
    let mut stats = BandwidthStats::new();

    // Add some data
    stats.update_rx(1000, 0);
    stats.update_tx(500, 0);

    assert_eq!(stats.total_rx_bytes, 1000);
    assert_eq!(stats.total_tx_bytes, 500);
    assert!(stats.current_bps > 0);
    assert_eq!(stats.peak_bps, stats.current_bps);
}

#[test]
fn test_history_cleanup() {
    let mut stats = BandwidthStats::with_window(1);

    stats.update_rx(1000, 0);
    stats.update_rx(1000, 1500);

    // First entry should be cleaned up
    assert_eq!(stats.rx_history.len(), 1);
}

#[test]
fn rates_are_window_sums_divided_by_window_length() {
    let mut stats = BandwidthStats::new(); // ten-second window
    stats.update_rx(1000, 0);
    assert_eq!(stats.rx_bps, 100);
    stats.update_rx(2000, 2000);
    assert_eq!(stats.rx_bps, 300);
    stats.update_tx(500, 2000);
    assert_eq!(stats.tx_bps, 50);
    assert_eq!(stats.current_bps, 350);
}

#[test]
fn entries_older_than_the_window_never_survive_an_update() {
    let mut stats = BandwidthStats::new();
    stats.update_rx(100, 1_000);
    stats.update_rx(200, 2_000);
    stats.update_tx(300, 3_000);
    // the update at 12.5s evicts everything from before 2.5s
    stats.update_rx(50, 12_500);
    assert_eq!(stats.rx_history.len(), 1);
    assert_eq!(stats.rx_history[0], (12_500, 50));
    assert_eq!(stats.tx_history.len(), 1);
    assert_eq!(stats.tx_history[0], (3_000, 300));
    assert_eq!(stats.rx_bps, 5);
    assert_eq!(stats.tx_bps, 30);
    assert_eq!(stats.current_bps, 35);
}

#[test]
fn peak_never_decreases_across_updates() {
    let mut stats = BandwidthStats::new();
    let mut last_peak = 0u64;
    stats.update_rx(1_000_000, 0);
    assert!(stats.peak_bps >= last_peak);
    last_peak = stats.peak_bps;
    assert_eq!(last_peak, 100_000);
    // rates fall once the big sample leaves the window
    stats.update_rx(10, 60_000);
    assert!(stats.current_bps < last_peak);
    assert!(stats.peak_bps >= last_peak);
    stats.update_tx(10, 61_000);
    assert!(stats.peak_bps >= last_peak);
    assert_eq!(stats.peak_bps, 100_000);
}

#[test]
fn utilization_is_clamped_between_zero_and_one_hundred() {
    let mut stats = BandwidthStats::new();
    stats.update_rx(1500, 0); // current 150 bytes per second
    assert_eq!(stats.get_utilization_percentage(0), 0);
    assert_eq!(stats.get_utilization_percentage(1000), 15);
    assert_eq!(stats.get_utilization_percentage(100), 100);
    assert_eq!(stats.get_utilization_percentage(u64::MAX), 0);
}

#[test]
fn reset_clears_samples_rates_and_totals() {
    let mut stats = BandwidthStats::new();
    stats.update_rx(1000, 0);
    stats.update_tx(500, 100);
    stats.reset();
    assert_eq!(stats.rx_bps, 0);
    assert_eq!(stats.tx_bps, 0);
    assert_eq!(stats.current_bps, 0);
    assert_eq!(stats.peak_bps, 0);
    assert_eq!(stats.total_rx_bytes, 0);
    assert_eq!(stats.total_tx_bytes, 0);
    assert!(stats.rx_history.is_empty());
    assert!(stats.tx_history.is_empty());
}

#[test]
fn history_data_merges_directions_in_time_order() {
    let mut stats = BandwidthStats::new();
    stats.update_rx(100, 1000);
    stats.update_tx(200, 2000);
    stats.update_rx(50, 3000);
    let samples = stats.get_history_data(10, 3000);
    assert_eq!(
        samples,
        vec![(2000, 100, 0), (1000, 0, 200), (0, 50, 0)]
    );
}

#[test]
fn history_data_keeps_only_the_most_recent_points() {
    let mut stats = BandwidthStats::new();
    stats.update_rx(1, 1000);
    stats.update_rx(2, 2000);
    stats.update_rx(3, 3000);
    let samples = stats.get_history_data(2, 3000);
    assert_eq!(samples, vec![(1000, 2, 0), (0, 3, 0)]);
}

#[test]
fn empty_history_yields_no_samples() {
    let stats = BandwidthStats::new();
    assert!(stats.get_history_data(8, 0).is_empty());
    assert_eq!(stats.current_bps, 0);
    assert_eq!(stats.get_utilization_percentage(1000), 0);
}

#[test]
fn a_backwards_clock_reading_cannot_corrupt_the_window() {
    let mut stats = BandwidthStats::new();
    stats.update_rx(100, 5000);
    // an earlier reading is clamped to the newest one already seen
    stats.update_rx(200, 1000);
    assert_eq!(stats.rx_history.len(), 2);
    assert_eq!(stats.rx_history[1], (5000, 200));
    assert_eq!(stats.rx_bps, 30);
}
