use usbtop_ng::device::{
    infer_capability, AttributePatch, SpeedIndicator, UsbDevice,
};
use usbtop_ng::manager::{DeviceManager, UsbBus};
use usbtop_ng::parser::{parse_usbmon_text_line, UsbTimestamp};
use usbtop_ng::reader::{check_usbmon_status, UsbmonReader};
use usbtop_ng::speed::{format_speed, UsbSpeed};

fn clock() -> UsbTimestamp {
    UsbTimestamp { sec: 0, usec: 0 }
}

fn empty_patch() -> AttributePatch {
    AttributePatch {
        speed: None,
        vendor_id: None,
        product_id: None,
        vendor: None,
        product: None,
        serial: None,
        capability_hint: None,
    }
}

#[test]
fn test_usb_speed_color_codes() {
    assert_eq!(UsbSpeed::SuperSpeed.color_code(), (0, 255, 0));
    assert_eq!(UsbSpeed::High.color_code(), (255, 255, 0));
    assert_eq!(UsbSpeed::from_speed_str("480"), UsbSpeed::High);
    assert_eq!(UsbSpeed::SuperSpeed.to_bits_per_second(), 5_000_000_000);
}

#[test]
fn test_bandwidth_calculations() {
    // Theoretical bandwidth
    assert_eq!(UsbSpeed::High.to_bytes_per_second(), 60_000_000);
    assert_eq!(UsbSpeed::SuperSpeed.to_bytes_per_second(), 625_000_000);

    // Practical bandwidth (with overhead)
    let high_practical = UsbSpeed::High.to_practical_bytes_per_second();
    assert!(high_practical < UsbSpeed::High.to_bytes_per_second());
    assert_eq!(high_practical, 48_000_000); // 80% of 60 MB/s
}

#[test]
fn speed_strings_cover_every_tier() {
    assert_eq!(UsbSpeed::from_speed_str("1.5"), UsbSpeed::Low);
    assert_eq!(UsbSpeed::from_speed_str("12"), UsbSpeed::Full);
    assert_eq!(UsbSpeed::from_speed_str("5000"), UsbSpeed::SuperSpeed);
    assert_eq!(UsbSpeed::from_speed_str("10000"), UsbSpeed::SuperSpeedPlus);
    assert_eq!(UsbSpeed::from_speed_str("20000"), UsbSpeed::SuperSpeedPlus);
    assert_eq!(UsbSpeed::from_speed_str("9600"), UsbSpeed::Unknown);
}

#[test]
fn format_speed_renders_each_tier() {
    assert_eq!(format_speed(&UsbSpeed::Low), "1.5 Mbps (Low Speed)");
    assert_eq!(format_speed(&UsbSpeed::High), "480 Mbps (High Speed)");
    assert_eq!(format_speed(&UsbSpeed::Unknown), "Unknown");
}

#[test]
fn high_capable_device_on_full_bus_is_limited() {
    let mut device = UsbDevice::new(1, 2, 0);
    device.speed = UsbSpeed::Full; // negotiated on the Full-speed bus
    device.capability_hint = Some(UsbSpeed::High);
    assert_eq!(
        device.get_speed_indicator(&UsbSpeed::Full),
        SpeedIndicator::LimitedByBus(UsbSpeed::High)
    );
    assert_eq!(device.check_speed_mismatch(&UsbSpeed::Full), Some(UsbSpeed::High));
}

#[test]
fn high_device_on_high_bus_is_never_limited() {
    let mut device = UsbDevice::new(1, 2, 0);
    device.speed = UsbSpeed::High;
    device.capability_hint = Some(UsbSpeed::High);
    assert_eq!(device.get_speed_indicator(&UsbSpeed::High), SpeedIndicator::Normal);
    assert_eq!(device.check_speed_mismatch(&UsbSpeed::High), None);

    // over eighty percent busy it reports high utilization, still never limited
    device.record_traffic(true, 390_000_000, 0);
    assert_eq!(
        device.get_speed_indicator(&UsbSpeed::High),
        SpeedIndicator::HighUtilization
    );
}

#[test]
fn indicator_symbols_colors_and_descriptions() {
    assert_eq!(SpeedIndicator::Normal.get_symbol(), "");
    assert_eq!(SpeedIndicator::HighUtilization.get_symbol(), "\u{26a1}");
    assert_eq!(
        SpeedIndicator::LimitedByBus(UsbSpeed::High).get_symbol(),
        "\u{1f53a}"
    );
    assert_eq!(SpeedIndicator::Normal.get_color(), (128, 128, 128));
    assert_eq!(SpeedIndicator::HighUtilization.get_color(), (255, 165, 0));
    assert_eq!(
        SpeedIndicator::LimitedByBus(UsbSpeed::Low).get_color(),
        (255, 255, 0)
    );
    assert_eq!(SpeedIndicator::Normal.get_description(), "Normal operation");
    assert_eq!(
        SpeedIndicator::HighUtilization.get_description(),
        "High bandwidth utilization"
    );
    assert_eq!(
        SpeedIndicator::LimitedByBus(UsbSpeed::High).get_description(),
        "Device capable of 480 Mbps (High Speed) but limited by bus speed"
    );
}

#[test]
fn mark_disconnected_twice_keeps_the_first_instant() {
    let mut device = UsbDevice::new(1, 2, 0);
    device.mark_disconnected(1_000);
    device.mark_disconnected(2_000);
    assert!(device.is_disconnected);
    assert_eq!(device.disconnect_time, Some(1_000));
}

#[test]
fn reconnection_clears_the_disconnect_state() {
    let mut device = UsbDevice::new(1, 2, 0);
    device.mark_disconnected(1_000);
    device.update_activity(3_000);
    assert!(!device.is_disconnected);
    assert_eq!(device.disconnect_time, None);
    assert_eq!(device.last_seen, 3_000);
}

#[test]
fn should_remove_waits_out_the_grace_period() {
    let mut device = UsbDevice::new(1, 2, 0);
    assert!(!device.should_remove(100_000));
    device.mark_disconnected(10_000);
    assert!(!device.should_remove(14_000)); // four seconds
    assert!(!device.should_remove(15_000)); // exactly five seconds
    assert!(device.should_remove(16_000)); // six seconds
}

#[test]
fn cleanup_evicts_after_grace_and_drops_the_empty_bus() {
    let mut manager = DeviceManager::new();
    let device = UsbDevice::new(1, 2, 0);
    manager.add_or_update_device(device);
    assert_eq!(manager.get_total_device_count(), 1);

    manager.buses[0].devices[0].mark_disconnected(10_000);

    manager.cleanup_old_devices(14_000);
    assert_eq!(manager.get_total_device_count(), 1);
    assert_eq!(manager.buses.len(), 1);

    manager.cleanup_old_devices(16_000);
    assert_eq!(manager.get_total_device_count(), 0);
    assert_eq!(manager.buses.len(), 0);
}

#[test]
fn cleanup_keeps_a_bus_that_still_has_devices() {
    let mut manager = DeviceManager::new();
    manager.add_or_update_device(UsbDevice::new(1, 2, 0));
    manager.add_or_update_device(UsbDevice::new(1, 3, 0));
    manager.buses[0].devices[0].mark_disconnected(0);
    manager.cleanup_old_devices(10_000);
    assert_eq!(manager.buses.len(), 1);
    assert_eq!(manager.get_total_device_count(), 1);
    assert_eq!(manager.buses[0].devices[0].device_id, 3);
}

#[test]
fn record_packet_routes_to_the_owning_device() {
    let mut manager = DeviceManager::new();
    let line = "tag 1 S Bo:1:002:0 -115 31 x";
    let packet = parse_usbmon_text_line(line, clock()).unwrap();
    manager.record_packet(&packet, 1_000);
    assert_eq!(manager.buses.len(), 1);
    assert_eq!(manager.buses[0].bus_id, 1);
    let device = &manager.buses[0].devices[0];
    assert_eq!(device.device_id, 2);
    assert_eq!(device.last_seen, 1_000);
    // 31 bytes over the ten-second window
    assert_eq!(device.bandwidth_stats.tx_bps, 3);
    assert_eq!(device.bandwidth_stats.total_tx_bytes, 31);
}

#[test]
fn attribute_patch_merges_only_present_fields() {
    let mut device = UsbDevice::new(1, 2, 0);
    let mut patch = empty_patch();
    patch.speed = Some(UsbSpeed::High);
    patch.vendor = Some("ExampleCorp".to_string());
    patch.vendor_id = Some(0x1234);
    device.apply_attributes(patch);
    assert_eq!(device.speed, UsbSpeed::High);
    assert_eq!(device.vendor.as_deref(), Some("ExampleCorp"));
    assert_eq!(device.vendor_id, Some(0x1234));
    assert_eq!(device.product, None);

    let follow_up = empty_patch();
    device.apply_attributes(follow_up);
    assert_eq!(device.speed, UsbSpeed::High);
    assert_eq!(device.vendor.as_deref(), Some("ExampleCorp"));
}

#[test]
fn manager_patch_creates_and_identifies_the_device() {
    let mut manager = DeviceManager::new();
    let mut patch = empty_patch();
    patch.speed = Some(UsbSpeed::SuperSpeed);
    patch.capability_hint = Some(UsbSpeed::SuperSpeed);
    manager.apply_device_patch(2, 7, patch, 500);
    assert_eq!(manager.buses.len(), 1);
    let device = &manager.buses[0].devices[0];
    assert_eq!(device.device_id, 7);
    assert_eq!(device.speed, UsbSpeed::SuperSpeed);
    assert_eq!(device.last_seen, 500);
}

#[test]
fn bus_speed_prefers_the_root_hub_reading() {
    let mut bus = UsbBus::new(1);
    bus.update_bus_speed(Some(UsbSpeed::SuperSpeed));
    assert_eq!(bus.speed, UsbSpeed::SuperSpeed);
}

#[test]
fn bus_speed_falls_back_to_the_fastest_device() {
    let mut bus = UsbBus::new(1);
    let mut slow = UsbDevice::new(1, 2, 0);
    slow.speed = UsbSpeed::Full;
    let mut fast = UsbDevice::new(1, 3, 0);
    fast.speed = UsbSpeed::High;
    bus.add_or_update_device(slow);
    bus.add_or_update_device(fast);
    bus.update_bus_speed(None);
    assert_eq!(bus.speed, UsbSpeed::High);

    let empty = UsbBus::new(2);
    let mut empty = empty;
    empty.update_bus_speed(None);
    assert_eq!(empty.speed, UsbSpeed::Unknown);
}

#[test]
fn manager_update_bus_speeds_uses_the_feed_per_bus() {
    let mut manager = DeviceManager::new();
    manager.add_or_update_device(UsbDevice::new(1, 2, 0));
    let mut fast = UsbDevice::new(3, 4, 0);
    fast.speed = UsbSpeed::High;
    manager.add_or_update_device(fast);
    let roots = vec![(1u8, UsbSpeed::SuperSpeed)];
    manager.update_bus_speeds(&roots);
    assert_eq!(manager.buses[0].speed, UsbSpeed::SuperSpeed);
    assert_eq!(manager.buses[1].speed, UsbSpeed::High); // fallback to devices
}

#[test]
fn bus_utilization_aggregates_its_devices() {
    let mut bus = UsbBus::new(1);
    bus.speed = UsbSpeed::Full; // practical capacity 1,200,000 B/s
    let mut device = UsbDevice::new(1, 2, 0);
    device.record_traffic(true, 6_000_000, 0); // 600,000 B/s
    bus.add_or_update_device(device);
    assert_eq!(bus.get_total_bps(), 600_000);
    assert_eq!(bus.get_busy_percentage(), 50);
    assert_eq!(bus.get_busy_percentage_theoretical(), 40); // of 1,500,000
    bus.speed = UsbSpeed::Unknown;
    assert_eq!(bus.get_busy_percentage(), 0);
}

#[test]
fn limited_device_listing_and_count() {
    let mut bus = UsbBus::new(1);
    bus.speed = UsbSpeed::Full;
    let mut limited = UsbDevice::new(1, 2, 0);
    limited.speed = UsbSpeed::Full;
    limited.capability_hint = Some(UsbSpeed::High);
    let mut fine = UsbDevice::new(1, 3, 0);
    fine.speed = UsbSpeed::Full;
    fine.capability_hint = Some(UsbSpeed::Full);
    bus.add_or_update_device(limited);
    bus.add_or_update_device(fine);
    assert_eq!(bus.get_limited_device_count(), 1);
    let rows = bus.get_speed_limited_devices();
    assert_eq!(rows.len(), 1);
    assert_eq!(rows[0], (2, SpeedIndicator::LimitedByBus(UsbSpeed::High)));
}

#[test]
fn replacing_a_device_keeps_one_row_per_id() {
    let mut bus = UsbBus::new(1);
    bus.add_or_update_device(UsbDevice::new(1, 2, 0));
    let mut replacement = UsbDevice::new(1, 2, 50);
    replacement.speed = UsbSpeed::High;
    bus.add_or_update_device(replacement);
    assert_eq!(bus.devices.len(), 1);
    assert_eq!(bus.devices[0].speed, UsbSpeed::High);
    bus.remove_device(2);
    assert!(bus.devices.is_empty());
    bus.remove_device(9); // absent ids change nothing
    assert!(bus.devices.is_empty());
}

#[test]
fn total_bandwidth_sums_across_buses() {
    let mut manager = DeviceManager::new();
    let line_one = "tag 1 S Bo:1:002:0 0 1000 x";
    let line_two = "tag 1 C Ci:2:003:0 0 3000 x";
    let one = parse_usbmon_text_line(line_one, clock()).unwrap();
    let two = parse_usbmon_text_line(line_two, clock()).unwrap();
    manager.record_packet(&one, 0);
    manager.record_packet(&two, 0);
    assert_eq!(manager.get_total_device_count(), 2);
    assert_eq!(manager.get_total_bandwidth(), 400); // 100 + 300 B/s
}

#[test]
fn infer_capability_follows_the_descriptor_heuristics() {
    assert_eq!(
        infer_capability(Some(0x0300), None),
        Some(UsbSpeed::SuperSpeed)
    );
    assert_eq!(infer_capability(Some(0x0200), Some(64)), Some(UsbSpeed::High));
    assert_eq!(infer_capability(None, Some(8)), Some(UsbSpeed::Low));
    assert_eq!(infer_capability(None, Some(16)), Some(UsbSpeed::Full));
    assert_eq!(infer_capability(None, None), None);
}

#[test]
fn usbmon_reader_paths_name_bus_and_encoding() {
    let binary = UsbmonReader::new(3, true);
    assert_eq!(binary.path, "/sys/kernel/debug/usb/usbmon/3u");
    let text = UsbmonReader::new(0, false);
    assert_eq!(text.path, "/sys/kernel/debug/usb/usbmon/0t");
    let wide = UsbmonReader::new(255, true);
    assert_eq!(wide.path, "/sys/kernel/debug/usb/usbmon/255u");
}

#[test]
fn device_busy_percentages_use_both_capacities() {
    let mut device = UsbDevice::new(1, 2, 0);
    device.speed = UsbSpeed::Full;
    device.record_traffic(true, 6_000_000, 0); // 600,000 B/s
    assert_eq!(device.get_busy_percentage(), 50); // of 1,200,000 practical
    assert_eq!(device.get_busy_percentage_theoretical(), 40); // of 1,500,000
    device.speed = UsbSpeed::Unknown;
    assert_eq!(device.get_busy_percentage(), 0);
}

#[test]
fn capability_falls_back_to_the_negotiated_speed() {
    let mut device = UsbDevice::new(1, 2, 0);
    device.speed = UsbSpeed::High;
    assert_eq!(device.get_device_max_capability(), UsbSpeed::High);
    device.capability_hint = Some(UsbSpeed::SuperSpeed);
    assert_eq!(device.get_device_max_capability(), UsbSpeed::SuperSpeed);
}

#[test]
fn usbmon_status_requires_mount_and_directory() {
    let status = check_usbmon_status(true, true, true, vec![1, 2]);
    assert!(status.usbmon_available);
    assert_eq!(status.available_buses, vec![1, 2]);

    let status = check_usbmon_status(true, false, true, vec![1, 2]);
    assert!(!status.usbmon_available);
    assert!(status.available_buses.is_empty());

    let status = check_usbmon_status(false, true, false, vec![1]);
    assert!(!status.usbmon_available);
    assert!(status.available_buses.is_empty());
}
