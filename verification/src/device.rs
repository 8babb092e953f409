//! A single USB device: identity, negotiated speed, bandwidth accumulator,
//! and connection lifecycle.
//!
//! A device is Active until it is no longer observed, then Disconnected
//! with a timer, and is evicted once the grace period has elapsed; being
//! observed again clears the timer.  Identity and speed attributes arrive
//! as patches from a platform-specific attribute source; an absent field
//! leaves the device field unchanged.

use vstd::prelude::*;
use vstd::string::StringExecFns;
use crate::speed::{format_speed, spec_bits_per_second, spec_format_speed,
    spec_practical_bytes_per_second, spec_bytes_per_second, UsbSpeed};
use crate::stats::{initial_stats, spec_utilization, BandwidthStats, StatsView};

verus! {

/// Grace period, in seconds: a disconnected device is evicted once it has
/// been disconnected for longer than this.
pub const DISCONNECT_GRACE_SECS: u64 = 5;

/// Abstract state of a `UsbDevice`.
pub struct DeviceView {
    pub bus_id: u8,
    pub device_id: u8,
    pub vendor_id: Option<u16>,
    pub product_id: Option<u16>,
    pub vendor: Option<Seq<char>>,
    pub product: Option<Seq<char>>,
    pub serial: Option<Seq<char>>,
    pub speed: UsbSpeed,
    pub capability_hint: Option<UsbSpeed>,
    pub stats: StatsView,
    pub is_disconnected: bool,
    pub disconnect_time: Option<u64>,
    pub last_seen: u64,
}

/// One USB device on a bus.
#[derive(Debug, Clone)]
pub struct UsbDevice {
    pub bus_id: u8,
    /// Unique within the owning bus.
    pub device_id: u8,
    pub vendor_id: Option<u16>,
    pub product_id: Option<u16>,
    pub vendor: Option<String>,
    pub product: Option<String>,
    pub serial: Option<String>,
    /// The negotiated speed tier.
    pub speed: UsbSpeed,
    /// Heuristic maximum-capability estimate from the attribute source.
    pub capability_hint: Option<UsbSpeed>,
    pub bandwidth_stats: BandwidthStats,
    pub is_disconnected: bool,
    /// Set at most once while disconnected; cleared on reconnection.
    pub disconnect_time: Option<u64>,
    pub last_seen: u64,
}

impl View for UsbDevice {
    type V = DeviceView;

    open spec fn view(&self) -> DeviceView {
        DeviceView {
            bus_id: self.bus_id,
            device_id: self.device_id,
            vendor_id: self.vendor_id,
            product_id: self.product_id,
            vendor: match self.vendor {
                Option::Some(ref s) => Option::Some(s@),
                Option::None => Option::None,
            },
            product: match self.product {
                Option::Some(ref s) => Option::Some(s@),
                Option::None => Option::None,
            },
            serial: match self.serial {
                Option::Some(ref s) => Option::Some(s@),
                Option::None => Option::None,
            },
            speed: self.speed,
            capability_hint: self.capability_hint,
            stats: self.bandwidth_stats@,
            is_disconnected: self.is_disconnected,
            disconnect_time: self.disconnect_time,
            last_seen: self.last_seen,
        }
    }
}

/// An attribute patch from the platform's attribute source.  Absent fields
/// leave the device unchanged.
#[derive(Debug, Clone)]
pub struct AttributePatch {
    pub speed: Option<UsbSpeed>,
    pub vendor_id: Option<u16>,
    pub product_id: Option<u16>,
    pub vendor: Option<String>,
    pub product: Option<String>,
    pub serial: Option<String>,
    pub capability_hint: Option<UsbSpeed>,
}

/// Abstract value of an attribute patch.
pub struct PatchView {
    pub speed: Option<UsbSpeed>,
    pub vendor_id: Option<u16>,
    pub product_id: Option<u16>,
    pub vendor: Option<Seq<char>>,
    pub product: Option<Seq<char>>,
    pub serial: Option<Seq<char>>,
    pub capability_hint: Option<UsbSpeed>,
}

impl View for AttributePatch {
    type V = PatchView;

    open spec fn view(&self) -> PatchView {
        PatchView {
            speed: self.speed,
            vendor_id: self.vendor_id,
            product_id: self.product_id,
            vendor: match self.vendor {
                Option::Some(ref s) => Option::Some(s@),
                Option::None => Option::None,
            },
            product: match self.product {
                Option::Some(ref s) => Option::Some(s@),
                Option::None => Option::None,
            },
            serial: match self.serial {
                Option::Some(ref s) => Option::Some(s@),
                Option::None => Option::None,
            },
            capability_hint: self.capability_hint,
        }
    }
}

/// The device after merging a patch: each present field replaces the
/// device's, each absent field leaves it.
pub open spec fn spec_apply_patch(d: DeviceView, p: PatchView) -> DeviceView {
    DeviceView {
        speed: match p.speed {
            Option::Some(s) => s,
            Option::None => d.speed,
        },
        vendor_id: match p.vendor_id {
            Option::Some(v) => Option::Some(v),
            Option::None => d.vendor_id,
        },
        product_id: match p.product_id {
            Option::Some(v) => Option::Some(v),
            Option::None => d.product_id,
        },
        vendor: match p.vendor {
            Option::Some(v) => Option::Some(v),
            Option::None => d.vendor,
        },
        product: match p.product {
            Option::Some(v) => Option::Some(v),
            Option::None => d.product,
        },
        serial: match p.serial {
            Option::Some(v) => Option::Some(v),
            Option::None => d.serial,
        },
        capability_hint: match p.capability_hint {
            Option::Some(v) => Option::Some(v),
            Option::None => d.capability_hint,
        },
        ..d
    }
}

/// The heuristic maximum-capability estimate: the attribute source's hint,
/// falling back to the negotiated speed when no hint is available.
pub open spec fn spec_capability(d: DeviceView) -> UsbSpeed {
    match d.capability_hint {
        Option::Some(c) => c,
        Option::None => d.speed,
    }
}

/// A device is limited by its bus when its capability outranks both the
/// bus speed and its own negotiated speed; both conditions are required,
/// so a device already running at its true maximum is never flagged.
pub open spec fn spec_mismatch(d: DeviceView, bus_speed: UsbSpeed) -> Option<UsbSpeed> {
    let cap = spec_capability(d);
    if spec_bits_per_second(cap) > spec_bits_per_second(bus_speed) && spec_bits_per_second(cap)
        > spec_bits_per_second(d.speed) {
        Option::Some(cap)
    } else {
        Option::None
    }
}

/// The device after being marked disconnected at `now_ms`: the instant is
/// recorded only on the transition, so marking twice keeps the first.
pub open spec fn spec_mark_disconnected(d: DeviceView, now_ms: u64) -> DeviceView {
    if d.is_disconnected {
        d
    } else {
        DeviceView { is_disconnected: true, disconnect_time: Option::Some(now_ms), ..d }
    }
}

/// Whether a device has been disconnected for longer than the grace
/// period at `now_ms`.
pub open spec fn spec_should_remove(d: DeviceView, now_ms: u64) -> bool {
    match d.disconnect_time {
        Option::Some(t) => (if now_ms >= t {
            now_ms - t
        } else {
            0
        }) / 1000 > DISCONNECT_GRACE_SECS,
        Option::None => false,
    }
}

/// The device after being observed at `now_ms`: freshly seen, and any
/// disconnect state cleared.
pub open spec fn spec_update_activity(d: DeviceView, now_ms: u64) -> DeviceView {
    DeviceView {
        last_seen: now_ms,
        is_disconnected: false,
        disconnect_time: Option::None,
        ..d
    }
}

/// A fresh, active, unidentified device first seen at `now_ms`.
pub open spec fn initial_device(bus_id: u8, device_id: u8, now_ms: u64) -> DeviceView {
    DeviceView {
        bus_id,
        device_id,
        vendor_id: Option::None,
        product_id: Option::None,
        vendor: Option::None,
        product: Option::None,
        serial: Option::None,
        speed: UsbSpeed::Unknown,
        capability_hint: Option::None,
        stats: initial_stats(10),
        is_disconnected: false,
        disconnect_time: Option::None,
        last_seen: now_ms,
    }
}

/// The device after observed traffic at `now_ms`: activity refreshed and
/// the byte count recorded in the given direction.
pub open spec fn spec_record_traffic(d: DeviceView, inbound: bool, bytes: u64, now_ms: u64)
    -> DeviceView {
    DeviceView {
        stats: crate::stats::spec_update(d.stats, bytes, now_ms, inbound),
        ..spec_update_activity(d, now_ms)
    }
}

/// Whether the device's current rate exceeds eighty percent of the
/// practical capacity of its negotiated speed, compared exactly.
pub open spec fn spec_high_utilization(d: DeviceView) -> bool {
    d.stats.current_bps * 100 > 80 * spec_practical_bytes_per_second(d.speed)
}

/// The speed indicator of a device on a bus of the given speed.
pub open spec fn spec_indicator(d: DeviceView, bus_speed: UsbSpeed) -> SpeedIndicator {
    match spec_mismatch(d, bus_speed) {
        Option::Some(cap) => SpeedIndicator::LimitedByBus(cap),
        Option::None => {
            if spec_bits_per_second(d.speed) > 0 && spec_high_utilization(d) {
                SpeedIndicator::HighUtilization
            } else {
                SpeedIndicator::Normal
            }
        },
    }
}

impl UsbDevice {
    /// A fresh device, active and unidentified, first seen at `now_ms`.
    pub fn new(bus_id: u8, device_id: u8, now_ms: u64) -> (r: Self)
        ensures
            r@ == initial_device(bus_id, device_id, now_ms),
            r@.stats.wf(),
    {
        UsbDevice {
            bus_id,
            device_id,
            vendor_id: Option::None,
            product_id: Option::None,
            vendor: Option::None,
            product: Option::None,
            serial: Option::None,
            speed: UsbSpeed::Unknown,
            capability_hint: Option::None,
            bandwidth_stats: BandwidthStats::new(),
            is_disconnected: false,
            disconnect_time: Option::None,
            last_seen: now_ms,
        }
    }

    /// Merges an attribute patch into the device.
    pub fn apply_attributes(&mut self, patch: AttributePatch)
        ensures
            final(self)@ == spec_apply_patch(old(self)@, patch@),
    {
        if let Option::Some(s) = patch.speed {
            self.speed = s;
        }
        if let Option::Some(v) = patch.vendor_id {
            self.vendor_id = Option::Some(v);
        }
        if let Option::Some(v) = patch.product_id {
            self.product_id = Option::Some(v);
        }
        if let Option::Some(v) = patch.vendor {
            self.vendor = Option::Some(v);
        }
        if let Option::Some(v) = patch.product {
            self.product = Option::Some(v);
        }
        if let Option::Some(v) = patch.serial {
            self.serial = Option::Some(v);
        }
        if let Option::Some(v) = patch.capability_hint {
            self.capability_hint = Option::Some(v);
        }
    }

    /// Marks the device disconnected; idempotent, the original disconnect
    /// instant is kept on repeated calls.
    pub fn mark_disconnected(&mut self, now_ms: u64)
        ensures
            final(self)@ == spec_mark_disconnected(old(self)@, now_ms),
            old(self)@.is_disconnected ==> final(self)@.disconnect_time == old(
                self,
            )@.disconnect_time,
    {
        if !self.is_disconnected {
            self.is_disconnected = true;
            self.disconnect_time = Option::Some(now_ms);
        }
    }

    /// Whether the device has been disconnected beyond the grace period.
    pub fn should_remove(&self, now_ms: u64) -> (r: bool)
        ensures
            r == spec_should_remove(self@, now_ms),
    {
        match self.disconnect_time {
            Option::Some(t) => {
                let elapsed_ms: u64 = if now_ms >= t {
                    now_ms - t
                } else {
                    0
                };
                elapsed_ms / 1000 > DISCONNECT_GRACE_SECS
            },
            Option::None => false,
        }
    }

    /// Notes that the device was observed at `now_ms`, clearing any
    /// disconnect state.
    pub fn update_activity(&mut self, now_ms: u64)
        ensures
            final(self)@ == spec_update_activity(old(self)@, now_ms),
    {
        self.last_seen = now_ms;
        self.is_disconnected = false;
        self.disconnect_time = Option::None;
    }

    /// Records observed traffic: refreshes activity and feeds the byte
    /// count into the tracker for the given direction (true = inbound).
    pub fn record_traffic(&mut self, inbound: bool, bytes: u64, now_ms: u64)
        requires
            old(self)@.stats.wf(),
        ensures
            final(self)@ == spec_record_traffic(old(self)@, inbound, bytes, now_ms),
            final(self)@.stats.wf(),
            final(self)@.stats.peak_bps >= old(self)@.stats.peak_bps,
    {
        self.update_activity(now_ms);
        if inbound {
            self.bandwidth_stats.update_rx(bytes, now_ms);
        } else {
            self.bandwidth_stats.update_tx(bytes, now_ms);
        }
    }

    /// Percentage of the practical capacity of the negotiated speed in
    /// use, clamped to 100.
    pub fn get_busy_percentage(&self) -> (r: u64)
        ensures
            r == spec_utilization(
                self@.stats.current_bps,
                spec_practical_bytes_per_second(self@.speed),
            ),
            r <= 100,
    {
        let max_bandwidth = self.speed.to_practical_bytes_per_second();
        self.bandwidth_stats.get_utilization_percentage(max_bandwidth)
    }

    /// Percentage of the theoretical capacity of the negotiated speed in
    /// use, clamped to 100.
    pub fn get_busy_percentage_theoretical(&self) -> (r: u64)
        ensures
            r == spec_utilization(self@.stats.current_bps, spec_bytes_per_second(self@.speed)),
            r <= 100,
    {
        let max_bandwidth = self.speed.to_bytes_per_second();
        self.bandwidth_stats.get_utilization_percentage(max_bandwidth)
    }

    /// The maximum speed the device is believed capable of: the attribute
    /// source's hint, else the negotiated speed.
    pub fn get_device_max_capability(&self) -> (r: UsbSpeed)
        ensures
            r == spec_capability(self@),
    {
        match self.capability_hint {
            Option::Some(c) => c,
            Option::None => self.speed,
        }
    }

    /// The device's capability when it could run faster than this bus
    /// allows, and nothing otherwise.
    pub fn check_speed_mismatch(&self, bus_speed: &UsbSpeed) -> (r: Option<UsbSpeed>)
        ensures
            r == spec_mismatch(self@, *bus_speed),
    {
        let cap = self.get_device_max_capability();
        if cap.to_bits_per_second() > bus_speed.to_bits_per_second() && cap.to_bits_per_second()
            > self.speed.to_bits_per_second() {
            Option::Some(cap)
        } else {
            Option::None
        }
    }

    /// The indicator shown for this device on a bus of the given speed.
    pub fn get_speed_indicator(&self, bus_speed: &UsbSpeed) -> (r: SpeedIndicator)
        ensures
            r == spec_indicator(self@, *bus_speed),
    {
        match self.check_speed_mismatch(bus_speed) {
            Option::Some(cap) => SpeedIndicator::LimitedByBus(cap),
            Option::None => {
                let practical = self.speed.to_practical_bytes_per_second();
                let busy = (self.bandwidth_stats.current_bps as u128) * 100 > 80 * (
                practical as u128);
                if self.speed.to_bits_per_second() > 0 && busy {
                    SpeedIndicator::HighUtilization
                } else {
                    SpeedIndicator::Normal
                }
            },
        }
    }
}

/// Infers a capability hint from descriptor attributes: a release number
/// of 3.00 or above suggests SuperSpeed; else an endpoint-zero packet size
/// of 64 or more suggests High, exactly 8 suggests Low, and anything else
/// Full; with neither attribute there is no hint.
pub open spec fn spec_infer_capability(bcd_device: Option<u16>, max_packet: Option<u16>) -> Option<
    UsbSpeed,
> {
    if bcd_device is Some && bcd_device->0 >= 0x300 {
        Option::Some(UsbSpeed::SuperSpeed)
    } else {
        match max_packet {
            Option::Some(m) => {
                if m >= 64 {
                    Option::Some(UsbSpeed::High)
                } else if m == 8 {
                    Option::Some(UsbSpeed::Low)
                } else {
                    Option::Some(UsbSpeed::Full)
                }
            },
            Option::None => Option::None,
        }
    }
}

/// Exec mirror of `spec_infer_capability`, for the attribute feed.
pub fn infer_capability(bcd_device: Option<u16>, max_packet: Option<u16>) -> (r: Option<UsbSpeed>)
    ensures
        r == spec_infer_capability(bcd_device, max_packet),
{
    if let Option::Some(b) = bcd_device {
        if b >= 0x300 {
            return Option::Some(UsbSpeed::SuperSpeed);
        }
    }
    match max_packet {
        Option::Some(m) => {
            if m >= 64 {
                Option::Some(UsbSpeed::High)
            } else if m == 8 {
                Option::Some(UsbSpeed::Low)
            } else {
                Option::Some(UsbSpeed::Full)
            }
        },
        Option::None => Option::None,
    }
}

/// Visual indicator for a device's speed situation.
#[derive(Debug, Clone, Copy, PartialEq, Eq, Structural)]
pub enum SpeedIndicator {
    Normal,
    HighUtilization,
    /// The device is capable of the carried speed but limited by its bus.
    LimitedByBus(UsbSpeed),
}

/// The description of an indicator.
pub open spec fn spec_indicator_description(ind: SpeedIndicator) -> Seq<char> {
    match ind {
        SpeedIndicator::Normal => "Normal operation"@,
        SpeedIndicator::HighUtilization => "High bandwidth utilization"@,
        SpeedIndicator::LimitedByBus(s) => "Device capable of "@ + spec_format_speed(s)
            + " but limited by bus speed"@,
    }
}

impl SpeedIndicator {
    /// A visual symbol for the indicator.
    pub fn get_symbol(&self) -> (r: &'static str)
        ensures
            r@ == (match *self {
                SpeedIndicator::Normal => ""@,
                SpeedIndicator::HighUtilization => "\u{26a1}"@,
                SpeedIndicator::LimitedByBus(_) => "\u{1f53a}"@,
            }),
    {
        match self {
            SpeedIndicator::Normal => "",
            SpeedIndicator::HighUtilization => "\u{26a1}",
            SpeedIndicator::LimitedByBus(_) => "\u{1f53a}",
        }
    }

    /// The RGB colour for the indicator.
    pub fn get_color(&self) -> (r: (u8, u8, u8))
        ensures
            r == (match *self {
                SpeedIndicator::Normal => (128u8, 128u8, 128u8),
                SpeedIndicator::HighUtilization => (255u8, 165u8, 0u8),
                SpeedIndicator::LimitedByBus(_) => (255u8, 255u8, 0u8),
            }),
    {
        match self {
            SpeedIndicator::Normal => (128, 128, 128),
            SpeedIndicator::HighUtilization => (255, 165, 0),
            SpeedIndicator::LimitedByBus(_) => (255, 255, 0),
        }
    }

    /// A description of the indicator.
    pub fn get_description(&self) -> (r: String)
        ensures
            r@ == spec_indicator_description(*self),
    {
        match self {
            SpeedIndicator::Normal => String::from_str("Normal operation"),
            SpeedIndicator::HighUtilization => String::from_str("High bandwidth utilization"),
            SpeedIndicator::LimitedByBus(capable_speed) => {
                let mut s = String::from_str("Device capable of ");
                let speed_text = format_speed(capable_speed);
                s.append(speed_text.as_str());
                s.append(" but limited by bus speed");
                s
            },
        }
    }
}

/// Marking a device disconnected twice keeps the disconnect instant of the
/// first call: the second marking changes nothing at all.
pub proof fn lemma_mark_disconnected_idempotent(d: DeviceView, t1: u64, t2: u64)
    ensures
        spec_mark_disconnected(spec_mark_disconnected(d, t1), t2) == spec_mark_disconnected(d, t1),
{
}

/// A High-capable device that negotiated Full speed on a Full-speed bus is
/// reported limited by that bus; the same device negotiated at High on a
/// High-speed bus is never reported limited, whatever its utilization.
pub proof fn lemma_indicator_limited_by_bus(d: DeviceView)
    requires
        d.capability_hint == Option::Some(UsbSpeed::High),
    ensures
        d.speed == UsbSpeed::Full ==> spec_indicator(d, UsbSpeed::Full)
            == SpeedIndicator::LimitedByBus(UsbSpeed::High),
        d.speed == UsbSpeed::High ==> !(spec_indicator(d, UsbSpeed::High) is LimitedByBus),
{
}

} // verus!
