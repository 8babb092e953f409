//! Bus and topology registry: routes decoded records and attribute patches
//! to the owning device, aggregates bus-level utilization, and evicts
//! devices that have stayed disconnected beyond the grace period.
//!
//! Buses are created lazily on first reference and dropped once their
//! device set becomes empty; a device id is unique within its bus.

use vstd::prelude::*;
use crate::device::{
    initial_device,
    spec_apply_patch,
    spec_indicator,
    spec_mismatch,
    spec_record_traffic,
    spec_should_remove,
    spec_update_activity,
    AttributePatch,
    DeviceView,
    PatchView,
    SpeedIndicator,
    UsbDevice,
};
use crate::parser::{spec_bandwidth_bytes, UsbPacket};
use crate::speed::{spec_bits_per_second, spec_bytes_per_second, spec_practical_bytes_per_second,
    UsbSpeed};
use crate::stats::{initial_stats, BandwidthStats, StatsView};

verus! {

/// Abstract state of a `UsbBus`.
pub struct BusView {
    pub bus_id: u8,
    pub speed: UsbSpeed,
    pub stats: StatsView,
    pub devices: Seq<DeviceView>,
}

/// One USB bus and the devices on it.
#[derive(Debug)]
pub struct UsbBus {
    pub bus_id: u8,
    /// Nominal speed of the bus, from the root hub where available.
    pub speed: UsbSpeed,
    pub bandwidth_stats: BandwidthStats,
    /// Devices on the bus; device ids are unique.
    pub devices: Vec<UsbDevice>,
}

impl View for UsbBus {
    type V = BusView;

    open spec fn view(&self) -> BusView {
        BusView {
            bus_id: self.bus_id,
            speed: self.speed,
            stats: self.bandwidth_stats@,
            devices: Seq::new(self.devices@.len(), |i: int| self.devices@[i]@),
        }
    }
}

impl BusView {
    /// Well-formedness: device ids unique, all trackers well-formed.
    pub open spec fn wf(self) -> bool {
        &&& forall|i: int, j: int|
            0 <= i < j < self.devices.len() ==> #[trigger] self.devices[i].device_id
                != #[trigger] self.devices[j].device_id
        &&& forall|i: int| 0 <= i < self.devices.len() ==> (#[trigger] self.devices[i]).stats.wf()
        &&& self.stats.wf()
    }
}

/// Whether some device on the sequence carries this id.
pub open spec fn has_device(devs: Seq<DeviceView>, id: u8) -> bool {
    exists|i: int| 0 <= i < devs.len() && devs[i].device_id == id
}

/// The index of the device with this id; meaningful under uniqueness.
pub open spec fn device_index(devs: Seq<DeviceView>, id: u8) -> int {
    choose|i: int| 0 <= i < devs.len() && devs[i].device_id == id
}

/// The device with this id.
pub open spec fn device_of(devs: Seq<DeviceView>, id: u8) -> DeviceView {
    devs[device_index(devs, id)]
}

/// Insert-or-replace by device id: an existing row is overwritten in
/// place, a new device is appended.
pub open spec fn spec_upsert(devs: Seq<DeviceView>, d: DeviceView) -> Seq<DeviceView> {
    if has_device(devs, d.device_id) {
        devs.update(device_index(devs, d.device_id), d)
    } else {
        devs.push(d)
    }
}

/// Removal by device id; absent ids change nothing.
pub open spec fn spec_remove_device(devs: Seq<DeviceView>, id: u8) -> Seq<DeviceView> {
    if has_device(devs, id) {
        devs.remove(device_index(devs, id))
    } else {
        devs
    }
}

/// Sum of the devices' current rates.
pub open spec fn total_bps(devs: Seq<DeviceView>) -> int
    decreases devs.len(),
{
    if devs.len() == 0 {
        0
    } else {
        total_bps(devs.drop_last()) + devs.last().stats.current_bps
    }
}

/// The highest negotiated speed among the devices; `Unknown` with none.
pub open spec fn max_device_speed(devs: Seq<DeviceView>) -> UsbSpeed
    decreases devs.len(),
{
    if devs.len() == 0 {
        UsbSpeed::Unknown
    } else {
        let rest = max_device_speed(devs.drop_last());
        if spec_bits_per_second(devs.last().speed) > spec_bits_per_second(rest) {
            devs.last().speed
        } else {
            rest
        }
    }
}

/// Saturating sixty-four-bit clamp of a non-negative total.
pub open spec fn sat64_of(total: int) -> u64 {
    if total > u64::MAX {
        u64::MAX
    } else {
        total as u64
    }
}

/// Aggregate utilization of a capacity as a truncated percentage, clamped
/// to 100; zero capacity reports zero.
pub open spec fn spec_aggregate_utilization(total: int, capacity: u64) -> u64 {
    if capacity == 0 {
        0
    } else if total * 100 / (capacity as int) >= 100 {
        100
    } else {
        (total * 100 / (capacity as int)) as u64
    }
}

/// The non-Normal indicator rows of a bus, in device order.
pub open spec fn spec_limited_rows(devs: Seq<DeviceView>, bus_speed: UsbSpeed) -> Seq<
    (u8, SpeedIndicator),
> {
    devs.map_values(|d: DeviceView| (d.device_id, spec_indicator(d, bus_speed))).filter(
        |p: (u8, SpeedIndicator)| p.1 != SpeedIndicator::Normal,
    )
}

proof fn lemma_total_bps_nonneg(devs: Seq<DeviceView>)
    ensures
        0 <= total_bps(devs) <= devs.len() * (u64::MAX as int),
    decreases devs.len(),
{
    if devs.len() > 0 {
        lemma_total_bps_nonneg(devs.drop_last());
        assert((devs.len() - 1) * (u64::MAX as int) + (u64::MAX as int) == devs.len() * (
        u64::MAX as int)) by (nonlinear_arith);
    }
}

/// Step lemma for summing rates over a prefix.
proof fn lemma_total_bps_take_step(devs: Seq<DeviceView>, i: int)
    requires
        0 <= i < devs.len(),
    ensures
        total_bps(devs.take(i + 1)) == total_bps(devs.take(i)) + devs[i].stats.current_bps,
{
    assert(devs.take(i + 1).drop_last() =~= devs.take(i));
    assert(devs.take(i + 1).last() == devs[i]);
}

/// Step lemma for folding the maximum speed over a prefix.
proof fn lemma_max_speed_take_step(devs: Seq<DeviceView>, i: int)
    requires
        0 <= i < devs.len(),
    ensures
        max_device_speed(devs.take(i + 1)) == (if spec_bits_per_second(devs[i].speed)
            > spec_bits_per_second(max_device_speed(devs.take(i))) {
            devs[i].speed
        } else {
            max_device_speed(devs.take(i))
        }),
{
    assert(devs.take(i + 1).drop_last() =~= devs.take(i));
    assert(devs.take(i + 1).last() == devs[i]);
}

impl UsbBus {
    /// A fresh bus with no devices and unknown speed.
    pub fn new(bus_id: u8) -> (r: Self)
        ensures
            r@ == (BusView {
                bus_id,
                speed: UsbSpeed::Unknown,
                stats: initial_stats(10),
                devices: Seq::<DeviceView>::empty(),
            }),
            r@.wf(),
    {
        let r = UsbBus {
            bus_id,
            speed: UsbSpeed::Unknown,
            bandwidth_stats: BandwidthStats::new(),
            devices: Vec::new(),
        };
        proof {
            assert(r@.devices =~= Seq::<DeviceView>::empty());
        }
        r
    }

    /// Sets the bus speed: the root hub's nominal speed when the attribute
    /// source supplies one, else the highest speed among the bus's own
    /// devices, else `Unknown`.
    pub fn update_bus_speed(&mut self, root_speed: Option<UsbSpeed>)
        ensures
            final(self)@ == (BusView {
                speed: match root_speed {
                    Option::Some(s) => s,
                    Option::None => max_device_speed(old(self)@.devices),
                },
                ..old(self)@
            }),
    {
        match root_speed {
            Option::Some(s) => {
                self.speed = s;
            },
            Option::None => {
                let ghost devs = self@.devices;
                let n = self.devices.len();
                let mut best = UsbSpeed::Unknown;
                let mut i: usize = 0;
                proof {
                    assert(devs.take(0) =~= Seq::<DeviceView>::empty());
                }
                while i < n
                    invariant
                        0 <= i <= n,
                        n == devs.len(),
                        devs == self@.devices,
                        best == max_device_speed(devs.take(i as int)),
                    decreases n - i,
                {
                    proof {
                        lemma_max_speed_take_step(devs, i as int);
                    }
                    let cand = self.devices[i].speed;
                    proof {
                        assert(devs[i as int] == self.devices@[i as int]@);
                    }
                    if cand.to_bits_per_second() > best.to_bits_per_second() {
                        best = cand;
                    }
                    i = i + 1;
                }
                proof {
                    assert(devs.take(n as int) =~= devs);
                }
                self.speed = best;
            },
        }
    }

    /// Sum of the current rates of all devices on the bus, saturating.
    pub fn get_total_bps(&self) -> (r: u64)
        ensures
            r == sat64_of(total_bps(self@.devices)),
    {
        let ghost devs = self@.devices;
        let n = self.devices.len();
        let mut acc: u128 = 0;
        let mut i: usize = 0;
        proof {
            assert(devs.take(0) =~= Seq::<DeviceView>::empty());
        }
        while i < n
            invariant
                0 <= i <= n,
                n == devs.len(),
                devs == self@.devices,
                acc as int == total_bps(devs.take(i as int)),
                acc as int <= (i as int) * (u64::MAX as int),
            decreases n - i,
        {
            proof {
                lemma_total_bps_take_step(devs, i as int);
                assert(devs[i as int] == self.devices@[i as int]@);
                assert((i as int) * (u64::MAX as int) + (u64::MAX as int) == (i + 1) * (
                u64::MAX as int)) by (nonlinear_arith);
                assert((i + 1) * (u64::MAX as int) <= 0x1_0000_0000_0000_0000int * (
                u64::MAX as int)) by (nonlinear_arith)
                    requires
                        0 <= i < 0x1_0000_0000_0000_0000,
                ;
            }
            acc = acc + self.devices[i].bandwidth_stats.current_bps as u128;
            i = i + 1;
        }
        proof {
            assert(devs.take(n as int) =~= devs);
        }
        if acc > u64::MAX as u128 {
            u64::MAX
        } else {
            acc as u64
        }
    }

    /// Utilization of the bus against a capacity in bytes per second.
    fn busy_against(&self, capacity: u64) -> (r: u64)
        ensures
            r == spec_aggregate_utilization(total_bps(self@.devices), capacity),
            r <= 100,
    {
        let ghost total = total_bps(self@.devices);
        proof {
            lemma_total_bps_nonneg(self@.devices);
        }
        if capacity == 0 {
            return 0;
        }
        let sat = self.get_total_bps();
        if sat >= capacity {
            proof {
                assert(total * 100 / (capacity as int) >= 100) by (nonlinear_arith)
                    requires
                        0 < capacity <= total,
                ;
            }
            100
        } else {
            // not saturated, so the exact total fits in sixty-four bits
            let p = (sat as u128) * 100 / (capacity as u128);
            proof {
                assert(p < 100) by (nonlinear_arith)
                    requires
                        p == total * 100 / (capacity as int),
                        0 <= total < capacity,
                ;
            }
            p as u64
        }
    }

    /// Percentage of the bus's practical capacity in use, aggregated over
    /// its devices and clamped to 100.
    pub fn get_busy_percentage(&self) -> (r: u64)
        ensures
            r == spec_aggregate_utilization(
                total_bps(self@.devices),
                spec_practical_bytes_per_second(self@.speed),
            ),
            r <= 100,
    {
        let capacity = self.speed.to_practical_bytes_per_second();
        self.busy_against(capacity)
    }

    /// Percentage of the bus's theoretical capacity in use, aggregated
    /// over its devices and clamped to 100.
    pub fn get_busy_percentage_theoretical(&self) -> (r: u64)
        ensures
            r == spec_aggregate_utilization(
                total_bps(self@.devices),
                spec_bytes_per_second(self@.speed),
            ),
            r <= 100,
    {
        let capacity = self.speed.to_bytes_per_second();
        self.busy_against(capacity)
    }

    /// Finds the row holding a device id.
    fn find_device_idx(&self, id: u8) -> (r: Option<usize>)
        ensures
            r is Some ==> 0 <= r->0 < self@.devices.len() && self@.devices[r->0 as int].device_id
                == id,
            r is None ==> !has_device(self@.devices, id),
            r is Some ==> has_device(self@.devices, id),
    {
        let n = self.devices.len();
        let mut i: usize = 0;
        while i < n
            invariant
                0 <= i <= n,
                n == self@.devices.len(),
                forall|j: int| 0 <= j < i ==> #[trigger] self@.devices[j].device_id != id,
            decreases n - i,
        {
            if self.devices[i].device_id == id {
                proof {
                    assert(self@.devices[i as int] == self.devices@[i as int]@);
                }
                return Option::Some(i);
            }
            proof {
                assert(self@.devices[i as int] == self.devices@[i as int]@);
            }
            i = i + 1;
        }
        Option::None
    }

    /// Adds a device, or replaces the row already holding its id.
    pub fn add_or_update_device(&mut self, device: UsbDevice)
        requires
            old(self)@.wf(),
            device@.stats.wf(),
        ensures
            final(self)@ == (BusView {
                devices: spec_upsert(old(self)@.devices, device@),
                ..old(self)@
            }),
            final(self)@.wf(),
    {
        let ghost devs = self@.devices;
        let ghost dv = device@;
        match self.find_device_idx(device.device_id) {
            Option::Some(i) => {
                proof {
                    let k = device_index(devs, dv.device_id);
                    assert(devs[k].device_id == dv.device_id);
                    assert(k == i) by {
                        if k != i {
                            assert(devs[k].device_id != devs[i as int].device_id);
                        }
                    }
                }
                self.devices.remove(i);
                self.devices.insert(i, device);
                proof {
                    assert(self@.devices =~= devs.update(i as int, dv));
                }
            },
            Option::None => {
                self.devices.push(device);
                proof {
                    assert(self@.devices =~= devs.push(dv));
                }
            },
        }
    }

    /// Removes the device with this id, if present.
    pub fn remove_device(&mut self, device_id: u8)
        requires
            old(self)@.wf(),
        ensures
            final(self)@ == (BusView {
                devices: spec_remove_device(old(self)@.devices, device_id),
                ..old(self)@
            }),
            final(self)@.wf(),
    {
        let ghost devs = self@.devices;
        match self.find_device_idx(device_id) {
            Option::Some(i) => {
                proof {
                    let k = device_index(devs, device_id);
                    assert(devs[k].device_id == device_id);
                    assert(k == i) by {
                        if k != i {
                            assert(devs[k].device_id != devs[i as int].device_id);
                        }
                    }
                }
                self.devices.remove(i);
                proof {
                    assert(self@.devices =~= devs.remove(i as int));
                }
            },
            Option::None => {},
        }
    }

    /// The `(device id, indicator)` rows of every device whose indicator
    /// is not Normal, in device order.
    pub fn get_speed_limited_devices(&self) -> (r: Vec<(u8, SpeedIndicator)>)
        ensures
            r@ == spec_limited_rows(self@.devices, self@.speed),
    {
        let ghost devs = self@.devices;
        let ghost rows = devs.map_values(
            |d: DeviceView| (d.device_id, spec_indicator(d, self@.speed)),
        );
        let ghost pred = |p: (u8, SpeedIndicator)| p.1 != SpeedIndicator::Normal;
        let n = self.devices.len();
        let mut out: Vec<(u8, SpeedIndicator)> = Vec::new();
        let mut i: usize = 0;
        proof {
            reveal(Seq::filter);
            assert(rows.take(0) =~= Seq::<(u8, SpeedIndicator)>::empty());
        }
        while i < n
            invariant
                0 <= i <= n,
                n == devs.len(),
                devs == self@.devices,
                rows == devs.map_values(
                    |d: DeviceView| (d.device_id, spec_indicator(d, self@.speed)),
                ),
                out@ == rows.take(i as int).filter(
                    |p: (u8, SpeedIndicator)| p.1 != SpeedIndicator::Normal,
                ),
            decreases n - i,
        {
            proof {
                assert(devs[i as int] == self.devices@[i as int]@);
                assert(rows[i as int] == (devs[i as int].device_id, spec_indicator(
                    devs[i as int],
                    self@.speed,
                )));
            }
            let d = &self.devices[i];
            let ind = d.get_speed_indicator(&self.speed);
            let row = (d.device_id, ind);
            if !matches!(ind, SpeedIndicator::Normal) {
                out.push(row);
            }
            i = i + 1;
            proof {
                reveal(Seq::filter);
                assert(rows.take(i as int).drop_last() =~= rows.take(i - 1));
                assert(rows.take(i as int).last() == rows[i - 1]);
            }
        }
        proof {
            assert(rows.take(n as int) =~= rows);
        }
        out
    }

    /// How many devices on the bus could run faster on a faster bus.
    pub fn get_limited_device_count(&self) -> (r: usize)
        ensures
            r == spec_mismatch_count(self@.devices, self@.speed),
    {
        let ghost devs = self@.devices;
        let n = self.devices.len();
        let mut count: usize = 0;
        let mut i: usize = 0;
        proof {
            reveal(Seq::filter);
            assert(devs.take(0) =~= Seq::<DeviceView>::empty());
            devs.take(0).lemma_filter_len(|d: DeviceView| spec_mismatch(d, self@.speed) is Some);
        }
        while i < n
            invariant
                0 <= i <= n,
                n == devs.len(),
                devs == self@.devices,
                count == spec_mismatch_count(devs.take(i as int), self@.speed),
                count <= i,
            decreases n - i,
        {
            proof {
                assert(devs[i as int] == self.devices@[i as int]@);
            }
            let d = &self.devices[i];
            if d.check_speed_mismatch(&self.speed).is_some() {
                count = count + 1;
            }
            i = i + 1;
            proof {
                reveal(Seq::filter);
                assert(devs.take(i as int).drop_last() =~= devs.take(i - 1));
                assert(devs.take(i as int).last() == devs[i - 1]);
                devs.take(i as int).lemma_filter_len(
                    |d: DeviceView| spec_mismatch(d, self@.speed) is Some,
                );
            }
        }
        proof {
            assert(devs.take(n as int) =~= devs);
        }
        count
    }

    /// Drops every device that has stayed disconnected beyond the grace
    /// period.
    fn remove_stale_devices(&mut self, now_ms: u64)
        requires
            old(self)@.wf(),
        ensures
            final(self)@ == (BusView {
                devices: old(self)@.devices.filter(
                    |d: DeviceView| !spec_should_remove(d, now_ms),
                ),
                ..old(self)@
            }),
            final(self)@.wf(),
    {
        let ghost devs = self@.devices;
        let ghost pre = self@;
        let ghost pred = |d: DeviceView| !spec_should_remove(d, now_ms);
        let mut kept: Vec<UsbDevice> = Vec::new();
        let ghost mut k: int = 0;
        proof {
            reveal(Seq::filter);
            assert(devs.take(0) =~= Seq::<DeviceView>::empty());
        }
        while self.devices.len() > 0
            invariant
                0 <= k <= devs.len(),
                self.devices@.len() == devs.len() - k,
                forall|j: int|
                    0 <= j < self.devices@.len() ==> #[trigger] self.devices@[j]@ == devs[k + j],
                device_views(kept@) == devs.take(k).filter(
                    |d: DeviceView| !spec_should_remove(d, now_ms),
                ),
                self.bus_id == pre.bus_id,
                self.speed == pre.speed,
                self.bandwidth_stats@ == pre.stats,
            decreases self.devices@.len(),
        {
            let d = self.devices.remove(0);
            proof {
                assert(d@ == devs[k]);
            }
            let stale = d.should_remove(now_ms);
            let ghost before = device_views(kept@);
            if !stale {
                kept.push(d);
                proof {
                    assert(device_views(kept@) =~= before.push(d@));
                }
            }
            proof {
                k = k + 1;
                reveal(Seq::filter);
                assert(devs.take(k).drop_last() =~= devs.take(k - 1));
                assert(devs.take(k).last() == devs[k - 1]);
            }
        }
        proof {
            assert(devs.take(k) =~= devs);
            let key = |d: DeviceView| d.device_id;
            lemma_filter_distinct_by(devs, pred, key);
            lemma_filter_subset(devs, pred);
            let f = devs.filter(pred);
            assert forall|i: int, j: int|
                0 <= i < j < f.len() implies #[trigger] f[i].device_id
                    != #[trigger] f[j].device_id by {
                assert(key(f[i]) != key(f[j]));
            }
            assert forall|i: int| 0 <= i < f.len() implies (#[trigger] f[i]).stats.wf() by {
                assert(f.contains(f[i]));
                let j = choose|j: int| 0 <= j < devs.len() && devs[j] == f[i];
            }
        }
        self.devices = kept;
    }
}

/// The abstract rows of a vector of devices.
pub open spec fn device_views(s: Seq<UsbDevice>) -> Seq<DeviceView> {
    Seq::new(s.len(), |i: int| s[i]@)
}

/// Everything a filter keeps was in the sequence.
proof fn lemma_filter_subset<T>(s: Seq<T>, pred: spec_fn(T) -> bool)
    ensures
        forall|x: T| #[trigger] s.filter(pred).contains(x) ==> s.contains(x),
    decreases s.len(),
{
    reveal(Seq::filter);
    if s.len() > 0 {
        lemma_filter_subset(s.drop_last(), pred);
        assert forall|x: T| #[trigger] s.filter(pred).contains(x) implies s.contains(x) by {
            if s.drop_last().filter(pred).contains(x) {
                assert(s.drop_last().contains(x));
                let j = choose|j: int|
                    0 <= j < s.drop_last().len() && s.drop_last()[j] == x;
                assert(s[j] == x);
            } else {
                assert(x == s.last());
            }
        }
    }
}

/// Filtering a sequence whose rows carry pairwise-distinct keys keeps the
/// keys pairwise distinct.
proof fn lemma_filter_distinct_by<T>(s: Seq<T>, pred: spec_fn(T) -> bool, key: spec_fn(T) -> u8)
    requires
        forall|i: int, j: int|
            0 <= i < j < s.len() ==> #[trigger] key(s[i]) != #[trigger] key(s[j]),
    ensures
        forall|i: int, j: int|
            0 <= i < j < s.filter(pred).len() ==> #[trigger] key(s.filter(pred)[i]) != #[trigger] key(
                s.filter(pred)[j],
            ),
    decreases s.len(),
{
    reveal(Seq::filter);
    if s.len() > 0 {
        let butlast = s.drop_last();
        assert(forall|i: int| 0 <= i < butlast.len() ==> butlast[i] == s[i]);
        lemma_filter_distinct_by(butlast, pred, key);
        lemma_filter_subset(butlast, pred);
        if pred(s.last()) {
            let f = butlast.filter(pred);
            assert forall|i: int, j: int|
                0 <= i < j < s.filter(pred).len() implies #[trigger] key(
                s.filter(pred)[i],
            ) != #[trigger] key(s.filter(pred)[j]) by {
                if j < f.len() {
                } else {
                    // the later row is the pushed last element
                    assert(s.filter(pred)[j] == s.last());
                    assert(f.contains(f[i]));
                    assert(butlast.contains(f[i]));
                    let q = choose|q: int| 0 <= q < butlast.len() && butlast[q] == f[i];
                    assert(key(s[q]) != key(s[s.len() - 1]));
                }
            }
        }
    }
}

/// How many devices of the sequence have a speed mismatch against the
/// given bus speed.
pub open spec fn spec_mismatch_count(devs: Seq<DeviceView>, bus_speed: UsbSpeed) -> int {
    devs.filter(|d: DeviceView| spec_mismatch(d, bus_speed) is Some).len() as int
}

// ---------------------------------------------------------------------------
// The topology registry
// ---------------------------------------------------------------------------
/// The abstract rows of a vector of buses.
pub open spec fn bus_views(s: Seq<UsbBus>) -> Seq<BusView> {
    Seq::new(s.len(), |i: int| s[i]@)
}

/// Well-formedness of a topology: bus ids unique, every bus well-formed.
pub open spec fn topo_wf(buses: Seq<BusView>) -> bool {
    &&& forall|i: int, j: int|
        0 <= i < j < buses.len() ==> #[trigger] buses[i].bus_id != #[trigger] buses[j].bus_id
    &&& forall|i: int| 0 <= i < buses.len() ==> (#[trigger] buses[i]).wf()
}

/// Whether some bus carries this id.
pub open spec fn has_bus(buses: Seq<BusView>, id: u8) -> bool {
    exists|i: int| 0 <= i < buses.len() && buses[i].bus_id == id
}

/// The index of the bus with this id; meaningful under uniqueness.
pub open spec fn bus_index(buses: Seq<BusView>, id: u8) -> int {
    choose|i: int| 0 <= i < buses.len() && buses[i].bus_id == id
}

/// A fresh bus row.
pub open spec fn initial_bus(bus_id: u8) -> BusView {
    BusView {
        bus_id,
        speed: UsbSpeed::Unknown,
        stats: initial_stats(10),
        devices: Seq::<DeviceView>::empty(),
    }
}

/// The topology after ensuring a bus with this id exists: untouched when
/// present, extended by a fresh bus when not.
pub open spec fn spec_get_or_create(buses: Seq<BusView>, id: u8) -> Seq<BusView> {
    if has_bus(buses, id) {
        buses
    } else {
        buses.push(initial_bus(id))
    }
}

/// The first root-hub speed recorded for this bus id, if any.
pub open spec fn lookup_root(roots: Seq<(u8, UsbSpeed)>, id: u8) -> Option<UsbSpeed>
    decreases roots.len(),
{
    if roots.len() == 0 {
        Option::None
    } else if roots[0].0 == id {
        Option::Some(roots[0].1)
    } else {
        lookup_root(roots.drop_first(), id)
    }
}

/// The speed a bus settles on: the root hub's, else its devices' maximum.
pub open spec fn spec_bus_speed(b: BusView, root: Option<UsbSpeed>) -> UsbSpeed {
    match root {
        Option::Some(s) => s,
        Option::None => max_device_speed(b.devices),
    }
}

/// Every bus with its speed settled against the root-hub feed.
pub open spec fn spec_set_speeds(buses: Seq<BusView>, roots: Seq<(u8, UsbSpeed)>) -> Seq<BusView> {
    Seq::new(
        buses.len(),
        |i: int|
            BusView {
                speed: spec_bus_speed(buses[i], lookup_root(roots, buses[i].bus_id)),
                ..buses[i]
            },
    )
}

/// A bus with its stale devices evicted.
pub open spec fn spec_cleanup_bus(b: BusView, now_ms: u64) -> BusView {
    BusView { devices: b.devices.filter(|d: DeviceView| !spec_should_remove(d, now_ms)), ..b }
}

/// The topology after a sweep: every bus loses its stale devices, and
/// buses left empty are dropped.
pub open spec fn spec_cleanup(buses: Seq<BusView>, now_ms: u64) -> Seq<BusView> {
    buses.map_values(|b: BusView| spec_cleanup_bus(b, now_ms)).filter(
        |b: BusView| b.devices.len() > 0,
    )
}

/// The topology after inserting or replacing a device row on its owning
/// bus, the bus being created if absent.
pub open spec fn spec_manager_upsert(buses: Seq<BusView>, d: DeviceView) -> Seq<BusView> {
    let base = spec_get_or_create(buses, d.bus_id);
    let k = bus_index(base, d.bus_id);
    base.update(k, BusView { devices: spec_upsert(base[k].devices, d), ..base[k] })
}

/// The topology after routing one decoded record: the owning bus and
/// device are created if absent, the device is marked active, and the
/// record's bandwidth contribution is fed to its tracker.
pub open spec fn spec_record_packet(
    buses: Seq<BusView>,
    bus_id: u8,
    device_id: u8,
    inbound: bool,
    bytes: u64,
    now_ms: u64,
) -> Seq<BusView> {
    let base = spec_get_or_create(buses, bus_id);
    let k = bus_index(base, bus_id);
    let b = base[k];
    let d0 = if has_device(b.devices, device_id) {
        device_of(b.devices, device_id)
    } else {
        initial_device(bus_id, device_id, now_ms)
    };
    let d1 = spec_record_traffic(d0, inbound, bytes, now_ms);
    base.update(k, BusView { devices: spec_upsert(b.devices, d1), ..b })
}

/// The topology after routing one attribute patch: the owning bus and
/// device are created if absent, the patch is merged, and the device is
/// marked active.
pub open spec fn spec_apply_device_patch(
    buses: Seq<BusView>,
    bus_id: u8,
    device_id: u8,
    p: PatchView,
    now_ms: u64,
) -> Seq<BusView> {
    let base = spec_get_or_create(buses, bus_id);
    let k = bus_index(base, bus_id);
    let b = base[k];
    let d0 = if has_device(b.devices, device_id) {
        device_of(b.devices, device_id)
    } else {
        initial_device(bus_id, device_id, now_ms)
    };
    let d1 = spec_update_activity(spec_apply_patch(d0, p), now_ms);
    base.update(k, BusView { devices: spec_upsert(b.devices, d1), ..b })
}

/// Devices across all buses.
pub open spec fn total_device_count(buses: Seq<BusView>) -> int
    decreases buses.len(),
{
    if buses.len() == 0 {
        0
    } else {
        total_device_count(buses.drop_last()) + buses.last().devices.len()
    }
}

/// Sum of every device's current rate across all buses.
pub open spec fn grand_total_bps(buses: Seq<BusView>) -> int
    decreases buses.len(),
{
    if buses.len() == 0 {
        0
    } else {
        grand_total_bps(buses.drop_last()) + total_bps(buses.last().devices)
    }
}

/// The registry of buses; the shared state every capture task reports to.
#[derive(Debug)]
pub struct DeviceManager {
    pub buses: Vec<UsbBus>,
}

impl View for DeviceManager {
    type V = Seq<BusView>;

    open spec fn view(&self) -> Seq<BusView> {
        bus_views(self.buses@)
    }
}

impl DeviceManager {
    /// An empty topology.
    pub fn new() -> (r: Self)
        ensures
            r@ == Seq::<BusView>::empty(),
            topo_wf(r@),
    {
        let r = DeviceManager { buses: Vec::new() };
        proof {
            assert(r@ =~= Seq::<BusView>::empty());
        }
        r
    }

    /// Ensures a bus with this id exists, creating it if absent, and
    /// returns its row index.
    pub fn get_or_create_bus(&mut self, bus_id: u8) -> (idx: usize)
        requires
            topo_wf(old(self)@),
        ensures
            final(self)@ == spec_get_or_create(old(self)@, bus_id),
            topo_wf(final(self)@),
            idx < final(self)@.len(),
            final(self)@[idx as int].bus_id == bus_id,
            idx as int == bus_index(final(self)@, bus_id),
            has_bus(final(self)@, bus_id),
    {
        let ghost pre = self@;
        let n = self.buses.len();
        let mut i: usize = 0;
        while i < n
            invariant
                0 <= i <= n,
                n == pre.len(),
                self@ == pre,
                forall|j: int| 0 <= j < i ==> #[trigger] pre[j].bus_id != bus_id,
                topo_wf(pre),
            decreases n - i,
        {
            proof {
                assert(pre[i as int] == self.buses@[i as int]@);
            }
            if self.buses[i].bus_id == bus_id {
                proof {
                    let k = bus_index(pre, bus_id);
                    assert(pre[k].bus_id == bus_id);
                    assert(k == i) by {
                        if k != i {
                            assert(pre[k].bus_id != pre[i as int].bus_id);
                        }
                    }
                }
                return i;
            }
            i = i + 1;
        }
        let fresh = UsbBus::new(bus_id);
        self.buses.push(fresh);
        proof {
            assert(self@ =~= pre.push(initial_bus(bus_id)));
            assert(!has_bus(pre, bus_id));
            let now_v = self@;
            assert(now_v[n as int].bus_id == bus_id);
            let k = bus_index(now_v, bus_id);
            assert(now_v[k].bus_id == bus_id);
            assert(k == n) by {
                if 0 <= k < n {
                    assert(now_v[k] == pre[k]);
                }
            }
        }
        n
    }

    /// Settles every bus's speed against a feed of `(bus id, root-hub
    /// speed)` readings: a bus with a reading takes it, the rest fall back
    /// to the maximum speed among their devices.
    pub fn update_bus_speeds(&mut self, root_speeds: &Vec<(u8, UsbSpeed)>)
        requires
            topo_wf(old(self)@),
        ensures
            final(self)@ == spec_set_speeds(old(self)@, root_speeds@),
            topo_wf(final(self)@),
    {
        let ghost pre = self@;
        let n = self.buses.len();
        let mut i: usize = 0;
        while i < n
            invariant
                0 <= i <= n,
                n == pre.len(),
                self@.len() == pre.len(),
                forall|j: int| i <= j < n ==> #[trigger] self@[j] == pre[j],
                forall|j: int|
                    0 <= j < i ==> #[trigger] self@[j] == (BusView {
                        speed: spec_bus_speed(pre[j], lookup_root(root_speeds@, pre[j].bus_id)),
                        ..pre[j]
                    }),
            decreases n - i,
        {
            let ghost before = self@;
            let mut bus = self.buses.remove(i);
            proof {
                assert(bus@ == before[i as int]);
                assert(before[i as int] == pre[i as int]);
            }
            let root = Self::lookup_root_speed(root_speeds, bus.bus_id);
            bus.update_bus_speed(root);
            let ghost new_bus = bus@;
            self.buses.insert(i, bus);
            proof {
                assert(self@ =~= before.update(i as int, new_bus));
                assert(new_bus == (BusView {
                    speed: spec_bus_speed(
                        pre[i as int],
                        lookup_root(root_speeds@, pre[i as int].bus_id),
                    ),
                    ..pre[i as int]
                }));
            }
            i = i + 1;
        }
        proof {
            assert(self@ =~= spec_set_speeds(pre, root_speeds@));
        }
    }

    /// Scans the root-speed feed for this bus id.
    fn lookup_root_speed(roots: &Vec<(u8, UsbSpeed)>, id: u8) -> (r: Option<UsbSpeed>)
        ensures
            r == lookup_root(roots@, id),
    {
        let n = roots.len();
        let mut i: usize = 0;
        proof {
            assert(roots@.skip(0) =~= roots@);
        }
        while i < n
            invariant
                0 <= i <= n,
                n == roots@.len(),
                lookup_root(roots@, id) == lookup_root(roots@.skip(i as int), id),
            decreases n - i,
        {
            proof {
                assert(roots@.skip(i as int)[0] == roots@[i as int]);
                assert(roots@.skip(i as int).drop_first() =~= roots@.skip(i + 1));
            }
            let e = roots[i];
            if e.0 == id {
                return Option::Some(e.1);
            }
            i = i + 1;
        }
        proof {
            assert(roots@.skip(n as int) =~= Seq::<(u8, UsbSpeed)>::empty());
        }
        Option::None
    }

    /// Adds a device to its owning bus, creating the bus if absent, or
    /// replaces the row holding its id.
    pub fn add_or_update_device(&mut self, device: UsbDevice)
        requires
            topo_wf(old(self)@),
            device@.stats.wf(),
        ensures
            final(self)@ == spec_manager_upsert(old(self)@, device@),
            topo_wf(final(self)@),
    {
        let ghost pre = self@;
        let ghost dv = device@;
        let idx = self.get_or_create_bus(device.bus_id);
        let ghost base = self@;
        let mut bus = self.buses.remove(idx);
        proof {
            assert(bus@ == base[idx as int]);
        }
        bus.add_or_update_device(device);
        self.buses.insert(idx, bus);
        proof {
            assert(self@ =~= base.update(
                idx as int,
                BusView { devices: spec_upsert(base[idx as int].devices, dv), ..base[idx as int] },
            ));
            assert forall|j: int| 0 <= j < self@.len() implies (#[trigger] self@[j]).wf() by {
                if j != idx {
                    assert(self@[j] == base[j]);
                }
            }
        }
    }

    /// Routes one decoded record to its device's tracker, creating the bus
    /// and the device if absent and marking the device active.
    pub fn record_packet(&mut self, packet: &UsbPacket, now_ms: u64)
        requires
            topo_wf(old(self)@),
        ensures
            final(self)@ == spec_record_packet(
                old(self)@,
                packet.bus_id,
                packet.device_id,
                packet.direction,
                spec_bandwidth_bytes(*packet) as u64,
                now_ms,
            ),
            topo_wf(final(self)@),
    {
        let bytes = packet.bandwidth_bytes() as u64;
        let inbound = packet.direction;
        let device_id = packet.device_id;
        let idx = self.get_or_create_bus(packet.bus_id);
        let ghost base = self@;
        let mut bus = self.buses.remove(idx);
        proof {
            assert(bus@ == base[idx as int]);
        }
        let ghost bv = bus@;
        match bus.find_device_idx(device_id) {
            Option::Some(j) => {
                proof {
                    let k = device_index(bv.devices, device_id);
                    assert(bv.devices[k].device_id == device_id);
                    assert(k == j) by {
                        if k != j {
                            assert(bv.devices[k].device_id != bv.devices[j as int].device_id);
                        }
                    }
                }
                let mut dev = bus.devices.remove(j);
                proof {
                    assert(dev@ == bv.devices[j as int]);
                    assert(dev@ == device_of(bv.devices, device_id));
                }
                dev.record_traffic(inbound, bytes, now_ms);
                bus.devices.insert(j, dev);
                proof {
                    let d1 = spec_record_traffic(device_of(bv.devices, device_id), inbound, bytes,
                        now_ms);
                    assert(bus@.devices =~= bv.devices.update(j as int, d1));
                    assert(bus@.devices =~= spec_upsert(bv.devices, d1));
                }
            },
            Option::None => {
                let mut dev = UsbDevice::new(packet.bus_id, device_id, now_ms);
                dev.record_traffic(inbound, bytes, now_ms);
                bus.devices.push(dev);
                proof {
                    let d1 = spec_record_traffic(
                        initial_device(packet.bus_id, device_id, now_ms),
                        inbound,
                        bytes,
                        now_ms,
                    );
                    assert(bus@.devices =~= bv.devices.push(d1));
                    assert(!has_device(bv.devices, d1.device_id));
                    assert(bus@.devices =~= spec_upsert(bv.devices, d1));
                }
            },
        }
        self.buses.insert(idx, bus);
        proof {
            let d0 = if has_device(bv.devices, device_id) {
                device_of(bv.devices, device_id)
            } else {
                initial_device(packet.bus_id, device_id, now_ms)
            };
            let d1 = spec_record_traffic(d0, inbound, bytes, now_ms);
            assert(self@ =~= base.update(
                idx as int,
                BusView { devices: spec_upsert(bv.devices, d1), ..bv },
            ));
            assert forall|j: int| 0 <= j < self@.len() implies (#[trigger] self@[j]).wf() by {
                if j != idx {
                    assert(self@[j] == base[j]);
                }
            }
        }
    }

    /// Routes one attribute patch to its device, creating the bus and the
    /// device if absent and marking the device active.
    pub fn apply_device_patch(&mut self, bus_id: u8, device_id: u8, patch: AttributePatch,
        now_ms: u64)
        requires
            topo_wf(old(self)@),
        ensures
            final(self)@ == spec_apply_device_patch(old(self)@, bus_id, device_id, patch@, now_ms),
            topo_wf(final(self)@),
    {
        let ghost pv = patch@;
        let idx = self.get_or_create_bus(bus_id);
        let ghost base = self@;
        let mut bus = self.buses.remove(idx);
        proof {
            assert(bus@ == base[idx as int]);
        }
        let ghost bv = bus@;
        match bus.find_device_idx(device_id) {
            Option::Some(j) => {
                proof {
                    let k = device_index(bv.devices, device_id);
                    assert(bv.devices[k].device_id == device_id);
                    assert(k == j) by {
                        if k != j {
                            assert(bv.devices[k].device_id != bv.devices[j as int].device_id);
                        }
                    }
                }
                let mut dev = bus.devices.remove(j);
                proof {
                    assert(dev@ == bv.devices[j as int]);
                    assert(dev@ == device_of(bv.devices, device_id));
                }
                dev.apply_attributes(patch);
                dev.update_activity(now_ms);
                bus.devices.insert(j, dev);
                proof {
                    let d1 = spec_update_activity(
                        spec_apply_patch(device_of(bv.devices, device_id), pv),
                        now_ms,
                    );
                    assert(bus@.devices =~= bv.devices.update(j as int, d1));
                    assert(bus@.devices =~= spec_upsert(bv.devices, d1));
                }
            },
            Option::None => {
                let mut dev = UsbDevice::new(bus_id, device_id, now_ms);
                dev.apply_attributes(patch);
                dev.update_activity(now_ms);
                bus.devices.push(dev);
                proof {
                    let d1 = spec_update_activity(
                        spec_apply_patch(initial_device(bus_id, device_id, now_ms), pv),
                        now_ms,
                    );
                    assert(bus@.devices =~= bv.devices.push(d1));
                    assert(!has_device(bv.devices, d1.device_id));
                    assert(bus@.devices =~= spec_upsert(bv.devices, d1));
                }
            },
        }
        self.buses.insert(idx, bus);
        proof {
            let d0 = if has_device(bv.devices, device_id) {
                device_of(bv.devices, device_id)
            } else {
                initial_device(bus_id, device_id, now_ms)
            };
            let d1 = spec_update_activity(spec_apply_patch(d0, pv), now_ms);
            assert(self@ =~= base.update(
                idx as int,
                BusView { devices: spec_upsert(bv.devices, d1), ..bv },
            ));
            assert forall|j: int| 0 <= j < self@.len() implies (#[trigger] self@[j]).wf() by {
                if j != idx {
                    assert(self@[j] == base[j]);
                }
            }
        }
    }

    /// Evicts every device disconnected beyond the grace period, then
    /// drops every bus left without devices.
    pub fn cleanup_old_devices(&mut self, now_ms: u64)
        requires
            topo_wf(old(self)@),
        ensures
            final(self)@ == spec_cleanup(old(self)@, now_ms),
            topo_wf(final(self)@),
    {
        let ghost all = self@;
        let ghost cleaner = |b: BusView| spec_cleanup_bus(b, now_ms);
        let ghost keeper = |b: BusView| b.devices.len() > 0;
        let mut kept: Vec<UsbBus> = Vec::new();
        let ghost mut k: int = 0;
        proof {
            reveal(Seq::filter);
            assert(all.take(0) =~= Seq::<BusView>::empty());
            assert(all.take(0).map_values(cleaner) =~= Seq::<BusView>::empty());
        }
        while self.buses.len() > 0
            invariant
                0 <= k <= all.len(),
                self.buses@.len() == all.len() - k,
                forall|j: int|
                    0 <= j < self.buses@.len() ==> #[trigger] self.buses@[j]@ == all[k + j],
                topo_wf(all),
                bus_views(kept@) == all.take(k).map_values(
                    |b: BusView| spec_cleanup_bus(b, now_ms),
                ).filter(|b: BusView| b.devices.len() > 0),
                forall|q: int| 0 <= q < kept@.len() ==> (#[trigger] kept@[q]@).wf(),
                forall|q: int|
                    0 <= q < kept@.len() ==> exists|j: int|
                        0 <= j < k && #[trigger] kept@[q]@.bus_id == all[j].bus_id,
                forall|q1: int, q2: int|
                    0 <= q1 < q2 < kept@.len() ==> #[trigger] kept@[q1]@.bus_id
                        != #[trigger] kept@[q2]@.bus_id,
            decreases self.buses@.len(),
        {
            let mut bus = self.buses.remove(0);
            proof {
                assert(bus@ == all[k]);
            }
            bus.remove_stale_devices(now_ms);
            proof {
                assert(bus@ == spec_cleanup_bus(all[k], now_ms));
            }
            let ghost before = bus_views(kept@);
            if bus.devices.len() > 0 {
                proof {
                    assert(bus@.devices.len() > 0);
                }
                kept.push(bus);
                proof {
                    assert(bus_views(kept@) =~= before.push(spec_cleanup_bus(all[k], now_ms)));
                }
            }
            proof {
                k = k + 1;
                let mapped = all.take(k).map_values(|b: BusView| spec_cleanup_bus(b, now_ms));
                assert(mapped.drop_last() =~= all.take(k - 1).map_values(
                    |b: BusView| spec_cleanup_bus(b, now_ms),
                ));
                assert(mapped.last() == spec_cleanup_bus(all[k - 1], now_ms));
                reveal(Seq::filter);
            }
        }
        proof {
            assert(all.take(k) =~= all);
        }
        self.buses = kept;
    }

    /// Total number of device rows across all buses, saturating.
    pub fn get_total_device_count(&self) -> (r: usize)
        ensures
            r == (if total_device_count(self@) <= usize::MAX {
                total_device_count(self@)
            } else {
                usize::MAX as int
            }),
    {
        let ghost buses = self@;
        let n = self.buses.len();
        let mut acc: usize = 0;
        let mut i: usize = 0;
        proof {
            assert(buses.take(0) =~= Seq::<BusView>::empty());
        }
        while i < n
            invariant
                0 <= i <= n,
                n == buses.len(),
                buses == self@,
                acc == (if total_device_count(buses.take(i as int)) <= usize::MAX {
                    total_device_count(buses.take(i as int))
                } else {
                    usize::MAX as int
                }),
            decreases n - i,
        {
            proof {
                assert(buses.take(i + 1).drop_last() =~= buses.take(i as int));
                assert(buses.take(i + 1).last() == buses[i as int]);
                assert(buses[i as int] == self.buses@[i as int]@);
                lemma_total_device_count_nonneg(buses.take(i as int));
            }
            let m = self.buses[i].devices.len();
            if acc > usize::MAX - m {
                acc = usize::MAX;
            } else {
                acc = acc + m;
            }
            i = i + 1;
        }
        proof {
            assert(buses.take(n as int) =~= buses);
        }
        acc
    }

    /// Sum of every device's current rate across all buses, saturating.
    pub fn get_total_bandwidth(&self) -> (r: u64)
        ensures
            r == sat64_of(grand_total_bps(self@)),
    {
        let ghost buses = self@;
        let n = self.buses.len();
        let mut acc: u64 = 0;
        let mut i: usize = 0;
        proof {
            assert(buses.take(0) =~= Seq::<BusView>::empty());
        }
        while i < n
            invariant
                0 <= i <= n,
                n == buses.len(),
                buses == self@,
                acc == sat64_of(grand_total_bps(buses.take(i as int))),
            decreases n - i,
        {
            proof {
                assert(buses.take(i + 1).drop_last() =~= buses.take(i as int));
                assert(buses.take(i + 1).last() == buses[i as int]);
                assert(buses[i as int] == self.buses@[i as int]@);
                lemma_grand_total_nonneg(buses.take(i as int));
                lemma_total_bps_nonneg(buses[i as int].devices);
            }
            let sub = self.buses[i].get_total_bps();
            if acc > u64::MAX - sub {
                acc = u64::MAX;
            } else {
                acc = acc + sub;
            }
            i = i + 1;
        }
        proof {
            assert(buses.take(n as int) =~= buses);
        }
        acc
    }
}

proof fn lemma_total_device_count_nonneg(buses: Seq<BusView>)
    ensures
        total_device_count(buses) >= 0,
    decreases buses.len(),
{
    if buses.len() > 0 {
        lemma_total_device_count_nonneg(buses.drop_last());
    }
}

proof fn lemma_grand_total_nonneg(buses: Seq<BusView>)
    ensures
        grand_total_bps(buses) >= 0,
    decreases buses.len(),
{
    if buses.len() > 0 {
        lemma_grand_total_nonneg(buses.drop_last());
        lemma_total_bps_nonneg(buses.last().devices);
    }
}

} // verus!
