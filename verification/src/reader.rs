//! Capture-stream helpers: the per-bus capture endpoint identifier and the
//! record-at-a-time decoding of a stream's contents.
//!
//! The tailing loop itself performs I/O and lives outside the library; it
//! hands byte chunks or lines here.  A malformed record is skipped and the
//! stream continues — one bad record never costs its neighbours.

use vstd::prelude::*;
use vstd::slice::slice_subrange;
use vstd::string::StringExecFns;
use crate::parser::{
    packet_model,
    parse_usbmon_binary_packet,
    parse_usbmon_text_line,
    spec_parse_binary,
    spec_parse_text,
    PacketModel,
    UsbPacket,
    UsbTimestamp,
};
use crate::text::{dec_u8_string, spec_dec_u8};

verus! {

/// What the platform probe found out about the capture interface.
#[derive(Debug, Clone)]
pub struct UsbmonStatus {
    pub module_loaded: bool,
    pub debugfs_mounted: bool,
    pub usbmon_available: bool,
    pub available_buses: Vec<u8>,
}

/// Combines the platform probe's findings: the capture interface is
/// available when the debug filesystem is mounted and the monitor
/// directory exists, and only then are the enumerated buses kept.
pub fn check_usbmon_status(
    module_loaded: bool,
    debugfs_mounted: bool,
    usbmon_exists: bool,
    buses: Vec<u8>,
) -> (r: UsbmonStatus)
    ensures
        r.module_loaded == module_loaded,
        r.debugfs_mounted == debugfs_mounted,
        r.usbmon_available == (debugfs_mounted && usbmon_exists),
        r.available_buses@ == (if debugfs_mounted && usbmon_exists {
            buses@
        } else {
            Seq::<u8>::empty()
        }),
{
    let usbmon_available = debugfs_mounted && usbmon_exists;
    let available_buses = if usbmon_available {
        buses
    } else {
        Vec::new()
    };
    proof {
        if !usbmon_available {
            assert(available_buses@ =~= Seq::<u8>::empty());
        }
    }
    UsbmonStatus { module_loaded, debugfs_mounted, usbmon_available, available_buses }
}

/// The capture endpoint path for a bus: the monitor directory, the bus
/// number in decimal, and `u` for the binary endpoint or `t` for the text
/// endpoint.
pub open spec fn spec_usbmon_path(bus_id: u8, use_binary: bool) -> Seq<char> {
    "/sys/kernel/debug/usb/usbmon/"@ + spec_dec_u8(bus_id) + (if use_binary {
        "u"@
    } else {
        "t"@
    })
}

/// One bus's capture source: which bus, which record encoding, and the
/// endpoint path to open.
#[derive(Debug, Clone)]
pub struct UsbmonReader {
    pub bus_id: u8,
    pub use_binary: bool,
    pub path: String,
}

impl UsbmonReader {
    /// A reader for one bus and one record encoding.
    pub fn new(bus_id: u8, use_binary: bool) -> (r: Self)
        ensures
            r.bus_id == bus_id,
            r.use_binary == use_binary,
            r.path@ == spec_usbmon_path(bus_id, use_binary),
    {
        let path = Self::get_usbmon_path(bus_id, use_binary);
        UsbmonReader { bus_id, use_binary, path }
    }

    /// Builds the capture endpoint path for a bus.
    pub fn get_usbmon_path(bus_id: u8, use_binary: bool) -> (r: String)
        ensures
            r@ == spec_usbmon_path(bus_id, use_binary),
    {
        let mut s = String::from_str("/sys/kernel/debug/usb/usbmon/");
        let num = dec_u8_string(bus_id);
        s.append(num.as_str());
        if use_binary {
            s.append("u");
        } else {
            s.append("t");
        }
        s
    }
}

/// The abstract values of a vector of decoded packets.
pub open spec fn packet_models(s: Seq<UsbPacket>) -> Seq<PacketModel> {
    s.map_values(|p: UsbPacket| packet_model(p))
}

/// The records decoded from a stream of fixed sixty-four-byte frames, in
/// stream order; frames that fail to decode are skipped, and a trailing
/// partial frame is ignored.
pub open spec fn spec_decode_frames(data: Seq<u8>, now: UsbTimestamp) -> Seq<PacketModel>
    decreases data.len(),
{
    if data.len() < 64 {
        Seq::empty()
    } else {
        let rest = spec_decode_frames(data.skip(64), now);
        match spec_parse_binary(data.take(64), now) {
            Result::Ok(p) => seq![p] + rest,
            Result::Err(_) => rest,
        }
    }
}

/// The records decoded from a sequence of text lines, in order; lines
/// that fail to decode are skipped.
pub open spec fn spec_decode_lines(lines: Seq<Seq<char>>, now: UsbTimestamp) -> Seq<PacketModel>
    decreases lines.len(),
{
    if lines.len() == 0 {
        Seq::empty()
    } else {
        let rest = spec_decode_lines(lines.drop_first(), now);
        match spec_parse_text(lines[0], now) {
            Result::Ok(p) => seq![p] + rest,
            Result::Err(_) => rest,
        }
    }
}

/// Decodes a chunk of the binary capture stream frame by frame.  Exactly
/// the well-formed frames come out, in stream order.
pub fn decode_binary_frames(data: &[u8], now: UsbTimestamp) -> (r: Vec<UsbPacket>)
    ensures
        packet_models(r@) == spec_decode_frames(data@, now),
{
    let mut out: Vec<UsbPacket> = Vec::new();
    let mut off: usize = 0;
    proof {
        assert(data@.skip(0) =~= data@);
        assert(packet_models(out@) =~= Seq::<PacketModel>::empty());
    }
    while data.len() - off >= 64
        invariant
            0 <= off <= data@.len(),
            spec_decode_frames(data@, now) == packet_models(out@) + spec_decode_frames(
                data@.skip(off as int),
                now,
            ),
        decreases data@.len() - off,
    {
        let frame = slice_subrange(data, off, off + 64);
        proof {
            assert(frame@ =~= data@.skip(off as int).take(64));
        }
        let ghost before = packet_models(out@);
        match parse_usbmon_binary_packet(frame, now) {
            Result::Ok(p) => {
                out.push(p);
                proof {
                    assert(packet_models(out@) =~= before.push(packet_model(p)));
                }
            },
            Result::Err(_) => {},
        }
        off = off + 64;
        proof {
            assert(data@.skip(off - 64).skip(64) =~= data@.skip(off as int));
            assert(spec_decode_frames(data@, now) =~= packet_models(out@) + spec_decode_frames(
                data@.skip(off as int),
                now,
            ));
        }
    }
    proof {
        assert(data@.skip(off as int).len() < 64);
        assert(packet_models(out@) + Seq::<PacketModel>::empty() =~= packet_models(out@));
    }
    out
}

/// Decodes a batch of text capture lines.  Exactly the well-formed lines
/// come out, in original order: a malformed record between two well-formed
/// ones costs neither neighbour.
pub fn decode_text_records(lines: &Vec<String>, now: UsbTimestamp) -> (r: Vec<UsbPacket>)
    ensures
        packet_models(r@) == spec_decode_lines(lines.deep_view(), now),
{
    let ghost lv = lines.deep_view();
    let mut out: Vec<UsbPacket> = Vec::new();
    let mut i: usize = 0;
    proof {
        assert(lv.skip(0) =~= lv);
        assert(packet_models(out@) =~= Seq::<PacketModel>::empty());
    }
    while i < lines.len()
        invariant
            0 <= i <= lv.len(),
            lv == lines.deep_view(),
            lv.len() == lines@.len(),
            forall|q: int| 0 <= q < lv.len() ==> #[trigger] lv[q] == lines@[q]@,
            spec_decode_lines(lv, now) == packet_models(out@) + spec_decode_lines(
                lv.skip(i as int),
                now,
            ),
        decreases lv.len() - i,
    {
        proof {
            assert(lv.skip(i as int)[0] == lv[i as int]);
            assert(lv.skip(i as int).drop_first() =~= lv.skip(i + 1));
        }
        let line: &String = &lines[i];
        let ghost before = packet_models(out@);
        match parse_usbmon_text_line(line.as_str(), now) {
            Result::Ok(p) => {
                out.push(p);
                proof {
                    assert(packet_models(out@) =~= before.push(packet_model(p)));
                }
            },
            Result::Err(_) => {},
        }
        i = i + 1;
        proof {
            assert(spec_decode_lines(lv, now) =~= packet_models(out@) + spec_decode_lines(
                lv.skip(i as int),
                now,
            ));
        }
    }
    proof {
        assert(lv.skip(lv.len() as int) =~= Seq::<Seq<char>>::empty());
        assert(packet_models(out@) + Seq::<PacketModel>::empty() =~= packet_models(out@));
    }
    out
}

} // verus!
