//! Wire decoder for USB bus-monitor capture records.
//!
//! Two encodings exist: a whitespace-separated text line and a fixed
//! sixty-four-byte binary frame.  Both decode into a `UsbPacket`.  The text
//! path substitutes the caller's wall-clock reading for the record's own
//! timestamp — a deliberate design decision that keeps ordering within a
//! run but makes absolute capture times meaningless.  The binary path keeps
//! the frame's own seconds/microseconds pair when it denotes a
//! representable instant and otherwise falls back to the caller's clock.

use vstd::prelude::*;
use vstd::string::StrSliceExecFns;
use vstd::string::StringExecFns;
use crate::text::{
    digit_char,
    is_digit,
    spec_parse_i32,
    spec_parse_uint,
    spec_split_sep,
    spec_split_ws,
    parse_int32,
    parse_uint,
    split_sep,
    split_ws,
    str_eq,
};

verus! {

/// The three kinds of capture record.
#[derive(Debug, Clone, Copy, PartialEq, Eq, Structural)]
pub enum UrbType {
    /// 'S' — submission, host to device.
    Submission,
    /// 'C' — callback, device to host.
    Callback,
    /// 'E' — error record.
    Error,
}

/// Why a single capture record failed to decode.  A decode failure is
/// non-fatal: readers skip the record and continue.
#[derive(Debug, Clone, Copy, PartialEq, Eq, Structural)]
pub enum DecodeError {
    /// Too few fields in a text record, or a binary frame under 64 bytes.
    TooShort,
    BadTimestamp,
    BadEventType,
    BadAddress,
    BadBusId,
    BadDeviceId,
    BadEndpoint,
    BadStatus,
    BadLength,
}

/// A capture timestamp: seconds and microseconds, as carried by the binary
/// frame format.
#[derive(Debug, Clone, Copy, PartialEq, Eq, Structural)]
pub struct UsbTimestamp {
    pub sec: u64,
    pub usec: u32,
}

/// One decoded capture record.  Immutable once decoded.
#[derive(Debug, Clone)]
pub struct UsbPacket {
    pub timestamp: UsbTimestamp,
    pub urb_tag: String,
    pub urb_type: UrbType,
    pub bus_id: u8,
    pub device_id: u8,
    pub endpoint: u8,
    /// true = IN (device to host), false = OUT (host to device).
    pub direction: bool,
    pub data_length: u32,
    pub status: i32,
    pub setup_packet: Option<Vec<u8>>,
    pub data: Option<Vec<u8>>,
}

/// Abstract value of a `UsbPacket`, with strings and byte vectors replaced
/// by their sequences.
pub struct PacketModel {
    pub timestamp: UsbTimestamp,
    pub urb_tag: Seq<char>,
    pub urb_type: UrbType,
    pub bus_id: u8,
    pub device_id: u8,
    pub endpoint: u8,
    pub direction: bool,
    pub data_length: u32,
    pub status: i32,
    pub setup_packet: Option<Seq<u8>>,
    pub data: Option<Seq<u8>>,
}

/// The abstract value of a decoded packet.
pub open spec fn packet_model(p: UsbPacket) -> PacketModel {
    PacketModel {
        timestamp: p.timestamp,
        urb_tag: p.urb_tag@,
        urb_type: p.urb_type,
        bus_id: p.bus_id,
        device_id: p.device_id,
        endpoint: p.endpoint,
        direction: p.direction,
        data_length: p.data_length,
        status: p.status,
        setup_packet: match p.setup_packet {
            Option::Some(v) => Option::Some(v@),
            Option::None => Option::None,
        },
        data: match p.data {
            Option::Some(v) => Option::Some(v@),
            Option::None => Option::None,
        },
    }
}

impl UsbPacket {
    /// Whether this record moves payload data: a submission or callback
    /// with a non-zero length.
    pub fn is_data_packet(&self) -> (r: bool)
        ensures
            r == (self.data_length > 0 && (self.urb_type == UrbType::Submission || self.urb_type
                == UrbType::Callback)),
    {
        self.data_length > 0 && (matches!(self.urb_type, UrbType::Submission)
            || matches!(self.urb_type, UrbType::Callback))
    }

    /// Bytes this record contributes to bandwidth accounting: its length
    /// for data records, zero for error and zero-length records.
    pub fn bandwidth_bytes(&self) -> (r: u32)
        ensures
            r == spec_bandwidth_bytes(*self),
    {
        if self.is_data_packet() {
            self.data_length
        } else {
            0
        }
    }
}

/// Bytes a record contributes to bandwidth accounting.
pub open spec fn spec_bandwidth_bytes(p: UsbPacket) -> u32 {
    if p.data_length > 0 && (p.urb_type == UrbType::Submission || p.urb_type
        == UrbType::Callback) {
        p.data_length
    } else {
        0u32
    }
}

// ---------------------------------------------------------------------------
// Hex payload groups
// ---------------------------------------------------------------------------
/// A hexadecimal digit, upper or lower case.
pub open spec fn is_hex_digit(c: char) -> bool {
    is_digit(c) || (97 <= c as u32 <= 102) || (65 <= c as u32 <= 70)
}

/// Value of a hexadecimal digit.
pub open spec fn hex_digit_val(c: char) -> int {
    if is_digit(c) {
        c as u32 - 48
    } else if 97 <= c as u32 <= 102 {
        c as u32 - 87
    } else {
        c as u32 - 55
    }
}

/// The byte a two-character group denotes under Rust's radix-16 `u8`
/// parsing: two hex digits, or a plus sign followed by one hex digit.
pub open spec fn hex_pair_val(c1: char, c2: char) -> Option<u8> {
    if c1 == '+' && is_hex_digit(c2) {
        Option::Some(hex_digit_val(c2) as u8)
    } else if is_hex_digit(c1) && is_hex_digit(c2) {
        Option::Some((hex_digit_val(c1) * 16 + hex_digit_val(c2)) as u8)
    } else {
        Option::None
    }
}

/// The bytes of one even-length hex group, bad pairs dropped.
pub open spec fn spec_hex_group(g: Seq<char>) -> Seq<u8>
    decreases g.len(),
{
    if g.len() < 2 {
        Seq::empty()
    } else {
        let rest = spec_hex_group(g.skip(2));
        match hex_pair_val(g[0], g[1]) {
            Option::Some(b) => seq![b] + rest,
            Option::None => rest,
        }
    }
}

/// The payload bytes of a sequence of hex groups: odd-length groups are
/// dropped whole, and within a group each bad pair is dropped.
pub open spec fn spec_hex_data(parts: Seq<Seq<char>>) -> Seq<u8>
    decreases parts.len(),
{
    if parts.len() == 0 {
        Seq::empty()
    } else {
        let first = if parts[0].len() % 2 != 0 {
            Seq::<u8>::empty()
        } else {
            spec_hex_group(parts[0])
        };
        first + spec_hex_data(parts.drop_first())
    }
}

/// Exec mirror of `hex_pair_val`.
fn hex_pair(c1: char, c2: char) -> (r: Option<u8>)
    ensures
        r == hex_pair_val(c1, c2),
{
    let v1 = hex_digit_value(c1);
    let v2 = hex_digit_value(c2);
    if c1 == '+' {
        match v2 {
            Option::Some(d) => Option::Some(d),
            Option::None => Option::None,
        }
    } else {
        match (v1, v2) {
            (Option::Some(d1), Option::Some(d2)) => Option::Some(d1 * 16 + d2),
            _ => Option::None,
        }
    }
}

/// Exec hex-digit classifier and value.
fn hex_digit_value(c: char) -> (r: Option<u8>)
    ensures
        r is Some <==> is_hex_digit(c),
        r is Some ==> r->0 == hex_digit_val(c) && r->0 < 16,
{
    let cu = c as u32;
    if 48 <= cu && cu <= 57 {
        Option::Some((cu - 48) as u8)
    } else if 97 <= cu && cu <= 102 {
        Option::Some((cu - 87) as u8)
    } else if 65 <= cu && cu <= 70 {
        Option::Some((cu - 55) as u8)
    } else {
        Option::None
    }
}

/// Decodes whitespace-separated hex-byte groups into payload bytes.
/// Malformed groups are dropped silently rather than failing the record.
pub fn parse_hex_data(hex_parts: &Vec<&str>) -> (data: Vec<u8>)
    ensures
        data@ == spec_hex_data(hex_parts.deep_view()),
{
    let ghost dv = hex_parts.deep_view();
    let mut data: Vec<u8> = Vec::new();
    let mut idx: usize = 0;
    proof {
        assert(dv.skip(0) =~= dv);
    }
    while idx < hex_parts.len()
        invariant
            0 <= idx <= hex_parts.len(),
            dv == hex_parts.deep_view(),
            dv.len() == hex_parts.len(),
            forall|q: int| 0 <= q < dv.len() ==> #[trigger] dv[q] == hex_parts@[q]@,
            spec_hex_data(dv) == data@ + spec_hex_data(dv.skip(idx as int)),
        decreases hex_parts.len() - idx,
    {
        let part: &str = hex_parts[idx];
        let n = part.unicode_len();
        let ghost g = dv[idx as int];
        proof {
            assert(dv.skip(idx as int)[0] == g);
            assert(dv.skip(idx as int).drop_first() =~= dv.skip(idx + 1));
        }
        if n % 2 != 0 {
            // odd-length group: skip it whole
            idx = idx + 1;
            continue ;
        }
        let mut p: usize = 0;
        proof {
            assert(g.skip(0) =~= g);
        }
        while p < n
            invariant
                0 <= p <= n,
                p % 2 == 0,
                n % 2 == 0,
                n == g.len(),
                g == part@,
                spec_hex_data(dv) == data@ + spec_hex_group(g.skip(p as int)) + spec_hex_data(
                    dv.skip(idx + 1),
                ),
            decreases n - p,
        {
            let c1 = part.get_char(p);
            let c2 = part.get_char(p + 1);
            proof {
                assert(g.skip(p as int)[0] == g[p as int]);
                assert(g.skip(p as int)[1] == g[p + 1]);
                assert(g.skip(p as int).skip(2) =~= g.skip(p + 2));
            }
            match hex_pair(c1, c2) {
                Option::Some(b) => {
                    data.push(b);
                },
                Option::None => {
                },
            }
            p = p + 2;
        }
        proof {
            assert(g.skip(n as int) =~= Seq::<char>::empty());
        }
        idx = idx + 1;
    }
    proof {
        assert(dv.skip(dv.len() as int) =~= Seq::<Seq<char>>::empty());
    }
    data
}

// ---------------------------------------------------------------------------
// Little-endian fields and the hexadecimal tag
// ---------------------------------------------------------------------------
/// A two-byte little-endian field.
pub open spec fn le2(b: Seq<u8>, off: int) -> int {
    b[off] + 0x100 * b[off + 1]
}

/// A four-byte little-endian field.
pub open spec fn le4(b: Seq<u8>, off: int) -> int {
    b[off] + 0x100 * b[off + 1] + 0x1_0000 * b[off + 2] + 0x100_0000 * b[off + 3]
}

/// An eight-byte little-endian field.
pub open spec fn le8(b: Seq<u8>, off: int) -> int {
    le4(b, off) + 0x1_0000_0000 * le4(b, off + 4)
}

/// Reads a four-byte little-endian field.
fn read_le4(b: &[u8], off: usize) -> (r: u32)
    requires
        off + 4 <= b@.len(),
    ensures
        r == le4(b@, off as int),
{
    b[off] as u32 + 0x100 * (b[off + 1] as u32) + 0x1_0000 * (b[off + 2] as u32) + 0x100_0000
        * (b[off + 3] as u32)
}

/// Reads an eight-byte little-endian field.
fn read_le8(b: &[u8], off: usize) -> (r: u64)
    requires
        off + 8 <= b@.len(),
    ensures
        r == le8(b@, off as int),
{
    let n = b.len();
    assert(off + 8 <= n);
    let lo = read_le4(b, off);
    let hi = read_le4(b, off + 4);
    lo as u64 + 0x1_0000_0000 * (hi as u64)
}

/// The hexadecimal digit character for a value below sixteen.
pub open spec fn hex_digit_char(d: int) -> char {
    if d < 10 {
        digit_char(d)
    } else if d == 10 {
        'a'
    } else if d == 11 {
        'b'
    } else if d == 12 {
        'c'
    } else if d == 13 {
        'd'
    } else if d == 14 {
        'e'
    } else {
        'f'
    }
}

/// A one-character string slice holding the hexadecimal digit `d`.
fn hex_digit_str(d: u8) -> (r: &'static str)
    requires
        d < 16,
    ensures
        r@ =~= seq![hex_digit_char(d as int)],
{
    proof {
        reveal_strlit("0");
        reveal_strlit("1");
        reveal_strlit("2");
        reveal_strlit("3");
        reveal_strlit("4");
        reveal_strlit("5");
        reveal_strlit("6");
        reveal_strlit("7");
        reveal_strlit("8");
        reveal_strlit("9");
        reveal_strlit("a");
        reveal_strlit("b");
        reveal_strlit("c");
        reveal_strlit("d");
        reveal_strlit("e");
        reveal_strlit("f");
    }
    match d {
        0 => "0",
        1 => "1",
        2 => "2",
        3 => "3",
        4 => "4",
        5 => "5",
        6 => "6",
        7 => "7",
        8 => "8",
        9 => "9",
        10 => "a",
        11 => "b",
        12 => "c",
        13 => "d",
        14 => "e",
        _ => "f",
    }
}

/// The sixteen-digit, zero-padded, lower-case hexadecimal rendering of a
/// sixty-four-bit value, most significant digit first.
pub open spec fn spec_hex16(v: u64) -> Seq<char> {
    seq![
        hex_digit_char((v as int / 0x1000_0000_0000_0000) % 16),
        hex_digit_char((v as int / 0x100_0000_0000_0000) % 16),
        hex_digit_char((v as int / 0x10_0000_0000_0000) % 16),
        hex_digit_char((v as int / 0x1_0000_0000_0000) % 16),
        hex_digit_char((v as int / 0x1000_0000_0000) % 16),
        hex_digit_char((v as int / 0x100_0000_0000) % 16),
        hex_digit_char((v as int / 0x10_0000_0000) % 16),
        hex_digit_char((v as int / 0x1_0000_0000) % 16),
        hex_digit_char((v as int / 0x1000_0000) % 16),
        hex_digit_char((v as int / 0x100_0000) % 16),
        hex_digit_char((v as int / 0x10_0000) % 16),
        hex_digit_char((v as int / 0x1_0000) % 16),
        hex_digit_char((v as int / 0x1000) % 16),
        hex_digit_char((v as int / 0x100) % 16),
        hex_digit_char((v as int / 0x10) % 16),
        hex_digit_char(v as int % 16),
    ]
}

/// Renders a sixty-four-bit value as its sixteen-digit hexadecimal tag.
fn hex16_string(v: u64) -> (r: String)
    ensures
        r@ =~= spec_hex16(v),
{
    let mut s = String::new();
    s.append(hex_digit_str(((v / 0x1000_0000_0000_0000) % 16) as u8));
    s.append(hex_digit_str(((v / 0x100_0000_0000_0000) % 16) as u8));
    s.append(hex_digit_str(((v / 0x10_0000_0000_0000) % 16) as u8));
    s.append(hex_digit_str(((v / 0x1_0000_0000_0000) % 16) as u8));
    s.append(hex_digit_str(((v / 0x1000_0000_0000) % 16) as u8));
    s.append(hex_digit_str(((v / 0x100_0000_0000) % 16) as u8));
    s.append(hex_digit_str(((v / 0x10_0000_0000) % 16) as u8));
    s.append(hex_digit_str(((v / 0x1_0000_0000) % 16) as u8));
    s.append(hex_digit_str(((v / 0x1000_0000) % 16) as u8));
    s.append(hex_digit_str(((v / 0x100_0000) % 16) as u8));
    s.append(hex_digit_str(((v / 0x10_0000) % 16) as u8));
    s.append(hex_digit_str(((v / 0x1_0000) % 16) as u8));
    s.append(hex_digit_str(((v / 0x1000) % 16) as u8));
    s.append(hex_digit_str(((v / 0x100) % 16) as u8));
    s.append(hex_digit_str(((v / 0x10) % 16) as u8));
    s.append(hex_digit_str((v % 16) as u8));
    s
}

// ---------------------------------------------------------------------------
// The clock-range probe
// ---------------------------------------------------------------------------
/// Whether a seconds/nanoseconds pair denotes an instant that the
/// calendar-time library can represent; a function of the two arguments
/// alone.
pub uninterp spec fn chrono_timestamp_in_range(secs: u64, nsecs: u32) -> bool;

/// Relies on `chrono::DateTime::<Utc>::from_timestamp`: it returns `Some`
/// exactly when the pair is representable, deciding whether the frame's own
/// timestamp is kept.  The seconds field of the frame is unsigned and is
/// handed over as Rust's wrapping 64-bit conversion, as the capture format
/// requires.
#[verifier::external_body]
fn timestamp_in_range(secs: u64, nsecs: u32) -> (r: bool)
    ensures
        r == chrono_timestamp_in_range(secs, nsecs),
{
    chrono::DateTime::<chrono::Utc>::from_timestamp(secs as i64, nsecs).is_some()
}

// ---------------------------------------------------------------------------
// The binary frame decoder
// ---------------------------------------------------------------------------
/// The timestamp a binary frame yields: the frame's own seconds and
/// microseconds when the microsecond count converts to nanoseconds without
/// overflow and the pair is representable, else the caller's clock.
pub open spec fn spec_binary_timestamp(b: Seq<u8>, now: UsbTimestamp) -> UsbTimestamp {
    let sec = le8(b, 16) as u64;
    let usec = le4(b, 24) as u32;
    if usec <= 4_294_967 && chrono_timestamp_in_range(sec, (usec * 1000) as u32) {
        UsbTimestamp { sec, usec }
    } else {
        now
    }
}

/// The functional model of the binary frame decoder.
///
/// Layout of the sixty-four-byte frame: bytes 0-7 an opaque id, rendered as
/// the hexadecimal tag; byte 8 the event character; byte 9 the transfer
/// type (unused here); byte 10 low seven bits the endpoint and the high bit
/// the direction (set means IN); byte 11 the device id; bytes 12-13 the
/// sixteen-bit bus id, truncated to eight bits when stored; bytes 16-23
/// seconds and 24-27 microseconds; bytes 28-31 the signed status; bytes
/// 32-35 the unsigned length.  The remaining bytes are out of scope and the
/// setup and payload fields stay empty.
pub open spec fn spec_parse_binary(b: Seq<u8>, now: UsbTimestamp) -> Result<
    PacketModel,
    DecodeError,
> {
    if b.len() < 64 {
        Result::Err(DecodeError::TooShort)
    } else if !(b[8] == 83 || b[8] == 67 || b[8] == 69) {
        Result::Err(DecodeError::BadEventType)
    } else {
        Result::Ok(
            PacketModel {
                timestamp: spec_binary_timestamp(b, now),
                urb_tag: spec_hex16(le8(b, 0) as u64),
                urb_type: if b[8] == 83 {
                    UrbType::Submission
                } else if b[8] == 67 {
                    UrbType::Callback
                } else {
                    UrbType::Error
                },
                bus_id: (le2(b, 12) as u16) as u8,
                device_id: b[11],
                endpoint: b[10] & 0x7f,
                direction: (b[10] & 0x80) != 0,
                data_length: le4(b, 32) as u32,
                status: (le4(b, 28) as u32) as i32,
                setup_packet: Option::None,
                data: Option::None,
            },
        )
    }
}

/// Decodes one fixed sixty-four-byte binary capture frame.  Frames shorter
/// than sixty-four bytes yield `TooShort` and nothing else does.
pub fn parse_usbmon_binary_packet(buffer: &[u8], now: UsbTimestamp) -> (r: Result<
    UsbPacket,
    DecodeError,
>)
    ensures
        (r is Ok) == (spec_parse_binary(buffer@, now) is Ok),
        r is Ok ==> packet_model(r->Ok_0) == spec_parse_binary(buffer@, now)->Ok_0,
        r is Err ==> r->Err_0 == spec_parse_binary(buffer@, now)->Err_0,
        (buffer@.len() < 64) <==> r == Result::<UsbPacket, DecodeError>::Err(
            DecodeError::TooShort,
        ),
{
    if buffer.len() < 64 {
        return Result::Err(DecodeError::TooShort);
    }
    let tbyte = buffer[8];
    let urb_type = if tbyte == 83 {
        UrbType::Submission
    } else if tbyte == 67 {
        UrbType::Callback
    } else if tbyte == 69 {
        UrbType::Error
    } else {
        return Result::Err(DecodeError::BadEventType);
    };
    let urb_id = read_le8(buffer, 0);
    let urb_tag = hex16_string(urb_id);
    let ep_byte = buffer[10];
    let endpoint = ep_byte & 0x7f;
    let direction = (ep_byte & 0x80) != 0;
    let device_id = buffer[11];
    let bus16: u16 = buffer[12] as u16 + 0x100 * (buffer[13] as u16);
    let bus_id = (bus16 % 0x100) as u8;
    proof {
        let x = bus16;
        assert(((x % 0x100) as u8) == (x as u8)) by (bit_vector);
        assert(le2(buffer@, 12) as u16 == bus16);
    }
    let ts_sec = read_le8(buffer, 16);
    let ts_usec = read_le4(buffer, 24);
    let timestamp = match ts_usec.checked_mul(1000) {
        Option::Some(nsec) => {
            if timestamp_in_range(ts_sec, nsec) {
                UsbTimestamp { sec: ts_sec, usec: ts_usec }
            } else {
                now
            }
        },
        Option::None => now,
    };
    let status_u = read_le4(buffer, 28);
    let status = #[verifier::truncate] (status_u as i32);
    let data_length = read_le4(buffer, 32);
    Result::Ok(
        UsbPacket {
            timestamp,
            urb_tag,
            urb_type,
            bus_id,
            device_id,
            endpoint,
            direction,
            data_length,
            status,
            setup_packet: Option::None,
            data: Option::None,
        },
    )
}

// ---------------------------------------------------------------------------
// The text line decoder
// ---------------------------------------------------------------------------
/// The event kind a text token names.
pub open spec fn spec_urb_type_tok(tok: Seq<char>) -> Option<UrbType> {
    if tok == "S"@ {
        Option::Some(UrbType::Submission)
    } else if tok == "C"@ {
        Option::Some(UrbType::Callback)
    } else if tok == "E"@ {
        Option::Some(UrbType::Error)
    } else {
        Option::None
    }
}

/// The functional model of the text line decoder.
///
/// The grammar is whitespace-separated fields: tag, microsecond timestamp,
/// event character, an address token `<type><dir>:<bus>:<device>:<endpoint>`
/// (second character `i` means IN), signed status, unsigned length, and
/// optionally a literal `=` followed by hex-byte payload groups.  Fewer
/// than seven fields is `TooShort`.  The parsed timestamp field is checked
/// but not used: the caller's clock stands in for it.
pub open spec fn spec_parse_text(s: Seq<char>, now: UsbTimestamp) -> Result<
    PacketModel,
    DecodeError,
> {
    let toks = spec_split_ws(s);
    if toks.len() < 7 {
        Result::Err(DecodeError::TooShort)
    } else if spec_parse_uint(toks[1], u64::MAX) is None {
        Result::Err(DecodeError::BadTimestamp)
    } else if spec_urb_type_tok(toks[2]) is None {
        Result::Err(DecodeError::BadEventType)
    } else {
        let addr = spec_split_sep(toks[3], ':');
        if addr.len() != 4 || addr[0].len() < 2 {
            Result::Err(DecodeError::BadAddress)
        } else if spec_parse_uint(addr[1], 255) is None {
            Result::Err(DecodeError::BadBusId)
        } else if spec_parse_uint(addr[2], 255) is None {
            Result::Err(DecodeError::BadDeviceId)
        } else if spec_parse_uint(addr[3], 255) is None {
            Result::Err(DecodeError::BadEndpoint)
        } else if spec_parse_i32(toks[4]) is None {
            Result::Err(DecodeError::BadStatus)
        } else if spec_parse_uint(toks[5], 0xffff_ffff) is None {
            Result::Err(DecodeError::BadLength)
        } else {
            Result::Ok(
                PacketModel {
                    timestamp: now,
                    urb_tag: toks[0],
                    urb_type: spec_urb_type_tok(toks[2])->0,
                    bus_id: spec_parse_uint(addr[1], 255)->0 as u8,
                    device_id: spec_parse_uint(addr[2], 255)->0 as u8,
                    endpoint: spec_parse_uint(addr[3], 255)->0 as u8,
                    direction: addr[0][1] == 'i',
                    data_length: spec_parse_uint(toks[5], 0xffff_ffff)->0 as u32,
                    status: spec_parse_i32(toks[4])->0,
                    setup_packet: Option::None,
                    data: if toks.len() > 7 && toks[6] == "="@ {
                        Option::Some(spec_hex_data(toks.skip(7)))
                    } else {
                        Option::None
                    },
                },
            )
        }
    }
}

/// Decodes one text-format capture line.  Lines with fewer than seven
/// whitespace-separated fields yield `TooShort` and nothing else does.
pub fn parse_usbmon_text_line(line: &str, now: UsbTimestamp) -> (r: Result<UsbPacket, DecodeError>)
    ensures
        (r is Ok) == (spec_parse_text(line@, now) is Ok),
        r is Ok ==> packet_model(r->Ok_0) == spec_parse_text(line@, now)->Ok_0,
        r is Err ==> r->Err_0 == spec_parse_text(line@, now)->Err_0,
        (spec_split_ws(line@).len() < 7) <==> r == Result::<UsbPacket, DecodeError>::Err(
            DecodeError::TooShort,
        ),
{
    let toks = split_ws(line);
    let ghost stoks = spec_split_ws(line@);
    if toks.len() < 7 {
        return Result::Err(DecodeError::TooShort);
    }
    let urb_tag = String::from_str(toks[0]);
    if parse_uint(toks[1], u64::MAX).is_none() {
        return Result::Err(DecodeError::BadTimestamp);
    }
    let t2: &str = toks[2];
    let urb_type = if str_eq(t2, "S") {
        UrbType::Submission
    } else if str_eq(t2, "C") {
        UrbType::Callback
    } else if str_eq(t2, "E") {
        UrbType::Error
    } else {
        return Result::Err(DecodeError::BadEventType);
    };
    let addr = split_sep(toks[3], ':');
    let ghost saddr = spec_split_sep(stoks[3], ':');
    if addr.len() != 4 {
        return Result::Err(DecodeError::BadAddress);
    }
    let a0: &str = addr[0];
    if a0.unicode_len() < 2 {
        return Result::Err(DecodeError::BadAddress);
    }
    let direction = a0.get_char(1) == 'i';
    let bus_id = match parse_uint(addr[1], 255) {
        Option::Some(v) => v as u8,
        Option::None => {
            return Result::Err(DecodeError::BadBusId);
        },
    };
    let device_id = match parse_uint(addr[2], 255) {
        Option::Some(v) => v as u8,
        Option::None => {
            return Result::Err(DecodeError::BadDeviceId);
        },
    };
    let endpoint = match parse_uint(addr[3], 255) {
        Option::Some(v) => v as u8,
        Option::None => {
            return Result::Err(DecodeError::BadEndpoint);
        },
    };
    let status = match parse_int32(toks[4]) {
        Option::Some(v) => v,
        Option::None => {
            return Result::Err(DecodeError::BadStatus);
        },
    };
    let data_length = match parse_uint(toks[5], 0xffff_ffff) {
        Option::Some(v) => v as u32,
        Option::None => {
            return Result::Err(DecodeError::BadLength);
        },
    };
    let data = if toks.len() > 7 && str_eq(toks[6], "=") {
        let mut tail: Vec<&str> = Vec::new();
        let mut q: usize = 7;
        while q < toks.len()
            invariant
                7 <= q <= toks@.len(),
                stoks == toks.deep_view(),
                stoks.len() == toks@.len(),
                tail.deep_view() =~= stoks.subrange(7, q as int),
            decreases toks@.len() - q,
        {
            let ghost before = tail.deep_view();
            tail.push(toks[q]);
            q = q + 1;
            proof {
                assert(tail.deep_view() =~= before.push(toks@[q - 1]@));
                assert(tail.deep_view() =~= stoks.subrange(7, q as int));
            }
        }
        proof {
            assert(stoks.subrange(7, stoks.len() as int) =~= stoks.skip(7));
        }
        Option::Some(parse_hex_data(&tail))
    } else {
        Option::None
    };
    Result::Ok(
        UsbPacket {
            timestamp: now,
            urb_tag,
            urb_type,
            bus_id,
            device_id,
            endpoint,
            direction,
            data_length,
            status,
            setup_packet: Option::None,
            data,
        },
    )
}

} // verus!
