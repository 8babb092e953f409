//! USB negotiated-speed tiers and their nominal and practical throughput.

use vstd::prelude::*;
use vstd::string::StringExecFns;
use crate::text::str_eq;

verus! {

/// One of the standard USB negotiated-speed tiers.
#[derive(Debug, Clone, Copy, PartialEq, Eq, Structural)]
pub enum UsbSpeed {
    /// 1.5 Mbps
    Low,
    /// 12 Mbps
    Full,
    /// 480 Mbps
    High,
    /// 5 Gbps
    SuperSpeed,
    /// 10+ Gbps
    SuperSpeedPlus,
    Unknown,
}

/// Nominal signalling rate of a speed tier, in bits per second.
pub open spec fn spec_bits_per_second(s: UsbSpeed) -> u64 {
    match s {
        UsbSpeed::Low => 1_500_000,
        UsbSpeed::Full => 12_000_000,
        UsbSpeed::High => 480_000_000,
        UsbSpeed::SuperSpeed => 5_000_000_000,
        UsbSpeed::SuperSpeedPlus => 10_000_000_000,
        UsbSpeed::Unknown => 0,
    }
}

/// Theoretical maximum throughput of a speed tier, in bytes per second.
pub open spec fn spec_bytes_per_second(s: UsbSpeed) -> u64 {
    (spec_bits_per_second(s) / 8) as u64
}

/// Practical maximum throughput, derating the theoretical maximum by the
/// tier's protocol-efficiency factor (0.70 for Low, 0.80 for Full and High,
/// 0.85 for SuperSpeed and SuperSpeedPlus).
pub open spec fn spec_practical_bytes_per_second(s: UsbSpeed) -> u64 {
    match s {
        UsbSpeed::Low => 131_250,
        UsbSpeed::Full => 1_200_000,
        UsbSpeed::High => 48_000_000,
        UsbSpeed::SuperSpeed => 531_250_000,
        UsbSpeed::SuperSpeedPlus => 1_062_500_000,
        UsbSpeed::Unknown => 0,
    }
}

/// The speed tier named by a sysfs-style speed string.
pub open spec fn spec_from_speed_str(s: Seq<char>) -> UsbSpeed {
    if s == "1.5"@ {
        UsbSpeed::Low
    } else if s == "12"@ {
        UsbSpeed::Full
    } else if s == "480"@ {
        UsbSpeed::High
    } else if s == "5000"@ {
        UsbSpeed::SuperSpeed
    } else if s == "10000"@ || s == "20000"@ {
        UsbSpeed::SuperSpeedPlus
    } else {
        UsbSpeed::Unknown
    }
}

impl UsbSpeed {
    /// Maps a speed string as reported by the platform ("480", "5000", ...)
    /// to its tier; unrecognised strings map to `Unknown`.
    pub fn from_speed_str(speed: &str) -> (r: Self)
        ensures
            r == spec_from_speed_str(speed@),
    {
        if str_eq(speed, "1.5") {
            UsbSpeed::Low
        } else if str_eq(speed, "12") {
            UsbSpeed::Full
        } else if str_eq(speed, "480") {
            UsbSpeed::High
        } else if str_eq(speed, "5000") {
            UsbSpeed::SuperSpeed
        } else if str_eq(speed, "10000") || str_eq(speed, "20000") {
            UsbSpeed::SuperSpeedPlus
        } else {
            UsbSpeed::Unknown
        }
    }

    /// Nominal signalling rate in bits per second.
    pub fn to_bits_per_second(&self) -> (r: u64)
        ensures
            r == spec_bits_per_second(*self),
    {
        match self {
            UsbSpeed::Low => 1_500_000,
            UsbSpeed::Full => 12_000_000,
            UsbSpeed::High => 480_000_000,
            UsbSpeed::SuperSpeed => 5_000_000_000,
            UsbSpeed::SuperSpeedPlus => 10_000_000_000,
            UsbSpeed::Unknown => 0,
        }
    }

    /// Theoretical maximum throughput in bytes per second.
    pub fn to_bytes_per_second(&self) -> (r: u64)
        ensures
            r == spec_bytes_per_second(*self),
    {
        match self {
            UsbSpeed::Low => 187_500,
            UsbSpeed::Full => 1_500_000,
            UsbSpeed::High => 60_000_000,
            UsbSpeed::SuperSpeed => 625_000_000,
            UsbSpeed::SuperSpeedPlus => 1_250_000_000,
            UsbSpeed::Unknown => 0,
        }
    }

    /// Practical maximum throughput in bytes per second, accounting for
    /// protocol overhead.
    pub fn to_practical_bytes_per_second(&self) -> (r: u64)
        ensures
            r == spec_practical_bytes_per_second(*self),
    {
        match self {
            UsbSpeed::Low => 131_250,
            UsbSpeed::Full => 1_200_000,
            UsbSpeed::High => 48_000_000,
            UsbSpeed::SuperSpeed => 531_250_000,
            UsbSpeed::SuperSpeedPlus => 1_062_500_000,
            UsbSpeed::Unknown => 0,
        }
    }

    /// The RGB colour associated with a speed tier in the presentation layer.
    pub fn color_code(&self) -> (r: (u8, u8, u8))
        ensures
            r == (match *self {
                UsbSpeed::Low => (255u8, 100u8, 100u8),
                UsbSpeed::Full => (255u8, 165u8, 0u8),
                UsbSpeed::High => (255u8, 255u8, 0u8),
                UsbSpeed::SuperSpeed => (0u8, 255u8, 0u8),
                UsbSpeed::SuperSpeedPlus => (0u8, 255u8, 255u8),
                UsbSpeed::Unknown => (128u8, 128u8, 128u8),
            }),
    {
        match self {
            UsbSpeed::Low => (255, 100, 100),
            UsbSpeed::Full => (255, 165, 0),
            UsbSpeed::High => (255, 255, 0),
            UsbSpeed::SuperSpeed => (0, 255, 0),
            UsbSpeed::SuperSpeedPlus => (0, 255, 255),
            UsbSpeed::Unknown => (128, 128, 128),
        }
    }
}

/// The human-readable rendering of a speed tier.
pub open spec fn spec_format_speed(s: UsbSpeed) -> Seq<char> {
    match s {
        UsbSpeed::Low => "1.5 Mbps (Low Speed)"@,
        UsbSpeed::Full => "12 Mbps (Full Speed)"@,
        UsbSpeed::High => "480 Mbps (High Speed)"@,
        UsbSpeed::SuperSpeed => "5 Gbps (SuperSpeed)"@,
        UsbSpeed::SuperSpeedPlus => "10+ Gbps (SuperSpeed+)"@,
        UsbSpeed::Unknown => "Unknown"@,
    }
}

/// Formats a USB speed tier for display.
pub fn format_speed(speed: &UsbSpeed) -> (r: String)
    ensures
        r@ == spec_format_speed(*speed),
{
    match speed {
        UsbSpeed::Low => String::from_str("1.5 Mbps (Low Speed)"),
        UsbSpeed::Full => String::from_str("12 Mbps (Full Speed)"),
        UsbSpeed::High => String::from_str("480 Mbps (High Speed)"),
        UsbSpeed::SuperSpeed => String::from_str("5 Gbps (SuperSpeed)"),
        UsbSpeed::SuperSpeedPlus => String::from_str("10+ Gbps (SuperSpeed+)"),
        UsbSpeed::Unknown => String::from_str("Unknown"),
    }
}

} // verus!
