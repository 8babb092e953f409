//! Library for decoding USB bus-monitor capture records and maintaining
//! per-device and per-bus bandwidth telemetry.
//!
//! The crate is organised around four pieces: the wire decoder for the text
//! and binary capture formats (`parser`), the sliding-window bandwidth
//! accumulator (`stats`), the bus/device topology registry (`device`,
//! `manager`), and the capture-stream helpers (`reader`).

pub mod device;
pub mod manager;
pub mod parser;
pub mod reader;
pub mod speed;
pub mod stats;
pub mod text;
