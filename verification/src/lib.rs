//! Decoder for Honeywell 5800-series security-sensor transmissions.
//!
//! The pipeline turns a stream of interleaved unsigned 8-bit I/Q samples
//! (as delivered by an RTL-SDR style receiver) into validated status
//! messages: decimation by coherent averaging, an energy gate over fixed
//! windows, run-length peak tracking, transition-based bit decoding, and a
//! framer that hunts for the `0xFE` preamble and checks a CRC-16/BUYPASS
//! trailer.

pub mod crc;
pub mod devices;
pub mod framer;
pub mod laws;
pub mod pipeline;
pub mod status;
pub mod track;

pub use crate::crc::crc;
pub use crate::devices::DeviceStore;
pub use crate::devices::DeviceType;
pub use crate::pipeline::HW5800;
pub use crate::status::HW5800Status;
