//! Host-side driver for a serial EEPROM programmer.
//!
//! The library is the protocol core: exact wire framing for the device
//! commands, the ACK/NAK handshake, and the chunked-transfer algorithm
//! that splits large reads and writes into device-sized operations while
//! reporting progress. It is written against a narrow [`transport::Transport`]
//! capability so that the same verified engine drives both real serial
//! hardware and a deterministic in-memory transport.

pub mod chunks;
pub mod engine;
pub mod progress;
pub mod transfer;
pub mod transport;
pub mod wire;
