//! Homie device model over MQTT, and the BlueZ `Adapter1` interface names.
//!
//! The library decides which retained MQTT messages a Homie device publishes
//! and how its state evolves; sending them over a connection is left to the
//! caller.

pub mod text;
pub mod homie;
pub mod bluez;
