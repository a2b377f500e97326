//! BlueZ device discovery and liveness tracking.
//!
//! The heart of this crate is the discovery engine: it turns the bus's
//! signal-driven object model (devices appearing, disappearing, and changing
//! properties out of order) into a single ordered stream of device events.
//! The engine is written as an explicit state machine over plain values; the
//! surrounding bus I/O hands it one ready event at a time and performs the
//! actions it decides on.

pub mod adapter;
pub mod address;
pub mod device;
pub mod error;
pub mod gatt;
pub mod text;
pub mod uuid;

pub use adapter::{DeviceSet, DeviceStream};
pub use error::Error;
