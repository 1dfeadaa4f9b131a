//! Client-side synchronization engine for a network-attached audio control
//! surface that exposes its state as a flat key-path value store over HTTP.
//!
//! The crate keeps a local mirror of the remote store (the flat cache),
//! decodes the store's string micro-encoding into typed values, projects the
//! flat mirror into a hierarchical bank/channel model, and fans change
//! notifications out to subscribers, distinguishing between changes caused by
//! this client's own writes and changes observed from the device.

use vstd::prelude::*;

pub mod bus;
pub mod cache;
pub mod device;
pub mod discover;
pub mod extchannel;
pub mod index_map;
pub mod request;
pub mod text;
pub mod value;

pub use bus::{Update, UpdateBus};
pub use cache::FlatCache;
pub use device::{Device, DeviceError, DeviceType, PollResponse};
pub use discover::DiscoveryError;
pub use request::Request;
pub use value::{Value, ValueError};

verus! {

} // verus!
