//! Core of a peer-to-peer virtual-networking overlay: the per-peer session
//! state machine that maintains shared secrets, encrypts, authenticates,
//! fragments and transmits outbound packets, authenticates and reassembles
//! inbound ones, manages transport paths, and the wire codec for the
//! network-configuration descriptor delivered to members.

pub mod credentials;
pub mod crypto;
pub mod dictionary;
pub mod inet;
pub mod networkconfig;
pub mod peer;
pub mod protocol;
pub mod util;

use vstd::prelude::*;

verus! {

/// Largest on-wire packet this layer handles, fragments included.
pub const PACKET_SIZE_MAX: usize = 16384;

} // verus!
