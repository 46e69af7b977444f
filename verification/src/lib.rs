//! Discrete-event simulation of packet delivery latency across a
//! geographically distributed network.
//!
//! Simulated time is measured in whole nanoseconds, distances in whole
//! meters, bandwidth in bits per second: every quantity the engine
//! reasons about is an integer, so each contract states the exact value
//! an operation produces.  The trigonometric work needed to turn
//! latitude/longitude pairs into surface distances is left to callers;
//! the engine takes distances in meters and derives propagation
//! latency, serialization delay and queue contention from them.

pub mod extensions;
pub mod moon;
pub mod packet;
pub mod physics;
pub mod replay;
pub mod routing;
pub mod sim;
pub mod theories;
pub mod topology;

use vstd::prelude::*;

verus! {

} // verus!
