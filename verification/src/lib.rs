//! Building blocks for a proxied HTTP latency benchmark: endpoint
//! descriptors, success-code matching, proxy-handshake protocol logic,
//! outcome classification, and latency/throughput statistics.

pub mod endpoint;
pub mod handshake;
pub mod matcher;
pub mod outcome;
pub mod stats;
pub mod util;

use vstd::prelude::*;

verus! {

/// The fixed User-Agent every request carries: process-wide immutable
/// configuration.
pub const USER_AGENT: &'static str = "xray-tester/0.1";

} // verus!
