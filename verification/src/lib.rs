//! Network-coordinate probing: every peer is embedded into a shared
//! low-dimensional space so that distances approximate round-trip latency.
//!
//! Reals (latencies, coordinates, rates) are fixed-point numbers, see
//! [`fixed`]. The state of a node is a [`probe::Probe`]; the phases of an
//! optimizer round are in [`optimize`], [`descent`] and [`publish`]; what
//! holds of every state is stated in [`laws`].

use vstd::prelude::*;

pub mod aggregate;
pub mod control;
pub mod descent;
pub mod embedding;
pub mod fixed;
pub mod laws;
pub mod loss;
pub mod optimize;
pub mod peer;
pub mod probe;
pub mod publish;
pub mod recenter;
pub mod round;
pub mod sampling;
pub mod table;
pub mod telemetry;
pub mod types;
pub mod utils;

pub use crate::peer::Peer;
pub use crate::probe::Probe;
pub use crate::types::{
    HostMessage, ProbeError, ProbeParameters, ProbeStatus, QueryBestEndpointRequest,
    QueryConnectedRequest, QueryEstimateRequest, QueryMessage,
};

use crate::utils::{cache_value, le_value};

verus! {

/// The cache key of this node's public key.
pub const PUBLIC_KEY_KEY: &'static str = "sidevm_probing::param::public_key";

/// The message that tells a started node that its configuration is cached.
pub const INIT_MESSAGE: &'static str = "init_params";

/// Handle of the deployed probe.
pub struct PhalaProbe {}

/// One value to put into the cache.
pub struct CacheEntry {
    pub key: String,
    pub value: Vec<u8>,
}

/// The configuration that a deployment caches, key by key: counts as they
/// are, reals as millionths.
pub open spec fn default_settings() -> Seq<(Seq<char>, u64)> {
    seq![
        ("sidevm_probing::param::dim_size"@, 3u64),
        ("sidevm_probing::param::sample_size"@, 10u64),
        ("sidevm_probing::param::detection_size"@, 5u64),
        ("sidevm_probing::param::batch_size"@, 64u64),
        ("sidevm_probing::param::beta"@, 900_000u64),
        ("sidevm_probing::param::lr"@, 1_000_000u64),
        ("sidevm_probing::param::patience"@, 1000u64),
        ("sidevm_probing::param::factor"@, 100_000u64),
        ("sidevm_probing::param::min_lr"@, 1_000u64),
    ]
}

fn entry(key: &str, value: u64) -> (r: CacheEntry)
    ensures
        r.key@ == key@,
        r.value@.len() == 8,
        le_value(r.value@) == value,
{
    CacheEntry { key: String::from_str(key), value: cache_value(value) }
}

impl PhalaProbe {
    /// The handle of a new deployment.
    pub fn default() -> (r: PhalaProbe) {
        PhalaProbe {  }
    }

    /// What a deployment puts into the cache before the node starts: each
    /// setting under its key, as the eight bytes of its number, least
    /// significant first.
    pub fn startup_cache(&self) -> (r: Vec<CacheEntry>)
        ensures
            r@.len() == default_settings().len(),
            forall|i: int|
                0 <= i < r@.len() ==> {
                    &&& (#[trigger] r@[i]).key@ == default_settings()[i].0
                    &&& r@[i].value@.len() == 8
                    &&& le_value(r@[i].value@) == default_settings()[i].1
                },
    {
        let mut r: Vec<CacheEntry> = Vec::new();
        r.push(entry("sidevm_probing::param::dim_size", 3));
        r.push(entry("sidevm_probing::param::sample_size", 10));
        r.push(entry("sidevm_probing::param::detection_size", 5));
        r.push(entry("sidevm_probing::param::batch_size", 64));
        r.push(entry("sidevm_probing::param::beta", 900_000));
        r.push(entry("sidevm_probing::param::lr", 1_000_000));
        r.push(entry("sidevm_probing::param::patience", 1000));
        r.push(entry("sidevm_probing::param::factor", 100_000));
        r.push(entry("sidevm_probing::param::min_lr", 1_000));
        r
    }

    /// Liveness message: does nothing and leaves the handle as it is.
    pub fn test(&self) {
    }
}

} // verus!
