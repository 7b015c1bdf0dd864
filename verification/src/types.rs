//! Plain records: configuration, runtime status, control messages, errors.

use vstd::prelude::*;

use crate::fixed::{clamp, saturate};
use crate::utils::{cache_get, cache_get_byte, le_value};

verus! {

/// What an operation of the probe can fail with.
#[derive(Clone, Copy, Debug, PartialEq, Eq, Structural)]
pub enum ProbeError {
    /// Every endpoint of a peer failed to answer a latency probe.
    AllEndpointsDown,
    /// The identifier is not in the peer set.
    NotAPeer,
    /// The peer has failed its latest probes.
    Offline,
    /// The peer has no coordinate yet.
    NotResolved,
    /// The directory knows no endpoint for the identifier.
    DirectoryLookupFailed,
    /// Stored or received bytes do not decode to a valid value.
    DecodeFailed,
    /// No snapshot is stored.
    NotFound,
    /// A request to a peer failed.
    NetworkError,
}

/// Numeric configuration of one run. Counts are plain integers; `beta`,
/// `lr`, `factor`, `min_lr` and `eps` are reals in billionths.
#[derive(Clone, Copy, Debug)]
pub struct ProbeParameters {
    pub dim_size: u64,
    pub sample_size: u64,
    pub detection_size: u64,
    pub batch_size: u64,
    pub beta: i64,
    pub lr: i64,
    pub patience: u64,
    pub factor: i64,
    pub min_lr: i64,
    pub max_iters: u64,
    pub max_offline_cnt: u8,
    pub eps: i64,
}

/// Runtime status. `precision_ms` is the loss of the latest round, a real in
/// billionths of a millisecond.
#[derive(Clone, Copy, Debug)]
pub struct ProbeStatus {
    pub is_optimizing: bool,
    pub precision_ms: i64,
    pub epoch: u64,
}

/// A command of the host.
#[derive(Clone, Debug, Default)]
pub struct HostMessage {
    pub command: String,
    pub data: String,
}

/// A query of the host that expects a reply.
#[derive(Clone, Debug, Default)]
pub struct QueryMessage {
    pub command: String,
    pub data: String,
}

/// Payload of the `estimate` query.
#[derive(Clone, Debug, Default)]
pub struct QueryEstimateRequest {
    pub from: String,
    pub to: String,
}

/// Payload of the `connected` query.
#[derive(Clone, Debug, Default)]
pub struct QueryConnectedRequest {
    pub from: String,
}

/// Payload of the `best_endpoint` query.
#[derive(Clone, Debug, Default)]
pub struct QueryBestEndpointRequest {
    pub to: String,
}

/// The configuration values as the cache holds them: counts as they are,
/// reals as millionths. `None` stands for a key that the cache lacks.
#[derive(Clone, Copy, Debug)]
pub struct CachedParameters {
    pub dim_size: Option<u64>,
    pub sample_size: Option<u64>,
    pub detection_size: Option<u64>,
    pub batch_size: Option<u64>,
    pub beta: Option<u64>,
    pub lr: Option<u64>,
    pub patience: Option<u64>,
    pub factor: Option<u64>,
    pub min_lr: Option<u64>,
    pub max_iters: Option<u64>,
    pub max_offline_cnt: Option<u8>,
}

/// What the cache holds under each configuration key, undecoded. `None`
/// stands for a key that the cache lacks.
#[derive(Debug)]
pub struct StoredParameters {
    pub dim_size: Option<Vec<u8>>,
    pub sample_size: Option<Vec<u8>>,
    pub detection_size: Option<Vec<u8>>,
    pub batch_size: Option<Vec<u8>>,
    pub beta: Option<Vec<u8>>,
    pub lr: Option<Vec<u8>>,
    pub patience: Option<Vec<u8>>,
    pub factor: Option<Vec<u8>>,
    pub min_lr: Option<Vec<u8>>,
    pub max_iters: Option<Vec<u8>>,
    pub max_offline_cnt: Option<Vec<u8>>,
}

/// Whether stored bytes decode to a number of `width` bytes: they do where
/// there are none, or at least `width` of them.
pub open spec fn decodes(stored: Option<Vec<u8>>, width: nat) -> bool {
    match stored {
        None => true,
        Some(bytes) => bytes@.len() >= width,
    }
}

/// The count that stored bytes decode to.
pub open spec fn decoded(stored: Option<Vec<u8>>) -> Option<u64> {
    match stored {
        None => None,
        Some(bytes) => Some(le_value(bytes@.subrange(0, 8)) as u64),
    }
}

/// The small count that stored bytes decode to.
pub open spec fn decoded_byte(stored: Option<Vec<u8>>) -> Option<u8> {
    match stored {
        None => None,
        Some(bytes) => Some(bytes@[0]),
    }
}

impl StoredParameters {
    /// Whether every stored value decodes.
    pub open spec fn all_decode(&self) -> bool {
        &&& decodes(self.dim_size, 8)
        &&& decodes(self.sample_size, 8)
        &&& decodes(self.detection_size, 8)
        &&& decodes(self.batch_size, 8)
        &&& decodes(self.beta, 8)
        &&& decodes(self.lr, 8)
        &&& decodes(self.patience, 8)
        &&& decodes(self.factor, 8)
        &&& decodes(self.min_lr, 8)
        &&& decodes(self.max_iters, 8)
        &&& decodes(self.max_offline_cnt, 1)
    }

    /// The values that the stored bytes decode to.
    pub open spec fn values(&self) -> CachedParameters {
        CachedParameters {
            dim_size: decoded(self.dim_size),
            sample_size: decoded(self.sample_size),
            detection_size: decoded(self.detection_size),
            batch_size: decoded(self.batch_size),
            beta: decoded(self.beta),
            lr: decoded(self.lr),
            patience: decoded(self.patience),
            factor: decoded(self.factor),
            min_lr: decoded(self.min_lr),
            max_iters: decoded(self.max_iters),
            max_offline_cnt: decoded_byte(self.max_offline_cnt),
        }
    }

    /// Decodes what the cache holds. `DecodeFailed` where one of the stored
    /// values is too short for its number.
    pub fn decode(&self) -> (r: Result<CachedParameters, ProbeError>)
        ensures
            match r {
                Ok(c) => self.all_decode() && c == self.values(),
                Err(e) => e == ProbeError::DecodeFailed && !self.all_decode(),
            },
    {
        let dim_size = cache_get(&self.dim_size)?;
        let sample_size = cache_get(&self.sample_size)?;
        let detection_size = cache_get(&self.detection_size)?;
        let batch_size = cache_get(&self.batch_size)?;
        let beta = cache_get(&self.beta)?;
        let lr = cache_get(&self.lr)?;
        let patience = cache_get(&self.patience)?;
        let factor = cache_get(&self.factor)?;
        let min_lr = cache_get(&self.min_lr)?;
        let max_iters = cache_get(&self.max_iters)?;
        let max_offline_cnt = cache_get_byte(&self.max_offline_cnt)?;
        Ok(
            CachedParameters {
                dim_size,
                sample_size,
                detection_size,
                batch_size,
                beta,
                lr,
                patience,
                factor,
                min_lr,
                max_iters,
                max_offline_cnt,
            },
        )
    }
}

/// The cached value, or the default where the cache lacks the key.
pub open spec fn or_default(v: Option<u64>, d: u64) -> u64 {
    match v {
        Some(x) => x,
        None => d,
    }
}

/// A cached count of millionths as a real in billionths.
pub open spec fn spec_from_millionths(v: u64) -> int {
    clamp(v * 1000)
}

/// The configuration that a cache content stands for.
pub open spec fn spec_parameters(c: CachedParameters) -> ProbeParameters {
    ProbeParameters {
        dim_size: or_default(c.dim_size, 3),
        sample_size: or_default(c.sample_size, 10),
        detection_size: or_default(c.detection_size, 5),
        batch_size: or_default(c.batch_size, 64),
        beta: spec_from_millionths(or_default(c.beta, 900_000)) as i64,
        lr: spec_from_millionths(or_default(c.lr, 1_000_000)) as i64,
        patience: or_default(c.patience, 1000),
        factor: spec_from_millionths(or_default(c.factor, 100_000)) as i64,
        min_lr: spec_from_millionths(or_default(c.min_lr, 1_000)) as i64,
        max_iters: or_default(c.max_iters, 10_000),
        max_offline_cnt: match c.max_offline_cnt {
            Some(x) => x,
            None => 16,
        },
        eps: 1_000,
    }
}

/// Converts a cached count of millionths to a real in billionths.
pub fn from_millionths(v: u64) -> (r: i64)
    ensures
        r == spec_from_millionths(v),
{
    saturate((v as i128) * 1000)
}

fn value_or(v: Option<u64>, d: u64) -> (r: u64)
    ensures
        r == or_default(v, d),
{
    match v {
        Some(x) => x,
        None => d,
    }
}

impl CachedParameters {
    /// A cache that holds none of the keys.
    pub fn empty() -> (r: CachedParameters)
        ensures
            r.dim_size is None,
            r.sample_size is None,
            r.detection_size is None,
            r.batch_size is None,
            r.beta is None,
            r.lr is None,
            r.patience is None,
            r.factor is None,
            r.min_lr is None,
            r.max_iters is None,
            r.max_offline_cnt is None,
    {
        CachedParameters {
            dim_size: None,
            sample_size: None,
            detection_size: None,
            batch_size: None,
            beta: None,
            lr: None,
            patience: None,
            factor: None,
            min_lr: None,
            max_iters: None,
            max_offline_cnt: None,
        }
    }
}

impl ProbeParameters {
    /// The configuration of a run: each cached value, or its default where
    /// the cache lacks it, with the reals rescaled; `eps` is always one
    /// millionth.
    pub fn from_cache(cached: &CachedParameters) -> (r: ProbeParameters)
        ensures
            r == spec_parameters(*cached),
    {
        ProbeParameters {
            dim_size: value_or(cached.dim_size, 3),
            sample_size: value_or(cached.sample_size, 10),
            detection_size: value_or(cached.detection_size, 5),
            batch_size: value_or(cached.batch_size, 64),
            beta: from_millionths(value_or(cached.beta, 900_000)),
            lr: from_millionths(value_or(cached.lr, 1_000_000)),
            patience: value_or(cached.patience, 1000),
            factor: from_millionths(value_or(cached.factor, 100_000)),
            min_lr: from_millionths(value_or(cached.min_lr, 1_000)),
            max_iters: value_or(cached.max_iters, 10_000),
            max_offline_cnt: match cached.max_offline_cnt {
                Some(x) => x,
                None => 16,
            },
            eps: 1_000,
        }
    }
}

impl Default for ProbeParameters {
    fn default() -> (r: ProbeParameters)
        ensures
            r.dim_size == 0,
            r.sample_size == 0,
            r.detection_size == 0,
            r.batch_size == 0,
            r.beta == 0,
            r.lr == 0,
            r.patience == 0,
            r.factor == 0,
            r.min_lr == 0,
            r.max_iters == 0,
            r.max_offline_cnt == 0,
            r.eps == 0,
    {
        ProbeParameters {
            dim_size: 0,
            sample_size: 0,
            detection_size: 0,
            batch_size: 0,
            beta: 0,
            lr: 0,
            patience: 0,
            factor: 0,
            min_lr: 0,
            max_iters: 0,
            max_offline_cnt: 0,
            eps: 0,
        }
    }
}

impl Default for ProbeStatus {
    fn default() -> (r: ProbeStatus)
        ensures
            !r.is_optimizing,
            r.precision_ms == 0,
            r.epoch == 0,
    {
        ProbeStatus { is_optimizing: false, precision_ms: 0, epoch: 0 }
    }
}

} // verus!
