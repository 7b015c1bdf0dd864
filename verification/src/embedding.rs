//! The arithmetic of one step of the embedding: the force that the measured
//! latencies exert on this node's position, the momentum that follows the
//! force, the position that follows the momentum, and the smoothing of a
//! measured latency.

use vstd::prelude::*;

use crate::fixed::{
    minus, plus, ratio, share, spec_minus, spec_plus, spec_ratio, spec_share, spec_times, times,
    SCALE,
};
use crate::utils::{euclidean_distance, spec_distance};

verus! {

/// The smaller of two lengths.
pub open spec fn shorter(a: nat, b: nat) -> nat {
    if a <= b {
        a
    } else {
        b
    }
}

/// A vector of `n` zeros.
pub open spec fn spec_zeros(n: nat) -> Seq<i64> {
    Seq::new(n, |i: int| 0i64)
}

/// A latency smoothed into an earlier value:
/// `prior * beta + ttl * (1 - beta)`.
pub open spec fn spec_smoothed(prior: i64, ttl: i64, beta: i64) -> i64 {
    spec_plus(spec_times(prior, beta), spec_times(ttl, spec_minus(SCALE, beta)))
}

/// The force on this node at `x` after one more peer, at `y` and measured at
/// the latency `truth`, has pulled or pushed: with `n` the distance from `x`
/// to `y`, each component grows by
/// `(x[i] - y[i]) / (n + eps) * (truth - n)`.
pub open spec fn spec_force(force: Seq<i64>, x: Seq<i64>, y: Seq<i64>, truth: i64, eps: i64) -> Seq<
    i64,
> {
    let n = spec_distance(x, y) as i64;
    Seq::new(
        shorter(force.len(), shorter(x.len(), y.len())),
        |i: int|
            spec_plus(
                force[i],
                spec_times(
                    spec_ratio(spec_minus(x[i], y[i]), spec_plus(n, eps)),
                    spec_minus(truth, n),
                ),
            ),
    )
}

/// The momentum after a step: `m * beta + (force / k) * (1 - beta)`.
pub open spec fn spec_momentum(m: Seq<i64>, force: Seq<i64>, k: u64, beta: i64) -> Seq<i64> {
    Seq::new(
        shorter(m.len(), force.len()),
        |i: int|
            spec_plus(
                spec_times(m[i], beta),
                spec_times(spec_share(force[i], k), spec_minus(SCALE, beta)),
            ),
    )
}

/// The position after a step: `x + m * lr`.
pub open spec fn spec_moved(x: Seq<i64>, m: Seq<i64>, lr: i64) -> Seq<i64> {
    Seq::new(shorter(x.len(), m.len()), |i: int| spec_plus(x[i], spec_times(m[i], lr)))
}

fn shorter_of(a: usize, b: usize) -> (r: usize)
    ensures
        r == shorter(a as nat, b as nat),
{
    if a <= b {
        a
    } else {
        b
    }
}

/// A vector of `n` zeros.
pub fn zeros(n: usize) -> (v: Vec<i64>)
    ensures
        v@ == spec_zeros(n as nat),
{
    let mut v: Vec<i64> = Vec::new();
    let mut i: usize = 0;
    while i < n
        invariant
            i <= n,
            v@.len() == i,
            forall|j: int| 0 <= j < i ==> v@[j] == 0,
        decreases n - i,
    {
        v.push(0);
        i += 1;
    }
    assert(v@ =~= spec_zeros(n as nat));
    v
}

/// Smooths a measured latency into the value held so far.
pub fn smoothed(prior: i64, ttl: i64, beta: i64) -> (r: i64)
    ensures
        r == spec_smoothed(prior, ttl, beta),
{
    plus(times(prior, beta), times(ttl, minus(SCALE, beta)))
}

/// Adds to `force` what the peer at `y`, measured at the latency `truth`,
/// exerts on this node at `x`.
pub fn add_force(force: &Vec<i64>, x: &Vec<i64>, y: &Vec<i64>, truth: i64, eps: i64) -> (r: Vec<
    i64,
>)
    ensures
        r@ == spec_force(force@, x@, y@, truth, eps),
{
    let n: i64 = euclidean_distance(x.as_slice(), y.as_slice());
    let error: i64 = minus(truth, n);
    let divisor: i64 = plus(n, eps);
    let len: usize = shorter_of(force.len(), shorter_of(x.len(), y.len()));
    let mut r: Vec<i64> = Vec::new();
    let mut i: usize = 0;
    while i < len
        invariant
            i <= len,
            len == shorter(force@.len(), shorter(x@.len(), y@.len())),
            n == spec_distance(x@, y@),
            error == spec_minus(truth, n),
            divisor == spec_plus(n, eps),
            r@.len() == i,
            forall|j: int|
                0 <= j < i ==> r@[j] == spec_plus(
                    force@[j],
                    spec_times(spec_ratio(spec_minus(x@[j], y@[j]), divisor), error),
                ),
        decreases len - i,
    {
        let direction: i64 = ratio(minus(x[i], y[i]), divisor);
        r.push(plus(force[i], times(direction, error)));
        i += 1;
    }
    assert(r@ =~= spec_force(force@, x@, y@, truth, eps));
    r
}

/// The momentum after a step in which `k` peers exerted `force`.
pub fn momentum_step(m: &Vec<i64>, force: &Vec<i64>, k: u64, beta: i64) -> (r: Vec<i64>)
    ensures
        r@ == spec_momentum(m@, force@, k, beta),
{
    let keep: i64 = minus(SCALE, beta);
    let len: usize = shorter_of(m.len(), force.len());
    let mut r: Vec<i64> = Vec::new();
    let mut i: usize = 0;
    while i < len
        invariant
            i <= len,
            len == shorter(m@.len(), force@.len()),
            keep == spec_minus(SCALE, beta),
            r@.len() == i,
            forall|j: int|
                0 <= j < i ==> r@[j] == spec_plus(
                    spec_times(m@[j], beta),
                    spec_times(spec_share(force@[j], k), keep),
                ),
        decreases len - i,
    {
        r.push(plus(times(m[i], beta), times(share(force[i], k), keep)));
        i += 1;
    }
    assert(r@ =~= spec_momentum(m@, force@, k, beta));
    r
}

/// The position after a step along the momentum at the learning rate `lr`.
pub fn position_step(x: &Vec<i64>, m: &Vec<i64>, lr: i64) -> (r: Vec<i64>)
    ensures
        r@ == spec_moved(x@, m@, lr),
{
    let len: usize = shorter_of(x.len(), m.len());
    let mut r: Vec<i64> = Vec::new();
    let mut i: usize = 0;
    while i < len
        invariant
            i <= len,
            len == shorter(x@.len(), m@.len()),
            r@.len() == i,
            forall|j: int| 0 <= j < i ==> r@[j] == spec_plus(x@[j], spec_times(m@[j], lr)),
        decreases len - i,
    {
        r.push(plus(x[i], times(m[i], lr)));
        i += 1;
    }
    assert(r@ =~= spec_moved(x@, m@, lr));
    r
}

} // verus!
