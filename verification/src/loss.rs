//! The loss of an embedding: how far, on average, the distances in
//! coordinate space are from the measured latencies.

use vstd::prelude::*;

use crate::fixed::{
    clamp, magnitude, minus, quot, quotient, saturate, spec_magnitude, spec_minus, SCALE,
};
use crate::peer::Peer;
use crate::table::{lemma_position, Table};
use crate::types::ProbeError;
use crate::utils::{euclidean_distance, spec_distance};

verus! {

/// Whether a telemetry entry counts towards the loss: it is not this node's
/// own, its peer is online, and the peer has a coordinate.
pub open spec fn counts(
    me: Seq<char>,
    peers: &Table<Peer>,
    resolved: &Table<Vec<i64>>,
    id: Seq<char>,
) -> bool {
    &&& id != me
    &&& peers.has(id)
    &&& peers.at(id)@.offline_cnt == 0
    &&& resolved.has(id)
}

/// What one telemetry entry adds to the loss: where it counts, the distance
/// between the measured latency and the distance in coordinate space.
pub open spec fn loss_term(
    me: Seq<char>,
    peers: &Table<Peer>,
    resolved: &Table<Vec<i64>>,
    id: Seq<char>,
    truth: i64,
) -> i64 {
    if counts(me, peers, resolved, id) {
        spec_magnitude(spec_minus(truth, spec_distance(resolved.at(me)@, resolved.at(id)@) as i64))
    } else {
        0
    }
}

/// The sum of what the first `n` telemetry entries add to the loss.
pub open spec fn loss_sum(
    me: Seq<char>,
    peers: &Table<Peer>,
    telemetry: &Table<i64>,
    resolved: &Table<Vec<i64>>,
    n: nat,
) -> int
    decreases n,
{
    if n == 0 {
        0
    } else {
        loss_sum(me, peers, telemetry, resolved, (n - 1) as nat) + loss_term(
            me,
            peers,
            resolved,
            telemetry.ids()[n - 1],
            telemetry.vals()[n - 1],
        )
    }
}

/// The loss: the sum over all telemetry entries, divided by their number
/// less one plus `eps`. Entries that do not count still count in the
/// divisor.
pub open spec fn spec_loss(
    me: Seq<char>,
    peers: &Table<Peer>,
    telemetry: &Table<i64>,
    resolved: &Table<Vec<i64>>,
    eps: i64,
) -> i64 {
    let total = clamp(loss_sum(me, peers, telemetry, resolved, telemetry.ids().len()));
    clamp(quot(total * SCALE, (telemetry.ids().len() - 1) * SCALE + eps)) as i64
}

/// The loss of the embedding in `resolved` against the latencies in
/// `telemetry`, seen from the node `encoded_public_key`. `NotResolved`
/// where that node has no coordinate.
pub fn compute_loss(
    encoded_public_key: &String,
    peers: &Table<Peer>,
    telemetry: &Table<i64>,
    resolved: &Table<Vec<i64>>,
    eps: i64,
) -> (r: Result<i64, ProbeError>)
    requires
        peers.wf(),
        telemetry.wf(),
        resolved.wf(),
    ensures
        match r {
            Ok(loss) => resolved.has(encoded_public_key@) && loss == spec_loss(
                encoded_public_key@,
                peers,
                telemetry,
                resolved,
                eps,
            ),
            Err(e) => e == ProbeError::NotResolved && !resolved.has(encoded_public_key@),
        },
{
    let mine: usize = match resolved.find(encoded_public_key) {
        Some(i) => i,
        None => {
            return Err(ProbeError::NotResolved);
        },
    };
    proof {
        lemma_position(resolved, mine as int);
    }
    let my_position: &Vec<i64> = resolved.value(mine);
    let count: usize = telemetry.len();
    let mut total: i128 = 0;
    let mut i: usize = 0;
    while i < count
        invariant
            i <= count,
            count == telemetry.ids().len(),
            peers.wf(),
            telemetry.wf(),
            resolved.wf(),
            *my_position == resolved.at(encoded_public_key@),
            total == loss_sum(encoded_public_key@, peers, telemetry, resolved, i as nat),
            0 <= total <= i * i64::MAX,
        decreases count - i,
    {
        let id: &String = telemetry.key(i);
        let truth: i64 = *telemetry.value(i);
        let mut term: i64 = 0;
        if *id != *encoded_public_key {
            if let Some(p) = peers.find(id) {
                proof {
                    lemma_position(peers, p as int);
                }
                if peers.value(p).is_online() {
                    if let Some(q) = resolved.find(id) {
                        proof {
                            lemma_position(resolved, q as int);
                        }
                        let prediction: i64 = euclidean_distance(
                            my_position.as_slice(),
                            resolved.value(q).as_slice(),
                        );
                        term = magnitude(minus(truth, prediction));
                    }
                }
            }
        }
        assert(term == loss_term(
            encoded_public_key@,
            peers,
            resolved,
            telemetry.ids()[i as int],
            telemetry.vals()[i as int],
        ));
        total = total + term as i128;
        i += 1;
    }
    let capped: i64 = saturate(total);
    assert(SCALE == 1_000_000_000);
    let numerator: i128 = (capped as i128) * 1_000_000_000;
    let divisor: i128 = (count as i128 - 1) * 1_000_000_000 + eps as i128;
    Ok(saturate(quotient(numerator, divisor)))
}

} // verus!
