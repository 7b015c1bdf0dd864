//! Telemetry collection: a batch of peers is probed, each answer is smoothed
//! into the latency held for that peer, and each peer's failure count
//! follows what it answered.

use vstd::prelude::*;

use crate::embedding::{smoothed, spec_smoothed};
use crate::peer::{Peer, PeerView};
use crate::probe::peers_valid;
use crate::sampling::peer_views;
use crate::table::{lemma_position, Table};
use crate::types::ProbeError;
use crate::utils::{lemma_texts, texts};

verus! {

/// The telemetry and the peers while a batch is taken in.
pub struct Sweep {
    /// The identifiers that have a latency.
    pub ids: Seq<Seq<char>>,
    /// The latency of each of them.
    pub ttls: Seq<i64>,
    /// The peers, in table order.
    pub peers: Seq<PeerView>,
    /// Whether the batch named an identifier that is no peer.
    pub failed: bool,
}

/// The measurements for position `j` of a batch: none where the list of
/// measurements is shorter than the batch.
pub open spec fn measured(latencies: Seq<Vec<Option<u64>>>, j: int) -> Seq<Option<u64>> {
    if 0 <= j < latencies.len() {
        latencies[j]@
    } else {
        Seq::empty()
    }
}

/// Takes in the answer of one peer of the batch. A batch that has named an
/// identifier that is no peer takes in nothing more. A latency that was
/// measured is smoothed into the one held, or held as it is where there was
/// none.
pub open spec fn sweep_one(
    s: Sweep,
    peer_ids: Seq<Seq<char>>,
    id: Seq<char>,
    latencies: Seq<Option<u64>>,
    beta: i64,
) -> Sweep {
    if s.failed || !peer_ids.contains(id) {
        Sweep { failed: true, ..s }
    } else {
        let i = peer_ids.index_of(id);
        let peers = s.peers.update(i, s.peers[i].observed(latencies));
        match s.peers[i].observed_ttl(latencies) {
            None => Sweep { peers, ..s },
            Some(ttl) => if s.ids.contains(id) {
                let t = s.ids.index_of(id);
                Sweep { ttls: s.ttls.update(t, spec_smoothed(s.ttls[t], ttl, beta)), peers, ..s }
            } else {
                Sweep { ids: s.ids.push(id), ttls: s.ttls.push(ttl), peers, ..s }
            },
        }
    }
}

/// Takes in the answers of the first `n` peers of the batch, in its order.
pub open spec fn sweep(
    s: Sweep,
    peer_ids: Seq<Seq<char>>,
    batch: Seq<Seq<char>>,
    latencies: Seq<Vec<Option<u64>>>,
    beta: i64,
    n: nat,
) -> Sweep
    decreases n,
{
    if n == 0 {
        s
    } else {
        sweep_one(
            sweep(s, peer_ids, batch, latencies, beta, (n - 1) as nat),
            peer_ids,
            batch[n - 1],
            measured(latencies, n - 1),
            beta,
        )
    }
}

/// The sweep that a telemetry table and a peer table stand for.
pub open spec fn sweep_of(telemetry: &Table<i64>, peers: &Table<Peer>, failed: bool) -> Sweep {
    Sweep { ids: telemetry.ids(), ttls: telemetry.vals(), peers: peer_views(peers), failed }
}

/// Takes a measured latency into the telemetry: smoothed into the value
/// held for the peer, or held as it is where there was none.
pub fn record_latency(telemetry: &mut Table<i64>, id: &String, ttl: i64, beta: i64)
    requires
        old(telemetry).wf(),
    ensures
        final(telemetry).wf(),
        old(telemetry).has(id@) ==> {
            &&& final(telemetry).ids() == old(telemetry).ids()
            &&& final(telemetry).vals() == old(telemetry).vals().update(
                old(telemetry).position(id@),
                spec_smoothed(old(telemetry).at(id@), ttl, beta),
            )
        },
        !old(telemetry).has(id@) ==> {
            &&& final(telemetry).ids() == old(telemetry).ids().push(id@)
            &&& final(telemetry).vals() == old(telemetry).vals().push(ttl)
        },
{
    match telemetry.find(id) {
        Some(i) => {
            proof {
                lemma_position(telemetry, i as int);
            }
            let prior: i64 = *telemetry.value(i);
            telemetry.set(i, smoothed(prior, ttl, beta));
        },
        None => {
            telemetry.push(id.clone(), ttl);
        },
    }
}

/// Takes in the answers of a batch of peers. `latencies[j]` holds, for the
/// peer `batch_peers_id[j]`, what each of its endpoints answered, as
/// `Peer::echo` reads it. The result is `NotAPeer` where the batch names an
/// identifier that is no peer; nothing behind that identifier is taken in.
pub fn collect_telemetry(
    telemetry: &mut Table<i64>,
    peers: &mut Table<Peer>,
    batch_peers_id: &Vec<String>,
    beta: i64,
    latencies: &Vec<Vec<Option<u64>>>,
) -> (r: Result<(), ProbeError>)
    requires
        old(telemetry).wf(),
        peers_valid(old(peers)),
    ensures
        final(telemetry).wf(),
        peers_valid(final(peers)),
        final(peers).ids() == old(peers).ids(),
        ({
            let end = sweep(
                sweep_of(old(telemetry), old(peers), false),
                old(peers).ids(),
                texts(batch_peers_id@),
                latencies@,
                beta,
                batch_peers_id@.len(),
            );
            &&& sweep_of(final(telemetry), final(peers), end.failed) == end
            &&& r == if end.failed {
                Err::<(), ProbeError>(ProbeError::NotAPeer)
            } else {
                Ok::<(), ProbeError>(())
            }
        }),
{
    let ghost start = sweep_of(telemetry, peers, false);
    let ghost peer_ids = peers.ids();
    let ghost batch = texts(batch_peers_id@);
    proof {
        lemma_texts(batch_peers_id@);
    }
    let nothing: Vec<Option<u64>> = Vec::new();
    let mut j: usize = 0;
    while j < batch_peers_id.len()
        invariant
            j <= batch_peers_id@.len(),
            telemetry.wf(),
            peers_valid(peers),
            peers.ids() == peer_ids,
            peer_ids == old(peers).ids(),
            start == sweep_of(old(telemetry), old(peers), false),
            batch == texts(batch_peers_id@),
            batch.len() == batch_peers_id@.len(),
            nothing@.len() == 0,
            sweep_of(telemetry, peers, false) == sweep(
                start,
                peer_ids,
                batch,
                latencies@,
                beta,
                j as nat,
            ),
        decreases batch_peers_id@.len() - j,
    {
        let id: &String = &batch_peers_id[j];
        assert(batch[j as int] == id@);
        let ghost before = sweep_of(telemetry, peers, false);
        let i: usize = match peers.find(id) {
            Some(i) => i,
            None => {
                proof {
                    assert(sweep(start, peer_ids, batch, latencies@, beta, (j + 1) as nat)
                        == Sweep { failed: true, ..before });
                    lemma_sweep_failed(
                        start,
                        peer_ids,
                        batch,
                        latencies@,
                        beta,
                        (j + 1) as nat,
                        batch.len(),
                    );
                }
                return Err(ProbeError::NotAPeer);
            },
        };
        proof {
            lemma_position(peers, i as int);
        }
        let answers: &Vec<Option<u64>> = if j < latencies.len() {
            &latencies[j]
        } else {
            &nothing
        };
        assert(answers@ =~= measured(latencies@, j as int));
        let mut peer: Peer = peers.value(i).clone();
        assert(peer@ == before.peers[i as int]);
        let outcome: Option<i64> = peer.observe(answers);
        let ghost seen = peer@;
        peers.set(i, peer);
        proof {
            assert(peer_views(peers) =~= before.peers.update(i as int, seen));
        }
        match outcome {
            None => {},
            Some(ttl) => {
                record_latency(telemetry, id, ttl, beta);
            },
        }
        j += 1;
    }
    Ok(())
}

/// Once a batch has named an identifier that is no peer, nothing more
/// changes.
pub proof fn lemma_sweep_failed(
    s: Sweep,
    peer_ids: Seq<Seq<char>>,
    batch: Seq<Seq<char>>,
    latencies: Seq<Vec<Option<u64>>>,
    beta: i64,
    m: nat,
    n: nat,
)
    requires
        m <= n,
        sweep(s, peer_ids, batch, latencies, beta, m).failed,
    ensures
        sweep(s, peer_ids, batch, latencies, beta, n) == sweep(
            s,
            peer_ids,
            batch,
            latencies,
            beta,
            m,
        ),
    decreases n - m,
{
    if m < n {
        lemma_sweep_failed(s, peer_ids, batch, latencies, beta, m, (n - 1) as nat);
    }
}

} // verus!
