//! A whole round of the optimizer against a network that answers at once.
//! The phases are those of `optimize`; between them the network is asked
//! for echoes and coordinate maps. What the round guarantees holds whatever
//! the network answers.

use vstd::prelude::*;

use crate::aggregate::{any_merged, averaged, coords, merge_start};
use crate::descent::{no_signal, optimize_position, position_moved};
use crate::optimize::{
    aggregation_targets, begin_round, detection_batches, finish_round, is_draw, is_snapshot,
    next_epoch, round_finished, take_telemetry, telemetry_taken, GATED_SLEEP_SECS,
    ROUND_SLEEP_SECS,
};
use crate::peer::Peer;
use crate::probe::Probe;
use crate::publish::{admitted, lemma_surviving, published};
use crate::sampling::{peer_views, selected};
use crate::table::Table;
use crate::utils::{lemma_texts, texts};

verus! {

/// The network as a round sees it. Nothing is promised of what it answers.
pub trait Network {
    /// Asks an endpoint to echo: the time it took to answer, in
    /// milliseconds, or nothing where the request failed.
    fn echo(&mut self, endpoint: &String) -> Option<u64>;

    /// Fetches the coordinate map of the peer at an endpoint, or nothing
    /// where the request failed.
    fn resolved(&mut self, endpoint: &String) -> Option<Table<Vec<i64>>>;

    /// Tells the peer at an endpoint that the node `encoded_public_key` has
    /// connected to it.
    fn notify_connected(&mut self, endpoint: &String, encoded_public_key: &String);
}

/// Probes every endpoint of every peer of a batch.
fn probe_batch<N: Network>(round: &Probe, batch: &Vec<String>, network: &mut N) -> (r: Vec<
    Vec<Option<u64>>,
>)
    requires
        round.wf(),
    ensures
        r@.len() == batch@.len(),
{
    let mut r: Vec<Vec<Option<u64>>> = Vec::new();
    let mut j: usize = 0;
    while j < batch.len()
        invariant
            j <= batch@.len(),
            r@.len() == j,
            round.wf(),
        decreases batch@.len() - j,
    {
        let mut answers: Vec<Option<u64>> = Vec::new();
        if let Some(i) = round.peers.find(&batch[j]) {
            let targets: Vec<String> = round.peers.value(i).probe_targets();
            let mut k: usize = 0;
            while k < targets.len()
                invariant
                    k <= targets@.len(),
                decreases targets@.len() - k,
            {
                answers.push(network.echo(&targets[k]));
                k += 1;
            }
        }
        r.push(answers);
        j += 1;
    }
    r
}

/// Fetches the coordinate map of every peer of a list. A map that is not
/// well formed counts as a fetch that failed.
fn fetch_maps<N: Network>(round: &Probe, targets: &Vec<String>, network: &mut N) -> (r: Vec<
    Option<Table<Vec<i64>>>,
>)
    requires
        round.wf(),
    ensures
        r@.len() == targets@.len(),
        forall|i: int| 0 <= i < r@.len() && r@[i] is Some ==> (#[trigger] r@[i]).unwrap().wf(),
{
    let mut r: Vec<Option<Table<Vec<i64>>>> = Vec::new();
    let mut j: usize = 0;
    while j < targets.len()
        invariant
            j <= targets@.len(),
            r@.len() == j,
            round.wf(),
            forall|i: int| 0 <= i < r@.len() && r@[i] is Some ==> (#[trigger] r@[i]).unwrap().wf(),
        decreases targets@.len() - j,
    {
        let mut fetched: Option<Table<Vec<i64>>> = None;
        if let Some(i) = round.peers.find(&targets[j]) {
            if let Some(map) = network.resolved(&round.peers.value(i).best_endpoint) {
                if map.is_wf() {
                    fetched = Some(map);
                }
            }
        }
        r.push(fetched);
        j += 1;
    }
    r
}

/// Nothing can be selected where there are no peers.
pub proof fn lemma_selected_bound(views: Seq<crate::peer::PeerView>, n: nat, online: bool)
    ensures
        selected(views, n, online).len() <= n,
    decreases n,
{
    if n > 0 {
        lemma_selected_bound(views, (n - 1) as nat, online);
    }
}

/// One round as it went: what was drawn, what the network answered, and
/// how the round stood after each phase.
pub struct Run {
    /// The copy of the state that the round began with.
    pub snapshot: Probe,
    /// The online peers probed for latency.
    pub online_batch: Seq<Seq<char>>,
    /// What their endpoints answered.
    pub online_latencies: Seq<Vec<Option<u64>>>,
    /// The offline peers probed for latency.
    pub offline_batch: Seq<Seq<char>>,
    /// What their endpoints answered.
    pub offline_latencies: Seq<Vec<Option<u64>>>,
    /// The round after the answers were taken in.
    pub measured: Probe,
    /// The round after this node's coordinate was moved.
    pub moved: Probe,
    /// The peers whose coordinate maps were asked for.
    pub targets: Seq<Seq<char>>,
    /// The maps that came back; nothing for a fetch that failed.
    pub fetched: Seq<Option<Table<Vec<i64>>>>,
    /// The round after the maps were merged.
    pub finished: Probe,
    /// The identifiers that the maps named.
    pub discovered: Seq<String>,
    /// The peers that were admitted when the round was published.
    pub notify: Seq<Peer>,
}

/// Whether a round that went as `run` says leads from the state `before` to
/// the state `after`: the round begins with a copy of the state, and each
/// phase makes of the round what its function says, for what was drawn and
/// what the network answered.
pub open spec fn is_run(before: &Probe, run: Run, after: &Probe) -> bool {
    &&& run.snapshot.wf()
    &&& is_snapshot(before, &run.snapshot)
    &&& is_draw(
        &run.snapshot,
        true,
        run.snapshot.parameters.detection_size,
        run.online_batch,
    )
    &&& is_draw(
        &run.snapshot,
        false,
        run.snapshot.parameters.detection_size,
        run.offline_batch,
    )
    &&& run.online_latencies.len() == run.online_batch.len()
    &&& run.offline_latencies.len() == run.offline_batch.len()
    &&& run.measured.wf()
    &&& telemetry_taken(
        &run.snapshot,
        &run.measured,
        run.online_batch,
        run.online_latencies,
        run.offline_batch,
        run.offline_latencies,
    )
    &&& run.moved.wf()
    &&& position_moved(&run.measured, &run.moved)
    &&& is_draw(&run.moved, true, run.moved.parameters.sample_size, run.targets)
    &&& run.fetched.len() == run.targets.len()
    &&& forall|i: int|
        0 <= i < run.fetched.len() && run.fetched[i] is Some ==> (
        #[trigger] run.fetched[i]).unwrap().wf()
    &&& run.finished.wf()
    &&& round_finished(&run.moved, &run.finished, run.fetched, run.discovered)
    &&& published(before, &run.finished, run.discovered, after, run.notify)
}

/// Runs one round on the state and says for how many seconds the optimizer
/// rests before the next. While the optimizer is held back, nothing
/// happens: the state stays as it is and the rest is `GATED_SLEEP_SECS`.
/// Otherwise the rest is `ROUND_SLEEP_SECS`, and the state is what a round
/// leaves of it (`is_run`): peers are drawn and probed, their answers taken
/// in, this node's coordinate moved, the coordinate maps of drawn peers
/// fetched and merged, and the result published. Such a round counts
/// itself, empties the queue of pending identifiers and leaves no peer with
/// `max_offline_cnt` failures or more. A node without peers and without
/// pending identifiers asks the network nothing and keeps its coordinates
/// and telemetry.
pub fn optimize<N: Network>(probe: &mut Probe, network: &mut N) -> (rest: u64)
    requires
        old(probe).wf(),
    ensures
        final(probe).wf(),
        final(probe).encoded_public_key@ == old(probe).encoded_public_key@,
        final(probe).parameters == old(probe).parameters,
        final(probe).status.is_optimizing == old(probe).status.is_optimizing,
        !old(probe).status.is_optimizing ==> rest == GATED_SLEEP_SECS && *final(probe) == *old(probe),
        old(probe).status.is_optimizing ==> {
            &&& rest == ROUND_SLEEP_SECS
            &&& exists|run: Run| #[trigger] is_run(old(probe), run, final(probe))
            &&& final(probe).status.epoch == next_epoch(old(probe).status.epoch)
            &&& final(probe).pending_peer_ids@.len() == 0
            &&& forall|i: int|
                0 <= i < peer_views(&final(probe).peers).len() ==> (#[trigger] peer_views(
                    &final(probe).peers,
                )[i]).offline_cnt < old(probe).parameters.max_offline_cnt
        },
        old(probe).status.is_optimizing && old(probe).peers.ids().len() == 0 && old(probe).pending_peer_ids@.len() == 0 ==> {
            &&& final(probe).telemetry.ids() == old(probe).telemetry.ids()
            &&& final(probe).telemetry.vals() == old(probe).telemetry.vals()
            &&& final(probe).resolved.ids() == old(probe).resolved.ids()
            &&& coords(&final(probe).resolved) == coords(&old(probe).resolved)
            &&& final(probe).peers.ids().len() == 0
            &&& final(probe).status.precision_ms == old(probe).status.precision_ms
        },
{
    let mut round: Probe = match begin_round(probe) {
        None => {
            return GATED_SLEEP_SECS;
        },
        Some(round) => round,
    };
    let ghost lonely = probe.peers.ids().len() == 0 && probe.pending_peer_ids@.len() == 0;
    let ghost snapshot = round;
    proof {
        lemma_selected_bound(peer_views(&round.peers), round.peers.ids().len(), true);
        lemma_selected_bound(peer_views(&round.peers), round.peers.ids().len(), false);
    }
    let (online_batch, offline_batch) = detection_batches(&round);
    let online_latencies = probe_batch(&round, &online_batch, network);
    let offline_latencies = probe_batch(&round, &offline_batch, network);
    let _ = take_telemetry(
        &mut round,
        &online_batch,
        &online_latencies,
        &offline_batch,
        &offline_latencies,
    );
    proof {
        if lonely {
            assert(peer_views(&round.peers).len() == 0);
            assert(no_signal(&round));
        }
    }
    let ghost measured = round;
    optimize_position(&mut round);
    proof {
        lemma_selected_bound(peer_views(&round.peers), round.peers.ids().len(), true);
    }
    let targets: Vec<String> = aggregation_targets(&round);
    let fetched = fetch_maps(&round, &targets, network);
    let ghost moved = round;
    let discovered: Vec<String> = finish_round(&mut round, &fetched);
    proof {
        lemma_texts(discovered@);
        if lonely {
            let m = merge_start(&moved.resolved, Seq::<String>::empty());
            assert(fetched@.len() == 0);
            assert(!any_merged(m));
            assert(averaged(m) =~= m.vecs);
            assert(discovered@.len() == 0);
        }
    }
    let ghost finished = round;
    let ghost all = peer_views(&round.peers) + admitted(
        probe.encoded_public_key@,
        round.peers.ids(),
        texts(probe.pending_peer_ids@) + texts(discovered@),
        (texts(probe.pending_peer_ids@) + texts(discovered@)).len(),
    ).map_values(|id: Seq<char>| crate::publish::fresh_view(id));
    proof {
        lemma_texts(probe.pending_peer_ids@);
        lemma_surviving(all, probe.parameters.max_offline_cnt, all.len());
        if lonely {
            assert(texts(probe.pending_peer_ids@) + texts(discovered@) =~= Seq::<
                Seq<char>,
            >::empty());
            assert(all.len() == 0);
        }
    }
    let me: String = probe.encoded_public_key.clone();
    let notify: Vec<Peer> = probe.publish(round, discovered);
    proof {
        let run = Run {
            snapshot,
            online_batch: texts(online_batch@),
            online_latencies: online_latencies@,
            offline_batch: texts(offline_batch@),
            offline_latencies: offline_latencies@,
            measured,
            moved,
            targets: texts(targets@),
            fetched: fetched@,
            finished,
            discovered: discovered@,
            notify: notify@,
        };
        assert(is_run(old(probe), run, probe));
    }
    let mut i: usize = 0;
    while i < notify.len()
        invariant
            i <= notify@.len(),
        decreases notify@.len() - i,
    {
        network.notify_connected(&notify[i].best_endpoint, &me);
        i += 1;
    }
    ROUND_SLEEP_SECS
}

} // verus!
