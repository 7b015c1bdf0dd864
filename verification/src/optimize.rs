//! One round of the optimizer, phase by phase. A round works on a copy of
//! the probe's state: it measures latencies, moves this node's coordinate
//! along the measured errors, merges what other peers believe, and hands the
//! result back to the probe. Whoever drives a round does the network
//! requests between the phases; no phase waits for anything.

use vstd::prelude::*;

use crate::aggregate::{
    any_merged, average, averaged, copy_vector, coords, lemma_merge_lengths, lemma_merge_start,
    merge_all, merge_map, merge_of, merge_remote, merge_start, merge_valid, start_counts, Merge,
};
use crate::loss::{compute_loss, spec_loss};
use crate::descent::retained_ids;
use crate::recenter::{
    is_centred, law_recentered_centroid, recenter, spec_recentered, within, HALF_RANGE,
};
use crate::peer::Peer;
use crate::probe::Probe;
use crate::sampling::{is_sample, peer_views, sample_ids, select_peers, selected};
use crate::table::{lemma_prefix_lacks, Table};
use crate::telemetry::{collect_telemetry, sweep, sweep_of, Sweep};
use crate::types::ProbeError;
use crate::utils::{lemma_texts, texts};

verus! {

/// How long the optimizer rests when it is held back, in seconds.
pub const GATED_SLEEP_SECS: u64 = 10;

/// How long the optimizer rests between two rounds, in seconds.
pub const ROUND_SLEEP_SECS: u64 = 5;

/// A copy of a telemetry table.
pub fn copy_telemetry(t: &Table<i64>) -> (r: Table<i64>)
    requires
        t.wf(),
    ensures
        r.wf(),
        r.ids() == t.ids(),
        r.vals() == t.vals(),
{
    let mut r: Table<i64> = Table::new();
    let mut i: usize = 0;
    while i < t.len()
        invariant
            i <= t.ids().len(),
            t.wf(),
            r.wf(),
            r.ids() == t.ids().take(i as int),
            r.vals() == t.vals().take(i as int),
        decreases t.ids().len() - i,
    {
        proof {
            lemma_prefix_lacks(t, i as int);
        }
        r.push(t.key(i).clone(), *t.value(i));
        proof {
            assert(t.ids().take(i + 1) =~= t.ids().take(i as int).push(t.ids()[i as int]));
            assert(t.vals().take(i + 1) =~= t.vals().take(i as int).push(t.vals()[i as int]));
        }
        i += 1;
    }
    proof {
        assert(t.ids().take(i as int) =~= t.ids());
        assert(t.vals().take(i as int) =~= t.vals());
    }
    r
}

/// A copy of a coordinate table.
pub fn copy_coordinates(t: &Table<Vec<i64>>) -> (r: Table<Vec<i64>>)
    requires
        t.wf(),
    ensures
        r.wf(),
        r.ids() == t.ids(),
        coords(&r) == coords(t),
{
    let mut r: Table<Vec<i64>> = Table::new();
    let mut i: usize = 0;
    proof {
        assert(coords(&r) =~= coords(t).take(0));
    }
    while i < t.len()
        invariant
            i <= t.ids().len(),
            t.wf(),
            r.wf(),
            r.ids() == t.ids().take(i as int),
            coords(&r) == coords(t).take(i as int),
        decreases t.ids().len() - i,
    {
        proof {
            lemma_prefix_lacks(t, i as int);
        }
        let ghost held = coords(&r);
        let v: Vec<i64> = copy_vector(t.value(i));
        r.push(t.key(i).clone(), v);
        proof {
            assert(t.ids().take(i + 1) =~= t.ids().take(i as int).push(t.ids()[i as int]));
            assert(coords(&r) =~= held.push(v@));
            assert(coords(t).take(i + 1) =~= coords(t).take(i as int).push(coords(t)[i as int]));
        }
        i += 1;
    }
    proof {
        assert(t.ids().take(i as int) =~= t.ids());
        assert(coords(t).take(i as int) =~= coords(t));
    }
    r
}

/// A copy of a peer table.
pub fn copy_peers(t: &Table<Peer>) -> (r: Table<Peer>)
    requires
        t.wf(),
    ensures
        r.wf(),
        r.ids() == t.ids(),
        peer_views(&r) == peer_views(t),
{
    let mut r: Table<Peer> = Table::new();
    let mut i: usize = 0;
    proof {
        assert(peer_views(&r) =~= peer_views(t).take(0));
    }
    while i < t.len()
        invariant
            i <= t.ids().len(),
            t.wf(),
            r.wf(),
            r.ids() == t.ids().take(i as int),
            peer_views(&r) == peer_views(t).take(i as int),
        decreases t.ids().len() - i,
    {
        proof {
            lemma_prefix_lacks(t, i as int);
        }
        let ghost held = peer_views(&r);
        let p: Peer = t.value(i).clone();
        r.push(t.key(i).clone(), p);
        proof {
            assert(t.ids().take(i + 1) =~= t.ids().take(i as int).push(t.ids()[i as int]));
            assert(peer_views(&r) =~= held.push(p@));
            assert(peer_views(t).take(i + 1) =~= peer_views(t).take(i as int).push(
                peer_views(t)[i as int],
            ));
        }
        i += 1;
    }
    proof {
        assert(t.ids().take(i as int) =~= t.ids());
        assert(peer_views(t).take(i as int) =~= peer_views(t));
    }
    r
}

/// Whether `copy` holds what `state` holds, but for the queue of pending
/// identifiers, which is empty in the copy.
pub open spec fn is_snapshot(state: &Probe, copy: &Probe) -> bool {
    &&& copy.encoded_public_key@ == state.encoded_public_key@
    &&& copy.parameters == state.parameters
    &&& copy.telemetry.ids() == state.telemetry.ids()
    &&& copy.telemetry.vals() == state.telemetry.vals()
    &&& copy.resolved.ids() == state.resolved.ids()
    &&& coords(&copy.resolved) == coords(&state.resolved)
    &&& copy.peers.ids() == state.peers.ids()
    &&& peer_views(&copy.peers) == peer_views(&state.peers)
    &&& copy.pending_peer_ids@.len() == 0
    &&& copy.status == state.status
}

/// Starts a round. While the optimizer is held back there is no round: the
/// result is `None`, and the caller rests for `GATED_SLEEP_SECS`. Otherwise
/// the result is the copy of the state on which the round works.
pub fn begin_round(probe: &Probe) -> (r: Option<Probe>)
    requires
        probe.wf(),
    ensures
        match r {
            None => !probe.status.is_optimizing,
            Some(round) => probe.status.is_optimizing && round.wf() && is_snapshot(probe, &round),
        },
{
    if !probe.status.is_optimizing {
        return None;
    }
    let round = Probe {
        encoded_public_key: probe.encoded_public_key.clone(),
        parameters: probe.parameters,
        telemetry: copy_telemetry(&probe.telemetry),
        resolved: copy_coordinates(&probe.resolved),
        peers: copy_peers(&probe.peers),
        pending_peer_ids: Vec::new(),
        status: probe.status,
    };
    proof {
        lemma_texts(round.pending_peer_ids@);
        assert forall|i: int| 0 <= i < round.resolved.vals().len() implies (
        #[trigger] round.resolved.vals()[i])@.len() == round.parameters.dim_size by {
            assert(coords(&round.resolved)[i] == round.resolved.vals()[i]@);
            assert(coords(&probe.resolved)[i] == probe.resolved.vals()[i]@);
        }
        assert forall|i: int| 0 <= i < round.peers.vals().len() implies (
        #[trigger] round.peers.vals()[i])@.valid() && round.peers.vals()[i]@.id
            == round.peers.ids()[i] by {
            assert(peer_views(&round.peers)[i] == round.peers.vals()[i]@);
            assert(peer_views(&probe.peers)[i] == probe.peers.vals()[i]@);
        }
    }
    Some(round)
}

/// Whether `picked` can be drawn from the online peers of a round (or, with
/// `online` false, from the offline ones) where up to `amount` are asked
/// for: as many as asked for, or all where there are fewer, none twice.
pub open spec fn is_draw(round: &Probe, online: bool, amount: u64, picked: Seq<Seq<char>>) -> bool {
    &&& is_sample(selected(peer_views(&round.peers), round.peers.ids().len(), online), picked)
    &&& picked.len() == limited(
        selected(peer_views(&round.peers), round.peers.ids().len(), online).len(),
        amount,
    )
}

/// Whom a round probes for latency: up to `detection_size` of the online
/// peers and up to `detection_size` of the offline ones, each drawn at
/// random without replacement.
pub fn detection_batches(round: &Probe) -> (r: (Vec<String>, Vec<String>))
    requires
        round.wf(),
    ensures
        is_draw(round, true, round.parameters.detection_size, texts(r.0@)),
        is_draw(round, false, round.parameters.detection_size, texts(r.1@)),
        texts(r.0@).len() == r.0@.len(),
        texts(r.1@).len() == r.1@.len(),
{
    let online: Vec<String> = select_peers(&round.peers, true);
    let offline: Vec<String> = select_peers(&round.peers, false);
    proof {
        lemma_texts(online@);
        lemma_texts(offline@);
    }
    let first: Vec<String> = sample_ids(&online, round.parameters.detection_size);
    let second: Vec<String> = sample_ids(&offline, round.parameters.detection_size);
    proof {
        lemma_texts(first@);
        lemma_texts(second@);
    }
    (first, second)
}

/// A number of candidates, limited to an amount.
pub open spec fn limited(candidates: nat, amount: u64) -> nat {
    if candidates <= amount {
        candidates
    } else {
        amount as nat
    }
}

/// The telemetry and the peers of a round after both detection batches
/// were taken in: the online batch first, then, unless that one named an
/// identifier that is no peer, the offline batch.
pub open spec fn swept(
    round: &Probe,
    online_batch: Seq<Seq<char>>,
    online_latencies: Seq<Vec<Option<u64>>>,
    offline_batch: Seq<Seq<char>>,
    offline_latencies: Seq<Vec<Option<u64>>>,
) -> Sweep {
    let first = sweep(
        sweep_of(&round.telemetry, &round.peers, false),
        round.peers.ids(),
        online_batch,
        online_latencies,
        round.parameters.beta,
        online_batch.len(),
    );
    if first.failed {
        first
    } else {
        sweep(
            first,
            round.peers.ids(),
            offline_batch,
            offline_latencies,
            round.parameters.beta,
            offline_batch.len(),
        )
    }
}

/// What `take_telemetry` makes of a round: the telemetry and the peers are
/// as `swept` says, and nothing else changes.
pub open spec fn telemetry_taken(
    before: &Probe,
    after: &Probe,
    online_batch: Seq<Seq<char>>,
    online_latencies: Seq<Vec<Option<u64>>>,
    offline_batch: Seq<Seq<char>>,
    offline_latencies: Seq<Vec<Option<u64>>>,
) -> bool {
    let end = swept(before, online_batch, online_latencies, offline_batch, offline_latencies);
    &&& after.encoded_public_key == before.encoded_public_key
    &&& after.parameters == before.parameters
    &&& after.resolved == before.resolved
    &&& after.pending_peer_ids == before.pending_peer_ids
    &&& after.status == before.status
    &&& after.peers.ids() == before.peers.ids()
    &&& sweep_of(&after.telemetry, &after.peers, end.failed) == end
}

/// Takes the answers of both detection batches into the round: first those
/// of the online batch, then those of the offline batch, each as
/// `collect_telemetry` does.
pub fn take_telemetry(
    round: &mut Probe,
    online_batch: &Vec<String>,
    online_latencies: &Vec<Vec<Option<u64>>>,
    offline_batch: &Vec<String>,
    offline_latencies: &Vec<Vec<Option<u64>>>,
) -> (r: Result<(), ProbeError>)
    requires
        old(round).wf(),
    ensures
        final(round).wf(),
        telemetry_taken(
            old(round),
            final(round),
            texts(online_batch@),
            online_latencies@,
            texts(offline_batch@),
            offline_latencies@,
        ),
        r == if swept(
            old(round),
            texts(online_batch@),
            online_latencies@,
            texts(offline_batch@),
            offline_latencies@,
        ).failed {
            Err::<(), ProbeError>(ProbeError::NotAPeer)
        } else {
            Ok::<(), ProbeError>(())
        },
{
    proof {
        lemma_texts(online_batch@);
        lemma_texts(offline_batch@);
    }
    let beta: i64 = round.parameters.beta;
    let first = collect_telemetry(
        &mut round.telemetry,
        &mut round.peers,
        online_batch,
        beta,
        online_latencies,
    );
    if first.is_err() {
        return first;
    }
    collect_telemetry(&mut round.telemetry, &mut round.peers, offline_batch, beta, offline_latencies)
}

/// Whose coordinate maps a round fetches: up to `sample_size` of the online
/// peers, drawn at random without replacement.
pub fn aggregation_targets(round: &Probe) -> (r: Vec<String>)
    requires
        round.wf(),
    ensures
        is_draw(round, true, round.parameters.sample_size, texts(r@)),
        texts(r@).len() == r@.len(),
{
    let online: Vec<String> = select_peers(&round.peers, true);
    proof {
        lemma_texts(online@);
    }
    let r: Vec<String> = sample_ids(&online, round.parameters.sample_size);
    proof {
        lemma_texts(r@);
    }
    r
}

/// The round count after one more round: it starts again at zero behind the
/// largest count.
pub open spec fn next_epoch(epoch: u64) -> u64 {
    if epoch == u64::MAX {
        0
    } else {
        (epoch + 1) as u64
    }
}

/// What `finish_round` makes of a round. With the merge of all fetched
/// maps into the round's coordinates: the coordinates are those of the
/// merge, averaged, and recentred where anything was merged; `discovered`
/// lists the identifiers that the maps named; the round is counted; and the
/// precision is the loss of the new coordinates, or, where no peer is
/// online, the precision that the round began with.
pub open spec fn round_finished(
    before: &Probe,
    after: &Probe,
    fetched: Seq<Option<Table<Vec<i64>>>>,
    discovered: Seq<String>,
) -> bool {
    let m = merge_all(
        merge_start(&before.resolved, Seq::<String>::empty()),
        fetched,
        fetched.len(),
        before.parameters.dim_size,
    );
    &&& after.encoded_public_key == before.encoded_public_key
    &&& after.parameters == before.parameters
    &&& after.telemetry == before.telemetry
    &&& after.peers == before.peers
    &&& after.pending_peer_ids == before.pending_peer_ids
    &&& after.resolved.ids() == m.ids
    &&& coords(&after.resolved) == if any_merged(m) {
        spec_recentered(averaged(m), before.parameters.dim_size as nat)
    } else {
        averaged(m)
    }
    &&& texts(discovered) == m.pending
    &&& after.status.is_optimizing == before.status.is_optimizing
    &&& after.status.epoch == next_epoch(before.status.epoch)
    &&& after.status.precision_ms == if retained_ids(before).len() == 0 {
        before.status.precision_ms
    } else {
        spec_loss(
            after.encoded_public_key@,
            &after.peers,
            &after.telemetry,
            &after.resolved,
            after.parameters.eps,
        )
    }
}

/// The merge of a round while the coordinate maps of other peers are taken
/// in: for each coordinate of the round by how much it is to be divided,
/// and the identifiers that the maps have named.
pub struct Merging {
    pub counts: Vec<u64>,
    pub discovered: Vec<String>,
}

/// The merge that a round and its merging stand for.
pub open spec fn merging_of(round: &Probe, merging: &Merging) -> Merge {
    merge_of(&round.resolved, merging.counts@, merging.discovered@)
}

/// What `end_merge` makes of a round whose merge is `m`: the coordinates are
/// those of the merge, averaged, and recentred where anything was merged;
/// the round is counted; the precision is the loss of the new coordinates,
/// or, where no peer is online, the precision that the round had.
pub open spec fn settled(before: &Probe, after: &Probe, m: Merge) -> bool {
    &&& after.encoded_public_key == before.encoded_public_key
    &&& after.parameters == before.parameters
    &&& after.telemetry == before.telemetry
    &&& after.peers == before.peers
    &&& after.pending_peer_ids == before.pending_peer_ids
    &&& after.resolved.ids() == m.ids
    &&& coords(&after.resolved) == if any_merged(m) {
        spec_recentered(averaged(m), before.parameters.dim_size as nat)
    } else {
        averaged(m)
    }
    &&& after.status.is_optimizing == before.status.is_optimizing
    &&& after.status.epoch == next_epoch(before.status.epoch)
    &&& after.status.precision_ms == if retained_ids(before).len() == 0 {
        before.status.precision_ms
    } else {
        spec_loss(
            after.encoded_public_key@,
            &after.peers,
            &after.telemetry,
            &after.resolved,
            after.parameters.eps,
        )
    }
}

/// Whether a merge that was recentred has its centroid at the origin: it
/// has, as `is_centred` says, where there are at most a million components
/// and none of the averaged ones is beyond half of the representable range.
pub open spec fn centred_after(m: Merge, dim: u64, after: &Probe) -> bool {
    any_merged(m) && dim <= 1_000_000 && within(averaged(m), dim as nat, HALF_RANGE as int)
        ==> is_centred(coords(&after.resolved), dim as nat)
}

/// Begins the merge of a round: nothing is merged yet, and no identifier
/// was named.
pub fn begin_merge(round: &Probe) -> (merging: Merging)
    requires
        round.wf(),
    ensures
        merging_of(round, &merging) == merge_start(&round.resolved, Seq::<String>::empty()),
        merge_valid(merging_of(round, &merging), round.parameters.dim_size),
{
    let merging = Merging { counts: start_counts(&round.resolved), discovered: Vec::new() };
    proof {
        lemma_texts(merging.discovered@);
        lemma_merge_start(&round.resolved, merging.discovered@, round.parameters.dim_size);
        assert(texts(merging.discovered@) =~= texts(Seq::<String>::empty()));
    }
    merging
}

/// Takes the coordinate map of another peer into the merge of a round, as
/// `merge_remote` does.
pub fn merge_fetched(round: &mut Probe, merging: &mut Merging, remote: &Table<Vec<i64>>)
    requires
        old(round).wf(),
        remote.wf(),
        merge_valid(merging_of(old(round), old(merging)), old(round).parameters.dim_size),
    ensures
        final(round).wf(),
        merge_valid(merging_of(final(round), final(merging)), final(round).parameters.dim_size),
        final(round).encoded_public_key == old(round).encoded_public_key,
        final(round).parameters == old(round).parameters,
        final(round).telemetry == old(round).telemetry,
        final(round).peers == old(round).peers,
        final(round).pending_peer_ids == old(round).pending_peer_ids,
        final(round).status == old(round).status,
        merging_of(final(round), final(merging)) == merge_map(
            merging_of(old(round), old(merging)),
            remote,
            remote.ids().len(),
            old(round).parameters.dim_size,
        ),
{
    let ghost me = round.resolved.position(round.encoded_public_key@);
    proof {
        assert(round.resolved.has(round.encoded_public_key@));
        assert(0 <= me < round.resolved.ids().len());
    }
    merge_remote(
        &mut round.resolved,
        &mut merging.counts,
        &mut merging.discovered,
        remote,
        round.parameters.dim_size,
    );
    proof {
        assert(round.resolved.ids()[me] == round.encoded_public_key@);
        assert(round.resolved.has(round.encoded_public_key@));
        lemma_merge_lengths(
            &round.resolved,
            merging.counts@,
            merging.discovered@,
            round.parameters.dim_size,
        );
    }
}

/// Ends the merge of a round: every merged coordinate is averaged; where
/// anything was merged, all coordinates are recentred; the loss of what
/// results becomes the round's precision, unless no peer is online; and the
/// round is counted. The result lists the identifiers that the maps named.
pub fn end_merge(round: &mut Probe, merging: Merging) -> (discovered: Vec<String>)
    requires
        old(round).wf(),
        merge_valid(merging_of(old(round), &merging), old(round).parameters.dim_size),
    ensures
        final(round).wf(),
        settled(old(round), final(round), merging_of(old(round), &merging)),
        centred_after(
            merging_of(old(round), &merging),
            old(round).parameters.dim_size,
            final(round),
        ),
        discovered == merging.discovered,
{
    let dim: u64 = round.parameters.dim_size;
    let ghost m = merging_of(round, &merging);
    let ghost me = round.resolved.position(round.encoded_public_key@);
    let online: Vec<String> = select_peers(&round.peers, true);
    proof {
        lemma_texts(online@);
        assert(round.resolved.has(round.encoded_public_key@));
        assert(0 <= me < round.resolved.ids().len());
        lemma_merge_lengths(&round.resolved, merging.counts@, merging.discovered@, dim);
    }
    let anyone: bool = online.len() > 0;
    let merged: bool = average(&mut round.resolved, &merging.counts, dim);
    proof {
        assert(round.resolved.ids()[me] == round.encoded_public_key@);
        assert(round.resolved.has(round.encoded_public_key@));
    }
    if merged {
        let width: usize = round.resolved.value(0).len();
        proof {
            let vecs = averaged(m);
            assert(vecs.len() >= 1);
            assert forall|j: int| 0 <= j < vecs.len() implies (#[trigger] vecs[j]).len()
                == dim by {
                assert(coords(&round.resolved)[j] == round.resolved.vals()[j]@);
            }
            if dim <= 1_000_000 && within(vecs, dim as nat, HALF_RANGE as int) {
                law_recentered_centroid(vecs, dim as nat);
            }
        }
        recenter(&mut round.resolved, width);
        proof {
            assert(round.resolved.ids()[me] == round.encoded_public_key@);
        }
    }
    if anyone {
        match compute_loss(
            &round.encoded_public_key,
            &round.peers,
            &round.telemetry,
            &round.resolved,
            round.parameters.eps,
        ) {
            Ok(loss) => {
                round.status.precision_ms = loss;
            },
            Err(_) => {},
        }
    }
    round.status.epoch = if round.status.epoch == u64::MAX {
        0
    } else {
        round.status.epoch + 1
    };
    merging.discovered
}

/// Ends the computing part of a round. The coordinate maps fetched from
/// other peers (`None` for a fetch that failed) are merged into the round's
/// own, one after the other as `merge_fetched` does; then the merge is
/// ended as `end_merge` does: where anything was merged, all coordinates
/// are recentred. The loss of what results becomes the round's precision,
/// unless no peer is online: then the precision stays. The round is
/// counted. The result lists every identifier that the fetched maps named,
/// each once, in the order in which they were met.
pub fn finish_round(round: &mut Probe, fetched: &Vec<Option<Table<Vec<i64>>>>) -> (discovered: Vec<
    String,
>)
    requires
        old(round).wf(),
        forall|i: int|
            0 <= i < fetched@.len() && fetched@[i] is Some ==> (#[trigger] fetched@[i]).unwrap().wf(),
    ensures
        final(round).wf(),
        round_finished(old(round), final(round), fetched@, discovered@),
        centred_after(
            merge_all(
                merge_start(&old(round).resolved, Seq::<String>::empty()),
                fetched@,
                fetched@.len(),
                old(round).parameters.dim_size,
            ),
            old(round).parameters.dim_size,
            final(round),
        ),
{
    let ghost start = merge_start(&round.resolved, Seq::<String>::empty());
    let ghost dim = round.parameters.dim_size;
    let mut merging: Merging = begin_merge(round);
    let mut f: usize = 0;
    while f < fetched.len()
        invariant
            f <= fetched@.len(),
            round.wf(),
            round.encoded_public_key == old(round).encoded_public_key,
            round.parameters == old(round).parameters,
            round.telemetry == old(round).telemetry,
            round.peers == old(round).peers,
            round.pending_peer_ids == old(round).pending_peer_ids,
            round.status == old(round).status,
            dim == round.parameters.dim_size,
            start == merge_start(&old(round).resolved, Seq::<String>::empty()),
            forall|i: int|
                0 <= i < fetched@.len() && fetched@[i] is Some ==> (#[trigger] fetched@[i]).unwrap().wf(),
            merge_valid(merging_of(round, &merging), dim),
            merging_of(round, &merging) == merge_all(start, fetched@, f as nat, dim),
        decreases fetched@.len() - f,
    {
        match &fetched[f] {
            None => {},
            Some(remote) => {
                merge_fetched(round, &mut merging, remote);
            },
        }
        f += 1;
    }
    let ghost merged_round = *round;
    let discovered: Vec<String> = end_merge(round, merging);
    proof {
        assert(retained_ids(&merged_round) == retained_ids(old(round)));
    }
    discovered
}

} // verus!
