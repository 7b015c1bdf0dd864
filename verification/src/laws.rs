//! What holds of every state of a probe and of its operations, whatever the
//! inputs.

use vstd::prelude::*;

use crate::aggregate::coords;
use crate::descent::{
    course_end, descent_start, ends_course, filled_entry, no_signal, pull_of, retained_ids,
    step_taken, Taken,
};
use crate::optimize::next_epoch;
use crate::round::{is_run, Run};
use crate::table::Table;
use crate::loss::{loss_sum, loss_term, spec_loss};
use crate::peer::{all_down, probed, Peer, PeerView};
use crate::publish::{
    admitted, compatible, fresh_view, lemma_surviving, published, surviving,
};
use crate::sampling::peer_views;
use crate::probe::{add_peer_post, add_pending_peer_post, Probe};
use crate::table::lemma_position;
use crate::telemetry::{measured, sweep, sweep_one, Sweep};
use crate::types::ProbeError;
use crate::utils::{directory, lemma_distance, texts};

verus! {

/// In every valid state this node has a coordinate.
pub proof fn law_self_is_resolved(s: &Probe)
    requires
        s.wf(),
    ensures
        s.resolved.has(s.encoded_public_key@),
{
}

/// In every valid state no peer carries this node's identifier, and this
/// node is not queued to become a peer.
pub proof fn law_self_is_no_peer(s: &Probe)
    requires
        s.wf(),
    ensures
        forall|i: int|
            0 <= i < s.peers.vals().len() ==> (#[trigger] s.peers.vals()[i])@.id
                != s.encoded_public_key@,
        !s.peers.has(s.encoded_public_key@),
        !texts(s.pending_peer_ids@).contains(s.encoded_public_key@),
{
    assert forall|i: int| 0 <= i < s.peers.vals().len() implies (#[trigger] s.peers.vals()[i])@.id
        != s.encoded_public_key@ by {
        lemma_position(&s.peers, i);
    }
}

/// In every valid state each coordinate vector has as many components as the
/// configuration says.
pub proof fn law_coordinates_have_dim_size(s: &Probe)
    requires
        s.wf(),
    ensures
        forall|i: int|
            0 <= i < s.resolved.vals().len() ==> (#[trigger] s.resolved.vals()[i])@.len()
                == s.parameters.dim_size,
        forall|id: Seq<char>| #[trigger]
            s.resolved.has(id) ==> s.resolved.at(id)@.len() == s.parameters.dim_size,
{
    assert forall|id: Seq<char>| #[trigger] s.resolved.has(id) implies s.resolved.at(id)@.len()
        == s.parameters.dim_size by {
        let i = s.resolved.position(id);
        assert(0 <= i < s.resolved.ids().len());
        assert(s.resolved.at(id) == s.resolved.vals()[i]);
    }
}

/// Adding the same peer a second time is refused and leaves the peers as
/// they are.
pub proof fn law_add_peer_twice(
    s0: &Probe,
    s1: &Probe,
    s2: &Probe,
    peer: Peer,
    again: Peer,
    first: bool,
    second: bool,
)
    requires
        again@.id == peer@.id,
        add_peer_post(s0, s1, peer, first),
        add_peer_post(s1, s2, again, second),
    ensures
        !second,
        s2.peers.ids() == s1.peers.ids(),
        s2.peers.vals() == s1.peers.vals(),
        s2.peers.ids().len() == s1.peers.ids().len(),
{
    if first {
        let ids = s0.peers.ids().push(peer@.id);
        assert(ids[ids.len() - 1] == peer@.id);
        assert(s1.peers.has(peer@.id));
    }
}

/// Queueing this node's own identifier changes nothing.
pub proof fn law_add_pending_self(s0: &Probe, s1: &Probe)
    requires
        add_pending_peer_post(s0, s1, s0.encoded_public_key@),
    ensures
        texts(s1.pending_peer_ids@) == texts(s0.pending_peer_ids@),
        s1.encoded_public_key@ == s0.encoded_public_key@,
        s1.parameters == s0.parameters,
        s1.telemetry == s0.telemetry,
        s1.resolved == s0.resolved,
        s1.peers == s0.peers,
        s1.status == s0.status,
{
}

/// Where an estimate exists it does not depend on the direction, and the
/// estimate from a party to itself is zero.
pub proof fn law_estimate_symmetric(s: &Probe, a: Seq<char>, b: Seq<char>)
    requires
        s.spec_estimate(a, b) is Ok,
    ensures
        s.spec_estimate(b, a) == s.spec_estimate(a, b),
        s.spec_estimate(a, a) == Ok::<int, ProbeError>(0),
        s.spec_estimate(b, b) == Ok::<int, ProbeError>(0),
{
    lemma_distance(s.resolved.at(a)@, s.resolved.at(b)@);
    lemma_distance(s.resolved.at(b)@, s.resolved.at(a)@);
}

/// A round of probes in which every endpoint fails counts one more failure
/// against the peer and measures nothing.
pub proof fn law_failed_probe_counts(v: PeerView, latencies: Seq<Option<u64>>)
    requires
        all_down(latencies, probed(v.refreshed().endpoints, latencies)),
        v.offline_cnt < u8::MAX,
    ensures
        v.observed(latencies).offline_cnt == v.offline_cnt + 1,
        v.observed_ttl(latencies) is None,
        v.observed(latencies).id == v.id,
{
}

/// The peer after the first `n` of a series of rounds of probes.
pub open spec fn observed_through(v: PeerView, rounds: Seq<Seq<Option<u64>>>, n: nat) -> PeerView
    decreases n,
{
    if n == 0 {
        v
    } else {
        observed_through(v, rounds, (n - 1) as nat).observed(rounds[n - 1])
    }
}

/// A peer that fails `n` rounds of probes in a row has `n` failures more
/// against it, up to 255.
pub proof fn law_failures_add_up(v: PeerView, rounds: Seq<Seq<Option<u64>>>, n: nat)
    requires
        n <= rounds.len(),
        forall|k: int|
            0 <= k < n ==> !(#[trigger] observed_through(v, rounds, k as nat)).reached(rounds[k]),
    ensures
        observed_through(v, rounds, n).offline_cnt == if v.offline_cnt + n > u8::MAX {
            u8::MAX as int
        } else {
            v.offline_cnt + n
        },
        observed_through(v, rounds, n).id == v.id,
    decreases n,
{
    if n > 0 {
        law_failures_add_up(v, rounds, (n - 1) as nat);
        let before = observed_through(v, rounds, (n - 1) as nat);
        assert(!before.reached(rounds[n - 1]));
    }
}

/// After `max_offline_cnt` failed rounds of probes in a row a peer does not
/// survive the next publish phase, wherever it stands among the peers; a
/// peer with fewer failures does.
pub proof fn law_eviction(
    v: PeerView,
    rounds: Seq<Seq<Option<u64>>>,
    max: u8,
    views: Seq<PeerView>,
    at: int,
)
    requires
        max as nat <= rounds.len(),
        forall|k: int|
            0 <= k < max ==> !(#[trigger] observed_through(v, rounds, k as nat)).reached(
                rounds[k],
            ),
        0 <= at < views.len(),
        views[at] == observed_through(v, rounds, max as nat),
    ensures
        !surviving(views, max, views.len()).contains(views[at]),
        forall|j: int|
            0 <= j < views.len() && (#[trigger] views[j]).offline_cnt < max ==> surviving(
                views,
                max,
                views.len(),
            ).contains(views[j]),
{
    law_failures_add_up(v, rounds, max as nat);
    lemma_surviving(views, max, views.len());
    assert(views[at].offline_cnt >= max);
    let kept = surviving(views, max, views.len());
    if kept.contains(views[at]) {
        let k = choose|k: int| 0 <= k < kept.len() && kept[k] == views[at];
        assert(kept[k].offline_cnt < max);
    }
}

/// Where no online peer has a measured latency, nothing counts towards the
/// loss: it is zero. (A round in which no peer is online at all does not
/// take the loss for its precision: it keeps the precision it began with,
/// as `round_finished` says.)
pub proof fn law_loss_without_signal(round: &Probe)
    requires
        round.wf(),
        no_signal(round),
    ensures
        spec_loss(
            round.encoded_public_key@,
            &round.peers,
            &round.telemetry,
            &round.resolved,
            round.parameters.eps,
        ) == 0,
{
    lemma_no_terms(round, round.telemetry.ids().len());
}

/// Where no online peer has a measured latency, every sum of loss terms is
/// zero.
proof fn lemma_no_terms(round: &Probe, n: nat)
    requires
        round.wf(),
        no_signal(round),
        n <= round.telemetry.ids().len(),
    ensures
        loss_sum(
            round.encoded_public_key@,
            &round.peers,
            &round.telemetry,
            &round.resolved,
            n,
        ) == 0,
    decreases n,
{
    if n > 0 {
        lemma_no_terms(round, (n - 1) as nat);
        let id = round.telemetry.ids()[n - 1];
        assert(round.telemetry.has(id));
        if round.peers.has(id) {
            let p = round.peers.position(id);
            assert(0 <= p < round.peers.ids().len());
            assert(peer_views(&round.peers)[p] == round.peers.vals()[p]@);
            assert(round.peers.vals()[p]@.id == id);
        }
        assert(loss_term(
            round.encoded_public_key@,
            &round.peers,
            &round.resolved,
            id,
            round.telemetry.vals()[n - 1],
        ) == 0);
    }
}

/// What holds of a sweep after the first `n` peers of a batch, seen from the
/// peer at place `p` of the peer table, named at place `k` of the batch and
/// nowhere else: the batch has not failed; the peer is as it was until its
/// turn, and has one more failure after it; and its latency is as it was.
pub open spec fn one_failure_more(s: Sweep, e: Sweep, id: Seq<char>, p: int, k: int, n: int) -> bool {
    &&& !e.failed
    &&& e.peers.len() == s.peers.len()
    &&& e.ids.len() == e.ttls.len()
    &&& e.ids.no_duplicates()
    &&& s.ids.len() <= e.ids.len()
    &&& forall|i: int| 0 <= i < s.ids.len() ==> #[trigger] e.ids[i] == s.ids[i]
    &&& e.ids.contains(id) == s.ids.contains(id)
    &&& s.ids.contains(id) ==> e.ttls[s.ids.index_of(id)] == s.ttls[s.ids.index_of(id)]
    &&& n <= k ==> e.peers[p] == s.peers[p]
    &&& n > k ==> e.peers[p].offline_cnt == s.peers[p].offline_cnt + 1 && e.peers[p].id
        == s.peers[p].id
}

/// A peer that a batch names once, and that does not answer, has one more
/// failure after the batch and keeps the latency it had, whatever the
/// other peers of the batch answer, as long as the batch names only peers.
pub proof fn law_failed_probe_in_batch(
    s: Sweep,
    peer_ids: Seq<Seq<char>>,
    batch: Seq<Seq<char>>,
    latencies: Seq<Vec<Option<u64>>>,
    beta: i64,
    k: int,
    n: nat,
)
    requires
        peer_ids.no_duplicates(),
        s.peers.len() == peer_ids.len(),
        s.ids.no_duplicates(),
        s.ids.len() == s.ttls.len(),
        !s.failed,
        n <= batch.len(),
        forall|j: int| 0 <= j < batch.len() ==> peer_ids.contains(#[trigger] batch[j]),
        0 <= k < batch.len(),
        forall|j: int| 0 <= j < batch.len() && j != k ==> #[trigger] batch[j] != batch[k],
        !s.peers[peer_ids.index_of(batch[k])].reached(measured(latencies, k)),
        s.peers[peer_ids.index_of(batch[k])].offline_cnt < u8::MAX,
    ensures
        one_failure_more(
            s,
            sweep(s, peer_ids, batch, latencies, beta, n),
            batch[k],
            peer_ids.index_of(batch[k]),
            k,
            n as int,
        ),
    decreases n,
{
    let id = batch[k];
    let p = peer_ids.index_of(id);
    assert(peer_ids.contains(id));
    assert(0 <= p < peer_ids.len() && peer_ids[p] == id);
    if s.ids.contains(id) {
        let q = s.ids.index_of(id);
        assert(0 <= q < s.ids.len() && s.ids[q] == id);
    }
    if n > 0 {
        law_failed_probe_in_batch(s, peer_ids, batch, latencies, beta, k, (n - 1) as nat);
        let before = sweep(s, peer_ids, batch, latencies, beta, (n - 1) as nat);
        let b = batch[n - 1];
        let answers = measured(latencies, n - 1);
        let after = sweep_one(before, peer_ids, b, answers, beta);
        assert(after == sweep(s, peer_ids, batch, latencies, beta, n));
        assert(peer_ids.contains(b));
        let i = peer_ids.index_of(b);
        assert(0 <= i < peer_ids.len() && peer_ids[i] == b);
        if n - 1 == k {
            assert(i == p);
            assert(before.peers[p] == s.peers[p]);
            assert(before.peers[p].observed_ttl(answers) is None);
        } else {
            assert(b != id);
            assert(i != p);
            match before.peers[i].observed_ttl(answers) {
                None => {},
                Some(ttl) => {
                    if before.ids.contains(b) {
                        let t = before.ids.index_of(b);
                        assert(0 <= t < before.ids.len() && before.ids[t] == b);
                        if s.ids.contains(id) {
                            assert(before.ids[s.ids.index_of(id)] == id);
                            assert(t != s.ids.index_of(id));
                        }
                    } else {
                        let longer = before.ids.push(b);
                        assert(after.ids == longer);
                        assert forall|x: int, y: int|
                            0 <= x < longer.len() && 0 <= y < longer.len() && x != y implies longer[x]
                            != longer[y] by {
                            if x == before.ids.len() {
                                assert(before.ids[y] != b);
                            } else if y == before.ids.len() {
                                assert(before.ids[x] != b);
                            }
                        }
                        if longer.contains(id) {
                            let w = choose|w: int| 0 <= w < longer.len() && longer[w] == id;
                            assert(w < before.ids.len());
                            assert(before.ids[w] == id);
                            assert(before.ids.contains(id));
                        }
                        if before.ids.contains(id) {
                            let w = before.ids.index_of(id);
                            assert(longer[w] == id);
                        }
                    }
                },
            }
        }
    }
}

/// No identifier is admitted twice, and an identifier is admitted exactly
/// if the queue names it, the directory knows it, and it is neither this
/// node nor a peer already.
pub proof fn lemma_admitted(
    me: Seq<char>,
    known: Seq<Seq<char>>,
    queue: Seq<Seq<char>>,
    n: nat,
    d: Seq<char>,
)
    requires
        n <= queue.len(),
    ensures
        admitted(me, known, queue, n).no_duplicates(),
        admitted(me, known, queue, n).contains(d) <==> (exists|j: int|
            0 <= j < n && #[trigger] queue[j] == d) && directory(d) is Some && d != me
            && !known.contains(d),
    decreases n,
{
    if n > 0 {
        lemma_admitted(me, known, queue, (n - 1) as nat, d);
        let before = admitted(me, known, queue, (n - 1) as nat);
        let now = admitted(me, known, queue, n);
        let id = queue[n - 1];
        if directory(id) is Some && id != me && !known.contains(id) && !before.contains(id) {
            assert(now == before.push(id));
            assert forall|x: int, y: int|
                0 <= x < now.len() && 0 <= y < now.len() && x != y implies now[x] != now[y] by {
                if x == before.len() {
                    assert(before[y] != id);
                } else if y == before.len() {
                    assert(before[x] != id);
                }
            }
            if now.contains(d) {
                let w = choose|w: int| 0 <= w < now.len() && now[w] == d;
                if w < before.len() {
                    assert(before[w] == d);
                    assert(before.contains(d));
                } else {
                    assert(queue[n - 1] == d);
                }
            }
            if before.contains(d) {
                let w = before.index_of(d);
                assert(now[w] == d);
            }
            if id == d {
                assert(now[now.len() - 1] == d);
            }
        } else {
            assert(now == before);
            if id == d && directory(d) is Some && d != me && !known.contains(d) {
                assert(before.contains(d));
            }
        }
        if exists|j: int| 0 <= j < n && #[trigger] queue[j] == d {
            let j = choose|j: int| 0 <= j < n && #[trigger] queue[j] == d;
            if j < n - 1 {
                assert(queue[j] == d);
            }
        }
    }
}

/// An identifier that is queued or discovered when a round is published
/// becomes a peer where the directory knows it, unless it is this node or a
/// peer already or no failure at all is allowed: then it stands among the
/// peers with the directory's endpoints and online, and it is listed once,
/// and no more, among the peers to notify.
pub proof fn law_pending_is_admitted(
    before: &Probe,
    round: &Probe,
    discovered: Seq<String>,
    after: &Probe,
    notify: Seq<Peer>,
    d: Seq<char>,
)
    requires
        published(before, round, discovered, after, notify),
        compatible(before, round),
        (texts(before.pending_peer_ids@) + texts(discovered)).contains(d),
        directory(d) is Some,
        d != before.encoded_public_key@,
        !round.peers.has(d),
        before.parameters.max_offline_cnt > 0,
    ensures
        peer_views(&after.peers).contains(fresh_view(d)),
        exists|i: int|
            0 <= i < notify.len() && (#[trigger] notify[i])@ == fresh_view(d) && forall|j: int|
                0 <= j < notify.len() && j != i ==> (#[trigger] notify[j])@.id != d,
{
    let queue = texts(before.pending_peer_ids@) + texts(discovered);
    let me = before.encoded_public_key@;
    let fresh = admitted(me, round.peers.ids(), queue, queue.len());
    let views = fresh.map_values(|id: Seq<char>| fresh_view(id));
    let all = peer_views(&round.peers) + views;
    let w = choose|w: int| 0 <= w < queue.len() && queue[w] == d;
    assert(queue[w] == d);
    lemma_admitted(me, round.peers.ids(), queue, queue.len(), d);
    assert(fresh.contains(d));
    let i = fresh.index_of(d);
    assert(0 <= i < fresh.len() && fresh[i] == d);
    let at = peer_views(&round.peers).len() + i;
    assert(all[at] == views[i]);
    assert(all[at] == fresh_view(d));
    lemma_surviving(all, before.parameters.max_offline_cnt, all.len());
    assert(all[at].offline_cnt < before.parameters.max_offline_cnt);
    assert(notify[i]@ == fresh_view(d));
    assert forall|j: int| 0 <= j < notify.len() && j != i implies (#[trigger] notify[j])@.id
        != d by {
        assert(notify[j]@ == fresh_view(fresh[j]));
        assert(fresh[j] != fresh[i]);
    }
}

/// A round after whose probes no peer is online counts itself and keeps
/// the precision that the state had; its descent takes no step, so this
/// node's coordinate is what aggregation makes of the one it had.
pub proof fn law_round_without_online_peer(before: &Probe, run: Run, after: &Probe)
    requires
        before.wf(),
        is_run(before, run, after),
        retained_ids(&run.measured).len() == 0,
    ensures
        after.status.precision_ms == before.status.precision_ms,
        after.status.epoch == next_epoch(before.status.epoch),
        after.status.is_optimizing == before.status.is_optimizing,
        run.moved.resolved.ids() == run.measured.resolved.ids(),
        coords(&run.moved.resolved) == coords(&run.measured.resolved),
{
    assert(retained_ids(&run.moved) == retained_ids(&run.measured));
    assert(compatible(before, &run.finished));
    let (course, last, batch) = choose|
        course: Seq<Taken>,
        last: Table<Vec<i64>>,
        batch: Seq<Seq<char>>,
    | #[trigger] ends_course(&run.measured, &run.moved.resolved, course, last, batch);
    if course.len() > 0 {
        assert(step_taken(&run.measured, course, 0));
        let first = course[0].batch;
        assert(first.len() == 0);
        assert(pull_of(
            descent_start(&run.measured).x,
            &run.measured.telemetry,
            &course[0].table,
            first,
            run.measured.parameters.eps,
            0,
        ).k == 0);
    }
    let me = run.measured.encoded_public_key@;
    let p = run.measured.resolved.position(me);
    assert(run.measured.resolved.has(me));
    assert(0 <= p < run.measured.resolved.ids().len());
    assert(coords(&run.measured.resolved)[p] == run.measured.resolved.vals()[p]@);
    if course_end(&run.measured, course).schedule.proceeds(run.measured.parameters) {
        assert(batch.len() == 0);
        assert(last.ids() =~= run.measured.resolved.ids()) by {
            if last.ids().len() > run.measured.resolved.ids().len() {
                assert(filled_entry(
                    &last,
                    &run.measured.telemetry,
                    batch,
                    run.measured.parameters.dim_size as nat,
                    run.measured.resolved.ids().len() as int,
                ));
            }
        }
        assert(course.len() == 0);
        assert(last.ids().len() == last.vals().len());
        assert forall|i: int| 0 <= i < last.vals().len() implies coords(&last)[i] == coords(
            &run.measured.resolved,
        )[i] by {
            assert(last.ids()[i] == run.measured.resolved.ids()[i]);
            assert(last.vals()[i] == run.measured.resolved.vals()[i]);
        }
        assert(coords(&last) =~= coords(&run.measured.resolved));
    }
    assert(coords(&run.moved.resolved) =~= coords(&run.measured.resolved));
}

} // verus!
