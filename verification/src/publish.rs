//! The end of a round: what the round computed replaces what the probe
//! held, the identifiers heard of become peers where the directory knows
//! them, and peers that have failed too often are dropped.

use vstd::prelude::*;

use crate::peer::{Peer, PeerView};
use crate::probe::{peers_valid, Probe};
use crate::sampling::peer_views;
use crate::table::Table;
use crate::types::ProbeStatus;
use crate::utils::{directory, lemma_texts, texts};

verus! {

/// A peer as it is right after the directory was asked for it.
pub open spec fn fresh_view(id: Seq<char>) -> PeerView {
    PeerView {
        id,
        best_endpoint: directory(id).unwrap()[0],
        endpoints: directory(id).unwrap(),
        offline_cnt: 0,
    }
}

/// Among the first `n` identifiers of the queue, those that become peers, in
/// queue order: the directory knows them, they are not this node, not
/// peers already, and were not admitted earlier in the queue.
pub open spec fn admitted(
    me: Seq<char>,
    known: Seq<Seq<char>>,
    queue: Seq<Seq<char>>,
    n: nat,
) -> Seq<Seq<char>>
    decreases n,
{
    if n == 0 {
        Seq::empty()
    } else {
        let before = admitted(me, known, queue, (n - 1) as nat);
        let id = queue[n - 1];
        if directory(id) is Some && id != me && !known.contains(id) && !before.contains(id) {
            before.push(id)
        } else {
            before
        }
    }
}

/// Among the first `n` peers, those that have failed fewer than `max`
/// probes in a row, in table order.
pub open spec fn surviving(views: Seq<PeerView>, max: u8, n: nat) -> Seq<PeerView>
    decreases n,
{
    if n == 0 {
        Seq::empty()
    } else if views[n - 1].offline_cnt < max {
        surviving(views, max, (n - 1) as nat).push(views[n - 1])
    } else {
        surviving(views, max, (n - 1) as nat)
    }
}

/// Whether a round belongs to a state: both speak of the same node and of
/// coordinates of the same length.
pub open spec fn compatible(state: &Probe, round: &Probe) -> bool {
    &&& round.encoded_public_key@ == state.encoded_public_key@
    &&& round.parameters.dim_size == state.parameters.dim_size
}

/// Every survivor is one of the peers, and has failed fewer than `max`
/// probes.
pub proof fn lemma_surviving(views: Seq<PeerView>, max: u8, n: nat)
    requires
        n <= views.len(),
    ensures
        surviving(views, max, n).len() <= n,
        forall|k: int|
            0 <= k < surviving(views, max, n).len() ==> (#[trigger] surviving(
                views,
                max,
                n,
            )[k]).offline_cnt < max && exists|j: int|
                0 <= j < n && views[j] == surviving(views, max, n)[k],
        forall|j: int|
            0 <= j < n && (#[trigger] views[j]).offline_cnt < max ==> surviving(
                views,
                max,
                n,
            ).contains(views[j]),
    decreases n,
{
    if n > 0 {
        lemma_surviving(views, max, (n - 1) as nat);
        let before = surviving(views, max, (n - 1) as nat);
        let now = surviving(views, max, n);
        if views[n - 1].offline_cnt < max {
            assert(now == before.push(views[n - 1]));
            assert forall|k: int| 0 <= k < now.len() implies (#[trigger] now[k]).offline_cnt < max
                && exists|j: int| 0 <= j < n && views[j] == now[k] by {
                if k < before.len() {
                    assert(now[k] == before[k]);
                    let j = choose|j: int| 0 <= j < n - 1 && views[j] == before[k];
                    assert(views[j] == now[k]);
                } else {
                    assert(views[n - 1] == now[k]);
                }
            }
            assert forall|j: int| 0 <= j < n && (#[trigger] views[j]).offline_cnt
                < max implies now.contains(views[j]) by {
                if j < n - 1 {
                    assert(before.contains(views[j]));
                    let k = choose|k: int| 0 <= k < before.len() && before[k] == views[j];
                    assert(now[k] == views[j]);
                } else {
                    assert(now[now.len() - 1] == views[j]);
                }
            }
        } else {
            assert(now == before);
            assert forall|k: int| 0 <= k < now.len() implies (#[trigger] now[k]).offline_cnt < max
                && exists|j: int| 0 <= j < n && views[j] == now[k] by {
                let j = choose|j: int| 0 <= j < n - 1 && views[j] == before[k];
                assert(views[j] == now[k]);
            }
        }
    }
}

/// Drops the peers that have failed `max` probes in a row or more.
pub fn evict(peers: &Table<Peer>, max: u8) -> (kept: Table<Peer>)
    requires
        peers_valid(peers),
    ensures
        peers_valid(&kept),
        peer_views(&kept) == surviving(peer_views(peers), max, peers.ids().len()),
        forall|id: Seq<char>| #[trigger] kept.has(id) ==> peers.has(id),
{
    let n: usize = peers.len();
    let ghost views = peer_views(peers);
    let mut kept: Table<Peer> = Table::new();
    let mut i: usize = 0;
    proof {
        assert(peer_views(&kept) =~= surviving(views, max, 0));
    }
    while i < n
        invariant
            i <= n,
            n == peers.ids().len(),
            views == peer_views(peers),
            peers_valid(peers),
            peers_valid(&kept),
            peer_views(&kept) == surviving(views, max, i as nat),
            forall|k: int|
                0 <= k < kept.ids().len() ==> exists|j: int|
                    0 <= j < i && peers.ids()[j] == #[trigger] kept.ids()[k],
        decreases n - i,
    {
        let peer: &Peer = peers.value(i);
        assert(views[i as int] == peer@);
        if peer.offline_cnt < max {
            let ghost held = peer_views(&kept);
            let ghost held_ids = kept.ids();
            proof {
                if kept.has(peers.ids()[i as int]) {
                    let k = kept.ids().index_of(peers.ids()[i as int]);
                    let j = choose|j: int| 0 <= j < i && peers.ids()[j] == kept.ids()[k];
                    assert(peers.ids()[j] == peers.ids()[i as int]);
                }
            }
            let copy: Peer = peer.clone();
            kept.push(peers.key(i).clone(), copy);
            proof {
                assert(peer_views(&kept) =~= held.push(peer@));
                assert forall|k: int| 0 <= k < kept.ids().len() implies exists|j: int|
                    0 <= j < i + 1 && peers.ids()[j] == #[trigger] kept.ids()[k] by {
                    if k < held_ids.len() {
                        let j = choose|j: int| 0 <= j < i && peers.ids()[j] == held_ids[k];
                        assert(peers.ids()[j] == kept.ids()[k]);
                    } else {
                        assert(peers.ids()[i as int] == kept.ids()[k]);
                    }
                }
                assert forall|k: int| 0 <= k < kept.vals().len() implies (
                #[trigger] kept.vals()[k])@.valid() && kept.vals()[k]@.id == kept.ids()[k] by {
                    if k == held_ids.len() {
                        assert(kept.vals()[k]@ == peer@);
                    }
                }
            }
        }
        i += 1;
    }
    proof {
        assert forall|id: Seq<char>| #[trigger] kept.has(id) implies peers.has(id) by {
            let k = kept.ids().index_of(id);
            let j = choose|j: int| 0 <= j < n && peers.ids()[j] == kept.ids()[k];
            assert(peers.ids()[j] == id);
        }
    }
    kept
}

/// What `publish` makes of a state, given a round and the identifiers that
/// the round discovered. A round of another node or of another dimension
/// changes nothing. Otherwise telemetry and coordinates are the round's;
/// the peers are the round's and, behind them, a fresh peer for every
/// identifier admitted from the queue and the discovered ones, less those
/// that have failed too often; the queue is empty; precision and round
/// count are the round's; `notify` lists the admitted.
pub open spec fn published(
    before: &Probe,
    round: &Probe,
    discovered: Seq<String>,
    after: &Probe,
    notify: Seq<Peer>,
) -> bool {
    &&& after.encoded_public_key@ == before.encoded_public_key@
    &&& after.parameters == before.parameters
    &&& !compatible(before, round) ==> {
        &&& notify.len() == 0
        &&& after.telemetry == before.telemetry
        &&& after.resolved == before.resolved
        &&& after.peers == before.peers
        &&& after.pending_peer_ids == before.pending_peer_ids
        &&& after.status == before.status
    }
    &&& compatible(before, round) ==> ({
        let queue = texts(before.pending_peer_ids@) + texts(discovered);
        let fresh = admitted(before.encoded_public_key@, round.peers.ids(), queue, queue.len());
        let all = peer_views(&round.peers) + fresh.map_values(|id: Seq<char>| fresh_view(id));
        &&& after.telemetry == round.telemetry
        &&& after.resolved == round.resolved
        &&& peer_views(&after.peers) == surviving(all, before.parameters.max_offline_cnt, all.len())
        &&& after.pending_peer_ids@.len() == 0
        &&& after.status == (ProbeStatus {
            is_optimizing: before.status.is_optimizing,
            precision_ms: round.status.precision_ms,
            epoch: round.status.epoch,
        })
        &&& notify.len() == fresh.len()
        &&& forall|i: int| 0 <= i < fresh.len() ==> (#[trigger] notify[i])@ == fresh_view(fresh[i])
    })
}

impl Probe {
    /// Hands the result of a round back to the state. A round that does not
    /// belong to this state is dropped and changes nothing. Otherwise the
    /// round's telemetry, coordinates and peers replace those held, the
    /// round's precision and count become the status (whether the optimizer
    /// runs stays as the state has it), and every identifier queued or
    /// discovered is looked up in the directory and admitted as `add_peer`
    /// admits. The queue is empty afterwards. Last, peers with
    /// `max_offline_cnt` failures or more are dropped. The result lists the
    /// peers that were admitted, in the order of the queue.
    pub fn publish(&mut self, round: Probe, discovered: Vec<String>) -> (notify: Vec<Peer>)
        requires
            old(self).wf(),
            round.wf(),
        ensures
            final(self).wf(),
            published(old(self), &round, discovered@, final(self), notify@),
    {
        let same_node: bool = round.encoded_public_key == self.encoded_public_key;
        if !same_node || round.parameters.dim_size != self.parameters.dim_size {
            return Vec::new();
        }
        let mut queue: Vec<String> = Vec::new();
        std::mem::swap(&mut self.pending_peer_ids, &mut queue);
        let mut found: Vec<String> = discovered;
        proof {
            lemma_texts(queue@);
            lemma_texts(found@);
        }
        queue.append(&mut found);
        proof {
            lemma_texts(queue@);
            lemma_texts(self.pending_peer_ids@);
            assert(texts(queue@) =~= texts(old(self).pending_peer_ids@) + texts(discovered@));
        }
        let ghost known = round.peers.ids();
        let ghost known_views = peer_views(&round.peers);
        let ghost me = self.encoded_public_key@;
        self.status = ProbeStatus {
            is_optimizing: self.status.is_optimizing,
            precision_ms: round.status.precision_ms,
            epoch: round.status.epoch,
        };
        self.telemetry = round.telemetry;
        self.resolved = round.resolved;
        self.peers = round.peers;
        let mut notify: Vec<Peer> = Vec::new();
        let mut j: usize = 0;
        proof {
            assert(self.peers.ids() =~= known + admitted(me, known, texts(queue@), 0));
            assert(peer_views(&self.peers) =~= known_views + admitted(
                me,
                known,
                texts(queue@),
                0,
            ).map_values(|id: Seq<char>| fresh_view(id)));
        }
        while j < queue.len()
            invariant
                j <= queue@.len(),
                texts(queue@).len() == queue@.len(),
                self.wf(),
                me == self.encoded_public_key@,
                self.encoded_public_key@ == old(self).encoded_public_key@,
                self.parameters == old(self).parameters,
                self.telemetry == round.telemetry,
                self.resolved == round.resolved,
                self.pending_peer_ids@.len() == 0,
                self.status == (ProbeStatus {
                    is_optimizing: old(self).status.is_optimizing,
                    precision_ms: round.status.precision_ms,
                    epoch: round.status.epoch,
                }),
                self.peers.ids() == known + admitted(me, known, texts(queue@), j as nat),
                peer_views(&self.peers) == known_views + admitted(
                    me,
                    known,
                    texts(queue@),
                    j as nat,
                ).map_values(|id: Seq<char>| fresh_view(id)),
                notify@.len() == admitted(me, known, texts(queue@), j as nat).len(),
                forall|i: int|
                    0 <= i < notify@.len() ==> (#[trigger] notify@[i])@ == fresh_view(
                        admitted(me, known, texts(queue@), j as nat)[i],
                    ),
            decreases queue@.len() - j,
        {
            let id: &String = &queue[j];
            assert(texts(queue@)[j as int] == id@);
            let ghost before = admitted(me, known, texts(queue@), j as nat);
            let ghost held = peer_views(&self.peers);
            proof {
                if self.peers.has(id@) {
                    let p = self.peers.ids().index_of(id@);
                    if p < known.len() {
                        assert(known[p] == id@);
                    } else {
                        assert(before[p - known.len()] == id@);
                    }
                }
                if known.contains(id@) {
                    let p = known.index_of(id@);
                    assert(self.peers.ids()[p] == id@);
                }
                if before.contains(id@) {
                    let p = before.index_of(id@);
                    assert(self.peers.ids()[known.len() + p] == id@);
                }
            }
            match Peer::new(id.clone()) {
                Ok(peer) => {
                    assert(peer@ == fresh_view(id@));
                    let copy: Peer = peer.clone();
                    let added: bool = self.add_peer(peer);
                    if added {
                        notify.push(copy);
                        proof {
                            let after = before.push(id@);
                            assert(self.peers.ids() =~= known + after);
                            assert(peer_views(&self.peers) =~= held.push(fresh_view(id@)));
                            assert(peer_views(&self.peers) =~= known_views + after.map_values(
                                |id: Seq<char>| fresh_view(id),
                            ));
                        }
                    }
                },
                Err(_) => {},
            }
            j += 1;
        }
        let kept: Table<Peer> = evict(&self.peers, self.parameters.max_offline_cnt);
        self.peers = kept;
        notify
    }
}

} // verus!
