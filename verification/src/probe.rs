//! The state of one probe: who it is, how it is configured, what it has
//! measured, where it believes every peer to be, and whom it knows.

use vstd::prelude::*;

use crate::peer::Peer;
use crate::table::{lemma_position, Table};
use crate::types::{spec_parameters, CachedParameters, ProbeError, ProbeParameters, ProbeStatus};
use crate::utils::{
    encode_public_key, euclidean_distance, find_text, gen_random_vec, hex_text, lemma_texts, spec_distance,
    texts,
};
use crate::fixed::SCALE;

verus! {

/// The whole state of a probe. Reals are held in billionths: a telemetry
/// value is a smoothed latency in milliseconds, a coordinate a position in
/// the space whose distances stand for milliseconds.
pub struct Probe {
    /// This node's identifier.
    pub encoded_public_key: String,
    /// The configuration of this run.
    pub parameters: ProbeParameters,
    /// The smoothed latency to each peer that has answered.
    pub telemetry: Table<i64>,
    /// The coordinate vector of each peer that has one.
    pub resolved: Table<Vec<i64>>,
    /// The peers, each under its own identifier.
    pub peers: Table<Peer>,
    /// Identifiers that were heard of and are not peers yet.
    pub pending_peer_ids: Vec<String>,
    /// Whether the optimizer runs, its latest loss and its round count.
    pub status: ProbeStatus,
}

/// Every peer of the table is a valid peer and stands under its own
/// identifier.
pub open spec fn peers_valid(peers: &Table<Peer>) -> bool {
    &&& peers.wf()
    &&& forall|i: int|
        0 <= i < peers.vals().len() ==> (#[trigger] peers.vals()[i])@.valid()
            && peers.vals()[i]@.id == peers.ids()[i]
}

/// Every coordinate vector of the table has `dim` components.
pub open spec fn coordinates_valid(resolved: &Table<Vec<i64>>, dim: u64) -> bool {
    &&& resolved.wf()
    &&& forall|i: int| 0 <= i < resolved.vals().len() ==> (#[trigger] resolved.vals()[i])@.len() == dim
}

/// What `add_peer` does: the peer is added, behind the others, exactly if it
/// is neither this node nor a peer already; nothing else changes.
pub open spec fn add_peer_post(pre: &Probe, post: &Probe, peer: Peer, added: bool) -> bool {
    &&& added == (peer@.id != pre.encoded_public_key@ && !pre.peers.has(peer@.id))
    &&& added ==> post.peers.ids() == pre.peers.ids().push(peer@.id) && post.peers.vals()
        == pre.peers.vals().push(peer)
    &&& !added ==> post.peers.ids() == pre.peers.ids() && post.peers.vals() == pre.peers.vals()
    &&& post.encoded_public_key@ == pre.encoded_public_key@
    &&& post.parameters == pre.parameters
    &&& post.telemetry == pre.telemetry
    &&& post.resolved == pre.resolved
    &&& texts(post.pending_peer_ids@) == texts(pre.pending_peer_ids@)
    &&& post.status == pre.status
}

/// What `add_pending_peer` does: the identifier is queued, behind the
/// others, exactly if it is neither this node, nor a peer, nor queued
/// already; nothing else changes.
pub open spec fn add_pending_peer_post(pre: &Probe, post: &Probe, id: Seq<char>) -> bool {
    &&& texts(post.pending_peer_ids@) == if id != pre.encoded_public_key@ && !pre.peers.has(id)
        && !texts(pre.pending_peer_ids@).contains(id) {
        texts(pre.pending_peer_ids@).push(id)
    } else {
        texts(pre.pending_peer_ids@)
    }
    &&& post.encoded_public_key@ == pre.encoded_public_key@
    &&& post.parameters == pre.parameters
    &&& post.telemetry == pre.telemetry
    &&& post.resolved == pre.resolved
    &&& post.peers == pre.peers
    &&& post.status == pre.status
}

impl Probe {
    /// The invariants of the state: this node has a coordinate; it is
    /// neither its own peer nor queued to become one; every coordinate has
    /// as many components as the configuration says; every peer is valid.
    pub open spec fn wf(&self) -> bool {
        &&& self.telemetry.wf()
        &&& coordinates_valid(&self.resolved, self.parameters.dim_size)
        &&& peers_valid(&self.peers)
        &&& self.resolved.has(self.encoded_public_key@)
        &&& !self.peers.has(self.encoded_public_key@)
        &&& !texts(self.pending_peer_ids@).contains(self.encoded_public_key@)
    }

    /// Whether an identifier can be a party of an estimate at all: it is this
    /// node or one of its peers.
    pub open spec fn is_party(&self, id: Seq<char>) -> bool {
        id == self.encoded_public_key@ || self.peers.has(id)
    }

    /// Whether a party of an estimate is offline. This node never is.
    pub open spec fn party_offline(&self, id: Seq<char>) -> bool {
        id != self.encoded_public_key@ && self.peers.at(id)@.offline_cnt != 0
    }

    /// The estimated latency between two parties: the distance of their
    /// coordinates, or the first reason against, looked for in this order:
    /// one of them is neither this node nor a peer, one of them is offline,
    /// one of them has no coordinate.
    pub open spec fn spec_estimate(&self, from: Seq<char>, to: Seq<char>) -> Result<
        int,
        ProbeError,
    > {
        if !self.is_party(from) || !self.is_party(to) {
            Err(ProbeError::NotAPeer)
        } else if self.party_offline(from) || self.party_offline(to) {
            Err(ProbeError::Offline)
        } else if !self.resolved.has(from) || !self.resolved.has(to) {
            Err(ProbeError::NotResolved)
        } else {
            Ok(spec_distance(self.resolved.at(from)@, self.resolved.at(to)@))
        }
    }

    /// The best endpoint of a peer, or why there is none to give.
    pub open spec fn spec_best_endpoint(&self, to: Seq<char>) -> Result<Seq<char>, ProbeError> {
        if !self.peers.has(to) {
            Err(ProbeError::NotAPeer)
        } else if self.peers.at(to)@.offline_cnt != 0 {
            Err(ProbeError::Offline)
        } else {
            Ok(self.peers.at(to)@.best_endpoint)
        }
    }

    /// A fresh probe for the given public key. Its identifier is the
    /// lowercase hexadecimal text of the key; its configuration is what the
    /// cache holds, with defaults; it has measured a latency of zero to
    /// itself, sits at a random point of the unit cube, knows no peer, and
    /// does not optimize yet.
    pub fn new(public_key: Vec<u8>, cached: &CachedParameters) -> (r: Probe)
        requires
            spec_parameters(*cached).dim_size <= usize::MAX,
        ensures
            r.wf(),
            r.encoded_public_key@ == hex_text(public_key@),
            r.parameters == spec_parameters(*cached),
            r.telemetry.ids() == seq![r.encoded_public_key@],
            r.telemetry.vals() == seq![0i64],
            r.resolved.ids() == seq![r.encoded_public_key@],
            r.resolved.vals().len() == 1,
            forall|i: int|
                0 <= i < r.resolved.vals()[0]@.len() ==> 0 <= #[trigger] r.resolved.vals()[0]@[i]
                    < SCALE,
            r.peers.ids().len() == 0,
            r.pending_peer_ids@.len() == 0,
            !r.status.is_optimizing,
            r.status.precision_ms == 0,
            r.status.epoch == 0,
    {
        let encoded_public_key: String = encode_public_key(&public_key);
        let parameters = ProbeParameters::from_cache(cached);
        let mut telemetry: Table<i64> = Table::new();
        let mut resolved: Table<Vec<i64>> = Table::new();
        telemetry.push(encoded_public_key.clone(), 0);
        let position: Vec<i64> = gen_random_vec(parameters.dim_size as usize);
        resolved.push(encoded_public_key.clone(), position);
        let r = Probe {
            encoded_public_key,
            parameters,
            telemetry,
            resolved,
            peers: Table::new(),
            pending_peer_ids: Vec::new(),
            status: ProbeStatus { is_optimizing: false, precision_ms: 0, epoch: 0 },
        };
        proof {
            lemma_texts(r.pending_peer_ids@);
            assert(r.resolved.ids()[0] == r.encoded_public_key@);
            assert(r.telemetry.ids() =~= seq![r.encoded_public_key@]);
            assert(r.telemetry.vals() =~= seq![0i64]);
            assert(r.resolved.ids() =~= seq![r.encoded_public_key@]);
        }
        r
    }

    /// Whether the state meets its invariants.
    pub fn is_valid(&self) -> (r: bool)
        ensures
            r == self.wf(),
    {
        proof {
            lemma_texts(self.pending_peer_ids@);
        }
        if !self.telemetry.is_wf() || !self.resolved.is_wf() || !self.peers.is_wf() {
            return false;
        }
        let mut i: usize = 0;
        while i < self.resolved.len()
            invariant
                i <= self.resolved.ids().len(),
                self.resolved.wf(),
                forall|j: int|
                    0 <= j < i ==> (#[trigger] self.resolved.vals()[j])@.len()
                        == self.parameters.dim_size,
            decreases self.resolved.ids().len() - i,
        {
            if self.resolved.value(i).len() as u64 != self.parameters.dim_size {
                return false;
            }
            i += 1;
        }
        let mut k: usize = 0;
        while k < self.peers.len()
            invariant
                k <= self.peers.ids().len(),
                self.peers.wf(),
                forall|j: int|
                    0 <= j < k ==> (#[trigger] self.peers.vals()[j])@.valid()
                        && self.peers.vals()[j]@.id == self.peers.ids()[j],
            decreases self.peers.ids().len() - k,
        {
            let peer: &Peer = self.peers.value(k);
            if !peer.is_valid() || !(peer.encoded_public_key == *self.peers.key(k)) {
                return false;
            }
            k += 1;
        }
        if !self.resolved.contains_key(&self.encoded_public_key) {
            return false;
        }
        if self.peers.contains_key(&self.encoded_public_key) {
            return false;
        }
        find_text(&self.pending_peer_ids, &self.encoded_public_key).is_none()
    }

    /// A state from stored parts. `DecodeFailed` where the parts do not
    /// meet the invariants of a state.
    pub fn from_parts(
        encoded_public_key: String,
        parameters: ProbeParameters,
        telemetry: Table<i64>,
        resolved: Table<Vec<i64>>,
        peers: Table<Peer>,
        pending_peer_ids: Vec<String>,
        status: ProbeStatus,
    ) -> (r: Result<Probe, ProbeError>)
        ensures
            match r {
                Ok(p) => {
                    &&& p.wf()
                    &&& p.encoded_public_key == encoded_public_key
                    &&& p.parameters == parameters
                    &&& p.telemetry == telemetry
                    &&& p.resolved == resolved
                    &&& p.peers == peers
                    &&& p.pending_peer_ids == pending_peer_ids
                    &&& p.status == status
                },
                Err(e) => e == ProbeError::DecodeFailed && !(Probe {
                    encoded_public_key,
                    parameters,
                    telemetry,
                    resolved,
                    peers,
                    pending_peer_ids,
                    status,
                }).wf(),
            },
    {
        let p = Probe {
            encoded_public_key,
            parameters,
            telemetry,
            resolved,
            peers,
            pending_peer_ids,
            status,
        };
        if p.is_valid() {
            Ok(p)
        } else {
            Err(ProbeError::DecodeFailed)
        }
    }

    /// Admits a peer unless it is this node or a peer already. The result
    /// says whether it was admitted. A peer that is there is never replaced.
    pub fn add_peer(&mut self, peer: Peer) -> (added: bool)
        requires
            old(self).wf(),
            peer@.valid(),
        ensures
            final(self).wf(),
            add_peer_post(old(self), final(self), peer, added),
    {
        if peer.encoded_public_key == self.encoded_public_key {
            return false;
        }
        if self.peers.contains_key(&peer.encoded_public_key) {
            return false;
        }
        let id: String = peer.encoded_public_key.clone();
        self.peers.push(id, peer);
        true
    }

    /// Queues an identifier that was heard of, unless it is this node, a
    /// peer, or queued already.
    pub fn add_pending_peer(&mut self, encoded_public_key: String)
        requires
            old(self).wf(),
        ensures
            final(self).wf(),
            add_pending_peer_post(old(self), final(self), encoded_public_key@),
    {
        proof {
            lemma_texts(self.pending_peer_ids@);
        }
        if encoded_public_key == self.encoded_public_key {
            return ;
        }
        if self.peers.contains_key(&encoded_public_key) {
            return ;
        }
        if find_text(&self.pending_peer_ids, &encoded_public_key).is_some() {
            return ;
        }
        self.pending_peer_ids.push(encoded_public_key);
        proof {
            lemma_texts(self.pending_peer_ids@);
            assert(texts(self.pending_peer_ids@) =~= texts(old(self).pending_peer_ids@).push(
                encoded_public_key@,
            ));
        }
    }

    /// The best endpoint of a peer: `NotAPeer` for an identifier that is no
    /// peer, `Offline` for a peer that is offline.
    pub fn get_best_endpoint_to(&self, encoded_public_key_to: String) -> (r: Result<
        String,
        ProbeError,
    >)
        requires
            self.wf(),
        ensures
            match r {
                Ok(endpoint) => self.spec_best_endpoint(encoded_public_key_to@) == Ok::<
                    Seq<char>,
                    ProbeError,
                >(endpoint@),
                Err(e) => self.spec_best_endpoint(encoded_public_key_to@) == Err::<
                    Seq<char>,
                    ProbeError,
                >(e),
            },
    {
        match self.peers.find(&encoded_public_key_to) {
            None => Err(ProbeError::NotAPeer),
            Some(i) => {
                proof {
                    lemma_position(&self.peers, i as int);
                }
                let peer: &Peer = self.peers.value(i);
                if !peer.is_online() {
                    Err(ProbeError::Offline)
                } else {
                    Ok(peer.best_endpoint.clone())
                }
            },
        }
    }

    /// Looks a party up: nothing for a stranger, else whether it is online.
    fn check_party(&self, id: &String) -> (r: Option<bool>)
        requires
            self.wf(),
        ensures
            match r {
                None => !self.is_party(id@),
                Some(online) => self.is_party(id@) && online == !self.party_offline(id@),
            },
    {
        if *id == self.encoded_public_key {
            return Some(true);
        }
        match self.peers.find(id) {
            None => None,
            Some(i) => {
                proof {
                    lemma_position(&self.peers, i as int);
                }
                Some(self.peers.value(i).is_online())
            },
        }
    }

    /// Estimates the latency between two parties as the distance between
    /// their coordinates. The result is `NotAPeer` where one of the two is
    /// neither this node nor a peer; else `Offline` where one of them is
    /// offline; else `NotResolved` where one of them has no coordinate.
    pub fn estimate(&self, encoded_public_key_from: String, encoded_public_key_to: String) -> (r:
        Result<i64, ProbeError>)
        requires
            self.wf(),
        ensures
            match r {
                Ok(d) => self.spec_estimate(encoded_public_key_from@, encoded_public_key_to@)
                    == Ok::<int, ProbeError>(d as int),
                Err(e) => self.spec_estimate(encoded_public_key_from@, encoded_public_key_to@)
                    == Err::<int, ProbeError>(e),
            },
    {
        let from_online: bool = match self.check_party(&encoded_public_key_from) {
            Some(online) => online,
            None => {
                return Err(ProbeError::NotAPeer);
            },
        };
        let to_online: bool = match self.check_party(&encoded_public_key_to) {
            Some(online) => online,
            None => {
                return Err(ProbeError::NotAPeer);
            },
        };
        if !from_online || !to_online {
            return Err(ProbeError::Offline);
        }
        let from: usize = match self.resolved.find(&encoded_public_key_from) {
            Some(i) => i,
            None => {
                return Err(ProbeError::NotResolved);
            },
        };
        let to: usize = match self.resolved.find(&encoded_public_key_to) {
            Some(i) => i,
            None => {
                return Err(ProbeError::NotResolved);
            },
        };
        proof {
            lemma_position(&self.resolved, from as int);
            lemma_position(&self.resolved, to as int);
        }
        Ok(euclidean_distance(self.resolved.value(from).as_slice(), self.resolved.value(to).as_slice()))
    }

    /// Lets the optimizer run.
    pub fn start_optimize(&mut self)
        ensures
            final(self).status == (ProbeStatus { is_optimizing: true, ..old(self).status }),
            final(self).encoded_public_key == old(self).encoded_public_key,
            final(self).parameters == old(self).parameters,
            final(self).telemetry == old(self).telemetry,
            final(self).resolved == old(self).resolved,
            final(self).peers == old(self).peers,
            final(self).pending_peer_ids == old(self).pending_peer_ids,
    {
        self.status.is_optimizing = true;
    }

    /// Holds the optimizer back.
    pub fn stop_optimize(&mut self)
        ensures
            final(self).status == (ProbeStatus { is_optimizing: false, ..old(self).status }),
            final(self).encoded_public_key == old(self).encoded_public_key,
            final(self).parameters == old(self).parameters,
            final(self).telemetry == old(self).telemetry,
            final(self).resolved == old(self).resolved,
            final(self).peers == old(self).peers,
            final(self).pending_peer_ids == old(self).pending_peer_ids,
    {
        self.status.is_optimizing = false;
    }
}

} // verus!
