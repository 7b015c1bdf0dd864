//! A remote peer as the probe knows it: its identifier, the endpoints the
//! directory lists for it, the endpoint that answered fastest, and how many
//! latency probes in a row it has failed.

use vstd::prelude::*;

use crate::fixed::{clamp, saturate, SCALE};
use crate::types::ProbeError;
use crate::utils::{directory, find_text, get_address_by_id, lemma_texts, texts};

verus! {

/// The record of one peer.
#[derive(Debug)]
pub struct Peer {
    pub encoded_public_key: String,
    pub best_endpoint: String,
    pub endpoints: Vec<String>,
    pub offline_cnt: u8,
}

/// What a peer record holds, as plain values.
pub struct PeerView {
    pub id: Seq<char>,
    pub best_endpoint: Seq<char>,
    pub endpoints: Seq<Seq<char>>,
    pub offline_cnt: u8,
}

impl View for Peer {
    type V = PeerView;

    open spec fn view(&self) -> PeerView {
        PeerView {
            id: self.encoded_public_key@,
            best_endpoint: self.best_endpoint@,
            endpoints: texts(self.endpoints@),
            offline_cnt: self.offline_cnt,
        }
    }
}

impl PeerView {
    /// A peer has at least one endpoint, and its best endpoint is one of them.
    pub open spec fn valid(self) -> bool {
        self.endpoints.len() > 0 && self.endpoints.contains(self.best_endpoint)
    }
}

/// The calibration offset that every measured latency carries, in milliseconds.
pub const ECHO_OFFSET_MS: u64 = 100;

/// Whether not one of the first `n` endpoints answered.
pub open spec fn all_down(latencies: Seq<Option<u64>>, n: int) -> bool {
    forall|k: int| 0 <= k < n ==> latencies[k] is None
}

/// Whether position `p` holds the fastest answer among the first `n`
/// endpoints: nothing was faster, and nothing before it was as fast.
pub open spec fn is_fastest(latencies: Seq<Option<u64>>, n: int, p: int) -> bool {
    &&& 0 <= p < n
    &&& latencies[p] is Some
    &&& forall|k: int|
        0 <= k < n && latencies[k] is Some ==> latencies[p].unwrap() <= (
        #[trigger] latencies[k]).unwrap()
    &&& forall|k: int|
        0 <= k < p && latencies[k] is Some ==> latencies[p].unwrap() < (
        #[trigger] latencies[k]).unwrap()
}

/// A latency of so many milliseconds with the calibration offset, as a real.
pub open spec fn spec_ttl(elapsed_ms: u64) -> int {
    clamp((elapsed_ms + ECHO_OFFSET_MS) * SCALE)
}

/// How many endpoints an echo round covers: those that have a measurement.
pub open spec fn probed(endpoints: Seq<Seq<char>>, latencies: Seq<Option<u64>>) -> int {
    if endpoints.len() <= latencies.len() {
        endpoints.len() as int
    } else {
        latencies.len() as int
    }
}

/// The position of the fastest answer among the first `n` endpoints.
pub open spec fn fastest(latencies: Seq<Option<u64>>, n: int) -> int {
    choose|p: int| is_fastest(latencies, n, p)
}

/// Only one position holds the fastest answer.
pub proof fn lemma_fastest_unique(latencies: Seq<Option<u64>>, n: int, p: int, q: int)
    requires
        is_fastest(latencies, n, p),
        is_fastest(latencies, n, q),
    ensures
        p == q,
        fastest(latencies, n) == p,
{
    if p < q {
        assert(latencies[q].unwrap() < latencies[p].unwrap());
    } else if q < p {
        assert(latencies[p].unwrap() < latencies[q].unwrap());
    }
    let f = fastest(latencies, n);
    assert(is_fastest(latencies, n, f));
    if f < p {
        assert(latencies[p].unwrap() < latencies[f].unwrap());
    } else if p < f {
        assert(latencies[f].unwrap() < latencies[p].unwrap());
    }
}

impl PeerView {
    /// The peer after the directory was asked again: where the directory
    /// still knows it, its endpoints are those listed now, and its best
    /// endpoint stays if it is still listed and is the first listed
    /// otherwise.
    pub open spec fn refreshed(self) -> PeerView {
        match directory(self.id) {
            None => self,
            Some(listed) => PeerView {
                endpoints: listed,
                best_endpoint: if listed.contains(self.best_endpoint) {
                    self.best_endpoint
                } else {
                    listed[0]
                },
                ..self
            },
        }
    }

    /// Whether a round of probes reached the peer at all.
    pub open spec fn reached(self, latencies: Seq<Option<u64>>) -> bool {
        !all_down(latencies, probed(self.refreshed().endpoints, latencies))
    }

    /// The peer after a round of probes: its endpoints are refreshed; where
    /// an endpoint answered, the fastest one is the best endpoint and the
    /// peer is online; where none did, one more failure is counted.
    pub open spec fn observed(self, latencies: Seq<Option<u64>>) -> PeerView {
        let r = self.refreshed();
        if self.reached(latencies) {
            PeerView {
                best_endpoint: r.endpoints[fastest(latencies, probed(r.endpoints, latencies))],
                offline_cnt: 0,
                ..r
            }
        } else {
            PeerView {
                offline_cnt: if r.offline_cnt == u8::MAX {
                    r.offline_cnt
                } else {
                    (r.offline_cnt + 1) as u8
                },
                ..r
            }
        }
    }

    /// The latency that a round of probes measured, if any endpoint answered.
    pub open spec fn observed_ttl(self, latencies: Seq<Option<u64>>) -> Option<i64> {
        let r = self.refreshed();
        if self.reached(latencies) {
            Some(
                spec_ttl(
                    latencies[fastest(latencies, probed(r.endpoints, latencies))].unwrap(),
                ) as i64,
            )
        } else {
            None
        }
    }
}

fn clone_texts(v: &Vec<String>) -> (r: Vec<String>)
    ensures
        texts(r@) == texts(v@),
{
    let mut r: Vec<String> = Vec::new();
    let mut i: usize = 0;
    while i < v.len()
        invariant
            i <= v.len(),
            r@.len() == i,
            forall|j: int| 0 <= j < i ==> r@[j]@ == v@[j]@,
        decreases v.len() - i,
    {
        r.push(v[i].clone());
        i += 1;
    }
    assert(texts(r@) =~= texts(v@));
    r
}

impl Clone for Peer {
    fn clone(&self) -> (r: Peer)
        ensures
            r@ == self@,
    {
        Peer {
            encoded_public_key: self.encoded_public_key.clone(),
            best_endpoint: self.best_endpoint.clone(),
            endpoints: clone_texts(&self.endpoints),
            offline_cnt: self.offline_cnt,
        }
    }
}

impl Peer {
    /// A peer that the directory knows: its endpoints are those that the
    /// directory lists, the first of them is the best one, and it counts as
    /// online. `DirectoryLookupFailed` for an identifier without endpoints.
    pub fn new(encoded_public_key: String) -> (r: Result<Peer, ProbeError>)
        ensures
            match r {
                Ok(p) => {
                    &&& directory(encoded_public_key@) == Some(p@.endpoints)
                    &&& p@.id == encoded_public_key@
                    &&& p@.best_endpoint == p@.endpoints[0]
                    &&& p@.offline_cnt == 0
                    &&& p@.valid()
                },
                Err(e) => e == ProbeError::DirectoryLookupFailed && directory(
                    encoded_public_key@,
                ) is None,
            },
    {
        match get_address_by_id(encoded_public_key.as_str()) {
            Ok(endpoints) => {
                proof {
                    lemma_texts(endpoints@);
                }
                let best: String = endpoints[0].clone();
                let p = Peer {
                    encoded_public_key,
                    best_endpoint: best,
                    endpoints,
                    offline_cnt: 0,
                };
                assert(p@.endpoints[0] == p@.best_endpoint);
                Ok(p)
            },
            Err(e) => Err(e),
        }
    }

    /// A peer from stored parts. `DecodeFailed` where the parts are no valid
    /// peer: no endpoint at all, or a best endpoint that is none of them.
    pub fn from_parts(
        encoded_public_key: String,
        best_endpoint: String,
        endpoints: Vec<String>,
        offline_cnt: u8,
    ) -> (r: Result<Peer, ProbeError>)
        ensures
            match r {
                Ok(p) => {
                    &&& p@.valid()
                    &&& p@.id == encoded_public_key@
                    &&& p@.best_endpoint == best_endpoint@
                    &&& p@.endpoints == texts(endpoints@)
                    &&& p@.offline_cnt == offline_cnt
                },
                Err(e) => e == ProbeError::DecodeFailed && !(texts(endpoints@).len() > 0 && texts(
                    endpoints@,
                ).contains(best_endpoint@)),
            },
    {
        proof {
            lemma_texts(endpoints@);
        }
        if endpoints.len() == 0 {
            return Err(ProbeError::DecodeFailed);
        }
        match find_text(&endpoints, &best_endpoint) {
            Some(_) => Ok(Peer { encoded_public_key, best_endpoint, endpoints, offline_cnt }),
            None => Err(ProbeError::DecodeFailed),
        }
    }

    /// Whether the record is a valid peer.
    pub fn is_valid(&self) -> (r: bool)
        ensures
            r == self@.valid(),
    {
        proof {
            lemma_texts(self.endpoints@);
        }
        if self.endpoints.len() == 0 {
            return false;
        }
        find_text(&self.endpoints, &self.best_endpoint).is_some()
    }

    /// Replaces the endpoints. The best endpoint stays where the new list
    /// still holds it, and becomes the first of the new list otherwise. An
    /// empty list changes nothing and gives `false`.
    pub fn replace_endpoints(&mut self, endpoints: Vec<String>) -> (replaced: bool)
        requires
            old(self)@.valid(),
        ensures
            final(self)@.valid(),
            replaced == (endpoints@.len() > 0),
            !replaced ==> final(self)@ == old(self)@,
            replaced ==> final(self)@ == (PeerView {
                endpoints: texts(endpoints@),
                best_endpoint: if texts(endpoints@).contains(old(self)@.best_endpoint) {
                    old(self)@.best_endpoint
                } else {
                    texts(endpoints@)[0]
                },
                ..old(self)@
            }),
    {
        proof {
            lemma_texts(endpoints@);
        }
        if endpoints.len() == 0 {
            return false;
        }
        match find_text(&endpoints, &self.best_endpoint) {
            Some(_) => {},
            None => {
                self.best_endpoint = endpoints[0].clone();
                assert(texts(endpoints@)[0] == endpoints@[0]@);
            },
        }
        self.endpoints = endpoints;
        true
    }

    /// Asks the directory again for this peer's endpoints and replaces them
    /// as `replace_endpoints` does. Where the directory no longer knows the
    /// peer, the record stays as it is and the result is
    /// `DirectoryLookupFailed`.
    pub fn update_endpoints(&mut self) -> (r: Result<(), ProbeError>)
        requires
            old(self)@.valid(),
        ensures
            final(self)@.valid(),
            match directory(old(self)@.id) {
                None => {
                    &&& r == Err::<(), ProbeError>(ProbeError::DirectoryLookupFailed)
                    &&& final(self)@ == old(self)@
                },
                Some(listed) => r == Ok::<(), ProbeError>(()) && final(self)@ == (PeerView {
                    endpoints: listed,
                    best_endpoint: if listed.contains(old(self)@.best_endpoint) {
                        old(self)@.best_endpoint
                    } else {
                        listed[0]
                    },
                    ..old(self)@
                }),
            },
    {
        match get_address_by_id(self.encoded_public_key.as_str()) {
            Ok(endpoints) => {
                self.replace_endpoints(endpoints);
                Ok(())
            },
            Err(e) => Err(e),
        }
    }

    /// Evaluates one round of latency probes. `latencies[k]` is the time in
    /// milliseconds that endpoint `k` took to answer, or `None` where the
    /// request failed. The fastest endpoint becomes the best endpoint (the
    /// first of them where several tie), and the result is its time plus the
    /// calibration offset. Where no endpoint answered, the result is
    /// `AllEndpointsDown` and the record stays as it is.
    pub fn echo(&mut self, latencies: &Vec<Option<u64>>) -> (r: Result<i64, ProbeError>)
        requires
            old(self)@.valid(),
        ensures
            final(self)@.valid(),
            final(self)@.id == old(self)@.id,
            final(self)@.endpoints == old(self)@.endpoints,
            final(self)@.offline_cnt == old(self)@.offline_cnt,
            match r {
                Ok(ttl) => exists|p: int|
                    {
                        &&& #[trigger] is_fastest(
                            latencies@,
                            probed(old(self)@.endpoints, latencies@),
                            p,
                        )
                        &&& final(self)@.best_endpoint == old(self)@.endpoints[p]
                        &&& ttl == spec_ttl(latencies@[p].unwrap())
                    },
                Err(e) => {
                    &&& e == ProbeError::AllEndpointsDown
                    &&& all_down(latencies@, probed(old(self)@.endpoints, latencies@))
                    &&& final(self)@ == old(self)@
                },
            },
    {
        proof {
            lemma_texts(self.endpoints@);
        }
        let n: usize = if self.endpoints.len() <= latencies.len() {
            self.endpoints.len()
        } else {
            latencies.len()
        };
        let mut best: Option<usize> = None;
        let mut best_latency: u64 = 0;
        let mut k: usize = 0;
        while k < n
            invariant
                k <= n,
                n == probed(self@.endpoints, latencies@),
                n <= latencies@.len(),
                match best {
                    None => all_down(latencies@, k as int),
                    Some(p) => is_fastest(latencies@, k as int, p as int) && latencies@[p as int]
                        == Some(best_latency),
                },
            decreases n - k,
        {
            match latencies[k] {
                None => {},
                Some(elapsed) => {
                    if best.is_none() || elapsed < best_latency {
                        best = Some(k);
                        best_latency = elapsed;
                    }
                },
            }
            k += 1;
        }
        match best {
            None => Err(ProbeError::AllEndpointsDown),
            Some(p) => {
                self.best_endpoint = self.endpoints[p].clone();
                proof {
                    assert(texts(self.endpoints@)[p as int] == self.endpoints@[p as int]@);
                    assert(self@.endpoints.contains(self@.best_endpoint));
                    assert(is_fastest(
                        latencies@,
                        probed(old(self)@.endpoints, latencies@),
                        p as int,
                    ));
                }
                let with_offset: i128 = best_latency as i128 + ECHO_OFFSET_MS as i128;
                assert(SCALE == 1_000_000_000);
                let wide: i128 = with_offset * 1_000_000_000;
                Ok(saturate(wide))
            },
        }
    }

    /// Takes in one round of latency probes: refreshes the endpoints from
    /// the directory, then evaluates the measurements as `echo` does. A peer
    /// that answered is online again and the result is its latency; one
    /// that did not has failed once more (the count stops at 255).
    pub fn observe(&mut self, latencies: &Vec<Option<u64>>) -> (r: Option<i64>)
        requires
            old(self)@.valid(),
        ensures
            final(self)@.valid(),
            final(self)@ == old(self)@.observed(latencies@),
            r == old(self)@.observed_ttl(latencies@),
    {
        let _ = self.update_endpoints();
        let ghost fresh = self@;
        match self.echo(latencies) {
            Ok(ttl) => {
                proof {
                    let p = choose|p: int|
                        {
                            &&& #[trigger] is_fastest(
                                latencies@,
                                probed(fresh.endpoints, latencies@),
                                p,
                            )
                            &&& self@.best_endpoint == fresh.endpoints[p]
                            &&& ttl == spec_ttl(latencies@[p].unwrap())
                        };
                    lemma_fastest_unique(
                        latencies@,
                        probed(fresh.endpoints, latencies@),
                        p,
                        p,
                    );
                }
                self.mark_online();
                Some(ttl)
            },
            Err(_) => {
                if self.offline_cnt < u8::MAX {
                    self.mark_offline();
                }
                None
            },
        }
    }

    /// The endpoints that the next round of latency probes goes to: those
    /// that the directory lists now, or those held where the directory no
    /// longer knows the peer.
    pub fn probe_targets(&self) -> (r: Vec<String>)
        requires
            self@.valid(),
        ensures
            texts(r@) == self@.refreshed().endpoints,
    {
        match get_address_by_id(self.encoded_public_key.as_str()) {
            Ok(endpoints) => endpoints,
            Err(_) => clone_texts(&self.endpoints),
        }
    }

    /// Where an endpoint is asked to echo a timestamp:
    /// `http://<endpoint>/echo/<timestamp>`.
    pub fn echo_url(endpoint: &String, timestamp_ms: &String) -> (r: String)
        ensures
            r@ == "http://"@ + endpoint@ + "/echo/"@ + timestamp_ms@,
    {
        let mut url: String = String::from_str("http://");
        url.append(endpoint.as_str());
        url.append("/echo/");
        url.append(timestamp_ms.as_str());
        url
    }

    /// Where this peer's coordinate map is fetched:
    /// `http://<best endpoint>/resolved`.
    pub fn resolved_url(&self) -> (r: String)
        ensures
            r@ == "http://"@ + self@.best_endpoint + "/resolved"@,
    {
        let mut url: String = String::from_str("http://");
        url.append(self.best_endpoint.as_str());
        url.append("/resolved");
        url
    }

    /// Where this peer is told that the node `encoded_public_key` has
    /// connected: `http://<best endpoint>/connected/<identifier>`.
    pub fn notify_connected_url(&self, encoded_public_key: &String) -> (r: String)
        ensures
            r@ == "http://"@ + self@.best_endpoint + "/connected/"@ + encoded_public_key@,
    {
        let mut url: String = String::from_str("http://");
        url.append(self.best_endpoint.as_str());
        url.append("/connected/");
        url.append(encoded_public_key.as_str());
        url
    }

    /// Counts a failed round of latency probes.
    pub fn mark_offline(&mut self)
        requires
            old(self).offline_cnt < u8::MAX,
        ensures
            final(self)@ == (PeerView {
                offline_cnt: (old(self)@.offline_cnt + 1) as u8,
                ..old(self)@
            }),
    {
        self.offline_cnt = self.offline_cnt + 1;
    }

    /// Records an answered round of latency probes.
    pub fn mark_online(&mut self)
        ensures
            final(self)@ == (PeerView { offline_cnt: 0, ..old(self)@ }),
    {
        self.offline_cnt = 0;
    }

    /// A peer is online while it has failed no probe since it last answered.
    pub fn is_online(&self) -> (r: bool)
        ensures
            r == (self@.offline_cnt == 0),
    {
        self.offline_cnt == 0
    }
}

} // verus!
