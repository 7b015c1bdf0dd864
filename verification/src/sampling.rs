//! Choosing whom to ask: the peers of one kind, and a random handful of them.

use vstd::prelude::*;

use crate::peer::{Peer, PeerView};
use crate::table::Table;
use crate::utils::{choose_positions, lemma_texts, texts};

verus! {

/// What the peers of a table hold, as plain values, in table order.
pub open spec fn peer_views(peers: &Table<Peer>) -> Seq<PeerView> {
    peers.vals().map_values(|p: Peer| p@)
}

/// Among the first `n` peers, the identifiers of those that are online, or
/// of those that are offline, in table order.
pub open spec fn selected(views: Seq<PeerView>, n: nat, online: bool) -> Seq<Seq<char>>
    decreases n,
{
    if n == 0 {
        Seq::empty()
    } else if (views[n - 1].offline_cnt == 0) == online {
        selected(views, (n - 1) as nat, online).push(views[n - 1].id)
    } else {
        selected(views, (n - 1) as nat, online)
    }
}

/// Whether `picked` was drawn from `pool` without replacement: each pick
/// stands at a place of its own in the pool.
pub open spec fn is_sample(pool: Seq<Seq<char>>, picked: Seq<Seq<char>>) -> bool {
    exists|at: Seq<int>|
        {
            &&& at.len() == picked.len()
            &&& at.no_duplicates()
            &&& forall|i: int|
                0 <= i < picked.len() ==> 0 <= #[trigger] at[i] < pool.len() && picked[i]
                    == pool[at[i]]
        }
}

/// A sample holds only what the pool holds, and nothing twice where the pool
/// holds nothing twice.
pub proof fn lemma_sample(pool: Seq<Seq<char>>, picked: Seq<Seq<char>>)
    requires
        is_sample(pool, picked),
    ensures
        forall|i: int| 0 <= i < picked.len() ==> pool.contains(#[trigger] picked[i]),
        pool.no_duplicates() ==> picked.no_duplicates(),
{
    let at = choose|at: Seq<int>|
        {
            &&& at.len() == picked.len()
            &&& at.no_duplicates()
            &&& forall|i: int|
                0 <= i < picked.len() ==> 0 <= #[trigger] at[i] < pool.len() && picked[i]
                    == pool[at[i]]
        };
    assert forall|i: int| 0 <= i < picked.len() implies pool.contains(#[trigger] picked[i]) by {
        assert(picked[i] == pool[at[i]]);
    }
    if pool.no_duplicates() {
        assert forall|i: int, j: int|
            0 <= i < picked.len() && 0 <= j < picked.len() && i != j implies picked[i]
            != picked[j] by {
            assert(at[i] != at[j]);
            assert(picked[i] == pool[at[i]]);
            assert(picked[j] == pool[at[j]]);
        }
    }
}

/// The identifiers of the peers that are online (or, with `online` false,
/// offline), in table order.
pub fn select_peers(peers: &Table<Peer>, online: bool) -> (r: Vec<String>)
    requires
        peers.wf(),
    ensures
        texts(r@) == selected(peer_views(peers), peers.ids().len(), online),
{
    let n: usize = peers.len();
    let mut r: Vec<String> = Vec::new();
    let mut i: usize = 0;
    proof {
        lemma_texts(r@);
        assert(texts(r@) =~= selected(peer_views(peers), 0, online));
    }
    while i < n
        invariant
            i <= n,
            n == peers.ids().len(),
            peers.wf(),
            texts(r@) == selected(peer_views(peers), i as nat, online),
        decreases n - i,
    {
        let peer: &Peer = peers.value(i);
        assert(peer_views(peers)[i as int] == peer@);
        if peer.is_online() == online {
            let ghost before = texts(r@);
            proof {
                lemma_texts(r@);
            }
            r.push(peer.encoded_public_key.clone());
            proof {
                lemma_texts(r@);
                assert(texts(r@) =~= before.push(peer@.id));
            }
        }
        i += 1;
    }
    r
}

/// Draws up to `amount` of the candidates at random, without replacement:
/// all of them where there are no more than `amount`.
pub fn sample_ids(candidates: &Vec<String>, amount: u64) -> (r: Vec<String>)
    ensures
        r@.len() == if candidates@.len() <= amount {
            candidates@.len()
        } else {
            amount as nat
        },
        is_sample(texts(candidates@), texts(r@)),
{
    let want: usize = if candidates.len() as u64 <= amount {
        candidates.len()
    } else {
        amount as usize
    };
    let positions: Vec<usize> = choose_positions(candidates, want);
    let mut r: Vec<String> = Vec::new();
    let mut i: usize = 0;
    while i < positions.len()
        invariant
            i <= positions@.len(),
            r@.len() == i,
            forall|j: int| 0 <= j < positions@.len() ==> positions@[j] < candidates@.len(),
            forall|j: int| 0 <= j < i ==> r@[j]@ == candidates@[positions@[j] as int]@,
        decreases positions@.len() - i,
    {
        r.push(candidates[positions[i]].clone());
        i += 1;
    }
    proof {
        lemma_texts(r@);
        lemma_texts(candidates@);
        let at = positions@.map_values(|p: usize| p as int);
        assert(at.no_duplicates()) by {
            assert forall|a: int, b: int| 0 <= a < at.len() && 0 <= b < at.len() && a != b implies at[a]
                != at[b] by {
                assert(positions@[a] != positions@[b]);
            }
        }
        assert forall|j: int| 0 <= j < texts(r@).len() implies 0 <= #[trigger] at[j] < texts(
            candidates@,
        ).len() && texts(r@)[j] == texts(candidates@)[at[j]] by {
            assert(r@[j]@ == candidates@[positions@[j] as int]@);
        }
        assert(is_sample(texts(candidates@), texts(r@)));
    }
    r
}

} // verus!
