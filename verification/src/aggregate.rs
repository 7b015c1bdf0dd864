//! Gossip aggregation: the coordinate maps of other peers are merged into
//! this node's own, entry by entry, and each merged coordinate is averaged
//! over what went into it.

use vstd::prelude::*;

use crate::fixed::{plus, share, spec_plus, spec_share};
use crate::embedding::shorter;
use crate::table::{lemma_position, Table};
use crate::utils::{find_text, lemma_texts, texts};

verus! {

/// The coordinate vectors of a table, as plain sequences, in table order.
pub open spec fn coords(t: &Table<Vec<i64>>) -> Seq<Seq<i64>> {
    t.vals().map_values(|v: Vec<i64>| v@)
}

/// A coordinate map while maps of other peers are merged into it.
pub struct Merge {
    /// The identifiers of the map.
    pub ids: Seq<Seq<char>>,
    /// The coordinate vector of each identifier.
    pub vecs: Seq<Seq<i64>>,
    /// For each identifier, by how much its vector is to be divided; zero
    /// where nothing was merged into it.
    pub counts: Seq<u64>,
    /// The identifiers met so far, each once, in the order of meeting.
    pub pending: Seq<Seq<char>>,
}

/// The sum of two vectors, over the components that both have.
pub open spec fn spec_vector_sum(a: Seq<i64>, b: Seq<i64>) -> Seq<i64> {
    Seq::new(shorter(a.len(), b.len()), |i: int| spec_plus(a[i], b[i]))
}

/// A vector divided by a count.
pub open spec fn spec_vector_share(a: Seq<i64>, count: u64) -> Seq<i64> {
    Seq::new(a.len(), |i: int| spec_share(a[i], count))
}

/// The count after one more vector was added to an entry that was there: two
/// at the first time, one more at each later time.
pub open spec fn bumped(count: u64) -> u64 {
    if count == 0 {
        2
    } else if count == u64::MAX {
        count
    } else {
        (count + 1) as u64
    }
}

/// Merges one entry of a remote map. The identifier is noted as met. A
/// vector of the wrong length is passed over. A vector for an identifier
/// that the map holds is added to the one held; one for a new identifier is
/// taken as it is, with the count one.
pub open spec fn merge_one(s: Merge, k: Seq<char>, v: Seq<i64>, dim: u64) -> Merge {
    let pending = if s.pending.contains(k) {
        s.pending
    } else {
        s.pending.push(k)
    };
    if v.len() != dim {
        Merge { pending, ..s }
    } else if s.ids.contains(k) {
        let i = s.ids.index_of(k);
        Merge {
            vecs: s.vecs.update(i, spec_vector_sum(s.vecs[i], v)),
            counts: s.counts.update(i, bumped(s.counts[i])),
            pending,
            ..s
        }
    } else {
        Merge {
            ids: s.ids.push(k),
            vecs: s.vecs.push(v),
            counts: s.counts.push(1),
            pending,
        }
    }
}

/// Merges the first `n` entries of a remote map, in its order.
pub open spec fn merge_map(s: Merge, remote: &Table<Vec<i64>>, n: nat, dim: u64) -> Merge
    decreases n,
{
    if n == 0 {
        s
    } else {
        merge_one(
            merge_map(s, remote, (n - 1) as nat, dim),
            remote.ids()[n - 1],
            coords(remote)[n - 1],
            dim,
        )
    }
}

/// Merges the first `n` of the fetched maps, in their order; a fetch that
/// failed adds nothing.
pub open spec fn merge_all(s: Merge, fetched: Seq<Option<Table<Vec<i64>>>>, n: nat, dim: u64) -> Merge
    decreases n,
{
    if n == 0 {
        s
    } else {
        let before = merge_all(s, fetched, (n - 1) as nat, dim);
        match fetched[n - 1] {
            None => before,
            Some(remote) => merge_map(before, &remote, remote.ids().len(), dim),
        }
    }
}

/// The vectors, each divided by its count where it has one.
pub open spec fn spec_averaged(vecs: Seq<Seq<i64>>, counts: Seq<u64>) -> Seq<Seq<i64>> {
    Seq::new(
        vecs.len(),
        |i: int|
            if counts[i] > 0 {
                spec_vector_share(vecs[i], counts[i])
            } else {
                vecs[i]
            },
    )
}

/// Whether any vector has a count.
pub open spec fn any_count(counts: Seq<u64>) -> bool {
    exists|i: int| 0 <= i < counts.len() && counts[i] > 0
}

/// The vectors of a merge, each divided by its count where it has one.
pub open spec fn averaged(s: Merge) -> Seq<Seq<i64>> {
    spec_averaged(s.vecs, s.counts)
}

/// Whether anything was merged.
pub open spec fn any_merged(s: Merge) -> bool {
    any_count(s.counts)
}

/// A merge in which every identifier has a vector of `dim` components and a
/// count, and no identifier occurs twice.
pub open spec fn merge_valid(s: Merge, dim: u64) -> bool {
    &&& s.ids.len() == s.vecs.len()
    &&& s.ids.len() == s.counts.len()
    &&& s.ids.no_duplicates()
    &&& forall|i: int| 0 <= i < s.vecs.len() ==> (#[trigger] s.vecs[i]).len() == dim
}

/// Merging an entry keeps a merge valid, keeps what it held, and leaves
/// every identifier at its place.
pub proof fn lemma_merge_one(s: Merge, k: Seq<char>, v: Seq<i64>, dim: u64)
    requires
        merge_valid(s, dim),
    ensures
        merge_valid(merge_one(s, k, v, dim), dim),
        s.ids.len() <= merge_one(s, k, v, dim).ids.len(),
        forall|i: int| 0 <= i < s.ids.len() ==> merge_one(s, k, v, dim).ids[i] == s.ids[i],
        forall|i: int|
            0 <= i < s.counts.len() && s.counts[i] > 0 ==> merge_one(s, k, v, dim).counts[i] > 0,
{
    let t = merge_one(s, k, v, dim);
    if v.len() == dim && !s.ids.contains(k) {
        assert forall|i: int, j: int| 0 <= i < t.ids.len() && 0 <= j < t.ids.len() && i != j implies t.ids[i] != t.ids[j] by {
            if i == s.ids.len() {
                assert(s.ids[j] != k);
            } else if j == s.ids.len() {
                assert(s.ids[i] != k);
            }
        }
    }
}

/// The sum of two vectors.
pub fn vector_sum(a: &Vec<i64>, b: &Vec<i64>) -> (r: Vec<i64>)
    ensures
        r@ == spec_vector_sum(a@, b@),
{
    let len: usize = if a.len() <= b.len() {
        a.len()
    } else {
        b.len()
    };
    let mut r: Vec<i64> = Vec::new();
    let mut i: usize = 0;
    while i < len
        invariant
            i <= len,
            len == shorter(a@.len(), b@.len()),
            r@.len() == i,
            forall|j: int| 0 <= j < i ==> r@[j] == spec_plus(a@[j], b@[j]),
        decreases len - i,
    {
        r.push(plus(a[i], b[i]));
        i += 1;
    }
    assert(r@ =~= spec_vector_sum(a@, b@));
    r
}

/// A vector divided by a count.
pub fn vector_share(a: &Vec<i64>, count: u64) -> (r: Vec<i64>)
    ensures
        r@ == spec_vector_share(a@, count),
{
    let mut r: Vec<i64> = Vec::new();
    let mut i: usize = 0;
    while i < a.len()
        invariant
            i <= a.len(),
            r@.len() == i,
            forall|j: int| 0 <= j < i ==> r@[j] == spec_share(a@[j], count),
        decreases a.len() - i,
    {
        r.push(share(a[i], count));
        i += 1;
    }
    assert(r@ =~= spec_vector_share(a@, count));
    r
}

/// A copy of a vector.
pub fn copy_vector(a: &Vec<i64>) -> (r: Vec<i64>)
    ensures
        r@ == a@,
{
    let mut r: Vec<i64> = Vec::new();
    let mut i: usize = 0;
    while i < a.len()
        invariant
            i <= a.len(),
            r@.len() == i,
            forall|j: int| 0 <= j < i ==> r@[j] == a@[j],
        decreases a.len() - i,
    {
        r.push(a[i]);
        i += 1;
    }
    assert(r@ =~= a@);
    r
}

/// The merge that a coordinate table, its counts and a list of met
/// identifiers stand for.
pub open spec fn merge_of(resolved: &Table<Vec<i64>>, counts: Seq<u64>, pending: Seq<String>) -> Merge {
    Merge { ids: resolved.ids(), vecs: coords(resolved), counts, pending: texts(pending) }
}

/// Merges one entry of a remote map into the table.
pub fn merge_entry(
    resolved: &mut Table<Vec<i64>>,
    counts: &mut Vec<u64>,
    pending: &mut Vec<String>,
    k: &String,
    v: &Vec<i64>,
    dim: u64,
)
    requires
        old(resolved).wf(),
        merge_valid(merge_of(old(resolved), old(counts)@, old(pending)@), dim),
    ensures
        final(resolved).wf(),
        merge_of(final(resolved), final(counts)@, final(pending)@) == merge_one(
            merge_of(old(resolved), old(counts)@, old(pending)@),
            k@,
            v@,
            dim,
        ),
{
    let ghost before = merge_of(resolved, counts@, pending@);
    proof {
        lemma_texts(pending@);
    }
    if find_text(pending, k).is_none() {
        pending.push(k.clone());
        proof {
            lemma_texts(pending@);
            assert(texts(pending@) =~= texts(old(pending)@).push(k@));
        }
    }
    if v.len() as u64 != dim {
        return ;
    }
    match resolved.find(k) {
        Some(i) => {
            proof {
                lemma_position(resolved, i as int);
            }
            let sum: Vec<i64> = vector_sum(resolved.value(i), v);
            let count: u64 = counts[i];
            let next: u64 = if count == 0 {
                2
            } else if count == u64::MAX {
                count
            } else {
                count + 1
            };
            resolved.set(i, sum);
            counts.set(i, next);
            proof {
                assert(coords(resolved) =~= before.vecs.update(
                    i as int,
                    spec_vector_sum(before.vecs[i as int], v@),
                ));
            }
        },
        None => {
            resolved.push(k.clone(), copy_vector(v));
            counts.push(1);
            proof {
                assert(coords(resolved) =~= before.vecs.push(v@));
            }
        },
    }
}

/// Merges a remote map into the table, entry by entry in the map's order.
pub fn merge_remote(
    resolved: &mut Table<Vec<i64>>,
    counts: &mut Vec<u64>,
    pending: &mut Vec<String>,
    remote: &Table<Vec<i64>>,
    dim: u64,
)
    requires
        old(resolved).wf(),
        remote.wf(),
        merge_valid(merge_of(old(resolved), old(counts)@, old(pending)@), dim),
    ensures
        final(resolved).wf(),
        merge_valid(merge_of(final(resolved), final(counts)@, final(pending)@), dim),
        merge_of(final(resolved), final(counts)@, final(pending)@) == merge_map(
            merge_of(old(resolved), old(counts)@, old(pending)@),
            remote,
            remote.ids().len(),
            dim,
        ),
        old(resolved).ids().len() <= final(resolved).ids().len(),
        forall|i: int|
            0 <= i < old(resolved).ids().len() ==> #[trigger] final(resolved).ids()[i] == old(resolved).ids()[i],
{
    let ghost start = merge_of(resolved, counts@, pending@);
    let n: usize = remote.len();
    let mut i: usize = 0;
    while i < n
        invariant
            i <= n,
            n == remote.ids().len(),
            remote.wf(),
            resolved.wf(),
            merge_valid(merge_of(resolved, counts@, pending@), dim),
            merge_of(resolved, counts@, pending@) == merge_map(start, remote, i as nat, dim),
            start.ids.len() <= resolved.ids().len(),
            forall|k: int| 0 <= k < start.ids.len() ==> #[trigger] resolved.ids()[k] == start.ids[k],
        decreases n - i,
    {
        proof {
            lemma_merge_one(
                merge_of(resolved, counts@, pending@),
                remote.ids()[i as int],
                coords(remote)[i as int],
                dim,
            );
        }
        merge_entry(resolved, counts, pending, remote.key(i), remote.value(i), dim);
        i += 1;
    }
}

/// The merge that starts from a coordinate table: nothing merged yet.
pub open spec fn merge_start(resolved: &Table<Vec<i64>>, pending: Seq<String>) -> Merge {
    Merge {
        ids: resolved.ids(),
        vecs: coords(resolved),
        counts: Seq::new(resolved.ids().len(), |i: int| 0u64),
        pending: texts(pending),
    }
}

/// A count of zero for every coordinate of a table: nothing merged yet.
pub fn start_counts(resolved: &Table<Vec<i64>>) -> (counts: Vec<u64>)
    ensures
        counts@ == Seq::new(resolved.ids().len(), |i: int| 0u64),
{
    let mut counts: Vec<u64> = Vec::new();
    let mut c: usize = 0;
    while c < resolved.len()
        invariant
            c <= resolved.ids().len(),
            counts@.len() == c,
            forall|j: int| 0 <= j < c ==> counts@[j] == 0,
        decreases resolved.ids().len() - c,
    {
        counts.push(0);
        c += 1;
    }
    assert(counts@ =~= Seq::new(resolved.ids().len(), |i: int| 0u64));
    counts
}

/// Divides every coordinate by its count, where it has one. The result says
/// whether any has.
pub fn average(resolved: &mut Table<Vec<i64>>, counts: &Vec<u64>, dim: u64) -> (merged: bool)
    requires
        old(resolved).wf(),
        counts@.len() == old(resolved).ids().len(),
        forall|i: int|
            0 <= i < old(resolved).vals().len() ==> (#[trigger] old(resolved).vals()[i])@.len()
                == dim,
    ensures
        final(resolved).wf(),
        final(resolved).ids() == old(resolved).ids(),
        coords(final(resolved)) == spec_averaged(coords(old(resolved)), counts@),
        merged == any_count(counts@),
        forall|i: int|
            0 <= i < final(resolved).vals().len() ==> (#[trigger] final(resolved).vals()[i])@.len()
                == dim,
{
    let ghost vecs = coords(resolved);
    let mut merged: bool = false;
    let mut i: usize = 0;
    while i < resolved.len()
        invariant
            i <= resolved.ids().len(),
            resolved.wf(),
            resolved.ids() == old(resolved).ids(),
            vecs == coords(old(resolved)),
            counts@.len() == resolved.ids().len(),
            coords(resolved).len() == vecs.len(),
            forall|j: int| 0 <= j < vecs.len() ==> (#[trigger] vecs[j]).len() == dim,
            forall|j: int| 0 <= j < i ==> coords(resolved)[j] == spec_averaged(vecs, counts@)[j],
            forall|j: int| i <= j < vecs.len() ==> coords(resolved)[j] == vecs[j],
            merged == (exists|j: int| 0 <= j < i && counts@[j] > 0),
        decreases resolved.ids().len() - i,
    {
        let count: u64 = counts[i];
        if count > 0 {
            let ghost held = coords(resolved);
            assert(held[i as int] == resolved.vals()[i as int]@);
            let divided: Vec<i64> = vector_share(resolved.value(i), count);
            resolved.set(i, divided);
            merged = true;
            proof {
                assert(coords(resolved) =~= held.update(i as int, divided@));
            }
        }
        i += 1;
    }
    proof {
        assert(coords(resolved) =~= spec_averaged(vecs, counts@));
        assert forall|j: int| 0 <= j < resolved.vals().len() implies (
        #[trigger] resolved.vals()[j])@.len() == dim by {
            assert(coords(resolved)[j] == resolved.vals()[j]@);
            assert(vecs[j].len() == dim);
        }
    }
    merged
}

/// Merges the coordinate maps fetched from other peers into `resolved`, in
/// the order in which they were fetched, and averages each merged
/// coordinate. Every identifier met is noted in `pending`, once. The result
/// says whether anything was merged.
pub fn aggregate(
    resolved: &mut Table<Vec<i64>>,
    pending: &mut Vec<String>,
    fetched: &Vec<Option<Table<Vec<i64>>>>,
    dim: u64,
) -> (merged: bool)
    requires
        old(resolved).wf(),
        forall|i: int|
            0 <= i < old(resolved).vals().len() ==> (#[trigger] old(resolved).vals()[i])@.len()
                == dim,
        forall|i: int|
            0 <= i < fetched@.len() && fetched@[i] is Some ==> (#[trigger] fetched@[i]).unwrap().wf(),
    ensures
        final(resolved).wf(),
        forall|i: int|
            0 <= i < final(resolved).vals().len() ==> (#[trigger] final(resolved).vals()[i])@.len()
                == dim,
        ({
            let m = merge_all(
                merge_start(old(resolved), old(pending)@),
                fetched@,
                fetched@.len(),
                dim,
            );
            &&& final(resolved).ids() == m.ids
            &&& coords(final(resolved)) == averaged(m)
            &&& texts(final(pending)@) == m.pending
            &&& merged == any_merged(m)
        }),
        old(resolved).ids().len() <= final(resolved).ids().len(),
        forall|i: int|
            0 <= i < old(resolved).ids().len() ==> #[trigger] final(resolved).ids()[i] == old(resolved).ids()[i],
{
    let ghost start = merge_start(resolved, pending@);
    let mut counts: Vec<u64> = start_counts(resolved);
    proof {
        lemma_merge_start(resolved, pending@, dim);
    }
    let mut f: usize = 0;
    while f < fetched.len()
        invariant
            f <= fetched@.len(),
            resolved.wf(),
            forall|i: int|
                0 <= i < fetched@.len() && fetched@[i] is Some ==> (#[trigger] fetched@[i]).unwrap().wf(),
            merge_valid(merge_of(resolved, counts@, pending@), dim),
            merge_of(resolved, counts@, pending@) == merge_all(start, fetched@, f as nat, dim),
            start.ids.len() <= resolved.ids().len(),
            forall|k: int| 0 <= k < start.ids.len() ==> #[trigger] resolved.ids()[k] == start.ids[k],
        decreases fetched@.len() - f,
    {
        match &fetched[f] {
            None => {},
            Some(remote) => {
                merge_remote(resolved, &mut counts, pending, remote, dim);
            },
        }
        f += 1;
    }
    proof {
        lemma_merge_lengths(resolved, counts@, pending@, dim);
    }
    average(resolved, &counts, dim)
}

/// A table whose coordinates all have `dim` components starts a valid
/// merge.
pub proof fn lemma_merge_start(resolved: &Table<Vec<i64>>, pending: Seq<String>, dim: u64)
    requires
        resolved.wf(),
        forall|i: int| 0 <= i < resolved.vals().len() ==> (#[trigger] resolved.vals()[i])@.len() == dim,
    ensures
        merge_valid(merge_start(resolved, pending), dim),
{
    let start = merge_start(resolved, pending);
    assert forall|i: int| 0 <= i < start.vecs.len() implies (#[trigger] start.vecs[i]).len()
        == dim by {
        assert(resolved.vals()[i]@.len() == dim);
    }
}

/// In a valid merge every coordinate of the table has `dim` components.
pub proof fn lemma_merge_lengths(
    resolved: &Table<Vec<i64>>,
    counts: Seq<u64>,
    pending: Seq<String>,
    dim: u64,
)
    requires
        merge_valid(merge_of(resolved, counts, pending), dim),
    ensures
        counts.len() == resolved.ids().len(),
        forall|i: int| 0 <= i < resolved.vals().len() ==> (#[trigger] resolved.vals()[i])@.len() == dim,
{
    assert forall|i: int| 0 <= i < resolved.vals().len() implies (#[trigger] resolved.vals()[i])@.len()
        == dim by {
        assert(coords(resolved)[i] == resolved.vals()[i]@);
    }
}

} // verus!
