//! An association table keyed by peer identifier. It keeps its entries in the
//! order in which they were added and never holds an identifier twice.

use vstd::prelude::*;

verus! {

/// Identifiers with one value each, in insertion order.
pub struct Table<V> {
    keys: Vec<String>,
    values: Vec<V>,
}

impl<V> Table<V> {
    /// The identifiers, in table order.
    pub closed spec fn ids(&self) -> Seq<Seq<char>> {
        self.keys@.map_values(|k: String| k@)
    }

    /// The values, in table order: `vals()[i]` belongs to `ids()[i]`.
    pub closed spec fn vals(&self) -> Seq<V> {
        self.values@
    }

    /// One value per identifier, and no identifier twice.
    pub open spec fn wf(&self) -> bool {
        &&& self.ids().len() == self.vals().len()
        &&& self.ids().no_duplicates()
    }

    /// Whether the table holds `id`.
    pub open spec fn has(&self, id: Seq<char>) -> bool {
        self.ids().contains(id)
    }

    /// Where `id` stands in the table.
    pub open spec fn position(&self, id: Seq<char>) -> int {
        self.ids().index_of(id)
    }

    /// The value that belongs to `id`.
    pub open spec fn at(&self, id: Seq<char>) -> V {
        self.vals()[self.position(id)]
    }

    /// An empty table.
    pub fn new() -> (r: Self)
        ensures
            r.ids() == Seq::<Seq<char>>::empty(),
            r.vals() == Seq::<V>::empty(),
            r.wf(),
    {
        let r = Table { keys: Vec::new(), values: Vec::new() };
        assert(r.ids() =~= Seq::<Seq<char>>::empty());
        r
    }

    /// The number of entries.
    pub fn len(&self) -> (n: usize)
        ensures
            n == self.ids().len(),
    {
        self.keys.len()
    }

    /// The position of `id`, if the table holds it.
    pub fn find(&self, id: &String) -> (r: Option<usize>)
        ensures
            match r {
                Some(i) => i < self.ids().len() && self.ids()[i as int] == id@,
                None => !self.has(id@),
            },
    {
        let mut i: usize = 0;
        while i < self.keys.len()
            invariant
                i <= self.keys.len(),
                forall|j: int| 0 <= j < i ==> self.ids()[j] != id@,
            decreases self.keys.len() - i,
        {
            if self.keys[i] == *id {
                return Some(i);
            }
            i += 1;
        }
        None
    }

    /// Whether the table holds `id`.
    pub fn contains_key(&self, id: &String) -> (r: bool)
        ensures
            r == self.has(id@),
    {
        self.find(id).is_some()
    }

    /// The identifier at position `i`.
    pub fn key(&self, i: usize) -> (r: &String)
        requires
            i < self.ids().len(),
        ensures
            r@ == self.ids()[i as int],
    {
        &self.keys[i]
    }

    /// The value at position `i`.
    pub fn value(&self, i: usize) -> (r: &V)
        requires
            self.wf(),
            i < self.ids().len(),
        ensures
            *r == self.vals()[i as int],
    {
        &self.values[i]
    }

    /// Adds an entry for an identifier that the table does not hold yet.
    pub fn push(&mut self, id: String, v: V)
        requires
            old(self).wf(),
            !old(self).has(id@),
        ensures
            final(self).wf(),
            final(self).ids() == old(self).ids().push(id@),
            final(self).vals() == old(self).vals().push(v),
    {
        self.keys.push(id);
        self.values.push(v);
        assert(self.ids() =~= old(self).ids().push(id@));
    }

    /// Adds an entry unless the table holds the identifier already; the
    /// result says whether it was added.
    pub fn insert(&mut self, id: String, v: V) -> (added: bool)
        requires
            old(self).wf(),
        ensures
            final(self).wf(),
            added == !old(self).has(id@),
            added ==> final(self).ids() == old(self).ids().push(id@) && final(self).vals() == old(self).vals().push(v),
            !added ==> final(self).ids() == old(self).ids() && final(self).vals() == old(self).vals(),
    {
        if self.contains_key(&id) {
            false
        } else {
            self.push(id, v);
            true
        }
    }

    /// Whether the table is well formed. A table built by the functions of
    /// this type always is.
    pub fn is_wf(&self) -> (r: bool)
        ensures
            r == self.wf(),
    {
        if self.keys.len() != self.values.len() {
            return false;
        }
        let mut i: usize = 0;
        while i < self.keys.len()
            invariant
                i <= self.keys.len(),
                self.keys.len() == self.values.len(),
                forall|a: int, b: int| 0 <= a < b < i ==> self.ids()[a] != self.ids()[b],
            decreases self.keys.len() - i,
        {
            let mut j: usize = 0;
            while j < i
                invariant
                    j <= i,
                    i < self.keys.len(),
                    forall|a: int| 0 <= a < j ==> self.ids()[a] != self.ids()[i as int],
                decreases i - j,
            {
                if self.keys[j] == self.keys[i] {
                    assert(self.ids()[j as int] == self.ids()[i as int]);
                    return false;
                }
                j += 1;
            }
            i += 1;
        }
        true
    }

    /// Replaces the value at position `i`.
    pub fn set(&mut self, i: usize, v: V)
        requires
            old(self).wf(),
            i < old(self).ids().len(),
        ensures
            final(self).wf(),
            final(self).ids() == old(self).ids(),
            final(self).vals() == old(self).vals().update(i as int, v),
    {
        self.values.set(i, v);
    }
}

/// In a table, no identifier stands before its own place.
pub proof fn lemma_prefix_lacks<V>(t: &Table<V>, i: int)
    requires
        t.wf(),
        0 <= i < t.ids().len(),
    ensures
        !t.ids().take(i).contains(t.ids()[i]),
{
    if t.ids().take(i).contains(t.ids()[i]) {
        let j = choose|j: int| 0 <= j < i && t.ids().take(i)[j] == t.ids()[i];
        assert(t.ids()[j] == t.ids()[i]);
    }
}

/// In a table, the position of the identifier at `i` is `i`.
pub proof fn lemma_position<V>(t: &Table<V>, i: int)
    requires
        t.wf(),
        0 <= i < t.ids().len(),
    ensures
        t.has(t.ids()[i]),
        t.position(t.ids()[i]) == i,
        t.at(t.ids()[i]) == t.vals()[i],
{
    let id = t.ids()[i];
    assert(t.ids().contains(id));
    let j = t.ids().index_of(id);
    assert(0 <= j < t.ids().len() && t.ids()[j] == id);
}

} // verus!
