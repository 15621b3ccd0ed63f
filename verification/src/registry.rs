//! A registry keeps values under 128-bit identifiers.
//!
//! The values stand in one dense vector; a concurrent hash map tells at which
//! position of the vector each identifier stands.
use dashmap::DashMap;
use vstd::prelude::*;

verus! {

/// The concurrent hash map of the `dashmap` crate, as an opaque type.
#[verifier::external_type_specification]
#[verifier::external_body]
#[verifier::reject_recursive_types(K)]
#[verifier::reject_recursive_types(V)]
#[verifier::reject_recursive_types(S)]
pub struct ExDashMap<K, V, S>(DashMap<K, V, S>);

/// What a position map holds: for each identifier the position stored for it.
pub uninterp spec fn positions(map: DashMap<u128, usize>) -> Map<u128, usize>;

/// `DashMap::new`: a map that holds nothing.
#[verifier::external_body]
fn positions_new() -> (fresh: DashMap<u128, usize>)
    ensures
        positions(fresh).dom() == Set::<u128>::empty(),
{
    DashMap::new()
}

/// `DashMap::get`, with the value copied out of the guard: the position stored
/// for `id`, and `None` exactly where there is none.
#[verifier::external_body]
fn positions_get(map: &DashMap<u128, usize>, id: u128) -> (found: Option<usize>)
    ensures
        found == (if positions(*map).contains_key(id) {
            Some(positions(*map)[id])
        } else {
            None
        }),
{
    map.get(&id).map(|entry| *entry)
}

/// `DashMap::insert`: afterwards `at` is stored for `id`, and every other
/// identifier keeps what it had.
#[verifier::external_body]
fn positions_insert(map: &mut DashMap<u128, usize>, id: u128, at: usize)
    ensures
        positions(*final(map)) == positions(*old(map)).insert(id, at),
{
    map.insert(id, at);
}

/// `DashMap::remove`: afterwards nothing is stored for `id`, and every other
/// identifier keeps what it had.
#[verifier::external_body]
fn positions_remove(map: &mut DashMap<u128, usize>, id: u128)
    ensures
        positions(*final(map)) == positions(*old(map)).remove(id),
{
    map.remove(&id);
}

/// Values of type `V` under 128-bit identifiers, at most one under each.
pub struct Registry<V> {
    index: DashMap<u128, usize>,
    entries: Vec<(u128, V)>,
}

impl<V> View for Registry<V> {
    type V = Map<u128, V>;

    closed spec fn view(&self) -> Map<u128, V> {
        Map::new(
            |id: u128| positions(self.index).contains_key(id),
            |id: u128| self.entries@[positions(self.index)[id] as int].1,
        )
    }
}

impl<V> Registry<V> {
    /// Every identifier points at its own entry, and every entry is pointed at.
    pub closed spec fn wf(&self) -> bool {
        &&& forall|id: u128| #[trigger]
            positions(self.index).contains_key(id) ==> positions(self.index)[id]
                < self.entries@.len() && self.entries@[positions(self.index)[id] as int].0 == id
        &&& forall|i: int|
            #![trigger self.entries@[i]]
            0 <= i < self.entries@.len() ==> positions(self.index).contains_key(
                self.entries@[i].0,
            ) && positions(self.index)[self.entries@[i].0] == i
    }

    /// The identifiers in the order of the entries.
    spec fn ids_in_order(&self) -> Seq<u128> {
        self.entries@.map_values(|entry: (u128, V)| entry.0)
    }

    /// The entries hold each identifier of the domain exactly once.
    proof fn lemma_ids(&self)
        requires
            self.wf(),
        ensures
            self.ids_in_order().no_duplicates(),
            self.ids_in_order().to_set() == self@.dom(),
    {
        let ids = self.ids_in_order();
        assert forall|i: int, j: int|
            0 <= i < ids.len() && 0 <= j < ids.len() && i != j implies ids[i] != ids[j] by {
            assert(self.entries@[i].0 == ids[i]);
            assert(self.entries@[j].0 == ids[j]);
        }
        assert forall|id: u128| self@.dom().contains(id) implies ids.to_set().contains(id) by {
            let at = positions(self.index)[id] as int;
            assert(ids[at] == id);
        }
        assert forall|id: u128| ids.to_set().contains(id) implies self@.dom().contains(id) by {
            let at = choose|at: int| 0 <= at < ids.len() && ids[at] == id;
            assert(self.entries@[at].0 == id);
        }
        assert(ids.to_set() =~= self@.dom());
    }

    /// An empty registry.
    pub fn new() -> (r: Self)
        ensures
            r.wf(),
            r@ == Map::<u128, V>::empty(),
    {
        let r = Registry { index: positions_new(), entries: Vec::new() };
        assert(r@ =~= Map::<u128, V>::empty());
        r
    }

    /// The number of identifiers with a value.
    pub fn len(&self) -> (n: usize)
        requires
            self.wf(),
        ensures
            n == self@.len(),
            self@.dom().finite(),
    {
        proof {
            self.lemma_ids();
            self.ids_in_order().unique_seq_to_set();
        }
        self.entries.len()
    }

    /// The value under `id`.
    pub fn get(&self, id: u128) -> (found: Option<&V>)
        requires
            self.wf(),
        ensures
            found == (if self@.contains_key(id) {
                Some(&self@[id])
            } else {
                None
            }),
    {
        match positions_get(&self.index, id) {
            Some(at) => Some(&self.entries[at].1),
            None => None,
        }
    }

    /// The value under `id`, open to change.
    pub fn get_mut(&mut self, id: u128) -> (found: Option<&mut V>)
        requires
            old(self).wf(),
        ensures
            final(self).wf(),
            match found {
                Some(value) => {
                    &&& old(self)@.contains_key(id)
                    &&& *value == old(self)@[id]
                    &&& final(self)@ == old(self)@.insert(id, *final(value))
                },
                None => !old(self)@.contains_key(id) && final(self)@ == old(self)@,
            },
    {
        match positions_get(&self.index, id) {
            Some(at) => {
                Some(&mut self.entries[at].1)
            },
            None => None,
        }
    }

    /// Stores `value` under `id`, in place of what stood there.
    pub fn insert(&mut self, id: u128, value: V)
        requires
            old(self).wf(),
        ensures
            final(self).wf(),
            final(self)@ == old(self)@.insert(id, value),
    {
        match positions_get(&self.index, id) {
            Some(at) => {
                self.entries.set(at, (id, value));
            },
            None => {
                let at: usize = self.entries.len();
                self.entries.push((id, value));
                positions_insert(&mut self.index, id, at);
            },
        }
        assert(self@ =~= old(self)@.insert(id, value));
    }

    /// Takes out the value under `id`.
    pub fn remove(&mut self, id: u128) -> (taken: Option<V>)
        requires
            old(self).wf(),
        ensures
            final(self).wf(),
            final(self)@ == old(self)@.remove(id),
            taken == (if old(self)@.contains_key(id) {
                Some(old(self)@[id])
            } else {
                None
            }),
    {
        match positions_get(&self.index, id) {
            Some(at) => {
                let last: usize = self.entries.len() - 1;
                let (_, value) = self.entries.swap_remove(at);
                positions_remove(&mut self.index, id);
                if at < last {
                    let moved: u128 = self.entries[at].0;
                    positions_insert(&mut self.index, moved, at);
                }
                assert(self@ =~= old(self)@.remove(id));
                Some(value)
            },
            None => {
                assert(self@ =~= old(self)@.remove(id));
                None
            },
        }
    }

    /// The identifiers that have a value, each once, in no promised order.
    pub fn ids(&self) -> (ids: Vec<u128>)
        requires
            self.wf(),
        ensures
            ids@.no_duplicates(),
            ids@.to_set() == self@.dom(),
    {
        let mut ids: Vec<u128> = Vec::new();
        let mut i: usize = 0;
        while i < self.entries.len()
            invariant
                i <= self.entries@.len(),
                ids@ == self.ids_in_order().take(i as int),
            decreases self.entries.len() - i,
        {
            ids.push(self.entries[i].0);
            i = i + 1;
            assert(ids@ =~= self.ids_in_order().take(i as int));
        }
        proof {
            self.lemma_ids();
            assert(ids@ =~= self.ids_in_order());
        }
        ids
    }
}

impl<V: DeepView> DeepView for Registry<V> {
    type V = Map<u128, V::V>;

    open spec fn deep_view(&self) -> Map<u128, V::V> {
        self@.map_values(|value: V| value.deep_view())
    }
}

} // verus!
