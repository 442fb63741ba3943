//! A database of entities, each reachable by the key it was given when it
//! was added.

use crate::key::OpaqueKey;
use std::marker::PhantomData;
use vstd::prelude::*;

verus! {

/// A key type usable with [`Database`].
pub trait DbKey: OpaqueKey {

}

impl DbKey for u8 {

}

impl DbKey for u16 {

}

impl DbKey for u32 {

}

impl DbKey for u64 {

}

/// The default capacity of a database.
pub const DEFAULT_DATABASE_CAPACITY: usize = 16;

/// Entities of type `T` with keys of type `I`; the `i`-th entity added has
/// the key of index `i`.
pub struct Database<T, I = u32> {
    current: Vec<T>,
    _key: PhantomData<I>,
}

impl<T, I: DbKey> View for Database<T, I> {
    type V = Seq<T>;

    closed spec fn view(&self) -> Seq<T> {
        self.current@
    }
}

impl<T, I: DbKey> Database<T, I> {
    pub fn with_capacity(capacity: usize) -> (r: Self)
        ensures
            r@ == Seq::<T>::empty(),
    {
        Database { current: Vec::with_capacity(capacity), _key: PhantomData }
    }

    /// Adds `entity` and returns its key.
    pub fn entry(&mut self, entity: T) -> (r: I)
        requires
            old(self)@.len() < I::spec_max_index(),
        ensures
            final(self)@ == old(self)@.push(entity),
            r.spec_index() == old(self)@.len(),
    {
        let id = I::from_index(self.current.len());
        self.current.push(entity);
        id
    }

    /// The entity with the key `id`.
    pub fn lookup(&self, id: I) -> (r: &T)
        requires
            id.spec_index() < self@.len(),
        ensures
            *r == self@[id.spec_index() as int],
    {
        proof {
            I::lemma_max_index_fits();
        }
        let _len = self.current.len();
        let index = id.as_index();
        &self.current[index]
    }

    /// The entity with the key `id`, to change it.
    pub fn lookup_mut(&mut self, id: I) -> (r: &mut T)
        requires
            id.spec_index() < old(self)@.len(),
        ensures
            *r == old(self)@[id.spec_index() as int],
            final(self)@ == old(self)@.update(id.spec_index() as int, *final(r)),
    {
        proof {
            I::lemma_max_index_fits();
        }
        let _len = self.current.len();
        let index = id.as_index();
        &mut self.current[index]
    }

    pub fn len(&self) -> (r: usize)
        ensures
            r == self@.len(),
    {
        self.current.len()
    }

    /// The keys, starting from the key of index 0 (see [`DatabaseKeys::next`]).
    pub fn keys(&self) -> (r: DatabaseKeys<I>)
        ensures
            r.index.spec_index() == 0,
    {
        DatabaseKeys { index: I::from_index(0) }
    }

    /// References to the entities, in the order they were added.
    pub fn values(&self) -> (r: Vec<&T>)
        ensures
            r@.len() == self@.len(),
            forall|i: int| 0 <= i < r@.len() ==> *r@[i] == self@[i],
    {
        let mut r: Vec<&T> = Vec::new();
        let mut i: usize = 0;
        while i < self.current.len()
            invariant
                i <= self.current@.len(),
                r@.len() == i,
                forall|k: int| 0 <= k < i ==> *r@[k] == self.current@[k],
            decreases self.current@.len() - i,
        {
            r.push(&self.current[i]);
            i = i + 1;
        }
        r
    }

    /// The entities paired with the keys that [`Database::keys`] yields, in
    /// order: the entity added `i`-th is paired with the key of index `i + 1`.
    pub fn iter(&self) -> (r: Vec<(I, &T)>)
        requires
            self@.len() <= I::spec_max_index(),
        ensures
            r@.len() == self@.len(),
            forall|i: int|
                0 <= i < r@.len() ==> (#[trigger] r@[i]).0.spec_index() == i + 1 && *r@[i].1
                    == self@[i],
    {
        let mut keys = self.keys();
        let mut r: Vec<(I, &T)> = Vec::new();
        let mut i: usize = 0;
        while i < self.current.len()
            invariant
                i <= self.current@.len(),
                self.current@.len() <= I::spec_max_index(),
                keys.index.spec_index() == i,
                r@.len() == i,
                forall|k: int|
                    0 <= k < i ==> (#[trigger] r@[k]).0.spec_index() == k + 1 && *r@[k].1
                        == self.current@[k],
            decreases self.current@.len() - i,
        {
            let key = keys.next().unwrap();
            r.push((key, &self.current[i]));
            i = i + 1;
        }
        r
    }
}

impl<T, I: DbKey> Default for Database<T, I> {
    fn default() -> (r: Self)
        ensures
            r@ == Seq::<T>::empty(),
    {
        Self::with_capacity(DEFAULT_DATABASE_CAPACITY)
    }
}

/// The keys of a database, counting up.
pub struct DatabaseKeys<I> {
    pub index: I,
}

impl<I: DbKey> DatabaseKeys<I> {
    /// Moves to the next key and returns it.
    pub fn next(&mut self) -> (r: Option<I>)
        requires
            old(self).index.spec_index() < I::spec_max_index(),
        ensures
            final(self).index.spec_index() == old(self).index.spec_index() + 1,
            r matches Some(k) && k.spec_index() == final(self).index.spec_index(),
    {
        let index = self.index.increment();
        proof {
            I::lemma_max_index_fits();
        }
        if index.as_index() <= I::max_index() {
            Some(index)
        } else {
            None
        }
    }
}

/// What a database gives back is what was added: once `x` is added under
/// the key `k` (see [`Database::entry`]), the database holds one entity
/// more, looking up `k` (see [`Database::lookup`]) gives `x`, and every
/// earlier key still gives its earlier entity.
pub proof fn lemma_entry_then_lookup<T, I: DbKey>(before: Seq<T>, after: Seq<T>, x: T, k: I)
    requires
        after == before.push(x),
        k.spec_index() == before.len(),
    ensures
        after.len() == before.len() + 1,
        k.spec_index() < after.len(),
        after[k.spec_index() as int] == x,
        forall|i: int| 0 <= i < before.len() ==> after[i] == before[i],
{
}

} // verus!
