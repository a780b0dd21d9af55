//! What a store must offer to be sliced, and the handle through which a
//! view reaches its store, whether it owns or borrows it.
//!
//! A store is read with [`IndexedStore::index`] and written with
//! [`IndexedStoreMut::index_mut`]; a view asks nothing else of it. A handle
//! forwards both to the store it holds, so that a view is written once for
//! all three ways of holding a store.
use std::marker::PhantomData;
use vstd::prelude::*;

verus! {

/// A store that can be read at a key.
pub trait IndexedStore<K>: Sized {
    /// What the store holds at each key.
    type Output;

    /// The store's invariant.
    spec fn wf(&self) -> bool;

    /// The keys at which the store may be accessed.
    spec fn in_domain(&self, key: K) -> bool;

    /// The element at `key`.
    spec fn cell(&self, key: K) -> Self::Output;

    /// Whether the store may be accessed at `key`.
    fn accessible(&self, key: K) -> (b: bool)
        ensures
            b == self.in_domain(key),
    ;

    /// Reads the element at `key`.
    fn index(&self, key: K) -> (r: &Self::Output)
        requires
            self.wf(),
            self.in_domain(key),
        ensures
            *r == self.cell(key),
    ;
}

/// A store whose elements can be overwritten in place.
pub trait IndexedStoreMut<K>: IndexedStore<K> {
    /// Hands out the element at `key` for the caller to change. Whatever the
    /// caller leaves there is the element at `key` afterwards; no other
    /// element that could be accessed changes, and the domain stays as it
    /// was.
    fn index_mut(&mut self, key: K) -> (r: &mut Self::Output)
        requires
            old(self).wf(),
            old(self).in_domain(key),
        ensures
            *r == old(self).cell(key),
            is_write(*old(self), *final(self), key, *final(r)),
    ;
}

/// `after` is what writing `value` at `key` makes of the store `before`:
/// `value` is the element at `key`, every other element that could be
/// accessed is as it was, and the same keys can be accessed.
pub open spec fn is_write<K, S: IndexedStore<K>>(
    before: S,
    after: S,
    key: K,
    value: S::Output,
) -> bool {
    &&& after.wf()
    &&& after.cell(key) == value
    &&& forall|k: K| k != key && before.in_domain(k) ==> #[trigger] after.cell(k) == before.cell(k)
    &&& forall|k: K| #[trigger] after.in_domain(k) == before.in_domain(k)
}

/// Reading a store after a write gives the value written where it was
/// written, and what was there before anywhere else.
pub proof fn lemma_read_after_write<K, S: IndexedStore<K>>(
    before: S,
    after: S,
    key: K,
    value: S::Output,
    at: K,
)
    requires
        is_write(before, after, key, value),
        before.in_domain(at),
    ensures
        after.in_domain(at),
        after.cell(at) == (if at == key {
            value
        } else {
            before.cell(at)
        }),
{
}

/// Marks a store that views may reach through an [`IndexForRef`].
pub trait ImplIndexForRef<K>: IndexedStoreMut<K> {
}

/// A handle to a store of type `T`, held as `C`: the store itself, a shared
/// borrow of it, or an exclusive borrow of it.
///
/// What has become of a store that was borrowed exclusively is known once
/// the handle is no longer used; verified code learns it from
/// [`lemma_handle_resolved`].
pub struct IndexForRef<C, T> {
    container: C,
    _marker: PhantomData<T>,
}

/// A handle that borrows its store.
pub type IndexRefContainer<'a, T> = IndexForRef<&'a T, T>;

/// A handle that borrows its store exclusively.
pub type IndexRefContainerMut<'a, T> = IndexForRef<&'a mut T, T>;

impl<C, T> IndexForRef<C, T> {
    /// What the handle holds.
    pub closed spec fn inner(&self) -> C {
        self.container
    }

    /// A handle that holds `x`.
    pub fn new(x: C) -> (h: Self)
        ensures
            h.inner() == x,
    {
        Self { container: x, _marker: PhantomData }
    }
}

impl<T> IndexForRef<T, T> {
    /// The store.
    pub fn get(&self) -> (r: &T)
        ensures
            *r == self.inner(),
    {
        &self.container
    }

    /// The store, for changing.
    pub fn get_mut(&mut self) -> (r: &mut T)
        ensures
            *r == old(self).inner(),
            final(self).inner() == *final(r),
    {
        &mut self.container
    }
}

impl<'a, T> IndexForRef<&'a T, T> {
    /// The store.
    pub fn get(&self) -> (r: &T)
        ensures
            *r == *self.inner(),
    {
        self.container
    }
}

impl<'a, T> IndexForRef<&'a mut T, T> {
    /// The store.
    pub fn get(&self) -> (r: &T)
        ensures
            *r == *self.inner(),
    {
        &*self.container
    }

    /// The store, for changing. The handle goes on borrowing the same store.
    pub fn get_mut(&mut self) -> (r: &mut T)
        ensures
            *r == *old(self).inner(),
            *final(self).inner() == *final(r),
            *final(final(self).inner()) == *final(old(self).inner()),
    {
        &mut *self.container
    }
}

/// Once a handle that borrows its store exclusively is no longer used, the
/// store is left as the handle last saw it.
pub broadcast proof fn lemma_handle_resolved<'a, T>(h: IndexForRef<&'a mut T, T>)
    ensures
        #[trigger] has_resolved(h) ==> *final(h.inner()) == *h.inner(),
{
}

/// A write through a handle that owns its store is a write to the store.
pub broadcast proof fn lemma_write_through_owner<K, T: ImplIndexForRef<K>>(
    before: IndexForRef<T, T>,
    after: IndexForRef<T, T>,
    key: K,
    value: T::Output,
)
    requires
        #[trigger] is_write(before, after, key, value),
    ensures
        is_write(before.inner(), after.inner(), key, value),
{
    assert forall|k: K|
        k != key && before.inner().in_domain(k) implies #[trigger] after.inner().cell(k)
        == before.inner().cell(k) by {
        assert(after.cell(k) == before.cell(k));
    }
    assert forall|k: K| #[trigger] after.inner().in_domain(k) == before.inner().in_domain(k) by {
        assert(after.in_domain(k) == before.in_domain(k));
    }
}

/// A write through a handle that borrows its store exclusively is a write
/// to the store.
pub broadcast proof fn lemma_write_through_borrow<'a, K, T: ImplIndexForRef<K>>(
    before: IndexForRef<&'a mut T, T>,
    after: IndexForRef<&'a mut T, T>,
    key: K,
    value: T::Output,
)
    requires
        #[trigger] is_write(before, after, key, value),
    ensures
        is_write(*before.inner(), *after.inner(), key, value),
{
    assert forall|k: K|
        k != key && before.inner().in_domain(k) implies #[trigger] after.inner().cell(k)
        == before.inner().cell(k) by {
        assert(after.cell(k) == before.cell(k));
    }
    assert forall|k: K| #[trigger] after.inner().in_domain(k) == before.inner().in_domain(k) by {
        assert(after.in_domain(k) == before.in_domain(k));
    }
}

/// A handle that owns its store is read as the store is.
impl<K, T: ImplIndexForRef<K>> IndexedStore<K> for IndexForRef<T, T> {
    type Output = T::Output;

    open spec fn wf(&self) -> bool {
        self.inner().wf()
    }

    open spec fn in_domain(&self, key: K) -> bool {
        self.inner().in_domain(key)
    }

    open spec fn cell(&self, key: K) -> Self::Output {
        self.inner().cell(key)
    }

    fn accessible(&self, key: K) -> (b: bool) {
        self.get().accessible(key)
    }

    fn index(&self, key: K) -> (r: &Self::Output) {
        self.get().index(key)
    }
}

/// A handle that borrows its store is read as the store is.
impl<'a, K, T: ImplIndexForRef<K>> IndexedStore<K> for IndexForRef<&'a T, T> {
    type Output = T::Output;

    open spec fn wf(&self) -> bool {
        self.inner().wf()
    }

    open spec fn in_domain(&self, key: K) -> bool {
        self.inner().in_domain(key)
    }

    open spec fn cell(&self, key: K) -> Self::Output {
        self.inner().cell(key)
    }

    fn accessible(&self, key: K) -> (b: bool) {
        self.get().accessible(key)
    }

    fn index(&self, key: K) -> (r: &Self::Output) {
        self.get().index(key)
    }
}

/// A handle that borrows its store exclusively is read as the store is.
impl<'a, K, T: ImplIndexForRef<K>> IndexedStore<K> for IndexForRef<&'a mut T, T> {
    type Output = T::Output;

    open spec fn wf(&self) -> bool {
        self.inner().wf()
    }

    open spec fn in_domain(&self, key: K) -> bool {
        self.inner().in_domain(key)
    }

    open spec fn cell(&self, key: K) -> Self::Output {
        self.inner().cell(key)
    }

    fn accessible(&self, key: K) -> (b: bool) {
        self.get().accessible(key)
    }

    fn index(&self, key: K) -> (r: &Self::Output) {
        self.get().index(key)
    }
}

/// A handle that owns its store is written as the store is.
impl<K, T: ImplIndexForRef<K>> IndexedStoreMut<K> for IndexForRef<T, T> {
    fn index_mut(&mut self, key: K) -> (r: &mut Self::Output) {
        self.get_mut().index_mut(key)
    }
}

/// A handle that borrows its store exclusively is written as the store is,
/// and goes on borrowing the same store.
impl<'a, K, T: ImplIndexForRef<K>> IndexedStoreMut<K> for IndexForRef<&'a mut T, T> {
    fn index_mut(&mut self, key: K) -> (r: &mut Self::Output)
        ensures
            *final(final(self).inner()) == *final(old(self).inner()),
    {
        self.get_mut().index_mut(key)
    }
}

} // verus!
