//! Opaque integer keys handed out by tables and databases.

use vstd::prelude::*;

verus! {

/// A key that stands for an index. Index 0 is the first key.
pub trait OpaqueKey: Copy + Sized {
    /// The index the key stands for.
    spec fn spec_index(&self) -> nat;

    /// The largest index a key can stand for.
    spec fn spec_max_index() -> nat;

    /// Every index a key can stand for fits in a `usize`.
    proof fn lemma_max_index_fits()
        ensures
            Self::spec_max_index() <= usize::MAX,
    ;

    /// A key is determined by its index.
    proof fn lemma_index_determines_key(a: Self, b: Self)
        ensures
            a.spec_index() == b.spec_index() ==> a == b,
    ;

    fn as_index(&self) -> (r: usize)
        requires
            self.spec_index() <= usize::MAX,
        ensures
            r == self.spec_index(),
    ;

    fn from_index(idx: usize) -> (r: Self)
        requires
            idx <= Self::spec_max_index(),
        ensures
            r.spec_index() == idx,
    ;

    fn max_index() -> (r: usize)
        ensures
            r == Self::spec_max_index(),
    ;

    /// Moves the key to the next index and returns it.
    fn increment(&mut self) -> (r: Self)
        requires
            old(self).spec_index() < Self::spec_max_index(),
        ensures
            final(self).spec_index() == old(self).spec_index() + 1,
            r.spec_index() == final(self).spec_index(),
    ;
}

impl OpaqueKey for u8 {
    open spec fn spec_index(&self) -> nat {
        *self as nat
    }

    open spec fn spec_max_index() -> nat {
        u8::MAX as nat
    }

    proof fn lemma_max_index_fits() {
    }

    proof fn lemma_index_determines_key(a: Self, b: Self) {
    }

    fn as_index(&self) -> (r: usize) {
        *self as usize
    }

    fn from_index(idx: usize) -> (r: Self) {
        idx as u8
    }

    fn max_index() -> (r: usize) {
        u8::MAX as usize
    }

    fn increment(&mut self) -> (r: Self) {
        *self = *self + 1;
        *self
    }
}

impl OpaqueKey for u16 {
    open spec fn spec_index(&self) -> nat {
        *self as nat
    }

    open spec fn spec_max_index() -> nat {
        u16::MAX as nat
    }

    proof fn lemma_max_index_fits() {
    }

    proof fn lemma_index_determines_key(a: Self, b: Self) {
    }

    fn as_index(&self) -> (r: usize) {
        *self as usize
    }

    fn from_index(idx: usize) -> (r: Self) {
        idx as u16
    }

    fn max_index() -> (r: usize) {
        u16::MAX as usize
    }

    fn increment(&mut self) -> (r: Self) {
        *self = *self + 1;
        *self
    }
}

impl OpaqueKey for u32 {
    open spec fn spec_index(&self) -> nat {
        *self as nat
    }

    open spec fn spec_max_index() -> nat {
        if u32::MAX <= usize::MAX {
            u32::MAX as nat
        } else {
            usize::MAX as nat
        }
    }

    proof fn lemma_max_index_fits() {
    }

    proof fn lemma_index_determines_key(a: Self, b: Self) {
    }

    fn as_index(&self) -> (r: usize) {
        *self as usize
    }

    fn from_index(idx: usize) -> (r: Self) {
        idx as u32
    }

    fn max_index() -> (r: usize) {
        if u32::MAX as u64 <= usize::MAX as u64 {
            u32::MAX as usize
        } else {
            usize::MAX
        }
    }

    fn increment(&mut self) -> (r: Self) {
        *self = *self + 1;
        *self
    }
}

impl OpaqueKey for u64 {
    open spec fn spec_index(&self) -> nat {
        *self as nat
    }

    open spec fn spec_max_index() -> nat {
        usize::MAX as nat
    }

    proof fn lemma_max_index_fits() {
    }

    proof fn lemma_index_determines_key(a: Self, b: Self) {
    }

    fn as_index(&self) -> (r: usize) {
        *self as usize
    }

    fn from_index(idx: usize) -> (r: Self) {
        idx as u64
    }

    fn max_index() -> (r: usize) {
        usize::MAX
    }

    fn increment(&mut self) -> (r: Self) {
        *self = *self + 1;
        *self
    }
}

/// Turning a key into its index and back gives the key again.
pub proof fn lemma_index_round_trip<K: OpaqueKey>(k: K, back: K)
    requires
        back.spec_index() == k.spec_index(),
    ensures
        back == k,
{
    K::lemma_index_determines_key(k, back);
}

} // verus!
