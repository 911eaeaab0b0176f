//! Handles into the realm's object and string pools.
//!
//! A handle is the 32-bit index of an entry in its pool; the pools themselves
//! live with the realm.

use core::marker::PhantomData;
use vstd::prelude::*;

verus! {

/// A handle to an object of the realm whose lifetime is `'a`.
#[derive(Copy, Clone, Debug)]
pub struct ObjectPointer<'a> {
    index: u32,
    realm: PhantomData<&'a u32>,
}

impl<'a> ObjectPointer<'a> {
    /// The handle with the given index.
    pub closed spec fn spec_new(index: u32) -> Self {
        ObjectPointer { index, realm: PhantomData }
    }

    /// The index that the handle holds.
    pub closed spec fn spec_index(self) -> u32 {
        self.index
    }

    pub fn new(index: u32) -> (r: Self)
        ensures
            r == Self::spec_new(index),
            r.spec_index() == index,
    {
        ObjectPointer { index, realm: PhantomData }
    }

    pub fn index(&self) -> (r: u32)
        ensures
            r == self.spec_index(),
    {
        self.index
    }

    /// A handle is determined by its index, and gives that index back.
    pub proof fn lemma_index_determines(self, index: u32)
        ensures
            Self::spec_new(index).spec_index() == index,
            self == Self::spec_new(self.spec_index()),
    {
    }

    /// The handle made from an index gives that index back.
    pub broadcast proof fn lemma_new_index(index: u32)
        ensures
            #[trigger] Self::spec_new(index).spec_index() == index,
    {
    }
}

/// A handle to an interned string.
#[derive(Copy, Clone, Debug)]
pub struct StringPointer {
    index: u32,
}

/// The runtime's primitive strings are handles into the string pool.
pub type JsPrimitiveString = StringPointer;

impl StringPointer {
    /// The handle with the given index.
    pub closed spec fn spec_new(index: u32) -> Self {
        StringPointer { index }
    }

    /// The index that the handle holds.
    pub closed spec fn spec_index(self) -> u32 {
        self.index
    }

    pub fn new(index: u32) -> (r: Self)
        ensures
            r == Self::spec_new(index),
            r.spec_index() == index,
    {
        StringPointer { index }
    }

    pub fn index(&self) -> (r: u32)
        ensures
            r == self.spec_index(),
    {
        self.index
    }

    /// A handle is determined by its index, and gives that index back.
    pub proof fn lemma_index_determines(self, index: u32)
        ensures
            Self::spec_new(index).spec_index() == index,
            self == Self::spec_new(self.spec_index()),
    {
    }

    /// The handle made from an index gives that index back.
    pub broadcast proof fn lemma_new_index(index: u32)
        ensures
            #[trigger] Self::spec_new(index).spec_index() == index,
    {
    }
}

} // verus!
