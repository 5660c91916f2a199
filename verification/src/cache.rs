//! A place in which a node remembers its hash once it has been computed.

use vstd::prelude::*;
use vstd::cell::invcell::InvCell;
use vstd::predicate::Predicate;
use crate::hash;

verus! {

/// What a cache may hold: nothing, or the one hash it expects.
pub struct Expects {
    pub hash: hash::Hash,
}

impl Predicate<Option<hash::Hash>> for Expects {
    open spec fn predicate(&self, held: Option<hash::Hash>) -> bool {
        held matches Some(hash) ==> hash == self.hash
    }
}

/// A cache for one hash. It is made for the hash of a given content, holds
/// nothing at first, and can be filled through a shared reference. It never
/// holds another hash than the one it was made for, so a node whose content
/// changes gets a new cache.
pub struct CachedHash {
    cell: InvCell<Option<hash::Hash>, Expects>,
}

impl CachedHash {
    /// The hash this cache was made for.
    pub closed spec fn expected(&self) -> hash::Hash {
        self.cell.predicate().hash
    }

    /// An empty cache for `expected`.
    pub(crate) fn empty(Ghost(expected): Ghost<hash::Hash>) -> (cache: Self)
        ensures
            cache.expected() == expected,
    {
        CachedHash { cell: InvCell::new(None, Ghost(Expects { hash: expected })) }
    }

    /// What the cache holds at this moment: nothing, or the hash it was made
    /// for. The cache is filled through shared references, so whether it
    /// holds the hash is no function of this value, and a caller has to be
    /// right for both answers.
    pub(crate) fn get(&self) -> (held: Option<hash::Hash>)
        ensures
            held matches Some(hash) ==> hash == self.expected(),
    {
        self.cell.get()
    }

    /// Fills the cache. Only the hash that the cache was made for can go in.
    pub(crate) fn set(&self, hash: hash::Hash)
        requires
            hash == self.expected(),
    {
        self.cell.set(Some(hash));
    }
}

} // verus!
