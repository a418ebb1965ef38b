use crate::ident::{CastKey, TypeIdent};
use vstd::prelude::*;

verus! {

/// One registration fact: the concrete type named by `key.concrete`
/// supports the capability named by `key.capability`, witnessed by
/// `caster`, the host-supplied downcast operation for exactly this pair.
pub struct Entry<C> {
    pub key: CastKey,
    pub caster: C,
}

/// The entry recording that `concrete` supports `capability` through `caster`.
pub open spec fn entry_of<C>(concrete: TypeIdent, capability: TypeIdent, caster: C) -> Entry<C> {
    Entry { key: CastKey { concrete, capability }, caster }
}

/// Append-only collection of registration facts. Every contributing part
/// of the program records its facts here during startup; the collection is
/// then drained exactly once to build the registry. The order of
/// contributions carries no meaning.
pub struct Ledger<C> {
    entries: Vec<Entry<C>>,
}

impl<C> View for Ledger<C> {
    type V = Seq<Entry<C>>;

    closed spec fn view(&self) -> Seq<Entry<C>> {
        self.entries@
    }
}

impl<C> Ledger<C> {
    /// An empty ledger, holding no facts yet.
    pub fn new() -> (r: Ledger<C>)
        ensures
            r@ == Seq::<Entry<C>>::empty(),
    {
        Ledger { entries: Vec::new() }
    }

    /// Records the fact that `concrete` supports `capability`, witnessed
    /// by `caster`. Contributors need no knowledge of one another; each
    /// call simply appends one fact.
    pub fn register(&mut self, concrete: TypeIdent, capability: TypeIdent, caster: C)
        ensures
            final(self)@ == old(self)@.push(entry_of(concrete, capability, caster)),
    {
        self.entries.push(Entry { key: CastKey { concrete, capability }, caster });
    }

    /// How many facts have been recorded.
    pub fn len(&self) -> (n: usize)
        ensures
            n == self@.len(),
    {
        self.entries.len()
    }

    /// Hands out every recorded fact. Consumes the ledger: the set of
    /// facts is enumerated exactly once, by the registry's build step.
    pub fn enumerate(self) -> (r: Vec<Entry<C>>)
        ensures
            r@ == self@,
    {
        self.entries
    }
}

} // verus!
