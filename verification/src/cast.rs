use crate::ident::{cast_key, TypeIdent};
use crate::registry::{opt_deref, query_matches, Registry};
use vstd::prelude::*;

verus! {

/// A type-erased value: a value paired with the identity token of its
/// concrete type. Callers that receive one no longer see the concrete
/// type; the token retains enough to recover it on demand.
pub struct Erased<A> {
    type_ident: TypeIdent,
    value: A,
}

impl<A> Erased<A> {
    /// The identity token the value was erased with.
    pub closed spec fn spec_type_ident(&self) -> TypeIdent {
        self.type_ident
    }

    /// The erased value itself.
    pub closed spec fn spec_value(&self) -> A {
        self.value
    }

    /// Erases a value: pairs it with the identity token of its concrete
    /// type. The caller vouches that `type_ident` is the token the host
    /// assigned to `A`; every later recovery is keyed on it.
    pub fn erase(type_ident: TypeIdent, value: A) -> (r: Erased<A>)
        ensures
            r.spec_type_ident() == type_ident,
            r.spec_value() == value,
    {
        Erased { type_ident, value }
    }

    /// The runtime type identity of the erased value.
    pub fn type_ident(&self) -> (r: TypeIdent)
        ensures
            r == self.spec_type_ident(),
    {
        self.type_ident
    }

    /// Recovers the concrete value: succeeds exactly when the expected
    /// identity is the one the value was erased with.
    pub fn recover<'a>(&'a self, expected: TypeIdent) -> (r: Option<&'a A>)
        ensures
            match r {
                Some(v) => self.spec_type_ident() == expected && *v == self.spec_value(),
                None => self.spec_type_ident() != expected,
            },
    {
        if self.type_ident == expected {
            Some(&self.value)
        } else {
            None
        }
    }
}

/// Asks the registry for the caster registered for (the runtime type of
/// `erased`, `capability`). Present exactly when that pair was
/// registered; absence says the erased value's type was never registered
/// for this capability, or only for different ones. The caster handed
/// back is the one registered for exactly this pair, so the host may
/// apply it to the erased value without re-checking the type.
pub fn any_to_trait<'a, C, A>(
    registry: &'a Registry<C>,
    erased: &Erased<A>,
    capability: TypeIdent,
) -> (r: Option<&'a C>)
    ensures
        query_matches(registry@, cast_key(erased.spec_type_ident(), capability), opt_deref(r)),
{
    let t = erased.type_ident();
    registry.query(t, capability)
}

} // verus!
