//! Recovering a capability view of a type-erased value.
//!
//! A program registers facts of the form "the concrete type with this
//! identity supports the capability with that identity, witnessed by this
//! downcast operation" into a [`ledger::Ledger`], builds a
//! [`registry::Registry`] from it once, and then asks
//! [`cast::any_to_trait`] for the operation registered for the pair
//! (identity of the erased value's type, identity of the wanted
//! capability). The answer is present exactly when that pair was
//! registered.
//!
//! Type identities are plain tokens ([`ident::TypeIdent`]) assigned by the
//! host program, one per registrable type, so that the whole
//! registration-and-lookup mechanism is expressed over values the verifier
//! can reason about. The host keeps the actual downcast closures as the
//! registry's payload type and invokes the one the registry hands back.

pub mod cast;
pub mod ident;
pub mod ledger;
pub mod registry;
