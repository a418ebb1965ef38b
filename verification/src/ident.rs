use vstd::prelude::*;

verus! {

/// Identity token for a concrete type or for a capability interface.
///
/// The host program assigns every registrable type one code of its own;
/// two tokens are equal exactly when they name the same type.
#[derive(Clone, Copy, PartialEq, Eq, Structural, Debug)]
pub struct TypeIdent {
    pub code: u64,
}

/// Key of one registration fact: a concrete type together with the
/// capability it is to be viewed as.
#[derive(Clone, Copy, PartialEq, Eq, Structural, Debug)]
pub struct CastKey {
    pub concrete: TypeIdent,
    pub capability: TypeIdent,
}

/// The key for a (concrete type, capability) pair.
pub open spec fn cast_key(concrete: TypeIdent, capability: TypeIdent) -> CastKey {
    CastKey { concrete, capability }
}

/// Number of distinct type codes. Packing places the concrete code in the
/// high half of a `u128` and the capability code in the low half.
pub const CODE_SPAN: u128 = 0x1_0000_0000_0000_0000;

/// Packs a key into the single integer that indexes the lookup table.
pub open spec fn key_code(k: CastKey) -> u128 {
    ((k.concrete.code as int) * (CODE_SPAN as int) + (k.capability.code as int)) as u128
}

/// Packing is injective: equal packed codes come only from equal keys.
pub proof fn lemma_key_code_injective(k1: CastKey, k2: CastKey)
    requires
        key_code(k1) == key_code(k2),
    ensures
        k1 == k2,
{
    let s = CODE_SPAN as int;
    let c1 = k1.concrete.code as int;
    let y1 = k1.capability.code as int;
    let c2 = k2.concrete.code as int;
    let y2 = k2.capability.code as int;
    assert(0 <= c1 * s + y1 < CODE_SPAN as int * CODE_SPAN as int);
    assert(0 <= c2 * s + y2 < CODE_SPAN as int * CODE_SPAN as int);
    assert(c1 * s + y1 == c2 * s + y2);
    if c1 < c2 {
        assert(c1 * s + s <= c2 * s);
        assert(false);
    }
    if c2 < c1 {
        assert(c2 * s + s <= c1 * s);
        assert(false);
    }
    assert(c1 == c2 && y1 == y2);
}

/// Computes the packed code of a key.
pub fn compute_key_code(k: CastKey) -> (r: u128)
    ensures
        r == key_code(k),
{
    (k.concrete.code as u128) * CODE_SPAN + (k.capability.code as u128)
}

} // verus!
