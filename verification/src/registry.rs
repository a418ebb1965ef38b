use crate::ident::{cast_key, compute_key_code, key_code, lemma_key_code_injective, CastKey, TypeIdent};
use crate::ledger::{Entry, Ledger};
use std::collections::HashMap;
use vstd::prelude::*;

verus! {

broadcast use vstd::std_specs::hash::group_hash_axioms;

/// The meaning of a sequence of registration facts: the map that sends
/// each registered key to its caster. Which of two entries with one key
/// would win is immaterial here, because the registry is only ever built
/// from a collision-free ledger: [`Registry::build`] refuses any other.
pub open spec fn ledger_map<C>(s: Seq<Entry<C>>) -> Map<CastKey, C>
    decreases s.len(),
{
    if s.len() == 0 {
        Map::empty()
    } else {
        ledger_map(s.drop_first()).insert(s.first().key, s.first().caster)
    }
}

/// Two distinct registrations claim the same key.
pub open spec fn has_collision<C>(s: Seq<Entry<C>>) -> bool {
    exists|i: int, j: int| 0 <= i < j < s.len() && s[i].key == s[j].key
}

/// Reported when the ledger holds two registrations for one key: a
/// configuration error, detected while building, naming the claimed key.
#[derive(Clone, Copy, PartialEq, Eq, Structural, Debug)]
pub struct CollisionError {
    pub key: CastKey,
}

/// The capability registry: an exact-pair lookup table from cast keys to
/// casters, built once from the ledger and never changed afterwards.
pub struct Registry<C> {
    table: HashMap<u128, C>,
}

/// Reads a table keyed by packed codes as a map keyed by cast keys.
pub open spec fn pair_view<C>(m: Map<u128, C>) -> Map<CastKey, C> {
    Map::new(|k: CastKey| m.contains_key(key_code(k)), |k: CastKey| m[key_code(k)])
}

impl<C> View for Registry<C> {
    type V = Map<CastKey, C>;

    closed spec fn view(&self) -> Map<CastKey, C> {
        pair_view(self.table@)
    }
}

/// How a query's answer relates to a registry's map: present with the
/// registered caster when the key is registered, absent otherwise.
pub open spec fn query_matches<C>(m: Map<CastKey, C>, k: CastKey, r: Option<C>) -> bool {
    match r {
        Some(c) => m.contains_key(k) && c == m[k],
        None => !m.contains_key(k),
    }
}

/// The value behind an optional reference.
pub open spec fn opt_deref<C>(r: Option<&C>) -> Option<C> {
    match r {
        Some(c) => Some(*c),
        None => None,
    }
}

/// Packing keeps map updates aligned: inserting a key's packed code into
/// the table inserts that key into the table's reading as a pair map.
proof fn lemma_pair_view_insert<C>(m: Map<u128, C>, k: CastKey, c: C)
    ensures
        pair_view(m.insert(key_code(k), c)) == pair_view(m).insert(k, c),
{
    assert forall|k2: CastKey| k2 != k implies key_code(k2) != key_code(k) by {
        if key_code(k2) == key_code(k) {
            lemma_key_code_injective(k2, k);
        }
    }
    assert(pair_view(m.insert(key_code(k), c)) =~= pair_view(m).insert(k, c));
}

/// Soundness of registration: in a collision-free ledger, every recorded
/// fact is found again in the ledger's map, under its own key and with
/// its own caster.
pub proof fn lemma_registered_present<C>(s: Seq<Entry<C>>, i: int)
    requires
        !has_collision(s),
        0 <= i < s.len(),
    ensures
        ledger_map(s).contains_key(s[i].key),
        ledger_map(s)[s[i].key] == s[i].caster,
    decreases s.len(),
{
    assert(s.first() == s[0]);
    if i == 0 {
    } else {
        let t = s.drop_first();
        assert forall|a: int, b: int| 0 <= a < b < t.len() implies (#[trigger] t[a]).key != (
        #[trigger] t[b]).key by {
            assert(t[a] == s[a + 1]);
            assert(t[b] == s[b + 1]);
            if t[a].key == t[b].key {
                assert(has_collision(s));
            }
        }
        lemma_registered_present(t, i - 1);
        assert(t[i - 1] == s[i]);
        if s[0].key == s[i].key {
            assert(has_collision(s));
        }
    }
}

/// Completeness of absence: a key that no recorded fact claims is not in
/// the ledger's map.
pub proof fn lemma_unregistered_absent<C>(s: Seq<Entry<C>>, k: CastKey)
    requires
        forall|i: int| 0 <= i < s.len() ==> (#[trigger] s[i]).key != k,
    ensures
        !ledger_map(s).contains_key(k),
    decreases s.len(),
{
    if s.len() > 0 {
        let t = s.drop_first();
        assert forall|i: int| 0 <= i < t.len() implies (#[trigger] t[i]).key != k by {
            assert(t[i] == s[i + 1]);
        }
        lemma_unregistered_absent(t, k);
        assert(s.first() == s[0]);
    }
}

/// Capability discrimination: facts registering one concrete type for two
/// different capabilities are answered independently, each under its own
/// key and with its own caster.
pub proof fn lemma_capability_discrimination<C>(s: Seq<Entry<C>>, i: int, j: int)
    requires
        !has_collision(s),
        0 <= i < s.len(),
        0 <= j < s.len(),
        s[i].key.concrete == s[j].key.concrete,
        s[i].key.capability != s[j].key.capability,
    ensures
        ledger_map(s).contains_key(s[i].key),
        ledger_map(s)[s[i].key] == s[i].caster,
        ledger_map(s).contains_key(s[j].key),
        ledger_map(s)[s[j].key] == s[j].caster,
{
    lemma_registered_present(s, i);
    lemma_registered_present(s, j);
}

/// Queries are idempotent: any two answers for one key against one
/// registry map are equal.
pub proof fn lemma_query_idempotent<C>(m: Map<CastKey, C>, k: CastKey, r1: Option<C>, r2: Option<C>)
    requires
        query_matches(m, k, r1),
        query_matches(m, k, r2),
    ensures
        r1 == r2,
{
}

/// Order independence: recording two facts with different keys in either
/// order gives one and the same ledger map.
pub proof fn lemma_order_independent<C>(s: Seq<Entry<C>>, e1: Entry<C>, e2: Entry<C>)
    requires
        e1.key != e2.key,
    ensures
        ledger_map(s.push(e1).push(e2)) == ledger_map(s.push(e2).push(e1)),
    decreases s.len(),
{
    let a = s.push(e1).push(e2);
    let b = s.push(e2).push(e1);
    if s.len() == 0 {
        assert(a.first() == e1);
        assert(b.first() == e2);
        assert(a.drop_first() =~= seq![e2]);
        assert(b.drop_first() =~= seq![e1]);
        assert(seq![e2].first() == e2);
        assert(seq![e1].first() == e1);
        assert(seq![e2].drop_first() =~= Seq::<Entry<C>>::empty());
        assert(seq![e1].drop_first() =~= Seq::<Entry<C>>::empty());
        assert(ledger_map(Seq::<Entry<C>>::empty()) == Map::<CastKey, C>::empty());
        assert(ledger_map(seq![e2]) == Map::<CastKey, C>::empty().insert(e2.key, e2.caster));
        assert(ledger_map(seq![e1]) == Map::<CastKey, C>::empty().insert(e1.key, e1.caster));
        assert(ledger_map(a) == Map::<CastKey, C>::empty().insert(e2.key, e2.caster).insert(
            e1.key,
            e1.caster,
        ));
        assert(ledger_map(b) == Map::<CastKey, C>::empty().insert(e1.key, e1.caster).insert(
            e2.key,
            e2.caster,
        ));
        assert(ledger_map(a) =~= ledger_map(b));
    } else {
        assert(a.first() == s[0]);
        assert(b.first() == s[0]);
        assert(a.drop_first() =~= s.drop_first().push(e1).push(e2));
        assert(b.drop_first() =~= s.drop_first().push(e2).push(e1));
        lemma_order_independent(s.drop_first(), e1, e2);
    }
}

/// Ordering between contributions does not matter at all: two
/// collision-free ledgers recording the same facts, in whatever orders,
/// have one and the same map.
pub proof fn lemma_same_facts_same_map<C>(s1: Seq<Entry<C>>, s2: Seq<Entry<C>>)
    requires
        !has_collision(s1),
        !has_collision(s2),
        forall|i: int| 0 <= i < s1.len() ==> s2.contains(#[trigger] s1[i]),
        forall|i: int| 0 <= i < s2.len() ==> s1.contains(#[trigger] s2[i]),
    ensures
        ledger_map(s1) == ledger_map(s2),
{
    assert forall|k: CastKey| #[trigger]
        ledger_map(s1).contains_key(k) implies ledger_map(s2).contains_key(k) && ledger_map(s2)[k]
        == ledger_map(s1)[k] by {
        if forall|i: int| 0 <= i < s1.len() ==> (#[trigger] s1[i]).key != k {
            lemma_unregistered_absent(s1, k);
        }
        let i = choose|i: int| 0 <= i < s1.len() && (#[trigger] s1[i]).key == k;
        lemma_registered_present(s1, i);
        let j = choose|j: int| 0 <= j < s2.len() && s2[j] == s1[i];
        lemma_registered_present(s2, j);
    }
    assert forall|k: CastKey| #[trigger]
        ledger_map(s2).contains_key(k) implies ledger_map(s1).contains_key(k) by {
        if forall|i: int| 0 <= i < s2.len() ==> (#[trigger] s2[i]).key != k {
            lemma_unregistered_absent(s2, k);
        }
        let j = choose|j: int| 0 <= j < s2.len() && (#[trigger] s2[j]).key == k;
        let i = choose|i: int| 0 <= i < s1.len() && s1[i] == s2[j];
        lemma_registered_present(s1, i);
    }
    assert(ledger_map(s1) =~= ledger_map(s2));
}

impl<C> Registry<C> {
    /// Builds the registry by draining the ledger: every recorded fact
    /// becomes one table row. Two registrations claiming one key are a
    /// configuration error, reported with the claimed key rather than
    /// silently letting either one win.
    pub fn build(ledger: Ledger<C>) -> (r: Result<Registry<C>, CollisionError>)
        ensures
            match r {
                Ok(reg) => !has_collision(ledger@) && reg@ == ledger_map(ledger@),
                Err(e) => has_collision(ledger@) && (exists|i: int, j: int|
                    0 <= i < j < ledger@.len() && #[trigger] ledger@[i].key
                        == #[trigger] ledger@[j].key && ledger@[i].key == e.key),
            },
    {
        let ghost s = ledger@;
        let mut entries = ledger.enumerate();
        let mut table: HashMap<u128, C> = HashMap::new();
        proof {
            assert(entries@ =~= s.take(entries@.len() as int));
            assert(s.skip(s.len() as int) =~= Seq::<Entry<C>>::empty());
            assert(pair_view(table@) =~= ledger_map(s.skip(s.len() as int)));
        }
        while entries.len() > 0
            invariant
                s == ledger@,
                entries@ == s.take(entries@.len() as int),
                entries@.len() <= s.len(),
                pair_view(table@) == ledger_map(s.skip(entries@.len() as int)),
                forall|i: int|
                    entries@.len() <= i < s.len() ==> pair_view(table@).contains_key(
                        (#[trigger] s[i]).key,
                    ),
                forall|k: CastKey| #[trigger]
                    pair_view(table@).contains_key(k) ==> exists|i: int|
                        entries@.len() <= i < s.len() && (#[trigger] s[i]).key == k,
                forall|i: int, j: int|
                    entries@.len() <= i < j < s.len() ==> (#[trigger] s[i]).key != (
                    #[trigger] s[j]).key,
            decreases entries.len(),
        {
            let ghost j = entries@.len() as int;
            let entry = entries.pop().unwrap();
            proof {
                assert(entries@ =~= s.take(j - 1));
                assert(entry == s[j - 1]);
            }
            let code = compute_key_code(entry.key);
            if table.contains_key(&code) {
                proof {
                    assert(pair_view(table@).contains_key(entry.key));
                    let i = choose|i: int| j <= i < s.len() && (#[trigger] s[i]).key == entry.key;
                    assert(s[j - 1].key == s[i].key);
                    assert(0 <= j - 1 < i < ledger@.len() && ledger@[j - 1].key == ledger@[i].key
                        && ledger@[j - 1].key == entry.key);
                    assert(has_collision(s));
                }
                return Err(CollisionError { key: entry.key });
            }
            let ghost old_table = table@;
            table.insert(code, entry.caster);
            proof {
                lemma_pair_view_insert(old_table, entry.key, entry.caster);
                assert(s.skip(j - 1).drop_first() =~= s.skip(j));
                assert(s.skip(j - 1).first() == s[j - 1]);
                assert(ledger_map(s.skip(j - 1)) == ledger_map(s.skip(j)).insert(
                    entry.key,
                    entry.caster,
                ));
                assert forall|k: CastKey| #[trigger]
                    pair_view(table@).contains_key(k) implies exists|i: int|
                    j - 1 <= i < s.len() && (#[trigger] s[i]).key == k by {
                    if k == entry.key {
                        assert(j - 1 <= j - 1 < s.len() && s[j - 1].key == k);
                    } else {
                        assert(pair_view(old_table).contains_key(k));
                    }
                }
                assert forall|i: int, i2: int|
                    j - 1 <= i < i2 < s.len() implies (#[trigger] s[i]).key != (
                #[trigger] s[i2]).key by {
                    if i == j - 1 {
                        assert(!pair_view(old_table).contains_key(entry.key));
                        assert(pair_view(old_table).contains_key(s[i2].key));
                    }
                }
            }
        }
        proof {
            assert(s.take(0) =~= Seq::<Entry<C>>::empty());
            assert(s.skip(0) =~= s);
        }
        Ok(Registry { table })
    }

    /// Looks up the caster registered for the pair (`concrete`,
    /// `capability`). Absence is a normal answer: it says that this
    /// concrete type was never registered for this capability.
    pub fn query<'a>(&'a self, concrete: TypeIdent, capability: TypeIdent) -> (r: Option<&'a C>)
        ensures
            query_matches(self@, cast_key(concrete, capability), opt_deref(r)),
    {
        let code = compute_key_code(CastKey { concrete, capability });
        self.table.get(&code)
    }
}

} // verus!
