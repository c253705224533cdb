//! Laws that hold of every well-formed registry state.

use vstd::prelude::*;

use crate::identity::gender_of;
use crate::pallet::Pallet;
use crate::types::{AccountId, Gender};

verus! {

/// Uniqueness: no two registry entries share an identity.
pub proof fn lemma_identities_unique(p: Pallet, i: int, j: int)
    requires
        p.wf(),
        0 <= i < p.n_kitties(),
        0 <= j < p.n_kitties(),
        i != j,
    ensures
        p.kdna(i) != p.kdna(j),
{
}

/// Capacity: every account's index is within the configured bound.
pub proof fn lemma_capacity_bound(p: Pallet, a: AccountId)
    requires
        p.wf(),
    ensures
        p.owned(a).len() <= p.max(),
{
    if exists|i: int| 0 <= i < p.n_entries() && p.oacct(i) == a {
        let i = choose|i: int| 0 <= i < p.n_entries() && p.oacct(i) == a;
        assert(p.olist(i).len() <= p.max());
    }
}

/// An account's index holds each identity at most once: together with
/// `lemma_ownership_consistent`, an asset's identity stands in its owner's
/// index exactly once, and nowhere else.
pub proof fn lemma_owned_no_duplicates(p: Pallet, a: AccountId, k1: int, k2: int)
    requires
        p.wf(),
        0 <= k1 < p.owned(a).len(),
        0 <= k2 < p.owned(a).len(),
        k1 != k2,
    ensures
        p.owned(a)[k1] != p.owned(a)[k2],
{
    assert(exists|i: int| 0 <= i < p.n_entries() && p.oacct(i) == a);
    let i = choose|i: int| 0 <= i < p.n_entries() && p.oacct(i) == a;
    p.lemma_owned_at_position(i);
    assert(p.olist(i)[k1] != p.olist(i)[k2]);
}

/// Ownership consistency: the owner's index holds an asset's identity,
/// and no other account's index does.
pub proof fn lemma_ownership_consistent(p: Pallet, d: Seq<u8>)
    requires
        p.wf(),
        p.registry_at(d) is Some,
    ensures
        p.owned(p.registry_at(d)->0.owner).contains(d),
        forall|a: AccountId| a != p.registry_at(d)->0.owner ==> !p.owned(a).contains(d),
{
    let j = choose|j: int| 0 <= j < p.n_kitties() && p.kdna(j) == d;
    assert(0 <= j < p.n_kitties() && p.kdna(j) == d);
    p.lemma_registry_at_position(j);
    let owner = p.kowner(j);
    assert(p.kitty_indexed(j));
    let (i, k) = choose|i: int, k: int|
        p.entry_valid(i, k) && p.oacct(i) == p.kowner(j) && p.olist(i)[k] == p.kdna(j);
    p.lemma_owned_at_position(i);
    assert(p.owned(owner)[k] == d);
    assert(p.owned(owner).contains(d));
    assert forall|a: AccountId| a != owner implies !p.owned(a).contains(d) by {
        if p.owned(a).contains(d) {
            assert(exists|i2: int| 0 <= i2 < p.n_entries() && p.oacct(i2) == a);
            let i2 = choose|i2: int| 0 <= i2 < p.n_entries() && p.oacct(i2) == a;
            p.lemma_owned_at_position(i2);
            let k2 = choose|k2: int| 0 <= k2 < p.owned(a).len() && p.owned(a)[k2] == d;
            assert(p.olist(i2)[k2] == d);
            assert(p.indexed_in_registry(i2, k2));
            let j2 = choose|j2: int|
                0 <= j2 < p.n_kitties() && p.kdna(j2) == p.olist(i2)[k2] && p.kowner(j2)
                    == p.oacct(i2);
            p.lemma_registry_at_position(j2);
            assert(p.kowner(j2) == a);
        }
    }
}

/// Attribute determinism: the derived attribute is a pure function of the
/// parity of the payload's first byte.
pub proof fn lemma_attribute_parity(payload: Seq<u8>)
    ensures
        gender_of(payload) == (if payload[0] % 2 == 0 {
            Gender::Male
        } else {
            Gender::Female
        }),
{
}

} // verus!
