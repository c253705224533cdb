//! The registry service: a state container holding the registry, the
//! per-owner index, the lifetime creation counter and the notification log,
//! with the two public operations `create_kitty` and `transfer`.

use vstd::prelude::*;

use crate::identity::{clone_bytes, gen_dna_gender, gender_of, payload_of};
use crate::types::{with_owner, AccountId, Config, Error, Event, Kitty, KittyModel};

verus! {

/// Identities held by one account, bounded by the configured capacity.
pub struct OwnedEntry {
    pub owner: AccountId,
    pub kitties: Vec<Vec<u8>>,
}

/// The whole state of the registry service.
pub struct Pallet {
    /// Configuration fixed at construction.
    pub config: Config,
    /// Lifetime creation counter: total assets ever created.
    pub kitty_id: u32,
    /// The registry: one entry per identity, keys unique.
    pub kitties: Vec<Kitty>,
    /// The owner index: at most one entry per account.
    pub kitties_owned: Vec<OwnedEntry>,
    /// Notifications, appended on successful commits only.
    pub events: Vec<Event>,
}

/// Views of a list of identity byte-vectors.
pub open spec fn ids_of(s: Seq<Vec<u8>>) -> Seq<Seq<u8>> {
    s.map_values(|v: Vec<u8>| v@)
}

/// Where position `k` of a list of length `len` had stood before an
/// unordered removal at `pos`: the last element moves into the hole.
spec fn remap(len: int, pos: int, k: int) -> int {
    if k == pos {
        len - 1
    } else {
        k
    }
}

/// Whether two identities hold the same bytes.
fn bytes_equal(a: &Vec<u8>, b: &Vec<u8>) -> (r: bool)
    ensures
        r <==> a@ == b@,
{
    if a.len() != b.len() {
        return false;
    }
    let mut i: usize = 0;
    while i < a.len()
        invariant
            a@.len() == b@.len(),
            i <= a@.len(),
            forall|j: int| 0 <= j < i ==> a@[j] == b@[j],
        decreases a@.len() - i,
    {
        if a[i] != b[i] {
            return false;
        }
        i = i + 1;
    }
    proof {
        assert(a@ =~= b@);
    }
    true
}

/// Position of the registry entry stored under `dna`, if any.
fn find_kitty(kitties: &Vec<Kitty>, dna: &Vec<u8>) -> (r: Option<usize>)
    ensures
        match r {
            Some(j) => j < kitties@.len() && kitties@[j as int].dna@ == dna@,
            None => forall|j: int| 0 <= j < kitties@.len() ==> kitties@[j].dna@ != dna@,
        },
{
    let mut j: usize = 0;
    while j < kitties.len()
        invariant
            j <= kitties@.len(),
            forall|j2: int| 0 <= j2 < j ==> kitties@[j2].dna@ != dna@,
        decreases kitties@.len() - j,
    {
        if bytes_equal(&kitties[j].dna, dna) {
            return Some(j);
        }
        j = j + 1;
    }
    None
}

/// Position of the index entry of account `a`, if any.
fn find_owner(entries: &Vec<OwnedEntry>, a: AccountId) -> (r: Option<usize>)
    ensures
        match r {
            Some(i) => i < entries@.len() && entries@[i as int].owner == a,
            None => forall|i: int| 0 <= i < entries@.len() ==> entries@[i].owner != a,
        },
{
    let mut i: usize = 0;
    while i < entries.len()
        invariant
            i <= entries@.len(),
            forall|i2: int| 0 <= i2 < i ==> entries@[i2].owner != a,
        decreases entries@.len() - i,
    {
        if entries[i].owner == a {
            return Some(i);
        }
        i = i + 1;
    }
    None
}

/// Position of `dna` within one account's list of identities, if any.
fn find_in_list(list: &Vec<Vec<u8>>, dna: &Vec<u8>) -> (r: Option<usize>)
    ensures
        match r {
            Some(k) => k < list@.len() && list@[k as int]@ == dna@,
            None => forall|k: int| 0 <= k < list@.len() ==> list@[k]@ != dna@,
        },
{
    let mut k: usize = 0;
    while k < list.len()
        invariant
            k <= list@.len(),
            forall|k2: int| 0 <= k2 < k ==> list@[k2]@ != dna@,
        decreases list@.len() - k,
    {
        if bytes_equal(&list[k], dna) {
            return Some(k);
        }
        k = k + 1;
    }
    None
}

/// Element-wise copy of one account's list of identities.
fn clone_id_list(list: &Vec<Vec<u8>>) -> (r: Vec<Vec<u8>>)
    ensures
        ids_of(r@) == ids_of(list@),
{
    let mut r: Vec<Vec<u8>> = Vec::new();
    let mut k: usize = 0;
    while k < list.len()
        invariant
            k <= list@.len(),
            r@.len() == k,
            forall|k2: int| 0 <= k2 < k ==> r@[k2]@ == list@[k2]@,
        decreases list@.len() - k,
    {
        r.push(clone_bytes(&list[k]));
        k = k + 1;
    }
    proof {
        assert(ids_of(r@) =~= ids_of(list@));
    }
    r
}

impl Pallet {
    pub open spec fn n_kitties(self) -> int {
        self.kitties@.len() as int
    }

    pub open spec fn n_entries(self) -> int {
        self.kitties_owned@.len() as int
    }

    /// Identity stored at registry position `j`.
    pub open spec fn kdna(self, j: int) -> Seq<u8> {
        self.kitties@[j].dna@
    }

    /// Owner recorded at registry position `j`.
    pub open spec fn kowner(self, j: int) -> AccountId {
        self.kitties@[j].owner
    }

    /// Account of index entry `i`.
    pub open spec fn oacct(self, i: int) -> AccountId {
        self.kitties_owned@[i].owner
    }

    /// Identities of index entry `i`.
    pub open spec fn olist(self, i: int) -> Seq<Seq<u8>> {
        ids_of(self.kitties_owned@[i].kitties@)
    }

    /// Configured capacity of one account's index.
    pub open spec fn max(self) -> int {
        self.config.max_kitties_owned as int
    }

    /// The registry as a partial function: the asset stored under an
    /// identity, if any.
    pub open spec fn registry_at(self, dna: Seq<u8>) -> Option<KittyModel> {
        if exists|j: int| 0 <= j < self.n_kitties() && self.kdna(j) == dna {
            Some(self.kitties@[choose|j: int| 0 <= j < self.n_kitties() && self.kdna(j) == dna]@)
        } else {
            None
        }
    }

    /// The owner index as a total function: the identities held by an
    /// account, empty where the account has no entry.
    pub open spec fn owned(self, a: AccountId) -> Seq<Seq<u8>> {
        if exists|i: int| 0 <= i < self.n_entries() && self.oacct(i) == a {
            self.olist(choose|i: int| 0 <= i < self.n_entries() && self.oacct(i) == a)
        } else {
            Seq::empty()
        }
    }

    /// No two registry entries share an identity.
    pub open spec fn registry_keys_unique(self) -> bool {
        forall|i: int, j: int| 0 <= i < j < self.n_kitties() ==> self.kdna(i) != self.kdna(j)
    }

    /// No two index entries belong to the same account.
    pub open spec fn owners_unique(self) -> bool {
        forall|i: int, j: int| 0 <= i < j < self.n_entries() ==> self.oacct(i) != self.oacct(j)
    }

    /// Every account's index is within the configured capacity.
    pub open spec fn capacity_respected(self) -> bool {
        forall|i: int| 0 <= i < self.n_entries() ==> (#[trigger] self.olist(i)).len() <= self.max()
    }

    pub open spec fn entry_valid(self, i: int, k: int) -> bool {
        0 <= i < self.n_entries() && 0 <= k < self.olist(i).len()
    }

    /// Position (i, k) of the index names a registry entry owned by that
    /// very account.
    pub open spec fn indexed_in_registry(self, i: int, k: int) -> bool {
        exists|j: int|
            0 <= j < self.n_kitties() && self.kdna(j) == self.olist(i)[k] && self.kowner(j)
                == self.oacct(i)
    }

    /// Every identity in the index names a registry entry with that owner.
    pub open spec fn index_matches_registry(self) -> bool {
        forall|i: int, k: int|
            self.entry_valid(i, k) ==> #[trigger] self.indexed_in_registry(i, k)
    }

    /// No identity appears twice anywhere in the index.
    pub open spec fn index_ids_unique(self) -> bool {
        forall|i1: int, k1: int, i2: int, k2: int|
            #![trigger self.olist(i1)[k1], self.olist(i2)[k2]]
            self.entry_valid(i1, k1) && self.entry_valid(i2, k2) && (i1 != i2 || k1 != k2)
                ==> self.olist(i1)[k1] != self.olist(i2)[k2]
    }

    /// Registry entry `j` is indexed under its owner.
    pub open spec fn kitty_indexed(self, j: int) -> bool {
        exists|i: int, k: int|
            self.entry_valid(i, k) && self.oacct(i) == self.kowner(j) && self.olist(i)[k]
                == self.kdna(j)
    }

    /// Every registry entry is indexed under its owner.
    pub open spec fn registry_matches_index(self) -> bool {
        forall|j: int| 0 <= j < self.n_kitties() ==> #[trigger] self.kitty_indexed(j)
    }

    /// Well-formedness: the consistency the two operations establish and
    /// preserve between registry, index, capacity and ownership.
    pub open spec fn wf(self) -> bool {
        &&& self.registry_keys_unique()
        &&& self.owners_unique()
        &&& self.capacity_respected()
        &&& self.index_matches_registry()
        &&& self.index_ids_unique()
        &&& self.registry_matches_index()
    }

    /// With unique keys, the registry holds position `j`'s asset under
    /// position `j`'s identity.
    pub proof fn lemma_registry_at_position(self, j: int)
        requires
            self.registry_keys_unique(),
            0 <= j < self.n_kitties(),
        ensures
            self.registry_at(self.kdna(j)) == Some(self.kitties@[j]@),
    {
        let d = self.kdna(j);
        assert(0 <= j < self.n_kitties() && self.kdna(j) == d);
        let c = choose|j2: int| 0 <= j2 < self.n_kitties() && self.kdna(j2) == d;
        if c < j {
            assert(self.kdna(c) != self.kdna(j));
        } else if j < c {
            assert(self.kdna(j) != self.kdna(c));
        }
        assert(c == j);
    }

    /// With unique accounts, the owner index of entry `i`'s account is
    /// entry `i`'s list.
    pub proof fn lemma_owned_at_position(self, i: int)
        requires
            self.owners_unique(),
            0 <= i < self.n_entries(),
        ensures
            self.owned(self.oacct(i)) == self.olist(i),
    {
        let a = self.oacct(i);
        assert(0 <= i < self.n_entries() && self.oacct(i) == a);
        let c = choose|i2: int| 0 <= i2 < self.n_entries() && self.oacct(i2) == a;
        if c < i {
            assert(self.oacct(c) != self.oacct(i));
        } else if i < c {
            assert(self.oacct(i) != self.oacct(c));
        }
        assert(c == i);
    }

    /// An account with no index entry owns nothing.
    pub proof fn lemma_owned_absent(self, a: AccountId)
        requires
            forall|i: int| 0 <= i < self.n_entries() ==> self.oacct(i) != a,
        ensures
            self.owned(a) == Seq::<Seq<u8>>::empty(),
    {
    }

    /// A fresh, empty service.
    pub fn new(config: Config) -> (r: Pallet)
        ensures
            r.wf(),
            r.config == config,
            r.kitty_id == 0,
            forall|d: Seq<u8>| r.registry_at(d) is None,
            forall|a: AccountId| r.owned(a) == Seq::<Seq<u8>>::empty(),
            r.events@ == Seq::<Event>::empty(),
    {
        Pallet {
            config,
            kitty_id: 0,
            kitties: Vec::new(),
            kitties_owned: Vec::new(),
            events: Vec::new(),
        }
    }

    /// The registry entry stored under `dna`, if any.
    pub fn get_kitty(&self, dna: &Vec<u8>) -> (r: Option<&Kitty>)
        requires
            self.wf(),
        ensures
            match r {
                Some(k) => self.registry_at(dna@) == Some(k@),
                None => self.registry_at(dna@) is None,
            },
    {
        match find_kitty(&self.kitties, dna) {
            Some(j) => {
                proof {
                    self.lemma_registry_at_position(j as int);
                }
                Some(&self.kitties[j])
            },
            None => None,
        }
    }

    /// The identities account `a` currently owns.
    pub fn kitty_owned(&self, a: AccountId) -> (r: Vec<Vec<u8>>)
        requires
            self.wf(),
        ensures
            ids_of(r@) == self.owned(a),
    {
        match find_owner(&self.kitties_owned, a) {
            Some(i) => {
                proof {
                    self.lemma_owned_at_position(i as int);
                }
                clone_id_list(&self.kitties_owned[i].kitties)
            },
            None => {
                proof {
                    self.lemma_owned_absent(a);
                    assert(ids_of(Seq::<Vec<u8>>::empty()) =~= Seq::<Seq<u8>>::empty());
                }
                Vec::new()
            },
        }
    }

    /// Create a new asset for the verified caller `owner`.
    ///
    /// The identity is derived from the injected randomness, the sequence
    /// number of the call within the block, and the block number; the
    /// creation time `now` comes from the injected monotonic clock.  Either
    /// every effect commits (registry entry, owner index, counter, event),
    /// or the state is left exactly as it was.
    pub fn create_kitty(
        &mut self,
        owner: AccountId,
        random: &Vec<u8>,
        extrinsic_index: u32,
        block_number: u64,
        now: u64,
    ) -> (r: Result<(), Error>)
        requires
            old(self).wf(),
        ensures
            final(self).wf(),
            final(self).config == old(self).config,
            ({
                let dna = payload_of(random@, extrinsic_index, block_number);
                match r {
                    Ok(()) => {
                        &&& old(self).registry_at(dna) is None
                        &&& old(self).kitty_id < u32::MAX
                        &&& old(self).owned(owner).len() < old(self).max()
                        &&& final(self).registry_at(dna) == Some(
                            (KittyModel {
                                dna,
                                price: 0,
                                gender: gender_of(dna),
                                owner,
                                created_date: now,
                            }),
                        )
                        &&& (forall|d: Seq<u8>|
                            d != dna ==> final(self).registry_at(d) == old(self).registry_at(d))
                        &&& final(self).owned(owner) == old(self).owned(owner).push(dna)
                        &&& (forall|a: AccountId|
                            a != owner ==> final(self).owned(a) == old(self).owned(a))
                        &&& final(self).kitty_id == old(self).kitty_id + 1
                        &&& final(self).events@.len() == old(self).events@.len() + 1
                        &&& final(self).events@.drop_last() == old(self).events@
                        &&& (final(self).events@.last() matches Event::Created { kitty, owner: o }
                            && kitty@ == dna && o == owner)
                    },
                    Err(e) => {
                        &&& *final(self) == *old(self)
                        &&& (old(self).registry_at(dna) is Some || old(self).kitty_id == u32::MAX
                            || old(self).owned(owner).len() >= old(self).max())
                        &&& e == (if old(self).registry_at(dna) is Some {
                            Error::DuplicateKitty
                        } else if old(self).kitty_id == u32::MAX {
                            Error::Overflow
                        } else {
                            Error::TooManyOwned
                        })
                    },
                }
            }),
    {
        let (dna, gender) = gen_dna_gender(random, extrinsic_index, block_number);
        let ghost d = dna@;

        // The candidate identity must not already name a registry entry.
        match find_kitty(&self.kitties, &dna) {
            Some(j) => {
                proof {
                    self.lemma_registry_at_position(j as int);
                }
                return Err(Error::DuplicateKitty);
            },
            None => {},
        }
        proof {
            assert(self.registry_at(d) is None);
        }

        // The lifetime counter must still have room.
        if self.kitty_id == u32::MAX {
            return Err(Error::Overflow);
        }
        let next_id = self.kitty_id + 1;

        // The owner must be below capacity.
        let oi = find_owner(&self.kitties_owned, owner);
        match oi {
            Some(i) => {
                proof {
                    self.lemma_owned_at_position(i as int);
                }
                if self.kitties_owned[i].kitties.len() >= self.config.max_kitties_owned as usize {
                    return Err(Error::TooManyOwned);
                }
            },
            None => {
                proof {
                    self.lemma_owned_absent(owner);
                }
                if self.config.max_kitties_owned == 0 {
                    return Err(Error::TooManyOwned);
                }
            },
        }

        // All checks passed: commit every effect.
        let kitty = Kitty { dna: clone_bytes(&dna), price: 0, gender, owner, created_date: now };
        match oi {
            Some(i) => {
                let ghost before = ids_of(self.kitties_owned@[i as int].kitties@);
                let mut list = clone_id_list(&self.kitties_owned[i].kitties);
                list.push(clone_bytes(&dna));
                proof {
                    assert(ids_of(list@) =~= before.push(d));
                }
                self.kitties_owned.set(i, OwnedEntry { owner, kitties: list });
            },
            None => {
                let mut list: Vec<Vec<u8>> = Vec::new();
                list.push(clone_bytes(&dna));
                proof {
                    assert(ids_of(list@) =~= Seq::<Seq<u8>>::empty().push(d));
                }
                self.kitties_owned.push(OwnedEntry { owner, kitties: list });
            },
        }
        self.kitties.push(kitty);
        self.kitty_id = next_id;
        self.events.push(Event::Created { kitty: dna, owner });
        proof {
            old(self).lemma_create_commit(*self, d, owner, match oi {
                Some(i) => i as int,
                None => old(self).n_entries(),
            });
            assert(self.events@.drop_last() =~= old(self).events@);
        }
        Ok(())
    }

    /// Transfer the asset stored under `dna` from the verified caller
    /// `from` to the account `to`.
    ///
    /// The caller must be the current owner, the target must be a different
    /// account and must be below capacity; on any failure the state is left
    /// exactly as it was.  The removal from the source index is unordered:
    /// membership, not order, is preserved.
    pub fn transfer(&mut self, from: AccountId, to: AccountId, dna: &Vec<u8>) -> (r: Result<
        (),
        Error,
    >)
        requires
            old(self).wf(),
        ensures
            final(self).wf(),
            final(self).config == old(self).config,
            match r {
                Ok(()) => {
                    &&& old(self).registry_at(dna@) is Some
                    &&& old(self).registry_at(dna@)->0.owner == from
                    &&& from != to
                    &&& old(self).owned(to).len() < old(self).max()
                    &&& final(self).registry_at(dna@) == Some(
                        with_owner(old(self).registry_at(dna@)->0, to),
                    )
                    &&& (forall|d2: Seq<u8>|
                        d2 != dna@ ==> final(self).registry_at(d2) == old(self).registry_at(d2))
                    &&& (forall|x: Seq<u8>|
                        final(self).owned(from).contains(x) <==> (old(self).owned(from).contains(x)
                            && x != dna@))
                    &&& final(self).owned(from).len() == old(self).owned(from).len() - 1
                    &&& final(self).owned(to) == old(self).owned(to).push(dna@)
                    &&& (forall|a: AccountId|
                        a != from && a != to ==> final(self).owned(a) == old(self).owned(a))
                    &&& final(self).kitty_id == old(self).kitty_id
                    &&& final(self).events@.len() == old(self).events@.len() + 1
                    &&& final(self).events@.drop_last() == old(self).events@
                    &&& (final(self).events@.last() matches Event::Transferred {
                        from: f,
                        to: t,
                        kitty,
                    } && f == from && t == to && kitty@ == dna@)
                },
                Err(e) => {
                    &&& *final(self) == *old(self)
                    &&& (old(self).registry_at(dna@) is None || old(self).registry_at(dna@)->0.owner
                        != from || from == to || old(self).owned(to).len() >= old(self).max())
                    &&& e == (if old(self).registry_at(dna@) is None {
                        Error::NoKitty
                    } else if old(self).registry_at(dna@)->0.owner != from {
                        Error::NotOwner
                    } else if from == to {
                        Error::TransferToSelf
                    } else {
                        Error::TooManyOwned
                    })
                },
            },
    {
        let ghost d = dna@;

        // The asset must exist.
        let ki = match find_kitty(&self.kitties, dna) {
            None => {
                proof {
                    assert(self.registry_at(d) is None);
                }
                return Err(Error::NoKitty);
            },
            Some(j) => j,
        };
        proof {
            self.lemma_registry_at_position(ki as int);
        }

        // The caller must be the current owner, and distinct from the target.
        if self.kitties[ki].owner != from {
            return Err(Error::NotOwner);
        }
        if from == to {
            return Err(Error::TransferToSelf);
        }

        // The caller's index entry must hold the identity.  Well-formedness
        // makes these two checks unfailing; they guard the state all the same.
        let fi = match find_owner(&self.kitties_owned, from) {
            None => {
                proof {
                    assert(self.kitty_indexed(ki as int));
                    let (i, k) = choose|i: int, k: int|
                        self.entry_valid(i, k) && self.oacct(i) == self.kowner(ki as int)
                            && self.olist(i)[k] == self.kdna(ki as int);
                    assert(self.oacct(i) != from);
                    assert(false);
                }
                return Err(Error::NoKitty);
            },
            Some(i) => i,
        };
        let pos = match find_in_list(&self.kitties_owned[fi].kitties, dna) {
            None => {
                proof {
                    assert(self.kitty_indexed(ki as int));
                    let (i, k) = choose|i: int, k: int|
                        self.entry_valid(i, k) && self.oacct(i) == self.kowner(ki as int)
                            && self.olist(i)[k] == self.kdna(ki as int);
                    if i < fi as int {
                        assert(self.oacct(i) != self.oacct(fi as int));
                    } else if (fi as int) < i {
                        assert(self.oacct(fi as int) != self.oacct(i));
                    }
                    assert(i == fi as int);
                    assert(self.olist(i)[k] == d);
                    assert(false);
                }
                return Err(Error::NoKitty);
            },
            Some(p) => p,
        };

        // The target must be below capacity, exactly as at creation.
        let ti = find_owner(&self.kitties_owned, to);
        match ti {
            Some(t) => {
                proof {
                    self.lemma_owned_at_position(t as int);
                }
                if self.kitties_owned[t].kitties.len() >= self.config.max_kitties_owned as usize {
                    return Err(Error::TooManyOwned);
                }
            },
            None => {
                proof {
                    self.lemma_owned_absent(to);
                }
                if self.config.max_kitties_owned == 0 {
                    return Err(Error::TooManyOwned);
                }
            },
        }

        // All checks passed: commit every effect.
        let ghost fseq = self.olist(fi as int);
        let mut from_list = clone_id_list(&self.kitties_owned[fi].kitties);
        proof {
            assert(ids_of(from_list@).len() == fseq.len());
        }
        from_list.swap_remove(pos);
        proof {
            assert(ids_of(from_list@) =~= fseq.update(pos as int, fseq.last()).drop_last());
        }
        self.kitties_owned.set(fi, OwnedEntry { owner: from, kitties: from_list });
        match ti {
            Some(t) => {
                let ghost before = ids_of(self.kitties_owned@[t as int].kitties@);
                let mut to_list = clone_id_list(&self.kitties_owned[t].kitties);
                to_list.push(clone_bytes(dna));
                proof {
                    assert(ids_of(to_list@) =~= before.push(d));
                }
                self.kitties_owned.set(t, OwnedEntry { owner: to, kitties: to_list });
            },
            None => {
                let mut to_list: Vec<Vec<u8>> = Vec::new();
                to_list.push(clone_bytes(dna));
                proof {
                    assert(ids_of(to_list@) =~= Seq::<Seq<u8>>::empty().push(d));
                }
                self.kitties_owned.push(OwnedEntry { owner: to, kitties: to_list });
            },
        }
        let new_kitty = Kitty {
            dna: clone_bytes(&self.kitties[ki].dna),
            price: self.kitties[ki].price,
            gender: self.kitties[ki].gender,
            owner: to,
            created_date: self.kitties[ki].created_date,
        };
        self.kitties.set(ki, new_kitty);
        self.events.push(Event::Transferred { from, to, kitty: clone_bytes(dna) });
        proof {
            old(self).lemma_transfer_commit(*self, d, from, to, ki as int, fi as int, pos as int,
                match ti {
                    Some(t) => t as int,
                    None => old(self).n_entries(),
                });
            assert(self.events@.drop_last() =~= old(self).events@);
            assert(with_owner(old(self).registry_at(d)->0, to) == self.kitties@[ki as int]@);
        }
        Ok(())
    }

    /// The commit step of `transfer`: rewriting the asset's owner field,
    /// removing the identity from the source entry by an unordered removal
    /// and appending it to the target entry preserves well-formedness and
    /// changes the model exactly at the one identity and the two owners.
    proof fn lemma_transfer_commit(
        self,
        post: Pallet,
        d: Seq<u8>,
        from: AccountId,
        to: AccountId,
        ki: int,
        fi: int,
        pos: int,
        ti: int,
    )
        requires
            self.wf(),
            from != to,
            // the moved asset
            0 <= ki < self.n_kitties(),
            self.kdna(ki) == d,
            self.kowner(ki) == from,
            // the registry changed at ki only, and only in its owner field
            post.kitties@.len() == self.kitties@.len(),
            forall|j: int|
                0 <= j < self.n_kitties() && j != ki ==> post.kitties@[j] == self.kitties@[j],
            post.kitties@[ki]@ == with_owner(self.kitties@[ki]@, to),
            // the source entry lost d by an unordered removal at pos
            0 <= fi < self.n_entries(),
            self.oacct(fi) == from,
            post.oacct(fi) == from,
            0 <= pos < self.olist(fi).len(),
            self.olist(fi)[pos] == d,
            post.olist(fi) == self.olist(fi).update(pos, self.olist(fi).last()).drop_last(),
            // the target entry gained d at its end
            0 <= ti <= self.n_entries(),
            ti != fi,
            post.n_entries() == (if ti == self.n_entries() {
                self.n_entries() + 1
            } else {
                self.n_entries()
            }),
            forall|i: int|
                0 <= i < self.n_entries() && i != fi && i != ti ==> post.kitties_owned@[i]
                    == self.kitties_owned@[i],
            post.oacct(ti) == to,
            ti < self.n_entries() ==> self.oacct(ti) == to,
            ti == self.n_entries() ==> (forall|i: int|
                0 <= i < self.n_entries() ==> self.oacct(i) != to),
            post.olist(ti) == (if ti < self.n_entries() {
                self.olist(ti)
            } else {
                Seq::<Seq<u8>>::empty()
            }).push(d),
            (if ti < self.n_entries() {
                self.olist(ti).len()
            } else {
                0
            }) < self.max(),
            post.config == self.config,
        ensures
            post.wf(),
            post.registry_at(d) == Some(post.kitties@[ki]@),
            forall|d2: Seq<u8>| d2 != d ==> post.registry_at(d2) == self.registry_at(d2),
            forall|x: Seq<u8>|
                post.owned(from).contains(x) <==> (self.owned(from).contains(x) && x != d),
            post.owned(from).len() == self.owned(from).len() - 1,
            post.owned(to) == self.owned(to).push(d),
            forall|a: AccountId| a != from && a != to ==> post.owned(a) == self.owned(a),
    {
        let n = self.n_kitties();
        let fseq = self.olist(fi);
        let gseq = post.olist(fi);
        let flen = fseq.len() as int;

        // identities are unchanged throughout the registry
        assert forall|j: int| 0 <= j < n implies post.kdna(j) == self.kdna(j) && (j != ki
            ==> post.kowner(j) == self.kowner(j)) by {
            if j != ki {
                assert(post.kitties@[j] == self.kitties@[j]);
            }
        }

        // d appears in the old index only at (fi, pos)
        assert forall|i: int, k: int|
            self.entry_valid(i, k) && (i != fi || k != pos) implies self.olist(i)[k] != d by {
            assert(self.olist(fi)[pos] == d);
        }

        // the source list after removal: every position holds an old
        // identity from a position other than pos, and the other way round
        assert(gseq.len() == flen - 1);
        assert forall|k: int| 0 <= k < flen - 1 implies gseq[k] == fseq[remap(flen, pos, k)]
            && 0 <= remap(flen, pos, k) < flen && remap(flen, pos, k) != pos by {
            if k == pos {
                assert(gseq[k] == fseq[flen - 1]);
            }
        }

        // well-formedness of the new state, clause by clause
        assert forall|i: int, j: int| 0 <= i < j < post.n_kitties() implies post.kdna(i)
            != post.kdna(j) by {
            assert(self.kdna(i) != self.kdna(j));
        }
        assert forall|i: int, j: int| 0 <= i < j < post.n_entries() implies post.oacct(i)
            != post.oacct(j) by {
            if (i == fi || i == ti) && (j == fi || j == ti) {
            } else if i == fi || i == ti {
                assert(post.oacct(j) == self.oacct(j));
                if i == fi {
                    assert(self.oacct(j) != self.oacct(fi));
                } else if ti < self.n_entries() {
                    assert(self.oacct(j) != self.oacct(ti));
                }
            } else if j == fi || j == ti {
                assert(post.oacct(i) == self.oacct(i));
                if j == fi {
                    assert(self.oacct(i) != self.oacct(fi));
                } else if ti < self.n_entries() {
                    assert(self.oacct(i) != self.oacct(ti));
                }
            } else {
                assert(post.oacct(i) == self.oacct(i));
                assert(post.oacct(j) == self.oacct(j));
                assert(self.oacct(i) != self.oacct(j));
            }
        }
        assert(post.owners_unique());
        assert forall|i: int| 0 <= i < post.n_entries() implies (#[trigger] post.olist(i)).len()
            <= post.max() by {
            if i == fi {
            } else if i == ti {
            } else {
                assert(post.olist(i) == self.olist(i));
                assert(self.olist(i).len() <= self.max());
            }
        }
        assert forall|i: int, k: int| post.entry_valid(i, k) implies #[trigger] post.indexed_in_registry(
            i,
            k,
        ) by {
            if i == ti && k == post.olist(ti).len() - 1 {
                assert(post.olist(i)[k] == d);
                assert(post.kdna(ki) == d && post.kowner(ki) == to);
            } else {
                let k0 = if i == fi {
                    remap(flen, pos, k)
                } else {
                    k
                };
                assert(post.olist(i)[k] == self.olist(i)[k0]);
                assert(self.entry_valid(i, k0));
                assert(self.indexed_in_registry(i, k0));
                let j = choose|j: int|
                    0 <= j < self.n_kitties() && self.kdna(j) == self.olist(i)[k0] && self.kowner(
                        j,
                    ) == self.oacct(i);
                assert(self.olist(i)[k0] != d);
                assert(j != ki);
                assert(post.kdna(j) == post.olist(i)[k] && post.kowner(j) == post.oacct(i));
            }
        }
        assert forall|i1: int, k1: int, i2: int, k2: int|
            post.entry_valid(i1, k1) && post.entry_valid(i2, k2) && (i1 != i2 || k1 != k2) implies post.olist(
            i1,
        )[k1] != post.olist(i2)[k2] by {
            let new1 = i1 == ti && k1 == post.olist(ti).len() - 1;
            let new2 = i2 == ti && k2 == post.olist(ti).len() - 1;
            let k01 = if i1 == fi {
                remap(flen, pos, k1)
            } else {
                k1
            };
            let k02 = if i2 == fi {
                remap(flen, pos, k2)
            } else {
                k2
            };
            if new1 && !new2 {
                assert(post.olist(i2)[k2] == self.olist(i2)[k02]);
                assert(self.entry_valid(i2, k02) && (i2 != fi || k02 != pos));
                assert(self.olist(i2)[k02] != d);
            } else if !new1 && new2 {
                assert(post.olist(i1)[k1] == self.olist(i1)[k01]);
                assert(self.entry_valid(i1, k01) && (i1 != fi || k01 != pos));
                assert(self.olist(i1)[k01] != d);
            } else if !new1 && !new2 {
                assert(post.olist(i1)[k1] == self.olist(i1)[k01]);
                assert(post.olist(i2)[k2] == self.olist(i2)[k02]);
                assert(self.entry_valid(i1, k01) && self.entry_valid(i2, k02));
                assert(i1 != i2 || k01 != k02);
                assert(self.olist(i1)[k01] != self.olist(i2)[k02]);
            }
        }
        assert forall|j: int| 0 <= j < post.n_kitties() implies #[trigger] post.kitty_indexed(
            j,
        ) by {
            if j == ki {
                let k = post.olist(ti).len() - 1;
                assert(post.entry_valid(ti, k) && post.oacct(ti) == post.kowner(j) && post.olist(
                    ti,
                )[k] == post.kdna(j));
            } else {
                assert(self.kitty_indexed(j));
                let (i, k) = choose|i: int, k: int|
                    self.entry_valid(i, k) && self.oacct(i) == self.kowner(j) && self.olist(i)[k]
                        == self.kdna(j);
                assert(self.kdna(j) != self.kdna(ki));
                assert(self.olist(i)[k] != d);
                if i == fi {
                    assert(k != pos);
                    let k2 = if k == flen - 1 {
                        pos
                    } else {
                        k
                    };
                    assert(remap(flen, pos, k2) == k);
                    assert(post.olist(fi)[k2] == self.olist(fi)[k]);
                    assert(post.entry_valid(i, k2) && post.oacct(i) == post.kowner(j)
                        && post.olist(i)[k2] == post.kdna(j));
                } else {
                    assert(post.olist(i)[k] == self.olist(i)[k]);
                    assert(post.entry_valid(i, k) && post.oacct(i) == post.kowner(j) && post.olist(
                        i,
                    )[k] == post.kdna(j));
                }
            }
        }
        assert(post.wf());

        // the registry model: the one record rewritten, the rest as before
        post.lemma_registry_at_position(ki);
        assert forall|d2: Seq<u8>| d2 != d implies post.registry_at(d2) == self.registry_at(
            d2,
        ) by {
            if exists|j: int| 0 <= j < self.n_kitties() && self.kdna(j) == d2 {
                let j = choose|j: int| 0 <= j < self.n_kitties() && self.kdna(j) == d2;
                self.lemma_registry_at_position(j);
                assert(j != ki);
                assert(post.kdna(j) == d2);
                post.lemma_registry_at_position(j);
                assert(post.kitties@[j]@ == self.kitties@[j]@);
            } else {
                assert(self.registry_at(d2) is None);
                assert forall|j: int| 0 <= j < post.n_kitties() implies post.kdna(j) != d2 by {
                    assert(post.kdna(j) == self.kdna(j));
                }
                assert(post.registry_at(d2) is None);
            }
        }

        // the owner index model: d moved from `from`'s list to `to`'s
        self.lemma_owned_at_position(fi);
        post.lemma_owned_at_position(fi);
        assert(post.owned(from) == gseq && self.owned(from) == fseq);
        assert forall|x: Seq<u8>|
            post.owned(from).contains(x) <==> (self.owned(from).contains(x) && x != d) by {
            if gseq.contains(x) {
                let k = choose|k: int| 0 <= k < gseq.len() && gseq[k] == x;
                let k0 = remap(flen, pos, k);
                assert(fseq[k0] == x);
                assert(fseq.contains(x));
                assert(self.entry_valid(fi, k0) && (fi != fi || k0 != pos));
                assert(self.olist(fi)[k0] != d);
            }
            if fseq.contains(x) && x != d {
                let k = choose|k: int| 0 <= k < fseq.len() && fseq[k] == x;
                assert(k != pos);
                let k2 = if k == flen - 1 {
                    pos
                } else {
                    k
                };
                assert(remap(flen, pos, k2) == k);
                assert(gseq[k2] == fseq[k]);
                assert(gseq.contains(x));
            }
        }
        post.lemma_owned_at_position(ti);
        if ti < self.n_entries() {
            self.lemma_owned_at_position(ti);
        } else {
            self.lemma_owned_absent(to);
        }
        assert(post.owned(to) == self.owned(to).push(d));
        assert forall|a: AccountId| a != from && a != to implies post.owned(a) == self.owned(
            a,
        ) by {
            if exists|i: int| 0 <= i < self.n_entries() && self.oacct(i) == a {
                let i = choose|i: int| 0 <= i < self.n_entries() && self.oacct(i) == a;
                self.lemma_owned_at_position(i);
                assert(i != fi && i != ti);
                assert(post.oacct(i) == a && post.olist(i) == self.olist(i));
                post.lemma_owned_at_position(i);
            } else {
                self.lemma_owned_absent(a);
                assert forall|i: int| 0 <= i < post.n_entries() implies post.oacct(i) != a by {
                    if i != fi && i != ti && i < self.n_entries() {
                        assert(post.oacct(i) == self.oacct(i));
                    }
                }
                post.lemma_owned_absent(a);
            }
        }
    }

    /// The commit step of `create_kitty`: pushing the new asset and growing
    /// the owner's index entry preserves well-formedness and changes the
    /// model exactly at the new identity and the one owner.
    proof fn lemma_create_commit(self, post: Pallet, d: Seq<u8>, owner: AccountId, ei: int)
        requires
            self.wf(),
            forall|j: int| 0 <= j < self.n_kitties() ==> self.kdna(j) != d,
            // the registry grew by one entry holding d and owner
            post.kitties@.len() == self.kitties@.len() + 1,
            forall|j: int| 0 <= j < self.n_kitties() ==> post.kitties@[j] == self.kitties@[j],
            post.kdna(self.n_kitties()) == d,
            post.kowner(self.n_kitties()) == owner,
            // the index changed at position ei only, gaining d at the end
            0 <= ei <= self.n_entries(),
            post.n_entries() == (if ei == self.n_entries() {
                self.n_entries() + 1
            } else {
                self.n_entries()
            }),
            forall|i: int|
                0 <= i < self.n_entries() && i != ei ==> post.kitties_owned@[i]
                    == self.kitties_owned@[i],
            post.oacct(ei) == owner,
            ei < self.n_entries() ==> self.oacct(ei) == owner,
            ei == self.n_entries() ==> (forall|i: int|
                0 <= i < self.n_entries() ==> self.oacct(i) != owner),
            post.olist(ei) == (if ei < self.n_entries() {
                self.olist(ei)
            } else {
                Seq::<Seq<u8>>::empty()
            }).push(d),
            (if ei < self.n_entries() {
                self.olist(ei).len()
            } else {
                0
            }) < self.max(),
            post.config == self.config,
        ensures
            post.wf(),
            post.registry_at(d) == Some(post.kitties@[self.n_kitties()]@),
            forall|d2: Seq<u8>| d2 != d ==> post.registry_at(d2) == self.registry_at(d2),
            post.owned(owner) == self.owned(owner).push(d),
            forall|a: AccountId| a != owner ==> post.owned(a) == self.owned(a),
    {
        let n = self.n_kitties();

        // No identity anywhere in the old index equals d.
        assert forall|i: int, k: int| self.entry_valid(i, k) implies self.olist(i)[k] != d by {
            assert(self.indexed_in_registry(i, k));
        }

        // Well-formedness of the new state, clause by clause.
        assert forall|i: int, j: int| 0 <= i < j < post.n_kitties() implies post.kdna(i)
            != post.kdna(j) by {
            if j == n {
                assert(post.kdna(i) == self.kdna(i));
            } else {
                assert(self.kdna(i) != self.kdna(j));
            }
        }
        assert forall|i: int, j: int| 0 <= i < j < post.n_entries() implies post.oacct(i)
            != post.oacct(j) by {
            if i != ei && j != ei {
                assert(post.oacct(i) == self.oacct(i));
                assert(post.oacct(j) == self.oacct(j));
                assert(self.oacct(i) != self.oacct(j));
            } else {
                // one of the two is the owner's entry; the other keeps an
                // old account, which is not `owner`
                let m = if i == ei {
                    j
                } else {
                    i
                };
                assert(post.oacct(m) == self.oacct(m));
                if ei < self.n_entries() {
                    assert(self.oacct(m) != self.oacct(ei));
                }
            }
        }
        assert(post.owners_unique());
        assert forall|i: int| 0 <= i < post.n_entries() implies (#[trigger] post.olist(i)).len()
            <= post.max() by {
            if i == ei {
            } else {
                assert(post.olist(i) == self.olist(i));
                assert(self.olist(i).len() <= self.max());
            }
        }
        assert forall|i: int, k: int| post.entry_valid(i, k) implies #[trigger] post.indexed_in_registry(
            i,
            k,
        ) by {
            if i == ei && k == post.olist(ei).len() - 1 {
                assert(post.olist(i)[k] == d);
                assert(post.kdna(n) == d && post.kowner(n) == owner);
            } else {
                assert(post.olist(i)[k] == self.olist(i)[k]);
                assert(self.entry_valid(i, k));
                assert(self.indexed_in_registry(i, k));
                let j = choose|j: int|
                    0 <= j < self.n_kitties() && self.kdna(j) == self.olist(i)[k] && self.kowner(j)
                        == self.oacct(i);
                assert(post.kdna(j) == post.olist(i)[k] && post.kowner(j) == post.oacct(i));
            }
        }
        assert forall|i1: int, k1: int, i2: int, k2: int|
            post.entry_valid(i1, k1) && post.entry_valid(i2, k2) && (i1 != i2 || k1 != k2) implies post.olist(
            i1,
        )[k1] != post.olist(i2)[k2] by {
            let new1 = i1 == ei && k1 == post.olist(ei).len() - 1;
            let new2 = i2 == ei && k2 == post.olist(ei).len() - 1;
            if new1 && !new2 {
                assert(post.olist(i2)[k2] == self.olist(i2)[k2]);
                assert(self.entry_valid(i2, k2));
                assert(self.olist(i2)[k2] != d);
            } else if !new1 && new2 {
                assert(post.olist(i1)[k1] == self.olist(i1)[k1]);
                assert(self.entry_valid(i1, k1));
                assert(self.olist(i1)[k1] != d);
            } else if !new1 && !new2 {
                assert(post.olist(i1)[k1] == self.olist(i1)[k1]);
                assert(post.olist(i2)[k2] == self.olist(i2)[k2]);
                assert(self.entry_valid(i1, k1) && self.entry_valid(i2, k2));
                assert(self.olist(i1)[k1] != self.olist(i2)[k2]);
            }
        }
        assert forall|j: int| 0 <= j < post.n_kitties() implies #[trigger] post.kitty_indexed(
            j,
        ) by {
            if j == n {
                let k = post.olist(ei).len() - 1;
                assert(post.entry_valid(ei, k) && post.oacct(ei) == post.kowner(j) && post.olist(
                    ei,
                )[k] == post.kdna(j));
            } else {
                assert(self.kitty_indexed(j));
                let (i, k) = choose|i: int, k: int|
                    self.entry_valid(i, k) && self.oacct(i) == self.kowner(j) && self.olist(i)[k]
                        == self.kdna(j);
                assert(post.oacct(i) == self.oacct(i));
                if i == ei {
                    assert(post.olist(i)[k] == self.olist(i)[k]);
                } else {
                    assert(post.olist(i) == self.olist(i));
                }
                assert(post.entry_valid(i, k) && post.oacct(i) == post.kowner(j) && post.olist(
                    i,
                )[k] == post.kdna(j));
            }
        }
        assert(post.wf());

        // The registry model: new identity present, everything else as before.
        post.lemma_registry_at_position(n);
        assert forall|d2: Seq<u8>| d2 != d implies post.registry_at(d2) == self.registry_at(
            d2,
        ) by {
            if exists|j: int| 0 <= j < self.n_kitties() && self.kdna(j) == d2 {
                let j = choose|j: int| 0 <= j < self.n_kitties() && self.kdna(j) == d2;
                self.lemma_registry_at_position(j);
                assert(post.kdna(j) == d2);
                post.lemma_registry_at_position(j);
                assert(post.kitties@[j]@ == self.kitties@[j]@);
            } else {
                assert(self.registry_at(d2) is None);
                assert forall|j: int| 0 <= j < post.n_kitties() implies post.kdna(j) != d2 by {
                    if j < n {
                        assert(post.kdna(j) == self.kdna(j));
                    }
                }
                assert(post.registry_at(d2) is None);
            }
        }

        // The owner index model: owner's list grew by d, others untouched.
        post.lemma_owned_at_position(ei);
        if ei < self.n_entries() {
            self.lemma_owned_at_position(ei);
        } else {
            self.lemma_owned_absent(owner);
        }
        assert(post.owned(owner) == self.owned(owner).push(d));
        assert forall|a: AccountId| a != owner implies post.owned(a) == self.owned(a) by {
            if exists|i: int| 0 <= i < self.n_entries() && self.oacct(i) == a {
                let i = choose|i: int| 0 <= i < self.n_entries() && self.oacct(i) == a;
                self.lemma_owned_at_position(i);
                assert(i != ei);
                assert(post.oacct(i) == a && post.olist(i) == self.olist(i));
                post.lemma_owned_at_position(i);
            } else {
                self.lemma_owned_absent(a);
                assert forall|i: int| 0 <= i < post.n_entries() implies post.oacct(i) != a by {
                    if i != ei && i < self.n_entries() {
                        assert(post.oacct(i) == self.oacct(i));
                    }
                }
                post.lemma_owned_absent(a);
            }
        }
    }
}

} // verus!
