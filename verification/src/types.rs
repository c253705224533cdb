//! Data model: the asset record, its binary attribute, the error and
//! notification taxonomy, and the service configuration.

use vstd::prelude::*;

verus! {

/// Account identifier of a caller or an owner.
pub type AccountId = u64;

/// Binary classification of an asset, derived from the parity of the
/// leading byte of its identity.
#[derive(Clone, Copy, PartialEq, Eq, Structural, Debug)]
pub enum Gender {
    Male,
    Female,
}

/// Why `create_kitty` or `transfer` refused to change the state.
///
/// Every error is reported before any mutation, so a caller that sees one
/// also sees the state exactly as it was before the call.
#[derive(Clone, Copy, PartialEq, Eq, Structural, Debug)]
pub enum Error {
    /// The generated identity already names a registry entry.
    DuplicateKitty,
    /// The account's index is already at the configured capacity.
    TooManyOwned,
    /// No registry entry is stored under the given identity.
    NoKitty,
    /// The caller is not the current owner of the asset.
    NotOwner,
    /// Source and target of a transfer are the same account.
    TransferToSelf,
    /// The lifetime creation counter cannot be incremented any further.
    Overflow,
}

/// One registry entry. The identity bytes in `dna` double as the lookup key.
#[derive(Clone, Debug)]
pub struct Kitty {
    /// Globally unique identity; also the registry key.
    pub dna: Vec<u8>,
    /// Stored but not read or validated by any rule of this library.
    pub price: u32,
    /// Derived from the parity of `dna`'s first byte.
    pub gender: Gender,
    /// Always the one account whose index holds `dna`.
    pub owner: AccountId,
    /// Reading of the injected monotonic time source at creation.
    pub created_date: u64,
}

/// Mathematical image of a `Kitty`.
#[verifier::ext_equal]
pub ghost struct KittyModel {
    pub dna: Seq<u8>,
    pub price: u32,
    pub gender: Gender,
    pub owner: AccountId,
    pub created_date: u64,
}

impl View for Kitty {
    type V = KittyModel;

    open spec fn view(&self) -> KittyModel {
        KittyModel {
            dna: self.dna@,
            price: self.price,
            gender: self.gender,
            owner: self.owner,
            created_date: self.created_date,
        }
    }
}

/// The same asset under a new owner: what a transfer does to a record.
pub open spec fn with_owner(k: KittyModel, a: AccountId) -> KittyModel {
    KittyModel { dna: k.dna, price: k.price, gender: k.gender, owner: a, created_date: k.created_date }
}

/// Notification recorded after a successful commit, and only then.
#[derive(Clone, Debug)]
pub enum Event {
    /// A new asset entered the registry.
    Created { kitty: Vec<u8>, owner: AccountId },
    /// An asset changed hands.
    Transferred { from: AccountId, to: AccountId, kitty: Vec<u8> },
}

/// Configuration the registry service is constructed with.
#[derive(Clone, Copy, Debug)]
pub struct Config {
    /// Maximum number of identities one account's index may hold.
    pub max_kitties_owned: u32,
}

} // verus!
