//! Classes of unique, non-fungible assets: roles, instances, approvals, metadata, and the
//! deposits that back them in a reservable currency.
use vstd::prelude::*;

pub mod currency;
pub mod laws;
pub mod pallet;
pub mod runtime_metadata;
pub mod table;
pub mod types;

pub use currency::{AccountData, Balances, ReservableCurrency};
pub use pallet::{Pallet, PalletState};
pub use runtime_metadata::{metadata_sections, MetadataSections, PalletPart};
pub use types::{
    AccountId, AccountKey, AssetKey, Balance, ClassDetails, ClassId, ClassMetadata, Config,
    CurrencyError, DestroyWitness, DispatchError, Error, Event, InstanceDetails, InstanceId,
    InstanceMetadata, Origin,
};

verus! {

} // verus!
