use vstd::prelude::*;

verus! {

/// Identifier of an asset class.
pub type ClassId = u32;

/// Identifier of an instance, unique within its class.
pub type InstanceId = u32;

/// An account of the host ledger.
pub type AccountId = u64;

/// An amount of the reservable currency.
pub type Balance = u128;

/// The caller-declared size of a class, checked by `destroy`.
#[derive(Clone, Copy, Debug, PartialEq, Eq, Structural)]
pub struct DestroyWitness {
    pub instances: u32,
    pub free_holds: u32,
}

/// The key of an instance: its class and its identifier within the class.
#[derive(Clone, Copy, Debug, PartialEq, Eq, Structural)]
pub struct AssetKey {
    pub class: ClassId,
    pub instance: InstanceId,
}

/// The key of the reverse index: an account and an instance that it owns.
#[derive(Clone, Copy, Debug, PartialEq, Eq, Structural)]
pub struct AccountKey {
    pub who: AccountId,
    pub class: ClassId,
    pub instance: InstanceId,
}

/// The details of an asset class.
#[derive(Clone, Copy, Debug, PartialEq, Eq, Structural)]
pub struct ClassDetails {
    /// Can change `issuer`, `admin` and `freezer`; holds the class's deposits.
    pub owner: AccountId,
    /// Can mint instances.
    pub issuer: AccountId,
    /// Can thaw, force-transfer and burn instances.
    pub admin: AccountId,
    /// Can freeze instances and the class.
    pub freezer: AccountId,
    /// The sum of all deposits reserved against `owner` for this class.
    pub total_deposit: Balance,
    /// When true, minting takes no per-instance deposit.
    pub free_holding: bool,
    /// The number of live instances of this class.
    pub instances: u32,
    /// The number of instances minted while `free_holding` was set.
    pub free_holds: u32,
    /// When true, unprivileged transfers are disabled for the whole class.
    pub is_frozen: bool,
}

/// The details of one instance of a class.
#[derive(Clone, Copy, Debug, PartialEq, Eq, Structural)]
pub struct InstanceDetails {
    /// The owner of this instance.
    pub owner: AccountId,
    /// An account allowed to transfer this instance once.
    pub approved: Option<AccountId>,
    /// When true, the instance cannot be transferred.
    pub is_frozen: bool,
    /// The deposit reserved for this instance against the class owner.
    pub deposit: Balance,
}

/// Metadata of an asset class.
#[derive(Clone, Debug, PartialEq, Eq)]
pub struct ClassMetadata {
    /// The deposit reserved for this metadata against the class owner.
    pub deposit: Balance,
    /// A short name.
    pub name: Vec<u8>,
    /// Further information, such as a URI.
    pub information: Vec<u8>,
    /// When true, only the privileged origin may change or clear it.
    pub is_frozen: bool,
}

/// Metadata of an asset instance.
#[derive(Clone, Debug, PartialEq, Eq)]
pub struct InstanceMetadata {
    /// The deposit reserved for this metadata against the class owner.
    pub deposit: Balance,
    /// A short name.
    pub name: Vec<u8>,
    /// Further information, such as a URI.
    pub information: Vec<u8>,
    /// When true, only the privileged origin may change or clear it.
    pub is_frozen: bool,
}

/// Where a call comes from, as resolved by the host.
#[derive(Clone, Copy, Debug, PartialEq, Eq, Structural)]
pub enum Origin {
    /// The privileged origin, which may bypass role checks.
    Force,
    /// A call signed by an account.
    Signed(AccountId),
    /// Any other origin: neither privileged nor signed.
    Unsigned,
}

/// The errors of this module.
#[derive(Clone, Copy, Debug, PartialEq, Eq, Structural)]
pub enum Error {
    /// The signing account has no permission to do the operation.
    NoPermission,
    /// The given class or instance is unknown.
    Unknown,
    /// The instance identifier has already been used.
    AlreadyExists,
    /// The owner turned out to be different to what was expected.
    WrongOwner,
    /// Invalid witness data given.
    BadWitness,
    /// The class identifier is already taken.
    InUse,
    /// The instance, the class or the metadata is frozen.
    Frozen,
    /// The delegate turned out to be different to what was expected.
    WrongDelegate,
    /// There is no delegate approved.
    NoDelegate,
    /// No approval exists that would allow the transfer.
    Unapproved,
    /// Invalid metadata given.
    BadMetadata,
}

/// Why the currency refused an operation.
#[derive(Clone, Copy, Debug, PartialEq, Eq, Structural)]
pub enum CurrencyError {
    /// The free balance does not cover the amount.
    InsufficientBalance,
    /// A balance would exceed its largest value.
    Overflow,
}

/// Why a call failed. A failed call changes nothing.
#[derive(Clone, Copy, Debug, PartialEq, Eq, Structural)]
pub enum DispatchError {
    /// The origin is not of the kind the call requires.
    BadOrigin,
    /// A check of this module failed.
    Module(Error),
    /// A counter or a balance would overflow.
    Overflow,
    /// The currency refused to reserve or move funds.
    Currency(CurrencyError),
}

/// The events of this module, one for each successful call.
#[derive(Clone, Debug, PartialEq, Eq)]
pub enum Event {
    /// A class was created. \[class, creator, admin\]
    Created(ClassId, AccountId, AccountId),
    /// A class was created by the privileged origin. \[class, owner\]
    ForceCreated(ClassId, AccountId),
    /// A class was destroyed. \[class\]
    Destroyed(ClassId),
    /// An instance was issued. \[class, instance, owner\]
    Issued(ClassId, InstanceId, AccountId),
    /// An instance was transferred. \[class, instance, from, to\]
    Transferred(ClassId, InstanceId, AccountId, AccountId),
    /// An instance was burned. \[class, instance, owner\]
    Burned(ClassId, InstanceId, AccountId),
    /// An instance was frozen. \[class, instance\]
    Frozen(ClassId, InstanceId),
    /// An instance was thawed. \[class, instance\]
    Thawed(ClassId, InstanceId),
    /// A class was frozen. \[class\]
    ClassFrozen(ClassId),
    /// A class was thawed. \[class\]
    ClassThawed(ClassId),
    /// The owner of a class changed. \[class, owner\]
    OwnerChanged(ClassId, AccountId),
    /// The team of a class changed. \[class, issuer, admin, freezer\]
    TeamChanged(ClassId, AccountId, AccountId, AccountId),
    /// An instance was approved for transfer by a delegate. \[class, instance, owner, delegate\]
    ApprovedTransfer(ClassId, InstanceId, AccountId, AccountId),
    /// An approval was cancelled. \[class, instance, owner, delegate\]
    ApprovalCancelled(ClassId, InstanceId, AccountId, AccountId),
    /// The privileged origin changed the attributes of a class. \[class\]
    AssetStatusChanged(ClassId),
    /// Metadata was set for a class. \[class, name, information, is_frozen\]
    ClassMetadataSet(ClassId, Vec<u8>, Vec<u8>, bool),
    /// Metadata was cleared for a class. \[class\]
    ClassMetadataCleared(ClassId),
    /// Metadata was set for an instance. \[class, name, information, is_frozen\]
    MetadataSet(ClassId, Vec<u8>, Vec<u8>, bool),
    /// Metadata was cleared for an instance. \[class\]
    MetadataCleared(ClassId),
}

/// The constants a module is configured with.
#[derive(Clone, Copy, Debug, PartialEq, Eq, Structural)]
pub struct Config {
    /// Reserved from the creator of a class by `create`.
    pub class_deposit: Balance,
    /// Reserved from the class owner for each instance minted outside free holding.
    pub instance_deposit: Balance,
    /// The base of a metadata deposit.
    pub metadata_deposit_base: Balance,
    /// The part of a metadata deposit charged for each byte of name and information.
    pub metadata_deposit_per_byte: Balance,
    /// The largest length of a name or of an information field.
    pub string_limit: u32,
}

} // verus!
