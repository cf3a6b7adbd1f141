use vstd::prelude::*;

use crate::currency::{reserved_after_taking, ReservableCurrency};
use crate::table::{zero_on_class, Table};
use crate::types::{
    AccountId, AccountKey, AssetKey, Balance, ClassDetails, ClassId, ClassMetadata, Config,
    DestroyWitness, DispatchError, Error, Event, InstanceDetails, InstanceId, InstanceMetadata,
    Origin,
};

verus! {

/// What the module stores, seen as maps.
pub struct PalletState {
    /// The constants the module was configured with.
    pub config: Config,
    /// The classes, by identifier.
    pub classes: Map<ClassId, ClassDetails>,
    /// The instances, by class and instance identifier.
    pub assets: Map<AssetKey, InstanceDetails>,
    /// The reverse index: which account owns which instance.
    pub accounts: Set<AccountKey>,
    /// The metadata of classes.
    pub class_metadata: Map<ClassId, ClassMetadata>,
    /// The metadata of instances.
    pub instance_metadata: Map<AssetKey, InstanceMetadata>,
    /// The events emitted so far, oldest first.
    pub events: Seq<Event>,
}

/// The key of an instance.
pub open spec fn asset_key(class: ClassId, instance: InstanceId) -> AssetKey {
    AssetKey { class, instance }
}

/// The key of an entry of the reverse index.
pub open spec fn account_key(who: AccountId, class: ClassId, instance: InstanceId) -> AccountKey {
    AccountKey { who, class, instance }
}

/// The reserved balances of `after` are those of `before`, with `delta` added for `who`.
pub open spec fn reserves_shifted<C: ReservableCurrency>(
    before: C,
    after: C,
    who: AccountId,
    delta: int,
) -> bool {
    forall|a: AccountId| #[trigger]
        after.reserved_of(a) == before.reserved_of(a) + (if a == who {
            delta
        } else {
            0
        })
}

/// The reserved balances of `after` are those of `before`, less `first` and then
/// `second` taken from `who` as far as its reserved balance goes.
pub open spec fn reserves_taken<C: ReservableCurrency>(
    before: C,
    after: C,
    who: AccountId,
    first: Balance,
    second: Balance,
) -> bool {
    forall|a: AccountId| #[trigger]
        after.reserved_of(a) == if a == who {
            reserved_after_taking(reserved_after_taking(before.reserved_of(a), first), second)
        } else {
            before.reserved_of(a)
        }
}

/// The reserved balances of `after` are those of `before`, with `amount` moved from the
/// reserve of `from`, as far as it goes, to the reserve of `to`.
pub open spec fn reserves_moved<C: ReservableCurrency>(
    before: C,
    after: C,
    from: AccountId,
    to: AccountId,
    amount: Balance,
) -> bool {
    let moved = before.reserved_of(from) - reserved_after_taking(before.reserved_of(from), amount);
    forall|a: AccountId| #[trigger]
        after.reserved_of(a) == before.reserved_of(a) + (if a == from {
            -moved
        } else if a == to {
            moved
        } else {
            0
        })
}

/// A successful `mint` of `instance` for `owner` took the state from `s` and `l` to `t`
/// and `m`.
pub open spec fn mint_effect<C: ReservableCurrency>(
    s: PalletState,
    l: C,
    class: ClassId,
    instance: InstanceId,
    owner: AccountId,
    t: PalletState,
    m: C,
) -> bool {
    let d = s.classes[class];
    let deposit = mint_deposit(s.config, d);
    &&& !mint_overflows(s.config, d)
    &&& t == (PalletState {
        classes: s.classes.insert(class, minted(s.config, d)),
        assets: s.assets.insert(
            asset_key(class, instance),
            InstanceDetails { owner, approved: None, is_frozen: false, deposit },
        ),
        accounts: s.accounts.insert(account_key(owner, class, instance)),
        events: s.events.push(Event::Issued(class, instance, owner)),
        ..s
    })
    &&& reserves_shifted(l, m, d.owner, deposit as int)
}

/// A successful `burn` of `instance` took the state from `s` and `l` to `t` and `m`.
pub open spec fn burn_effect<C: ReservableCurrency>(
    s: PalletState,
    l: C,
    class: ClassId,
    instance: InstanceId,
    t: PalletState,
    m: C,
) -> bool {
    let key = asset_key(class, instance);
    let d = s.classes[class];
    let item = s.assets[key];
    let meta_deposit: Balance = if s.instance_metadata.contains_key(key) {
        s.instance_metadata[key].deposit
    } else {
        0
    };
    &&& t == (PalletState {
        classes: s.classes.insert(
            class,
            ClassDetails {
                instances: if d.instances > 0 {
                    (d.instances - 1) as u32
                } else {
                    0
                },
                total_deposit: sat_sub(sat_sub(d.total_deposit, item.deposit), meta_deposit),
                ..d
            },
        ),
        assets: s.assets.remove(key),
        accounts: s.accounts.remove(account_key(item.owner, class, instance)),
        instance_metadata: s.instance_metadata.remove(key),
        events: s.events.push(Event::Burned(class, instance, item.owner)),
        ..s
    })
    &&& reserves_taken(l, m, d.owner, item.deposit, meta_deposit)
}

/// A successful `transfer_ownership` of `class` to `owner` took the state from `s` and `l`
/// to `t` and `m`.
pub open spec fn transfer_ownership_effect<C: ReservableCurrency>(
    s: PalletState,
    l: C,
    class: ClassId,
    owner: AccountId,
    t: PalletState,
    m: C,
) -> bool {
    let d = s.classes[class];
    if d.owner == owner {
        t == s && m == l
    } else {
        &&& t == (PalletState {
            classes: s.classes.insert(class, ClassDetails { owner, ..d }),
            events: s.events.push(Event::OwnerChanged(class, owner)),
            ..s
        })
        &&& reserves_moved(l, m, d.owner, owner, d.total_deposit)
    }
}

/// A successful `approve_transfer` by `who` took the state from `s` to `t`.
pub open spec fn approve_effect(
    s: PalletState,
    who: AccountId,
    class: ClassId,
    instance: InstanceId,
    delegate: AccountId,
    t: PalletState,
) -> bool {
    let key = asset_key(class, instance);
    t == (PalletState {
        assets: s.assets.insert(key, InstanceDetails { approved: Some(delegate), ..s.assets[key] }),
        events: s.events.push(Event::ApprovedTransfer(class, instance, who, delegate)),
        ..s
    })
}

/// A successful `cancel_approval` by `who` took the state from `s` to `t`.
pub open spec fn cancel_effect(
    s: PalletState,
    who: AccountId,
    class: ClassId,
    instance: InstanceId,
    t: PalletState,
) -> bool {
    let key = asset_key(class, instance);
    let item = s.assets[key];
    t == (PalletState {
        assets: s.assets.insert(key, InstanceDetails { approved: None, ..item }),
        events: s.events.push(
            Event::ApprovalCancelled(class, instance, who, item.approved.unwrap()),
        ),
        ..s
    })
}

/// The deposit that a successful `set_metadata` from `origin` leaves on the metadata of
/// `key`, whose earlier deposit is `old_deposit`.
pub open spec fn set_metadata_deposit(
    config: Config,
    origin: Origin,
    name: Seq<u8>,
    info: Seq<u8>,
    old_deposit: Balance,
) -> Balance {
    if checked_signer(origin) is Some {
        metadata_deposit(config, name.len() + info.len())
    } else {
        old_deposit
    }
}

/// The deposit of the metadata of `key` in `s`, zero where it has none.
pub open spec fn instance_metadata_deposit(s: PalletState, key: AssetKey) -> Balance {
    if s.instance_metadata.contains_key(key) {
        s.instance_metadata[key].deposit
    } else {
        0
    }
}

/// A successful `set_metadata` of `instance` from `origin` took the state from `s` and `l`
/// to `t` and `m`.
pub open spec fn set_metadata_effect<C: ReservableCurrency>(
    s: PalletState,
    l: C,
    origin: Origin,
    class: ClassId,
    instance: InstanceId,
    name: Vec<u8>,
    info: Vec<u8>,
    is_frozen: bool,
    t: PalletState,
    m: C,
) -> bool {
    let key = asset_key(class, instance);
    let d = s.classes[class];
    let old_deposit = instance_metadata_deposit(s, key);
    let deposit = set_metadata_deposit(s.config, origin, name@, info@, old_deposit);
    &&& sat_sub(d.total_deposit, old_deposit) + deposit <= Balance::MAX
    &&& t == (PalletState {
        classes: s.classes.insert(
            class,
            ClassDetails { total_deposit: (sat_sub(d.total_deposit, old_deposit) + deposit) as Balance, ..d },
        ),
        instance_metadata: s.instance_metadata.insert(
            key,
            InstanceMetadata { deposit, name, information: info, is_frozen },
        ),
        events: t.events,
        ..s
    })
    &&& t.events.drop_last() == s.events
    &&& t.events.last() matches Event::MetadataSet(c, n, i, f) && c == class && n@ == name@ && i@
        == info@ && f == is_frozen
    &&& if checked_signer(origin) is None {
        m == l
    } else if deposit > old_deposit {
        reserves_shifted(l, m, d.owner, deposit - old_deposit)
    } else {
        reserves_taken(l, m, d.owner, (old_deposit - deposit) as Balance, 0)
    }
}

/// The signer of a signed origin; `None` for the privileged origin.
pub open spec fn checked_signer(origin: Origin) -> Option<AccountId> {
    match origin {
        Origin::Signed(who) => Some(who),
        _ => None,
    }
}

/// `a - b`, stopping at zero.
pub open spec fn sat_sub(a: Balance, b: Balance) -> Balance {
    if a >= b {
        (a - b) as Balance
    } else {
        0
    }
}

/// `a + b`, stopping at the largest balance.
pub open spec fn sat_add(a: Balance, b: Balance) -> Balance {
    if a + b <= Balance::MAX {
        (a + b) as Balance
    } else {
        Balance::MAX
    }
}

/// `a * b`, stopping at the largest balance.
pub open spec fn sat_mul(a: Balance, b: Balance) -> Balance {
    if a * b <= Balance::MAX {
        (a * b) as Balance
    } else {
        Balance::MAX
    }
}

/// The deposit for metadata of `bytes` bytes in all: the base, and so much per byte,
/// saturating at the largest balance.
pub open spec fn metadata_deposit(config: Config, bytes: nat) -> Balance {
    sat_add(
        sat_mul(
            config.metadata_deposit_per_byte,
            if bytes <= Balance::MAX {
                bytes as Balance
            } else {
                Balance::MAX
            },
        ),
        config.metadata_deposit_base,
    )
}

/// The deposit that minting into a class with details `d` takes.
pub open spec fn mint_deposit(config: Config, d: ClassDetails) -> Balance {
    if d.free_holding {
        0
    } else {
        config.instance_deposit
    }
}

/// Whether minting into a class with details `d` would overflow a counter or its total deposit.
pub open spec fn mint_overflows(config: Config, d: ClassDetails) -> bool {
    ||| d.instances == u32::MAX
    ||| (d.free_holding && d.free_holds == u32::MAX)
    ||| (!d.free_holding && d.total_deposit + config.instance_deposit > Balance::MAX)
}

/// The details of a class after one more instance has been minted into it.
pub open spec fn minted(config: Config, d: ClassDetails) -> ClassDetails {
    ClassDetails {
        instances: (d.instances + 1) as u32,
        free_holds: if d.free_holding {
            (d.free_holds + 1) as u32
        } else {
            d.free_holds
        },
        total_deposit: (d.total_deposit + mint_deposit(config, d)) as Balance,
        ..d
    }
}

/// The deposit for metadata of `bytes` bytes, as `metadata_deposit` states it.
fn metadata_deposit_of(config: &Config, bytes: u128) -> (r: Balance)
    ensures
        r == metadata_deposit(*config, bytes as nat),
{
    let per = config.metadata_deposit_per_byte;
    let product = if bytes != 0 && per > u128::MAX / bytes {
        proof {
            let (m, b, p) = (u128::MAX as int, bytes as int, per as int);
            vstd::arithmetic::div_mod::lemma_fundamental_div_mod(m, b);
            let q = m / b;
            assert(p * b > m) by (nonlinear_arith)
                requires
                    p >= q + 1,
                    b > 0,
                    m == b * q + m % b,
                    m % b < b,
            ;
        }
        u128::MAX
    } else {
        proof {
            if bytes != 0 {
                let (m, b, p) = (u128::MAX as int, bytes as int, per as int);
                vstd::arithmetic::div_mod::lemma_fundamental_div_mod(m, b);
                let q = m / b;
                assert(p * b <= m) by (nonlinear_arith)
                    requires
                        p <= q,
                        b > 0,
                        m == b * q + m % b,
                        m % b >= 0,
                ;
            }
        }
        per * bytes
    };
    product.saturating_add(config.metadata_deposit_base)
}

/// What an instance gives to the sum of the instance deposits of class `c`.
pub open spec fn deposit_in(c: ClassId) -> spec_fn(AssetKey, InstanceDetails) -> int {
    |k: AssetKey, v: InstanceDetails|
        if k.class == c {
            v.deposit as int
        } else {
            0
        }
}

/// What an instance gives to the count of the instances of class `c`.
pub open spec fn count_in(c: ClassId) -> spec_fn(AssetKey, InstanceDetails) -> int {
    |k: AssetKey, v: InstanceDetails|
        if k.class == c {
            1int
        } else {
            0
        }
}

/// What an instance gives to the count of the instances of class `c` that hold no deposit.
pub open spec fn free_in(c: ClassId) -> spec_fn(AssetKey, InstanceDetails) -> int {
    |k: AssetKey, v: InstanceDetails|
        if k.class == c && v.deposit == 0 {
            1int
        } else {
            0
        }
}

/// What instance metadata gives to the sum of the metadata deposits of class `c`.
pub open spec fn metadata_deposit_in(c: ClassId) -> spec_fn(AssetKey, InstanceMetadata) -> int {
    |k: AssetKey, v: InstanceMetadata|
        if k.class == c {
            v.deposit as int
        } else {
            0
        }
}

/// The deposit of the metadata of class `c` in `s`, zero where it has none.
pub open spec fn class_metadata_deposit(s: PalletState, c: ClassId) -> int {
    if s.class_metadata.contains_key(c) {
        s.class_metadata[c].deposit as int
    } else {
        0
    }
}

/// What a class gives to the deposits held against account `a`: its total deposit where
/// `a` owns it.
pub open spec fn owned_by(a: AccountId) -> spec_fn(ClassId, ClassDetails) -> int {
    |c: ClassId, d: ClassDetails|
        if d.owner == a {
            d.total_deposit as int
        } else {
            0
        }
}

/// The non-fungible assets module: classes of unique instances, their roles, metadata
/// and deposits, and the currency that holds the deposits.
pub struct Pallet<C> {
    config: Config,
    currency: C,
    class: Table<ClassId, ClassDetails>,
    asset: Table<AssetKey, InstanceDetails>,
    account: Table<AccountKey, ()>,
    class_metadata_of: Table<ClassId, ClassMetadata>,
    instance_metadata_of: Table<AssetKey, InstanceMetadata>,
    events: Vec<Event>,
    /// The live classes that were created by `create`, and so hold the class deposit.
    created: Ghost<Set<ClassId>>,
}

impl<C> View for Pallet<C> {
    type V = PalletState;

    closed spec fn view(&self) -> PalletState {
        PalletState {
            config: self.config,
            classes: self.class@,
            assets: self.asset@,
            accounts: self.account@.dom(),
            class_metadata: self.class_metadata_of@,
            instance_metadata: self.instance_metadata_of@,
            events: self.events@,
        }
    }
}

impl<C: ReservableCurrency> Pallet<C> {
    /// The currency, as the module sees it.
    pub closed spec fn ledger(&self) -> C {
        self.currency
    }

    /// The sum of the total deposits of the classes that `a` owns.
    pub closed spec fn owned_deposits(&self, a: AccountId) -> int {
        self.class.total(owned_by(a))
    }

    /// The reserved balance of every account is `base`, the part that this module does not
    /// account for, plus the total deposits of the classes it owns.
    pub open spec fn reserves_match(&self, base: spec_fn(AccountId) -> nat) -> bool {
        forall|a: AccountId| #[trigger]
            self.ledger().reserved_of(a) == base(a) + self.owned_deposits(a)
    }

    /// The sum of the deposits of the instances of class `c`.
    pub closed spec fn instance_deposits(&self, c: ClassId) -> int {
        self.asset.total(deposit_in(c))
    }

    /// The number of instances of class `c`.
    pub closed spec fn instance_count(&self, c: ClassId) -> int {
        self.asset.total(count_in(c))
    }

    /// The number of instances of class `c` that hold no deposit.
    pub closed spec fn zero_deposit_count(&self, c: ClassId) -> int {
        self.asset.total(free_in(c))
    }

    /// Every class counts in `free_holds` exactly its instances that hold no deposit.
    pub open spec fn free_holds_counted(&self) -> bool {
        forall|c: ClassId| #[trigger]
            self@.classes.contains_key(c) ==> self@.classes[c].free_holds == self.zero_deposit_count(c)
    }

    /// The sum of the deposits of the metadata of the instances of class `c`.
    pub closed spec fn instance_metadata_deposits(&self, c: ClassId) -> int {
        self.instance_metadata_of.total(metadata_deposit_in(c))
    }

    /// The class deposit that class `c` holds: the configured one where `create` made it,
    /// none where `force_create` did.
    pub closed spec fn creation_deposit(&self, c: ClassId) -> int {
        if self.created@.contains(c) {
            self.config.class_deposit as int
        } else {
            0
        }
    }

    /// The storage is consistent: every instance is indexed under its owner and belongs to
    /// a live class, the index holds nothing else, and metadata exists only for live
    /// classes and instances.
    pub closed spec fn wf(&self) -> bool {
        &&& self.class.wf()
        &&& self.asset.wf()
        &&& self.account.wf()
        &&& self.class_metadata_of.wf()
        &&& self.instance_metadata_of.wf()
        &&& forall|k: AccountKey| #[trigger]
            self.account@.contains_key(k) ==> {
                &&& self.asset@.contains_key(asset_key(k.class, k.instance))
                &&& self.asset@[asset_key(k.class, k.instance)].owner == k.who
            }
        &&& forall|a: AssetKey| #[trigger]
            self.asset@.contains_key(a) ==> {
                &&& self.account@.contains_key(account_key(self.asset@[a].owner, a.class, a.instance))
                &&& self.class@.contains_key(a.class)
            }
        &&& forall|a: AssetKey| #[trigger]
            self.instance_metadata_of@.contains_key(a) ==> self.asset@.contains_key(a)
        &&& forall|c: ClassId| #[trigger]
            self.class_metadata_of@.contains_key(c) ==> self.class@.contains_key(c)
        &&& forall|c: ClassId| #[trigger] self.created@.contains(c) ==> self.class@.contains_key(c)
        &&& forall|c: ClassId| #[trigger]
            self.class@.contains_key(c) ==> {
                &&& self.class@[c].total_deposit == self.creation_deposit(c) + self.instance_deposits(c)
                    + class_metadata_deposit(self@, c) + self.instance_metadata_deposits(c)
                &&& self.class@[c].instances == self.instance_count(c)
            }
    }

    /// The reverse index holds exactly the pairs of an instance and its owner; every
    /// instance belongs to a live class; metadata exists only for live instances and classes.
    pub proof fn lemma_storage_consistent(&self)
        requires
            self.wf(),
        ensures
            forall|k: AccountKey| #[trigger]
                self@.accounts.contains(k) <==> {
                    &&& self@.assets.contains_key(asset_key(k.class, k.instance))
                    &&& self@.assets[asset_key(k.class, k.instance)].owner == k.who
                },
            forall|a: AssetKey| #[trigger]
                self@.assets.contains_key(a) ==> self@.classes.contains_key(a.class),
            forall|a: AssetKey| #[trigger]
                self@.instance_metadata.contains_key(a) ==> self@.assets.contains_key(a),
            forall|c: ClassId| #[trigger]
                self@.class_metadata.contains_key(c) ==> self@.classes.contains_key(c),
    {
        assert forall|k: AccountKey|
            self@.assets.contains_key(asset_key(k.class, k.instance)) && self@.assets[asset_key(
                k.class,
                k.instance,
            )].owner == k.who implies #[trigger] self@.accounts.contains(k) by {
            let a = asset_key(k.class, k.instance);
            assert(self.account@.contains_key(account_key(self.asset@[a].owner, a.class, a.instance)));
            assert(account_key(self.asset@[a].owner, a.class, a.instance) == k);
        }
    }

    /// Where the reserves match, the owner of a class holds at least its total deposit in
    /// reserve.
    proof fn lemma_owner_reserve_covers(&self, base: spec_fn(AccountId) -> nat, c: ClassId)
        requires
            self.wf(),
            self.reserves_match(base),
            self@.classes.contains_key(c),
        ensures
            self.ledger().reserved_of(self@.classes[c].owner) >= self@.classes[c].total_deposit,
    {
        let o = self.class@[c].owner;
        self.class.lemma_total_at_least(owned_by(o), c);
        assert(self.ledger().reserved_of(o) == base(o) + self.owned_deposits(o));
    }

    /// The total deposit of every class is its class deposit (where `create` made it), plus
    /// the deposits of its instances, of its metadata and of its instances' metadata; and
    /// its instance counter is the number of its instances.
    pub proof fn lemma_deposits_balanced(&self)
        requires
            self.wf(),
        ensures
            forall|c: ClassId| #[trigger]
                self@.classes.contains_key(c) ==> {
                    &&& self@.classes[c].total_deposit == self.creation_deposit(c)
                        + self.instance_deposits(c) + class_metadata_deposit(self@, c)
                        + self.instance_metadata_deposits(c)
                    &&& self@.classes[c].instances == self.instance_count(c)
                },
    {
    }

    /// A class that does not exist has no instances, metadata or deposits.
    proof fn lemma_fresh_class(&self, c: ClassId)
        requires
            self.wf(),
            !self@.classes.contains_key(c),
        ensures
            self.instance_deposits(c) == 0,
            self.instance_count(c) == 0,
            self.zero_deposit_count(c) == 0,
            self.instance_metadata_deposits(c) == 0,
            class_metadata_deposit(self@, c) == 0,
            !self.created@.contains(c),
    {
        self.asset.lemma_total_zero(deposit_in(c));
        self.asset.lemma_total_zero(count_in(c));
        self.asset.lemma_total_zero(free_in(c));
        self.instance_metadata_of.lemma_total_zero(metadata_deposit_in(c));
    }

    /// The sums that make up the total deposit of class `c` are not negative, and each is at
    /// least the part that the instance `key` of `c` and its metadata give to it.
    proof fn lemma_deposit_parts(&self, c: ClassId, key: AssetKey)
        requires
            self.wf(),
        ensures
            self.instance_deposits(c) >= 0,
            self.instance_metadata_deposits(c) >= 0,
            self.creation_deposit(c) >= 0,
            class_metadata_deposit(self@, c) >= 0,
            key.class == c && self@.assets.contains_key(key) ==> {
                &&& self.instance_deposits(c) >= self@.assets[key].deposit
                &&& self.instance_count(c) >= 1
            },
            key.class == c && self@.instance_metadata.contains_key(key) ==> self.instance_metadata_deposits(c)
                >= self@.instance_metadata[key].deposit,
    {
        self.asset.lemma_total_at_least(deposit_in(c), key);
        self.asset.lemma_total_at_least(count_in(c), key);
        self.instance_metadata_of.lemma_total_at_least(metadata_deposit_in(c), key);
    }

    /// An empty module over `currency`.
    pub fn new(config: Config, currency: C) -> (p: Self)
        ensures
            p.wf(),
            p@ == (PalletState {
                config,
                classes: Map::empty(),
                assets: Map::empty(),
                accounts: Set::empty(),
                class_metadata: Map::empty(),
                instance_metadata: Map::empty(),
                events: Seq::empty(),
            }),
            p.ledger() == currency,
            p.reserves_match(|a: AccountId| currency.reserved_of(a)),
            p.free_holds_counted(),
    {
        let p = Pallet {
            config,
            currency,
            class: Table::new(),
            asset: Table::new(),
            account: Table::new(),
            class_metadata_of: Table::new(),
            instance_metadata_of: Table::new(),
            events: Vec::new(),
            created: Ghost(Set::empty()),
        };
        proof {
            assert(p.account@.dom() =~= Set::empty());
        }
        p
    }

    pub fn config(&self) -> (r: Config)
        ensures
            r == self@.config,
    {
        self.config
    }

    pub fn currency(&self) -> (r: &C)
        ensures
            *r == self.ledger(),
    {
        &self.currency
    }

    pub fn events(&self) -> (r: &Vec<Event>)
        ensures
            r@ == self@.events,
    {
        &self.events
    }

    /// The details of `class`, if it exists.
    pub fn class(&self, class: ClassId) -> (r: Option<ClassDetails>)
        requires
            self.wf(),
        ensures
            r == self@.classes.get(class),
    {
        match self.class.get(&class) {
            Some(d) => Some(*d),
            None => None,
        }
    }

    /// The details of an instance, if it exists.
    pub fn asset(&self, class: ClassId, instance: InstanceId) -> (r: Option<InstanceDetails>)
        requires
            self.wf(),
        ensures
            r == self@.assets.get(asset_key(class, instance)),
    {
        match self.asset.get(&AssetKey { class, instance }) {
            Some(d) => Some(*d),
            None => None,
        }
    }

    /// The owner of an instance, if the instance exists.
    pub fn owner(&self, class: ClassId, instance: InstanceId) -> (r: Option<AccountId>)
        requires
            self.wf(),
        ensures
            r == (if self@.assets.contains_key(asset_key(class, instance)) {
                Some(self@.assets[asset_key(class, instance)].owner)
            } else {
                None
            }),
    {
        match self.asset.get(&AssetKey { class, instance }) {
            Some(d) => Some(d.owner),
            None => None,
        }
    }

    /// Whether the reverse index records `who` as the owner of the instance.
    pub fn account_holds(&self, who: AccountId, class: ClassId, instance: InstanceId) -> (r: bool)
        requires
            self.wf(),
        ensures
            r == self@.accounts.contains(account_key(who, class, instance)),
    {
        self.account.contains_key(&AccountKey { who, class, instance })
    }

    /// The metadata of `class`, if any.
    pub fn class_metadata(&self, class: ClassId) -> (r: Option<&ClassMetadata>)
        requires
            self.wf(),
        ensures
            match r {
                Some(m) => self@.class_metadata.contains_key(class) && *m
                    == self@.class_metadata[class],
                None => !self@.class_metadata.contains_key(class),
            },
    {
        self.class_metadata_of.get(&class)
    }

    /// The metadata of an instance, if any.
    pub fn instance_metadata(&self, class: ClassId, instance: InstanceId) -> (r: Option<
        &InstanceMetadata,
    >)
        requires
            self.wf(),
        ensures
            match r {
                Some(m) => self@.instance_metadata.contains_key(asset_key(class, instance)) && *m
                    == self@.instance_metadata[asset_key(class, instance)],
                None => !self@.instance_metadata.contains_key(asset_key(class, instance)),
            },
    {
        self.instance_metadata_of.get(&AssetKey { class, instance })
    }

    /// Issues a new class from a signed origin, which becomes its owner and pays the class
    /// deposit; `admin` takes the other three roles.
    pub fn create(&mut self, origin: Origin, class: ClassId, admin: AccountId) -> (r: Result<
        (),
        DispatchError,
    >)
        requires
            old(self).wf(),
        ensures
            final(self).wf(),
            old(self).free_holds_counted() && old(self)@.config.instance_deposit > 0
                ==> final(self).free_holds_counted(),
            forall|base: spec_fn(AccountId) -> nat|
                old(self).reserves_match(base) ==> #[trigger] final(self).reserves_match(base),
            r is Err ==> *final(self) == *old(self),
            match origin {
                Origin::Signed(_) => if old(self)@.classes.contains_key(class) {
                    r == Err::<(), DispatchError>(DispatchError::Module(Error::InUse))
                } else {
                    r is Ok || r matches Err(DispatchError::Currency(_))
                },
                _ => r == Err::<(), DispatchError>(DispatchError::BadOrigin),
            },
            r is Ok ==> (origin matches Origin::Signed(who) && {
                let deposit = old(self)@.config.class_deposit;
                &&& final(self)@ == (PalletState {
                    classes: old(self)@.classes.insert(
                        class,
                        ClassDetails {
                            owner: who,
                            issuer: admin,
                            admin,
                            freezer: admin,
                            total_deposit: deposit,
                            free_holding: false,
                            instances: 0,
                            free_holds: 0,
                            is_frozen: false,
                        },
                    ),
                    events: old(self)@.events.push(Event::Created(class, who, admin)),
                    ..old(self)@
                })
                &&& reserves_shifted(old(self).ledger(), final(self).ledger(), who, deposit as int)
            }),
    {
        let owner = match origin {
            Origin::Signed(who) => who,
            _ => return Err(DispatchError::BadOrigin),
        };
        if self.class.contains_key(&class) {
            return Err(DispatchError::Module(Error::InUse));
        }
        let deposit = self.config.class_deposit;
        match self.currency.reserve(owner, deposit) {
            Ok(()) => {},
            Err(e) => return Err(DispatchError::Currency(e)),
        }
        proof {
            self.lemma_fresh_class(class);
        }
        self.created = Ghost(self.created@.insert(class));
        self.class.insert(
            class,
            ClassDetails {
                owner,
                issuer: admin,
                admin,
                freezer: admin,
                total_deposit: deposit,
                free_holding: false,
                instances: 0,
                free_holds: 0,
                is_frozen: false,
            },
        );
        self.events.push(Event::Created(class, owner, admin));
        proof {
            assert forall|base: spec_fn(AccountId) -> nat|
                old(self).reserves_match(base) implies #[trigger] self.reserves_match(base) by {
                assert forall|a: AccountId| #[trigger]
                    self.ledger().reserved_of(a) == base(a) + self.owned_deposits(a) by {
                    assert(old(self).ledger().reserved_of(a) == base(a) + old(self).owned_deposits(a));
                }
            }
        }
        Ok(())
    }

    /// Issues a new class from the privileged origin, with `owner` in all four roles and no
    /// deposit taken.
    pub fn force_create(
        &mut self,
        origin: Origin,
        class: ClassId,
        owner: AccountId,
        free_holding: bool,
    ) -> (r: Result<(), DispatchError>)
        requires
            old(self).wf(),
        ensures
            final(self).wf(),
            old(self).free_holds_counted() && old(self)@.config.instance_deposit > 0
                ==> final(self).free_holds_counted(),
            forall|base: spec_fn(AccountId) -> nat|
                old(self).reserves_match(base) ==> #[trigger] final(self).reserves_match(base),
            final(self).ledger() == old(self).ledger(),
            r is Err ==> *final(self) == *old(self),
            r == if origin != Origin::Force {
                Err::<(), DispatchError>(DispatchError::BadOrigin)
            } else if old(self)@.classes.contains_key(class) {
                Err(DispatchError::Module(Error::InUse))
            } else {
                Ok(())
            },
            r is Ok ==> final(self)@ == (PalletState {
                classes: old(self)@.classes.insert(
                    class,
                    ClassDetails {
                        owner,
                        issuer: owner,
                        admin: owner,
                        freezer: owner,
                        total_deposit: 0,
                        free_holding,
                        instances: 0,
                        free_holds: 0,
                        is_frozen: false,
                    },
                ),
                events: old(self)@.events.push(Event::ForceCreated(class, owner)),
                ..old(self)@
            }),
    {
        if origin != Origin::Force {
            return Err(DispatchError::BadOrigin);
        }
        if self.class.contains_key(&class) {
            return Err(DispatchError::Module(Error::InUse));
        }
        proof {
            self.lemma_fresh_class(class);
        }
        self.class.insert(
            class,
            ClassDetails {
                owner,
                issuer: owner,
                admin: owner,
                freezer: owner,
                total_deposit: 0,
                free_holding,
                instances: 0,
                free_holds: 0,
                is_frozen: false,
            },
        );
        self.events.push(Event::ForceCreated(class, owner));
        proof {
            assert forall|base: spec_fn(AccountId) -> nat|
                old(self).reserves_match(base) implies #[trigger] self.reserves_match(base) by {
                assert forall|a: AccountId| #[trigger]
                    self.ledger().reserved_of(a) == base(a) + self.owned_deposits(a) by {
                    assert(old(self).ledger().reserved_of(a) == base(a) + old(self).owned_deposits(a));
                }
            }
        }
        Ok(())
    }

    /// Destroys a class with all its instances and metadata, and returns its whole deposit
    /// to its owner. The privileged origin or the class owner may do so, and the witness
    /// must give the class's counters exactly.
    pub fn destroy(&mut self, origin: Origin, class: ClassId, witness: DestroyWitness) -> (r:
        Result<(), DispatchError>)
        requires
            old(self).wf(),
        ensures
            final(self).wf(),
            old(self).free_holds_counted() && old(self)@.config.instance_deposit > 0
                ==> final(self).free_holds_counted(),
            forall|base: spec_fn(AccountId) -> nat|
                old(self).reserves_match(base) ==> #[trigger] final(self).reserves_match(base),
            r is Err ==> *final(self) == *old(self),
            r == if origin == Origin::Unsigned {
                Err::<(), DispatchError>(DispatchError::BadOrigin)
            } else if !old(self)@.classes.contains_key(class) {
                Err(DispatchError::Module(Error::Unknown))
            } else if origin != Origin::Force && origin != Origin::Signed(
                old(self)@.classes[class].owner,
            ) {
                Err(DispatchError::Module(Error::NoPermission))
            } else if old(self)@.classes[class].instances != witness.instances
                || old(self)@.classes[class].free_holds != witness.free_holds {
                Err(DispatchError::Module(Error::BadWitness))
            } else {
                Ok(())
            },
            r is Ok ==> {
                let d = old(self)@.classes[class];
                &&& final(self)@ == (PalletState {
                    classes: old(self)@.classes.remove(class),
                    assets: old(self)@.assets.restrict(
                        old(self)@.assets.dom().filter(|k: AssetKey| k.class != class),
                    ),
                    accounts: old(self)@.accounts.filter(|k: AccountKey| k.class != class),
                    class_metadata: old(self)@.class_metadata.remove(class),
                    instance_metadata: old(self)@.instance_metadata.restrict(
                        old(self)@.instance_metadata.dom().filter(|k: AssetKey| k.class != class),
                    ),
                    events: old(self)@.events.push(Event::Destroyed(class)),
                    ..old(self)@
                })
                &&& reserves_taken(old(self).ledger(), final(self).ledger(), d.owner, d.total_deposit, 0)
            },
    {
        let check_owner = match origin {
            Origin::Force => None,
            Origin::Signed(who) => Some(who),
            Origin::Unsigned => return Err(DispatchError::BadOrigin),
        };
        let d = match self.class.get(&class) {
            Some(d) => *d,
            None => return Err(DispatchError::Module(Error::Unknown)),
        };
        if let Some(who) = check_owner {
            if d.owner != who {
                return Err(DispatchError::Module(Error::NoPermission));
            }
        }
        if d.instances != witness.instances || d.free_holds != witness.free_holds {
            return Err(DispatchError::Module(Error::BadWitness));
        }
        let ghost old_accounts = self.account@;
        let ghost old_assets = self.asset@;
        let ghost old_metadata = self.instance_metadata_of@;
        self.asset.remove_class(class);
        self.account.remove_class(class);
        self.instance_metadata_of.remove_class(class);
        self.class_metadata_of.remove(&class);
        self.currency.unreserve(d.owner, d.total_deposit);
        self.class.remove(&class);
        self.created = Ghost(self.created@.remove(class));
        self.events.push(Event::Destroyed(class));
        proof {
            assert forall|c: ClassId| #[trigger] self.class@.contains_key(c) implies {
                &&& self.class@[c].total_deposit == self.creation_deposit(c) + self.instance_deposits(c)
                    + class_metadata_deposit(self@, c) + self.instance_metadata_deposits(c)
                &&& self.class@[c].instances == self.instance_count(c)
            } by {
                assert(zero_on_class(deposit_in(c), class));
                assert(zero_on_class(count_in(c), class));
                assert(zero_on_class(free_in(c), class));
                assert(zero_on_class(metadata_deposit_in(c), class));
            }
            assert(self.account@.dom() =~= old_accounts.dom().filter(
                |k: AccountKey| k.class != class,
            ));
            assert(self.asset@ =~= old_assets.restrict(
                old_assets.dom().filter(|k: AssetKey| k.class != class),
            ));
            assert(self.instance_metadata_of@ =~= old_metadata.restrict(
                old_metadata.dom().filter(|k: AssetKey| k.class != class),
            ));
        }
        proof {
            assert forall|base: spec_fn(AccountId) -> nat|
                old(self).reserves_match(base) implies #[trigger] self.reserves_match(base) by {
                old(self).lemma_owner_reserve_covers(base, class);
                assert forall|a: AccountId| #[trigger]
                    self.ledger().reserved_of(a) == base(a) + self.owned_deposits(a) by {
                    assert(old(self).ledger().reserved_of(a) == base(a) + old(self).owned_deposits(a));
                }
            }
        }
        Ok(())
    }

    /// Mints an instance of a class for `owner`. Only the class issuer may do so; outside
    /// free holding the class owner pays the instance deposit.
    pub fn mint(&mut self, origin: Origin, class: ClassId, instance: InstanceId, owner: AccountId) -> (r:
        Result<(), DispatchError>)
        requires
            old(self).wf(),
        ensures
            final(self).wf(),
            old(self).free_holds_counted() && old(self)@.config.instance_deposit > 0
                ==> final(self).free_holds_counted(),
            forall|base: spec_fn(AccountId) -> nat|
                old(self).reserves_match(base) ==> #[trigger] final(self).reserves_match(base),
            r is Err ==> *final(self) == *old(self),
            match origin {
                Origin::Signed(who) => {
                    let d = old(self)@.classes[class];
                    if old(self)@.assets.contains_key(asset_key(class, instance)) {
                        r == Err::<(), DispatchError>(DispatchError::Module(Error::AlreadyExists))
                    } else if !old(self)@.classes.contains_key(class) {
                        r == Err::<(), DispatchError>(DispatchError::Module(Error::Unknown))
                    } else if d.issuer != who {
                        r == Err::<(), DispatchError>(DispatchError::Module(Error::NoPermission))
                    } else if mint_overflows(old(self)@.config, d) {
                        r == Err::<(), DispatchError>(DispatchError::Overflow)
                    } else if d.free_holding {
                        r is Ok
                    } else {
                        r is Ok || r matches Err(DispatchError::Currency(_))
                    }
                },
                _ => r == Err::<(), DispatchError>(DispatchError::BadOrigin),
            },
            r is Ok ==> mint_effect(
                old(self)@,
                old(self).ledger(),
                class,
                instance,
                owner,
                final(self)@,
                final(self).ledger(),
            ),
    {
        let who = match origin {
            Origin::Signed(who) => who,
            _ => return Err(DispatchError::BadOrigin),
        };
        let key = AssetKey { class, instance };
        if self.asset.contains_key(&key) {
            return Err(DispatchError::Module(Error::AlreadyExists));
        }
        let mut d = match self.class.get(&class) {
            Some(d) => *d,
            None => return Err(DispatchError::Module(Error::Unknown)),
        };
        if d.issuer != who {
            return Err(DispatchError::Module(Error::NoPermission));
        }
        let instances = match d.instances.checked_add(1) {
            Some(n) => n,
            None => return Err(DispatchError::Overflow),
        };
        let deposit = if d.free_holding {
            match d.free_holds.checked_add(1) {
                Some(n) => {
                    d.free_holds = n;
                },
                None => return Err(DispatchError::Overflow),
            }
            0
        } else {
            let deposit = self.config.instance_deposit;
            let total = match d.total_deposit.checked_add(deposit) {
                Some(t) => t,
                None => return Err(DispatchError::Overflow),
            };
            match self.currency.reserve(d.owner, deposit) {
                Ok(()) => {},
                Err(e) => return Err(DispatchError::Currency(e)),
            }
            d.total_deposit = total;
            deposit
        };
        d.instances = instances;
        let ghost old_accounts = self.account@;
        self.class.insert(class, d);
        self.account.insert(AccountKey { who: owner, class, instance }, ());
        self.asset.insert(key, InstanceDetails { owner, approved: None, is_frozen: false, deposit });
        self.events.push(Event::Issued(class, instance, owner));
        proof {
            assert(self.account@.dom() =~= old_accounts.dom().insert(
                account_key(owner, class, instance),
            ));
        }
        proof {
            assert forall|base: spec_fn(AccountId) -> nat|
                old(self).reserves_match(base) implies #[trigger] self.reserves_match(base) by {
                assert forall|a: AccountId| #[trigger]
                    self.ledger().reserved_of(a) == base(a) + self.owned_deposits(a) by {
                    assert(old(self).ledger().reserved_of(a) == base(a) + old(self).owned_deposits(a));
                }
            }
        }
        proof {
            if old(self).free_holds_counted() && old(self)@.config.instance_deposit > 0 {
                assert forall|c: ClassId| #[trigger] self@.classes.contains_key(c) implies self@.classes[c].free_holds
                    == self.zero_deposit_count(c) by {
                    assert(old(self)@.classes.contains_key(c));
                    assert(old(self)@.classes[c].free_holds == old(self).zero_deposit_count(c));
                }
            }
        }
        Ok(())
    }

    /// Burns an instance, returning its deposit and that of its metadata to the class owner.
    /// The class admin or the instance owner may do so; `check_owner`, when given, must be
    /// the instance owner.
    pub fn burn(
        &mut self,
        origin: Origin,
        class: ClassId,
        instance: InstanceId,
        check_owner: Option<AccountId>,
    ) -> (r: Result<(), DispatchError>)
        requires
            old(self).wf(),
        ensures
            final(self).wf(),
            old(self).free_holds_counted() && old(self)@.config.instance_deposit > 0 && old(
                self,
            )@.assets[asset_key(class, instance)].deposit > 0 ==> final(self).free_holds_counted(),
            forall|base: spec_fn(AccountId) -> nat|
                old(self).reserves_match(base) ==> #[trigger] final(self).reserves_match(base),
            r is Err ==> *final(self) == *old(self),
            match origin {
                Origin::Signed(who) => {
                    let key = asset_key(class, instance);
                    r == if !old(self)@.classes.contains_key(class) || !old(
                        self,
                    )@.assets.contains_key(key) {
                        Err::<(), DispatchError>(DispatchError::Module(Error::Unknown))
                    } else if old(self)@.classes[class].admin != who && old(self)@.assets[key].owner
                        != who {
                        Err(DispatchError::Module(Error::NoPermission))
                    } else if check_owner.is_some() && check_owner.unwrap() != old(
                        self,
                    )@.assets[key].owner {
                        Err(DispatchError::Module(Error::WrongOwner))
                    } else {
                        Ok(())
                    }
                },
                _ => r == Err::<(), DispatchError>(DispatchError::BadOrigin),
            },
            r is Ok ==> burn_effect(
                old(self)@,
                old(self).ledger(),
                class,
                instance,
                final(self)@,
                final(self).ledger(),
            ),
    {
        let who = match origin {
            Origin::Signed(who) => who,
            _ => return Err(DispatchError::BadOrigin),
        };
        let mut d = match self.class.get(&class) {
            Some(d) => *d,
            None => return Err(DispatchError::Module(Error::Unknown)),
        };
        let key = AssetKey { class, instance };
        let item = match self.asset.get(&key) {
            Some(item) => *item,
            None => return Err(DispatchError::Module(Error::Unknown)),
        };
        if d.admin != who && item.owner != who {
            return Err(DispatchError::Module(Error::NoPermission));
        }
        if let Some(o) = check_owner {
            if o != item.owner {
                return Err(DispatchError::Module(Error::WrongOwner));
            }
        }
        proof {
            self.lemma_deposit_parts(class, key);
        }
        if item.deposit != 0 {
            self.currency.unreserve(d.owner, item.deposit);
            d.total_deposit = d.total_deposit.saturating_sub(item.deposit);
        }
        d.instances = d.instances.saturating_sub(1);
        if let Some(meta) = self.instance_metadata_of.remove(&key) {
            d.total_deposit = d.total_deposit.saturating_sub(meta.deposit);
            self.currency.unreserve(d.owner, meta.deposit);
        }
        let ghost old_accounts = self.account@;
        self.class.insert(class, d);
        self.asset.remove(&key);
        self.account.remove(&AccountKey { who: item.owner, class, instance });
        self.events.push(Event::Burned(class, instance, item.owner));
        proof {
            assert(self.account@.dom() =~= old_accounts.dom().remove(
                account_key(item.owner, class, instance),
            ));
        }
        proof {
            assert forall|base: spec_fn(AccountId) -> nat|
                old(self).reserves_match(base) implies #[trigger] self.reserves_match(base) by {
                old(self).lemma_owner_reserve_covers(base, class);
                assert forall|a: AccountId| #[trigger]
                    self.ledger().reserved_of(a) == base(a) + self.owned_deposits(a) by {
                    assert(old(self).ledger().reserved_of(a) == base(a) + old(self).owned_deposits(a));
                }
            }
        }
        proof {
            if old(self).free_holds_counted() && old(self)@.config.instance_deposit > 0 && old(
                self,
            )@.assets[asset_key(class, instance)].deposit > 0 {
                assert forall|c: ClassId| #[trigger] self@.classes.contains_key(c) implies self@.classes[c].free_holds
                    == self.zero_deposit_count(c) by {
                    assert(old(self)@.classes.contains_key(c));
                    assert(old(self)@.classes[c].free_holds == old(self).zero_deposit_count(c));
                }
            }
        }
        Ok(())
    }

    /// Moves an instance to `dest`. The instance owner, the class admin or the approved
    /// delegate may do so, unless the class or the instance is frozen; a transfer by the
    /// delegate uses up its approval.
    pub fn transfer(&mut self, origin: Origin, class: ClassId, instance: InstanceId, dest: AccountId) -> (r:
        Result<(), DispatchError>)
        requires
            old(self).wf(),
        ensures
            final(self).wf(),
            old(self).free_holds_counted() && old(self)@.config.instance_deposit > 0
                ==> final(self).free_holds_counted(),
            forall|base: spec_fn(AccountId) -> nat|
                old(self).reserves_match(base) ==> #[trigger] final(self).reserves_match(base),
            final(self).ledger() == old(self).ledger(),
            r is Err ==> *final(self) == *old(self),
            match origin {
                Origin::Signed(who) => {
                    let key = asset_key(class, instance);
                    let item = old(self)@.assets[key];
                    let d = old(self)@.classes[class];
                    &&& r == if !old(self)@.classes.contains_key(class) {
                        Err::<(), DispatchError>(DispatchError::Module(Error::Unknown))
                    } else if d.is_frozen {
                        Err(DispatchError::Module(Error::Frozen))
                    } else if !old(self)@.assets.contains_key(key) {
                        Err(DispatchError::Module(Error::Unknown))
                    } else if item.is_frozen {
                        Err(DispatchError::Module(Error::Frozen))
                    } else if item.owner != who && d.admin != who && item.approved != Some(who) {
                        Err(DispatchError::Module(Error::NoPermission))
                    } else {
                        Ok(())
                    }
                    &&& r is Ok ==> final(self)@ == (PalletState {
                        assets: old(self)@.assets.insert(
                            key,
                            InstanceDetails {
                                owner: dest,
                                approved: if item.owner != who && d.admin != who {
                                    None
                                } else {
                                    item.approved
                                },
                                ..item
                            },
                        ),
                        accounts: old(self)@.accounts.remove(
                            account_key(item.owner, class, instance),
                        ).insert(account_key(dest, class, instance)),
                        events: old(self)@.events.push(Event::Transferred(class, instance, who, dest)),
                        ..old(self)@
                    })
                },
                _ => r == Err::<(), DispatchError>(DispatchError::BadOrigin),
            },
    {
        let who = match origin {
            Origin::Signed(who) => who,
            _ => return Err(DispatchError::BadOrigin),
        };
        let d = match self.class.get(&class) {
            Some(d) => *d,
            None => return Err(DispatchError::Module(Error::Unknown)),
        };
        if d.is_frozen {
            return Err(DispatchError::Module(Error::Frozen));
        }
        let key = AssetKey { class, instance };
        let mut item = match self.asset.get(&key) {
            Some(item) => *item,
            None => return Err(DispatchError::Module(Error::Unknown)),
        };
        if item.is_frozen {
            return Err(DispatchError::Module(Error::Frozen));
        }
        if item.owner != who && d.admin != who {
            let approved = match item.approved {
                Some(delegate) => delegate == who,
                None => false,
            };
            if !approved {
                return Err(DispatchError::Module(Error::NoPermission));
            }
            item.approved = None;
        }
        let ghost old_accounts = self.account@;
        self.account.remove(&AccountKey { who: item.owner, class, instance });
        self.account.insert(AccountKey { who: dest, class, instance }, ());
        let from = item.owner;
        item.owner = dest;
        self.asset.insert(key, item);
        self.events.push(Event::Transferred(class, instance, who, dest));
        proof {
            assert(self.account@.dom() =~= old_accounts.dom().remove(
                account_key(from, class, instance),
            ).insert(account_key(dest, class, instance)));
        }
        proof {
            assert forall|base: spec_fn(AccountId) -> nat|
                old(self).reserves_match(base) implies #[trigger] self.reserves_match(base) by {
                assert forall|a: AccountId| #[trigger]
                    self.ledger().reserved_of(a) == base(a) + self.owned_deposits(a) by {
                    assert(old(self).ledger().reserved_of(a) == base(a) + old(self).owned_deposits(a));
                }
            }
        }
        Ok(())
    }

    /// Sets or clears the frozen flag of an instance: the class freezer may set it, the class
    /// admin may clear it.
    fn set_instance_frozen(
        &mut self,
        origin: Origin,
        class: ClassId,
        instance: InstanceId,
        frozen: bool,
    ) -> (r: Result<(), DispatchError>)
        requires
            old(self).wf(),
        ensures
            final(self).wf(),
            old(self).free_holds_counted() && old(self)@.config.instance_deposit > 0
                ==> final(self).free_holds_counted(),
            forall|base: spec_fn(AccountId) -> nat|
                old(self).reserves_match(base) ==> #[trigger] final(self).reserves_match(base),
            final(self).ledger() == old(self).ledger(),
            r is Err ==> *final(self) == *old(self),
            match origin {
                Origin::Signed(who) => {
                    let key = asset_key(class, instance);
                    let d = old(self)@.classes[class];
                    let role = if frozen {
                        d.freezer
                    } else {
                        d.admin
                    };
                    &&& r == if !old(self)@.assets.contains_key(key) || !old(
                        self,
                    )@.classes.contains_key(class) {
                        Err::<(), DispatchError>(DispatchError::Module(Error::Unknown))
                    } else if role != who {
                        Err(DispatchError::Module(Error::NoPermission))
                    } else {
                        Ok(())
                    }
                    &&& r is Ok ==> final(self)@ == (PalletState {
                        assets: old(self)@.assets.insert(
                            key,
                            InstanceDetails { is_frozen: frozen, ..old(self)@.assets[key] },
                        ),
                        events: old(self)@.events.push(Event::Frozen(class, instance)),
                        ..old(self)@
                    })
                },
                _ => r == Err::<(), DispatchError>(DispatchError::BadOrigin),
            },
    {
        let who = match origin {
            Origin::Signed(who) => who,
            _ => return Err(DispatchError::BadOrigin),
        };
        let key = AssetKey { class, instance };
        let mut item = match self.asset.get(&key) {
            Some(item) => *item,
            None => return Err(DispatchError::Module(Error::Unknown)),
        };
        let d = match self.class.get(&class) {
            Some(d) => *d,
            None => return Err(DispatchError::Module(Error::Unknown)),
        };
        let role = if frozen {
            d.freezer
        } else {
            d.admin
        };
        if role != who {
            return Err(DispatchError::Module(Error::NoPermission));
        }
        item.is_frozen = frozen;
        self.asset.insert(key, item);
        self.events.push(Event::Frozen(class, instance));
        proof {
            assert forall|base: spec_fn(AccountId) -> nat|
                old(self).reserves_match(base) implies #[trigger] self.reserves_match(base) by {
                assert forall|a: AccountId| #[trigger]
                    self.ledger().reserved_of(a) == base(a) + self.owned_deposits(a) by {
                    assert(old(self).ledger().reserved_of(a) == base(a) + old(self).owned_deposits(a));
                }
            }
        }
        Ok(())
    }

    /// Freezes an instance. Only the class freezer may do so.
    pub fn freeze(&mut self, origin: Origin, class: ClassId, instance: InstanceId) -> (r: Result<
        (),
        DispatchError,
    >)
        requires
            old(self).wf(),
        ensures
            final(self).wf(),
            old(self).free_holds_counted() && old(self)@.config.instance_deposit > 0
                ==> final(self).free_holds_counted(),
            forall|base: spec_fn(AccountId) -> nat|
                old(self).reserves_match(base) ==> #[trigger] final(self).reserves_match(base),
            final(self).ledger() == old(self).ledger(),
            r is Err ==> *final(self) == *old(self),
            match origin {
                Origin::Signed(who) => {
                    let key = asset_key(class, instance);
                    &&& r == if !old(self)@.assets.contains_key(key) || !old(
                        self,
                    )@.classes.contains_key(class) {
                        Err::<(), DispatchError>(DispatchError::Module(Error::Unknown))
                    } else if old(self)@.classes[class].freezer != who {
                        Err(DispatchError::Module(Error::NoPermission))
                    } else {
                        Ok(())
                    }
                    &&& r is Ok ==> final(self)@ == (PalletState {
                        assets: old(self)@.assets.insert(
                            key,
                            InstanceDetails { is_frozen: true, ..old(self)@.assets[key] },
                        ),
                        events: old(self)@.events.push(Event::Frozen(class, instance)),
                        ..old(self)@
                    })
                },
                _ => r == Err::<(), DispatchError>(DispatchError::BadOrigin),
            },
    {
        self.set_instance_frozen(origin, class, instance, true)
    }

    /// Thaws an instance. Only the class admin may do so. The event emitted is `Frozen`, the
    /// same as for `freeze`: observers of this module see no `Thawed` event.
    pub fn thaw(&mut self, origin: Origin, class: ClassId, instance: InstanceId) -> (r: Result<
        (),
        DispatchError,
    >)
        requires
            old(self).wf(),
        ensures
            final(self).wf(),
            old(self).free_holds_counted() && old(self)@.config.instance_deposit > 0
                ==> final(self).free_holds_counted(),
            forall|base: spec_fn(AccountId) -> nat|
                old(self).reserves_match(base) ==> #[trigger] final(self).reserves_match(base),
            final(self).ledger() == old(self).ledger(),
            r is Err ==> *final(self) == *old(self),
            match origin {
                Origin::Signed(who) => {
                    let key = asset_key(class, instance);
                    &&& r == if !old(self)@.assets.contains_key(key) || !old(
                        self,
                    )@.classes.contains_key(class) {
                        Err::<(), DispatchError>(DispatchError::Module(Error::Unknown))
                    } else if old(self)@.classes[class].admin != who {
                        Err(DispatchError::Module(Error::NoPermission))
                    } else {
                        Ok(())
                    }
                    &&& r is Ok ==> final(self)@ == (PalletState {
                        assets: old(self)@.assets.insert(
                            key,
                            InstanceDetails { is_frozen: false, ..old(self)@.assets[key] },
                        ),
                        events: old(self)@.events.push(Event::Frozen(class, instance)),
                        ..old(self)@
                    })
                },
                _ => r == Err::<(), DispatchError>(DispatchError::BadOrigin),
            },
    {
        self.set_instance_frozen(origin, class, instance, false)
    }

    /// Freezes a whole class. Only the class freezer may do so.
    pub fn freeze_class(&mut self, origin: Origin, class: ClassId) -> (r: Result<(), DispatchError>)
        requires
            old(self).wf(),
        ensures
            final(self).wf(),
            old(self).free_holds_counted() && old(self)@.config.instance_deposit > 0
                ==> final(self).free_holds_counted(),
            forall|base: spec_fn(AccountId) -> nat|
                old(self).reserves_match(base) ==> #[trigger] final(self).reserves_match(base),
            final(self).ledger() == old(self).ledger(),
            r is Err ==> *final(self) == *old(self),
            match origin {
                Origin::Signed(who) => {
                    &&& r == if !old(self)@.classes.contains_key(class) {
                        Err::<(), DispatchError>(DispatchError::Module(Error::Unknown))
                    } else if old(self)@.classes[class].freezer != who {
                        Err(DispatchError::Module(Error::NoPermission))
                    } else {
                        Ok(())
                    }
                    &&& r is Ok ==> final(self)@ == (PalletState {
                        classes: old(self)@.classes.insert(
                            class,
                            ClassDetails { is_frozen: true, ..old(self)@.classes[class] },
                        ),
                        events: old(self)@.events.push(Event::ClassFrozen(class)),
                        ..old(self)@
                    })
                },
                _ => r == Err::<(), DispatchError>(DispatchError::BadOrigin),
            },
    {
        let who = match origin {
            Origin::Signed(who) => who,
            _ => return Err(DispatchError::BadOrigin),
        };
        let mut d = match self.class.get(&class) {
            Some(d) => *d,
            None => return Err(DispatchError::Module(Error::Unknown)),
        };
        if d.freezer != who {
            return Err(DispatchError::Module(Error::NoPermission));
        }
        d.is_frozen = true;
        self.class.insert(class, d);
        self.events.push(Event::ClassFrozen(class));
        proof {
            assert forall|base: spec_fn(AccountId) -> nat|
                old(self).reserves_match(base) implies #[trigger] self.reserves_match(base) by {
                assert forall|a: AccountId| #[trigger]
                    self.ledger().reserved_of(a) == base(a) + self.owned_deposits(a) by {
                    assert(old(self).ledger().reserved_of(a) == base(a) + old(self).owned_deposits(a));
                }
            }
        }
        Ok(())
    }

    /// Thaws a whole class. Only the class admin may do so.
    pub fn thaw_class(&mut self, origin: Origin, class: ClassId) -> (r: Result<(), DispatchError>)
        requires
            old(self).wf(),
        ensures
            final(self).wf(),
            old(self).free_holds_counted() && old(self)@.config.instance_deposit > 0
                ==> final(self).free_holds_counted(),
            forall|base: spec_fn(AccountId) -> nat|
                old(self).reserves_match(base) ==> #[trigger] final(self).reserves_match(base),
            final(self).ledger() == old(self).ledger(),
            r is Err ==> *final(self) == *old(self),
            match origin {
                Origin::Signed(who) => {
                    &&& r == if !old(self)@.classes.contains_key(class) {
                        Err::<(), DispatchError>(DispatchError::Module(Error::Unknown))
                    } else if old(self)@.classes[class].admin != who {
                        Err(DispatchError::Module(Error::NoPermission))
                    } else {
                        Ok(())
                    }
                    &&& r is Ok ==> final(self)@ == (PalletState {
                        classes: old(self)@.classes.insert(
                            class,
                            ClassDetails { is_frozen: false, ..old(self)@.classes[class] },
                        ),
                        events: old(self)@.events.push(Event::ClassThawed(class)),
                        ..old(self)@
                    })
                },
                _ => r == Err::<(), DispatchError>(DispatchError::BadOrigin),
            },
    {
        let who = match origin {
            Origin::Signed(who) => who,
            _ => return Err(DispatchError::BadOrigin),
        };
        let mut d = match self.class.get(&class) {
            Some(d) => *d,
            None => return Err(DispatchError::Module(Error::Unknown)),
        };
        if d.admin != who {
            return Err(DispatchError::Module(Error::NoPermission));
        }
        d.is_frozen = false;
        self.class.insert(class, d);
        self.events.push(Event::ClassThawed(class));
        proof {
            assert forall|base: spec_fn(AccountId) -> nat|
                old(self).reserves_match(base) implies #[trigger] self.reserves_match(base) by {
                assert forall|a: AccountId| #[trigger]
                    self.ledger().reserved_of(a) == base(a) + self.owned_deposits(a) by {
                    assert(old(self).ledger().reserved_of(a) == base(a) + old(self).owned_deposits(a));
                }
            }
        }
        Ok(())
    }

    /// Hands a class to a new owner, moving its whole deposit into the new owner's reserve.
    /// Only the current owner may do so; naming the current owner changes nothing.
    pub fn transfer_ownership(&mut self, origin: Origin, class: ClassId, owner: AccountId) -> (r:
        Result<(), DispatchError>)
        requires
            old(self).wf(),
        ensures
            final(self).wf(),
            old(self).free_holds_counted() && old(self)@.config.instance_deposit > 0
                ==> final(self).free_holds_counted(),
            forall|base: spec_fn(AccountId) -> nat|
                old(self).reserves_match(base) ==> #[trigger] final(self).reserves_match(base),
            r is Err ==> *final(self) == *old(self),
            match origin {
                Origin::Signed(who) => {
                    let d = old(self)@.classes[class];
                    &&& if !old(self)@.classes.contains_key(class) {
                        r == Err::<(), DispatchError>(DispatchError::Module(Error::Unknown))
                    } else if d.owner != who {
                        r == Err::<(), DispatchError>(DispatchError::Module(Error::NoPermission))
                    } else if d.owner == owner {
                        r is Ok
                    } else {
                        r is Ok || r matches Err(DispatchError::Currency(_))
                    }
                    &&& r is Ok ==> transfer_ownership_effect(
                        old(self)@,
                        old(self).ledger(),
                        class,
                        owner,
                        final(self)@,
                        final(self).ledger(),
                    )
                },
                _ => r == Err::<(), DispatchError>(DispatchError::BadOrigin),
            },
    {
        let who = match origin {
            Origin::Signed(who) => who,
            _ => return Err(DispatchError::BadOrigin),
        };
        let mut d = match self.class.get(&class) {
            Some(d) => *d,
            None => return Err(DispatchError::Module(Error::Unknown)),
        };
        if d.owner != who {
            return Err(DispatchError::Module(Error::NoPermission));
        }
        if d.owner == owner {
            return Ok(());
        }
        match self.currency.repatriate_reserved(d.owner, owner, d.total_deposit) {
            Ok(_) => {},
            Err(e) => return Err(DispatchError::Currency(e)),
        }
        d.owner = owner;
        self.class.insert(class, d);
        self.events.push(Event::OwnerChanged(class, owner));
        proof {
            assert forall|base: spec_fn(AccountId) -> nat|
                old(self).reserves_match(base) implies #[trigger] self.reserves_match(base) by {
                old(self).lemma_owner_reserve_covers(base, class);
                assert forall|a: AccountId| #[trigger]
                    self.ledger().reserved_of(a) == base(a) + self.owned_deposits(a) by {
                    assert(old(self).ledger().reserved_of(a) == base(a) + old(self).owned_deposits(a));
                }
            }
        }
        Ok(())
    }

    /// Replaces the issuer, admin and freezer of a class. Only the owner may do so.
    pub fn set_team(
        &mut self,
        origin: Origin,
        class: ClassId,
        issuer: AccountId,
        admin: AccountId,
        freezer: AccountId,
    ) -> (r: Result<(), DispatchError>)
        requires
            old(self).wf(),
        ensures
            final(self).wf(),
            old(self).free_holds_counted() && old(self)@.config.instance_deposit > 0
                ==> final(self).free_holds_counted(),
            forall|base: spec_fn(AccountId) -> nat|
                old(self).reserves_match(base) ==> #[trigger] final(self).reserves_match(base),
            final(self).ledger() == old(self).ledger(),
            r is Err ==> *final(self) == *old(self),
            match origin {
                Origin::Signed(who) => {
                    &&& r == if !old(self)@.classes.contains_key(class) {
                        Err::<(), DispatchError>(DispatchError::Module(Error::Unknown))
                    } else if old(self)@.classes[class].owner != who {
                        Err(DispatchError::Module(Error::NoPermission))
                    } else {
                        Ok(())
                    }
                    &&& r is Ok ==> final(self)@ == (PalletState {
                        classes: old(self)@.classes.insert(
                            class,
                            ClassDetails { issuer, admin, freezer, ..old(self)@.classes[class] },
                        ),
                        events: old(self)@.events.push(
                            Event::TeamChanged(class, issuer, admin, freezer),
                        ),
                        ..old(self)@
                    })
                },
                _ => r == Err::<(), DispatchError>(DispatchError::BadOrigin),
            },
    {
        let who = match origin {
            Origin::Signed(who) => who,
            _ => return Err(DispatchError::BadOrigin),
        };
        let mut d = match self.class.get(&class) {
            Some(d) => *d,
            None => return Err(DispatchError::Module(Error::Unknown)),
        };
        if d.owner != who {
            return Err(DispatchError::Module(Error::NoPermission));
        }
        d.issuer = issuer;
        d.admin = admin;
        d.freezer = freezer;
        self.class.insert(class, d);
        self.events.push(Event::TeamChanged(class, issuer, admin, freezer));
        proof {
            assert forall|base: spec_fn(AccountId) -> nat|
                old(self).reserves_match(base) implies #[trigger] self.reserves_match(base) by {
                assert forall|a: AccountId| #[trigger]
                    self.ledger().reserved_of(a) == base(a) + self.owned_deposits(a) by {
                    assert(old(self).ledger().reserved_of(a) == base(a) + old(self).owned_deposits(a));
                }
            }
        }
        Ok(())
    }

    /// Approves `delegate` to transfer an instance once, replacing any earlier approval.
    /// Only the instance owner may do so.
    pub fn approve_transfer(
        &mut self,
        origin: Origin,
        class: ClassId,
        instance: InstanceId,
        delegate: AccountId,
    ) -> (r: Result<(), DispatchError>)
        requires
            old(self).wf(),
        ensures
            final(self).wf(),
            old(self).free_holds_counted() && old(self)@.config.instance_deposit > 0
                ==> final(self).free_holds_counted(),
            forall|base: spec_fn(AccountId) -> nat|
                old(self).reserves_match(base) ==> #[trigger] final(self).reserves_match(base),
            final(self).ledger() == old(self).ledger(),
            r is Err ==> *final(self) == *old(self),
            match origin {
                Origin::Signed(who) => {
                    let key = asset_key(class, instance);
                    &&& r == if !old(self)@.assets.contains_key(key) {
                        Err::<(), DispatchError>(DispatchError::Module(Error::Unknown))
                    } else if old(self)@.assets[key].owner != who {
                        Err(DispatchError::Module(Error::NoPermission))
                    } else {
                        Ok(())
                    }
                    &&& r is Ok ==> approve_effect(old(self)@, who, class, instance, delegate, final(self)@)
                },
                _ => r == Err::<(), DispatchError>(DispatchError::BadOrigin),
            },
    {
        let who = match origin {
            Origin::Signed(who) => who,
            _ => return Err(DispatchError::BadOrigin),
        };
        let key = AssetKey { class, instance };
        let mut item = match self.asset.get(&key) {
            Some(item) => *item,
            None => return Err(DispatchError::Module(Error::Unknown)),
        };
        if item.owner != who {
            return Err(DispatchError::Module(Error::NoPermission));
        }
        item.approved = Some(delegate);
        self.asset.insert(key, item);
        self.events.push(Event::ApprovedTransfer(class, instance, who, delegate));
        proof {
            assert forall|base: spec_fn(AccountId) -> nat|
                old(self).reserves_match(base) implies #[trigger] self.reserves_match(base) by {
                assert forall|a: AccountId| #[trigger]
                    self.ledger().reserved_of(a) == base(a) + self.owned_deposits(a) by {
                    assert(old(self).ledger().reserved_of(a) == base(a) + old(self).owned_deposits(a));
                }
            }
        }
        proof {
            if old(self).free_holds_counted() && old(self)@.config.instance_deposit > 0 {
                assert forall|c: ClassId| #[trigger] self@.classes.contains_key(c) implies self@.classes[c].free_holds
                    == self.zero_deposit_count(c) by {
                    assert(old(self)@.classes.contains_key(c));
                    assert(old(self)@.classes[c].free_holds == old(self).zero_deposit_count(c));
                }
            }
        }
        Ok(())
    }

    /// Withdraws the approval of an instance, once the caller has been authorised; checks
    /// `check_delegate`, when given, against the approved delegate.
    fn withdraw_approval(&mut self, class: ClassId, instance: InstanceId, check_delegate: Option<
        AccountId,
    >) -> (r: Result<(), DispatchError>)
        requires
            old(self).wf(),
        ensures
            final(self).wf(),
            old(self).free_holds_counted() && old(self)@.config.instance_deposit > 0
                ==> final(self).free_holds_counted(),
            forall|base: spec_fn(AccountId) -> nat|
                old(self).reserves_match(base) ==> #[trigger] final(self).reserves_match(base),
            final(self).ledger() == old(self).ledger(),
            r is Err ==> *final(self) == *old(self),
            ({
                let key = asset_key(class, instance);
                let item = old(self)@.assets[key];
                &&& r == if !old(self)@.assets.contains_key(key) {
                    Err::<(), DispatchError>(DispatchError::Module(Error::Unknown))
                } else if item.approved is None {
                    Err(DispatchError::Module(Error::NoDelegate))
                } else if check_delegate.is_some() && check_delegate != item.approved {
                    Err(DispatchError::Module(Error::WrongDelegate))
                } else {
                    Ok(())
                }
                &&& r is Ok ==> final(self)@ == (PalletState {
                    assets: old(self)@.assets.insert(key, InstanceDetails { approved: None, ..item }),
                    events: old(self)@.events.push(
                        Event::ApprovalCancelled(class, instance, item.owner, item.approved.unwrap()),
                    ),
                    ..old(self)@
                })
            }),
    {
        let key = AssetKey { class, instance };
        let mut item = match self.asset.get(&key) {
            Some(item) => *item,
            None => return Err(DispatchError::Module(Error::Unknown)),
        };
        let delegate = match item.approved {
            Some(delegate) => delegate,
            None => return Err(DispatchError::Module(Error::NoDelegate)),
        };
        if let Some(check) = check_delegate {
            if check != delegate {
                return Err(DispatchError::Module(Error::WrongDelegate));
            }
        }
        item.approved = None;
        self.asset.insert(key, item);
        self.events.push(Event::ApprovalCancelled(class, instance, item.owner, delegate));
        proof {
            assert forall|base: spec_fn(AccountId) -> nat|
                old(self).reserves_match(base) implies #[trigger] self.reserves_match(base) by {
                assert forall|a: AccountId| #[trigger]
                    self.ledger().reserved_of(a) == base(a) + self.owned_deposits(a) by {
                    assert(old(self).ledger().reserved_of(a) == base(a) + old(self).owned_deposits(a));
                }
            }
        }
        Ok(())
    }

    /// Cancels the approval of an instance. Only the instance owner may do so;
    /// `check_delegate`, when given, must be the approved delegate.
    pub fn cancel_approval(
        &mut self,
        origin: Origin,
        class: ClassId,
        instance: InstanceId,
        check_delegate: Option<AccountId>,
    ) -> (r: Result<(), DispatchError>)
        requires
            old(self).wf(),
        ensures
            final(self).wf(),
            old(self).free_holds_counted() && old(self)@.config.instance_deposit > 0
                ==> final(self).free_holds_counted(),
            forall|base: spec_fn(AccountId) -> nat|
                old(self).reserves_match(base) ==> #[trigger] final(self).reserves_match(base),
            final(self).ledger() == old(self).ledger(),
            r is Err ==> *final(self) == *old(self),
            match origin {
                Origin::Signed(who) => {
                    let key = asset_key(class, instance);
                    let item = old(self)@.assets[key];
                    &&& r == if !old(self)@.assets.contains_key(key) {
                        Err::<(), DispatchError>(DispatchError::Module(Error::Unknown))
                    } else if item.owner != who {
                        Err(DispatchError::Module(Error::NoPermission))
                    } else if item.approved is None {
                        Err(DispatchError::Module(Error::NoDelegate))
                    } else if check_delegate.is_some() && check_delegate != item.approved {
                        Err(DispatchError::Module(Error::WrongDelegate))
                    } else {
                        Ok(())
                    }
                    &&& r is Ok ==> cancel_effect(old(self)@, who, class, instance, final(self)@)
                },
                _ => r == Err::<(), DispatchError>(DispatchError::BadOrigin),
            },
    {
        let who = match origin {
            Origin::Signed(who) => who,
            _ => return Err(DispatchError::BadOrigin),
        };
        match self.asset.get(&AssetKey { class, instance }) {
            Some(item) => {
                if item.owner != who {
                    return Err(DispatchError::Module(Error::NoPermission));
                }
            },
            None => return Err(DispatchError::Module(Error::Unknown)),
        }
        self.withdraw_approval(class, instance, check_delegate)
    }

    /// Cancels the approval of an instance from the privileged origin or as the class admin;
    /// `check_delegate`, when given, must be the approved delegate.
    pub fn force_cancel_approval(
        &mut self,
        origin: Origin,
        class: ClassId,
        instance: InstanceId,
        check_delegate: Option<AccountId>,
    ) -> (r: Result<(), DispatchError>)
        requires
            old(self).wf(),
        ensures
            final(self).wf(),
            old(self).free_holds_counted() && old(self)@.config.instance_deposit > 0
                ==> final(self).free_holds_counted(),
            forall|base: spec_fn(AccountId) -> nat|
                old(self).reserves_match(base) ==> #[trigger] final(self).reserves_match(base),
            final(self).ledger() == old(self).ledger(),
            r is Err ==> *final(self) == *old(self),
            ({
                let key = asset_key(class, instance);
                let item = old(self)@.assets[key];
                &&& r == if origin == Origin::Unsigned {
                    Err::<(), DispatchError>(DispatchError::BadOrigin)
                } else if origin != Origin::Force && !old(self)@.classes.contains_key(class) {
                    Err(DispatchError::Module(Error::Unknown))
                } else if origin != Origin::Force && origin != Origin::Signed(
                    old(self)@.classes[class].admin,
                ) {
                    Err(DispatchError::Module(Error::NoPermission))
                } else if !old(self)@.assets.contains_key(key) {
                    Err(DispatchError::Module(Error::Unknown))
                } else if item.approved is None {
                    Err(DispatchError::Module(Error::NoDelegate))
                } else if check_delegate.is_some() && check_delegate != item.approved {
                    Err(DispatchError::Module(Error::WrongDelegate))
                } else {
                    Ok(())
                }
                &&& r is Ok ==> final(self)@ == (PalletState {
                    assets: old(self)@.assets.insert(key, InstanceDetails { approved: None, ..item }),
                    events: old(self)@.events.push(
                        Event::ApprovalCancelled(class, instance, item.owner, item.approved.unwrap()),
                    ),
                    ..old(self)@
                })
            }),
    {
        match origin {
            Origin::Force => {},
            Origin::Signed(who) => {
                match self.class.get(&class) {
                    Some(d) => {
                        if d.admin != who {
                            return Err(DispatchError::Module(Error::NoPermission));
                        }
                    },
                    None => return Err(DispatchError::Module(Error::Unknown)),
                }
            },
            Origin::Unsigned => return Err(DispatchError::BadOrigin),
        }
        self.withdraw_approval(class, instance, check_delegate)
    }

    /// Overwrites the roles and flags of a class from the privileged origin. Deposits stay
    /// where they are.
    pub fn force_asset_status(
        &mut self,
        origin: Origin,
        class: ClassId,
        owner: AccountId,
        issuer: AccountId,
        admin: AccountId,
        freezer: AccountId,
        free_holding: bool,
        is_frozen: bool,
    ) -> (r: Result<(), DispatchError>)
        requires
            old(self).wf(),
        ensures
            final(self).wf(),
            old(self).free_holds_counted() && old(self)@.config.instance_deposit > 0
                ==> final(self).free_holds_counted(),
            final(self).ledger() == old(self).ledger(),
            r is Err ==> *final(self) == *old(self),
            r == if origin != Origin::Force {
                Err::<(), DispatchError>(DispatchError::BadOrigin)
            } else if !old(self)@.classes.contains_key(class) {
                Err(DispatchError::Module(Error::Unknown))
            } else {
                Ok(())
            },
            r is Ok ==> final(self)@ == (PalletState {
                classes: old(self)@.classes.insert(
                    class,
                    ClassDetails {
                        owner,
                        issuer,
                        admin,
                        freezer,
                        free_holding,
                        is_frozen,
                        ..old(self)@.classes[class]
                    },
                ),
                events: old(self)@.events.push(Event::AssetStatusChanged(class)),
                ..old(self)@
            }),
    {
        if origin != Origin::Force {
            return Err(DispatchError::BadOrigin);
        }
        let mut d = match self.class.get(&class) {
            Some(d) => *d,
            None => return Err(DispatchError::Module(Error::Unknown)),
        };
        d.owner = owner;
        d.issuer = issuer;
        d.admin = admin;
        d.freezer = freezer;
        d.free_holding = free_holding;
        d.is_frozen = is_frozen;
        self.class.insert(class, d);
        self.events.push(Event::AssetStatusChanged(class));
        Ok(())
    }

    /// Sets the metadata of an instance, from the privileged origin or as the class owner.
    /// A signed caller pays the difference between the new deposit and the old one, or gets
    /// it back; under the privileged origin the old deposit is kept.
    #[verifier::rlimit(100)]
    pub fn set_metadata(
        &mut self,
        origin: Origin,
        class: ClassId,
        instance: InstanceId,
        name: Vec<u8>,
        info: Vec<u8>,
        is_frozen: bool,
    ) -> (r: Result<(), DispatchError>)
        requires
            old(self).wf(),
        ensures
            final(self).wf(),
            old(self).free_holds_counted() && old(self)@.config.instance_deposit > 0
                ==> final(self).free_holds_counted(),
            forall|base: spec_fn(AccountId) -> nat|
                old(self).reserves_match(base) ==> #[trigger] final(self).reserves_match(base),
            r is Err ==> *final(self) == *old(self),
            ({
                let key = asset_key(class, instance);
                let d = old(self)@.classes[class];
                let signer = checked_signer(origin);
                let existing = old(self)@.instance_metadata.contains_key(key);
                let old_deposit: Balance = if existing {
                    old(self)@.instance_metadata[key].deposit
                } else {
                    0
                };
                let deposit: Balance = if signer is Some {
                    metadata_deposit(old(self)@.config, name@.len() + info@.len())
                } else {
                    old_deposit
                };
                let limit = old(self)@.config.string_limit;
                &&& if origin == Origin::Unsigned {
                    r == Err::<(), DispatchError>(DispatchError::BadOrigin)
                } else if name@.len() > limit || info@.len() > limit {
                    r == Err::<(), DispatchError>(DispatchError::Module(Error::BadMetadata))
                } else if !old(self)@.classes.contains_key(class) {
                    r == Err::<(), DispatchError>(DispatchError::Module(Error::Unknown))
                } else if signer is Some && signer != Some(d.owner) {
                    r == Err::<(), DispatchError>(DispatchError::Module(Error::NoPermission))
                } else if !old(self)@.assets.contains_key(key) {
                    r == Err::<(), DispatchError>(DispatchError::Module(Error::Unknown))
                } else if signer is Some && existing && old(self)@.instance_metadata[key].is_frozen {
                    r == Err::<(), DispatchError>(DispatchError::Module(Error::Frozen))
                } else if sat_sub(d.total_deposit, old_deposit) + deposit > Balance::MAX {
                    r == Err::<(), DispatchError>(DispatchError::Overflow)
                } else if signer is Some && deposit > old_deposit {
                    r is Ok || r matches Err(DispatchError::Currency(_))
                } else {
                    r is Ok
                }
                &&& r is Ok ==> set_metadata_effect(
                    old(self)@,
                    old(self).ledger(),
                    origin,
                    class,
                    instance,
                    name,
                    info,
                    is_frozen,
                    final(self)@,
                    final(self).ledger(),
                )
            }),
    {
        let check_owner = match origin {
            Origin::Force => None,
            Origin::Signed(who) => Some(who),
            Origin::Unsigned => return Err(DispatchError::BadOrigin),
        };
        let limit = self.config.string_limit as usize;
        if name.len() > limit || info.len() > limit {
            return Err(DispatchError::Module(Error::BadMetadata));
        }
        let mut d = match self.class.get(&class) {
            Some(d) => *d,
            None => return Err(DispatchError::Module(Error::Unknown)),
        };
        if let Some(who) = check_owner {
            if who != d.owner {
                return Err(DispatchError::Module(Error::NoPermission));
            }
        }
        let key = AssetKey { class, instance };
        if !self.asset.contains_key(&key) {
            return Err(DispatchError::Module(Error::Unknown));
        }
        let (was_frozen, old_deposit) = match self.instance_metadata_of.get(&key) {
            Some(m) => (m.is_frozen, m.deposit),
            None => (false, 0),
        };
        if check_owner.is_some() && was_frozen {
            return Err(DispatchError::Module(Error::Frozen));
        }
        proof {
            self.lemma_deposit_parts(class, key);
        }
        let deposit = match check_owner {
            Some(_) => metadata_deposit_of(&self.config, name.len() as u128 + info.len() as u128),
            None => old_deposit,
        };
        let total = match d.total_deposit.saturating_sub(old_deposit).checked_add(deposit) {
            Some(t) => t,
            None => return Err(DispatchError::Overflow),
        };
        if let Some(who) = check_owner {
            if deposit > old_deposit {
                match self.currency.reserve(who, deposit - old_deposit) {
                    Ok(()) => {},
                    Err(e) => return Err(DispatchError::Currency(e)),
                }
            } else {
                self.currency.unreserve(who, old_deposit - deposit);
            }
        }
        d.total_deposit = total;
        let event = Event::MetadataSet(class, name.clone(), info.clone(), is_frozen);
        self.instance_metadata_of.insert(
            key,
            InstanceMetadata { deposit, name, information: info, is_frozen },
        );
        self.class.insert(class, d);
        self.events.push(event);
        proof {
            assert(self.events@.drop_last() =~= old(self).events@);
        }
        proof {
            assert forall|base: spec_fn(AccountId) -> nat|
                old(self).reserves_match(base) implies #[trigger] self.reserves_match(base) by {
                old(self).lemma_owner_reserve_covers(base, class);
                assert forall|a: AccountId| #[trigger]
                    self.ledger().reserved_of(a) == base(a) + self.owned_deposits(a) by {
                    assert(old(self).ledger().reserved_of(a) == base(a) + old(self).owned_deposits(a));
                }
            }
        }
        proof {
            if old(self).free_holds_counted() && old(self)@.config.instance_deposit > 0 {
                assert forall|c: ClassId| #[trigger] self@.classes.contains_key(c) implies self@.classes[c].free_holds
                    == self.zero_deposit_count(c) by {
                    assert(old(self)@.classes.contains_key(c));
                    assert(old(self)@.classes[c].free_holds == old(self).zero_deposit_count(c));
                }
            }
        }
        Ok(())
    }

    /// Clears the metadata of an instance, from the privileged origin or as the class owner,
    /// and returns its deposit to the class owner.
    pub fn clear_metadata(&mut self, origin: Origin, class: ClassId, instance: InstanceId) -> (r:
        Result<(), DispatchError>)
        requires
            old(self).wf(),
        ensures
            final(self).wf(),
            old(self).free_holds_counted() && old(self)@.config.instance_deposit > 0
                ==> final(self).free_holds_counted(),
            forall|base: spec_fn(AccountId) -> nat|
                old(self).reserves_match(base) ==> #[trigger] final(self).reserves_match(base),
            r is Err ==> *final(self) == *old(self),
            ({
                let key = asset_key(class, instance);
                let d = old(self)@.classes[class];
                let signer = checked_signer(origin);
                let m = old(self)@.instance_metadata[key];
                &&& r == if origin == Origin::Unsigned {
                    Err::<(), DispatchError>(DispatchError::BadOrigin)
                } else if !old(self)@.classes.contains_key(class) {
                    Err(DispatchError::Module(Error::Unknown))
                } else if signer is Some && signer != Some(d.owner) {
                    Err(DispatchError::Module(Error::NoPermission))
                } else if !old(self)@.instance_metadata.contains_key(key) {
                    Err(DispatchError::Module(Error::Unknown))
                } else if signer is Some && m.is_frozen {
                    Err(DispatchError::Module(Error::Frozen))
                } else {
                    Ok(())
                }
                &&& r is Ok ==> {
                    &&& final(self)@ == (PalletState {
                        classes: old(self)@.classes.insert(
                            class,
                            ClassDetails { total_deposit: sat_sub(d.total_deposit, m.deposit), ..d },
                        ),
                        instance_metadata: old(self)@.instance_metadata.remove(key),
                        events: old(self)@.events.push(Event::MetadataCleared(class)),
                        ..old(self)@
                    })
                    &&& reserves_taken(old(self).ledger(), final(self).ledger(), d.owner, m.deposit, 0)
                }
            }),
    {
        let check_owner = match origin {
            Origin::Force => None,
            Origin::Signed(who) => Some(who),
            Origin::Unsigned => return Err(DispatchError::BadOrigin),
        };
        let mut d = match self.class.get(&class) {
            Some(d) => *d,
            None => return Err(DispatchError::Module(Error::Unknown)),
        };
        if let Some(who) = check_owner {
            if who != d.owner {
                return Err(DispatchError::Module(Error::NoPermission));
            }
        }
        let key = AssetKey { class, instance };
        let deposit = match self.instance_metadata_of.get(&key) {
            Some(m) => {
                if check_owner.is_some() && m.is_frozen {
                    return Err(DispatchError::Module(Error::Frozen));
                }
                m.deposit
            },
            None => return Err(DispatchError::Module(Error::Unknown)),
        };
        proof {
            self.lemma_deposit_parts(class, key);
        }
        self.instance_metadata_of.remove(&key);
        self.currency.unreserve(d.owner, deposit);
        d.total_deposit = d.total_deposit.saturating_sub(deposit);
        self.class.insert(class, d);
        self.events.push(Event::MetadataCleared(class));
        proof {
            assert forall|base: spec_fn(AccountId) -> nat|
                old(self).reserves_match(base) implies #[trigger] self.reserves_match(base) by {
                old(self).lemma_owner_reserve_covers(base, class);
                assert forall|a: AccountId| #[trigger]
                    self.ledger().reserved_of(a) == base(a) + self.owned_deposits(a) by {
                    assert(old(self).ledger().reserved_of(a) == base(a) + old(self).owned_deposits(a));
                }
            }
        }
        Ok(())
    }

    /// Sets the metadata of a class, from the privileged origin or as the class owner, with
    /// the deposit rules of `set_metadata`.
    pub fn set_class_metadata(
        &mut self,
        origin: Origin,
        class: ClassId,
        name: Vec<u8>,
        info: Vec<u8>,
        is_frozen: bool,
    ) -> (r: Result<(), DispatchError>)
        requires
            old(self).wf(),
        ensures
            final(self).wf(),
            old(self).free_holds_counted() && old(self)@.config.instance_deposit > 0
                ==> final(self).free_holds_counted(),
            forall|base: spec_fn(AccountId) -> nat|
                old(self).reserves_match(base) ==> #[trigger] final(self).reserves_match(base),
            r is Err ==> *final(self) == *old(self),
            ({
                let d = old(self)@.classes[class];
                let signer = checked_signer(origin);
                let existing = old(self)@.class_metadata.contains_key(class);
                let old_deposit: Balance = if existing {
                    old(self)@.class_metadata[class].deposit
                } else {
                    0
                };
                let deposit: Balance = if signer is Some {
                    metadata_deposit(old(self)@.config, name@.len() + info@.len())
                } else {
                    old_deposit
                };
                let limit = old(self)@.config.string_limit;
                &&& if origin == Origin::Unsigned {
                    r == Err::<(), DispatchError>(DispatchError::BadOrigin)
                } else if name@.len() > limit || info@.len() > limit {
                    r == Err::<(), DispatchError>(DispatchError::Module(Error::BadMetadata))
                } else if !old(self)@.classes.contains_key(class) {
                    r == Err::<(), DispatchError>(DispatchError::Module(Error::Unknown))
                } else if signer is Some && signer != Some(d.owner) {
                    r == Err::<(), DispatchError>(DispatchError::Module(Error::NoPermission))
                } else if signer is Some && existing && old(self)@.class_metadata[class].is_frozen {
                    r == Err::<(), DispatchError>(DispatchError::Module(Error::Frozen))
                } else if sat_sub(d.total_deposit, old_deposit) + deposit > Balance::MAX {
                    r == Err::<(), DispatchError>(DispatchError::Overflow)
                } else if signer is Some && deposit > old_deposit {
                    r is Ok || r matches Err(DispatchError::Currency(_))
                } else {
                    r is Ok
                }
                &&& r is Ok ==> {
                    &&& final(self)@ == (PalletState {
                        classes: old(self)@.classes.insert(
                            class,
                            ClassDetails {
                                total_deposit: (sat_sub(d.total_deposit, old_deposit) + deposit) as Balance,
                                ..d
                            },
                        ),
                        class_metadata: old(self)@.class_metadata.insert(
                            class,
                            ClassMetadata { deposit, name, information: info, is_frozen },
                        ),
                        events: final(self)@.events,
                        ..old(self)@
                    })
                    &&& final(self)@.events.drop_last() == old(self)@.events
                    &&& final(self)@.events.last() matches Event::ClassMetadataSet(c, n, i, f) && c
                        == class && n@ == name@ && i@ == info@ && f == is_frozen
                    &&& if signer is None {
                        final(self).ledger() == old(self).ledger()
                    } else if deposit > old_deposit {
                        reserves_shifted(
                            old(self).ledger(),
                            final(self).ledger(),
                            d.owner,
                            deposit - old_deposit,
                        )
                    } else {
                        reserves_taken(
                            old(self).ledger(),
                            final(self).ledger(),
                            d.owner,
                            (old_deposit - deposit) as Balance,
                            0,
                        )
                    }
                }
            }),
    {
        let check_owner = match origin {
            Origin::Force => None,
            Origin::Signed(who) => Some(who),
            Origin::Unsigned => return Err(DispatchError::BadOrigin),
        };
        let limit = self.config.string_limit as usize;
        if name.len() > limit || info.len() > limit {
            return Err(DispatchError::Module(Error::BadMetadata));
        }
        let mut d = match self.class.get(&class) {
            Some(d) => *d,
            None => return Err(DispatchError::Module(Error::Unknown)),
        };
        if let Some(who) = check_owner {
            if who != d.owner {
                return Err(DispatchError::Module(Error::NoPermission));
            }
        }
        let (was_frozen, old_deposit) = match self.class_metadata_of.get(&class) {
            Some(m) => (m.is_frozen, m.deposit),
            None => (false, 0),
        };
        if check_owner.is_some() && was_frozen {
            return Err(DispatchError::Module(Error::Frozen));
        }
        proof {
            self.lemma_deposit_parts(class, AssetKey { class, instance: 0 });
        }
        let deposit = match check_owner {
            Some(_) => metadata_deposit_of(&self.config, name.len() as u128 + info.len() as u128),
            None => old_deposit,
        };
        let total = match d.total_deposit.saturating_sub(old_deposit).checked_add(deposit) {
            Some(t) => t,
            None => return Err(DispatchError::Overflow),
        };
        if let Some(who) = check_owner {
            if deposit > old_deposit {
                match self.currency.reserve(who, deposit - old_deposit) {
                    Ok(()) => {},
                    Err(e) => return Err(DispatchError::Currency(e)),
                }
            } else {
                self.currency.unreserve(who, old_deposit - deposit);
            }
        }
        d.total_deposit = total;
        let event = Event::ClassMetadataSet(class, name.clone(), info.clone(), is_frozen);
        self.class.insert(class, d);
        self.class_metadata_of.insert(
            class,
            ClassMetadata { deposit, name, information: info, is_frozen },
        );
        self.events.push(event);
        proof {
            assert(self.events@.drop_last() =~= old(self).events@);
        }
        proof {
            assert forall|base: spec_fn(AccountId) -> nat|
                old(self).reserves_match(base) implies #[trigger] self.reserves_match(base) by {
                old(self).lemma_owner_reserve_covers(base, class);
                assert forall|a: AccountId| #[trigger]
                    self.ledger().reserved_of(a) == base(a) + self.owned_deposits(a) by {
                    assert(old(self).ledger().reserved_of(a) == base(a) + old(self).owned_deposits(a));
                }
            }
        }
        Ok(())
    }

    /// Clears the metadata of a class, from the privileged origin or as the class owner,
    /// and returns its deposit to the class owner.
    pub fn clear_class_metadata(&mut self, origin: Origin, class: ClassId) -> (r: Result<
        (),
        DispatchError,
    >)
        requires
            old(self).wf(),
        ensures
            final(self).wf(),
            old(self).free_holds_counted() && old(self)@.config.instance_deposit > 0
                ==> final(self).free_holds_counted(),
            forall|base: spec_fn(AccountId) -> nat|
                old(self).reserves_match(base) ==> #[trigger] final(self).reserves_match(base),
            r is Err ==> *final(self) == *old(self),
            ({
                let d = old(self)@.classes[class];
                let signer = checked_signer(origin);
                let m = old(self)@.class_metadata[class];
                &&& r == if origin == Origin::Unsigned {
                    Err::<(), DispatchError>(DispatchError::BadOrigin)
                } else if !old(self)@.classes.contains_key(class) {
                    Err(DispatchError::Module(Error::Unknown))
                } else if signer is Some && signer != Some(d.owner) {
                    Err(DispatchError::Module(Error::NoPermission))
                } else if !old(self)@.class_metadata.contains_key(class) {
                    Err(DispatchError::Module(Error::Unknown))
                } else if signer is Some && m.is_frozen {
                    Err(DispatchError::Module(Error::Frozen))
                } else {
                    Ok(())
                }
                &&& r is Ok ==> {
                    &&& final(self)@ == (PalletState {
                        classes: old(self)@.classes.insert(
                            class,
                            ClassDetails { total_deposit: sat_sub(d.total_deposit, m.deposit), ..d },
                        ),
                        class_metadata: old(self)@.class_metadata.remove(class),
                        events: old(self)@.events.push(Event::ClassMetadataCleared(class)),
                        ..old(self)@
                    })
                    &&& reserves_taken(old(self).ledger(), final(self).ledger(), d.owner, m.deposit, 0)
                }
            }),
    {
        let check_owner = match origin {
            Origin::Force => None,
            Origin::Signed(who) => Some(who),
            Origin::Unsigned => return Err(DispatchError::BadOrigin),
        };
        let mut d = match self.class.get(&class) {
            Some(d) => *d,
            None => return Err(DispatchError::Module(Error::Unknown)),
        };
        if let Some(who) = check_owner {
            if who != d.owner {
                return Err(DispatchError::Module(Error::NoPermission));
            }
        }
        let deposit = match self.class_metadata_of.get(&class) {
            Some(m) => {
                if check_owner.is_some() && m.is_frozen {
                    return Err(DispatchError::Module(Error::Frozen));
                }
                m.deposit
            },
            None => return Err(DispatchError::Module(Error::Unknown)),
        };
        proof {
            self.lemma_deposit_parts(class, AssetKey { class, instance: 0 });
        }
        self.class_metadata_of.remove(&class);
        self.currency.unreserve(d.owner, deposit);
        d.total_deposit = d.total_deposit.saturating_sub(deposit);
        self.class.insert(class, d);
        self.events.push(Event::ClassMetadataCleared(class));
        proof {
            assert forall|base: spec_fn(AccountId) -> nat|
                old(self).reserves_match(base) implies #[trigger] self.reserves_match(base) by {
                old(self).lemma_owner_reserve_covers(base, class);
                assert forall|a: AccountId| #[trigger]
                    self.ledger().reserved_of(a) == base(a) + self.owned_deposits(a) by {
                    assert(old(self).ledger().reserved_of(a) == base(a) + old(self).owned_deposits(a));
                }
            }
        }
        Ok(())
    }
}

} // verus!
