use vstd::prelude::*;

use crate::currency::{reserved_after_taking, ReservableCurrency};
use crate::pallet::{
    account_key, approve_effect, asset_key, burn_effect, cancel_effect, instance_metadata_deposit,
    mint_effect, set_metadata_effect, transfer_ownership_effect, Pallet,
    PalletState,
};
use crate::types::{AccountId, ClassId, InstanceId, Origin};

verus! {

/// Minting an instance and burning it again, with no call between, leaves every account's
/// reserve, the instances, the index and the metadata as they were; outside free holding
/// the class's details are restored too.
pub proof fn lemma_mint_then_burn<C: ReservableCurrency>(
    p: &Pallet<C>,
    class: ClassId,
    instance: InstanceId,
    owner: AccountId,
    s1: PalletState,
    l1: C,
    s2: PalletState,
    l2: C,
)
    requires
        p.wf(),
        p@.classes.contains_key(class),
        !p@.assets.contains_key(asset_key(class, instance)),
        mint_effect(p@, p.ledger(), class, instance, owner, s1, l1),
        burn_effect(s1, l1, class, instance, s2, l2),
    ensures
        forall|a: AccountId| #[trigger] l2.reserved_of(a) == p.ledger().reserved_of(a),
        s2.assets == p@.assets,
        s2.accounts == p@.accounts,
        s2.instance_metadata == p@.instance_metadata,
        s2.classes[class].instances == p@.classes[class].instances,
        s2.classes[class].total_deposit == p@.classes[class].total_deposit,
        !p@.classes[class].free_holding ==> s2.classes == p@.classes,
{
    p.lemma_storage_consistent();
    let s0 = p@;
    let key = asset_key(class, instance);
    let ak = account_key(owner, class, instance);
    assert(!s0.instance_metadata.contains_key(key));
    assert(!s0.accounts.contains(ak));
    assert(s2.assets =~= s0.assets);
    assert(s2.accounts =~= s0.accounts);
    assert(s2.instance_metadata =~= s0.instance_metadata);
    if !s0.classes[class].free_holding {
        assert(s2.classes[class] == s0.classes[class]);
        assert(s2.classes =~= s0.classes);
    }
}

/// Under free holding, minting reserves nothing and leaves the class's total deposit as it
/// was.
pub proof fn lemma_free_holding_mint<C: ReservableCurrency>(
    s0: PalletState,
    l0: C,
    class: ClassId,
    instance: InstanceId,
    owner: AccountId,
    s1: PalletState,
    l1: C,
)
    requires
        s0.classes.contains_key(class),
        s0.classes[class].free_holding,
        mint_effect(s0, l0, class, instance, owner, s1, l1),
    ensures
        forall|a: AccountId| #[trigger] l1.reserved_of(a) == l0.reserved_of(a),
        s1.classes[class].total_deposit == s0.classes[class].total_deposit,
        s1.assets[asset_key(class, instance)].deposit == 0,
{
}

/// Burning an instance that took no deposit and holds no metadata releases nothing and
/// leaves the class's total deposit as it was.
pub proof fn lemma_free_holding_burn<C: ReservableCurrency>(
    s1: PalletState,
    l1: C,
    class: ClassId,
    instance: InstanceId,
    s2: PalletState,
    l2: C,
)
    requires
        s1.assets.contains_key(asset_key(class, instance)),
        s1.assets[asset_key(class, instance)].deposit == 0,
        !s1.instance_metadata.contains_key(asset_key(class, instance)),
        burn_effect(s1, l1, class, instance, s2, l2),
    ensures
        forall|a: AccountId| #[trigger] l2.reserved_of(a) == l1.reserved_of(a),
        s2.classes[class].total_deposit == s1.classes[class].total_deposit,
{
}

/// Setting the metadata of an instance twice from one origin leaves the class's details and
/// every account's reserve as setting the second value alone would, provided the class's
/// total deposit and its owner's reserve cover the metadata deposit held before.
pub proof fn lemma_set_metadata_twice<C: ReservableCurrency>(
    s0: PalletState,
    l0: C,
    origin: Origin,
    class: ClassId,
    instance: InstanceId,
    first_name: Vec<u8>,
    first_info: Vec<u8>,
    first_frozen: bool,
    s1: PalletState,
    l1: C,
    name: Vec<u8>,
    info: Vec<u8>,
    is_frozen: bool,
    s2: PalletState,
    l2: C,
    s3: PalletState,
    l3: C,
)
    requires
        s0.classes.contains_key(class),
        instance_metadata_deposit(s0, asset_key(class, instance))
            <= s0.classes[class].total_deposit,
        instance_metadata_deposit(s0, asset_key(class, instance)) <= l0.reserved_of(
            s0.classes[class].owner,
        ),
        set_metadata_effect(
            s0,
            l0,
            origin,
            class,
            instance,
            first_name,
            first_info,
            first_frozen,
            s1,
            l1,
        ),
        set_metadata_effect(s1, l1, origin, class, instance, name, info, is_frozen, s2, l2),
        set_metadata_effect(s0, l0, origin, class, instance, name, info, is_frozen, s3, l3),
    ensures
        s2.classes == s3.classes,
        forall|a: AccountId| #[trigger] l2.reserved_of(a) == l3.reserved_of(a),
{
    let key = asset_key(class, instance);
    let o = s0.classes[class].owner;
    let d0 = instance_metadata_deposit(s0, key);
    let d1 = instance_metadata_deposit(s1, key);
    assert(s1.instance_metadata.contains_key(key));
    assert(d1 == s1.instance_metadata[key].deposit);
    assert(s1.classes[class].owner == o);
    assert(s1.classes[class].total_deposit == s0.classes[class].total_deposit - d0 + d1);
    assert(s2.instance_metadata[key].deposit == s3.instance_metadata[key].deposit);
    assert(s2.classes[class] == s3.classes[class]);
    assert(s2.classes =~= s3.classes);
    assert forall|a: AccountId| #[trigger] l2.reserved_of(a) == l3.reserved_of(a) by {
        if a == o && origin != Origin::Force {
            let r0 = l0.reserved_of(a);
            let r1 = l1.reserved_of(a);
            assert(r1 == r0 - d0 + d1);
            assert(l2.reserved_of(a) == r1 - d1 + s2.instance_metadata[key].deposit);
            assert(l3.reserved_of(a) == r0 - d0 + s3.instance_metadata[key].deposit);
        }
    }
}

/// Approving a delegate for an instance that has none and then cancelling the approval
/// leaves the storage as it was; only the two events remain.
pub proof fn lemma_approve_then_cancel(
    s0: PalletState,
    who: AccountId,
    class: ClassId,
    instance: InstanceId,
    delegate: AccountId,
    s1: PalletState,
    s2: PalletState,
)
    requires
        s0.assets.contains_key(asset_key(class, instance)),
        s0.assets[asset_key(class, instance)].approved is None,
        approve_effect(s0, who, class, instance, delegate, s1),
        cancel_effect(s1, who, class, instance, s2),
    ensures
        s2 == (PalletState { events: s2.events, ..s0 }),
{
    let key = asset_key(class, instance);
    assert(s2.assets[key] == s0.assets[key]);
    assert(s2.assets =~= s0.assets);
}

/// Handing a class to a new owner and back restores its details and every account's
/// reserve, provided the first owner's reserve covers the class's total deposit.
pub proof fn lemma_transfer_ownership_back<C: ReservableCurrency>(
    s0: PalletState,
    l0: C,
    class: ClassId,
    new_owner: AccountId,
    s1: PalletState,
    l1: C,
    s2: PalletState,
    l2: C,
)
    requires
        s0.classes.contains_key(class),
        l0.reserved_of(s0.classes[class].owner) >= s0.classes[class].total_deposit,
        transfer_ownership_effect(s0, l0, class, new_owner, s1, l1),
        transfer_ownership_effect(s1, l1, class, s0.classes[class].owner, s2, l2),
    ensures
        s2.classes == s0.classes,
        forall|a: AccountId| #[trigger] l2.reserved_of(a) == l0.reserved_of(a),
{
    let d = s0.classes[class];
    if d.owner != new_owner {
        let t = d.total_deposit;
        assert(reserved_after_taking(l0.reserved_of(d.owner), t) == l0.reserved_of(d.owner) - t);
        assert(l1.reserved_of(new_owner) == l0.reserved_of(new_owner) + t);
        assert(reserved_after_taking(l1.reserved_of(new_owner), t) == l1.reserved_of(new_owner) - t);
        assert(s2.classes[class] == d);
        assert(s2.classes =~= s0.classes);
    }
}

} // verus!
