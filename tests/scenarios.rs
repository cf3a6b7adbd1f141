use pallet_uniques::{
    Balances, ClassDetails, Config, CurrencyError, DestroyWitness, DispatchError, Error, Event,
    Origin, Pallet,
};

const ALICE: u64 = 1;
const BOB: u64 = 2;
const CAROL: u64 = 3;
const DAVE: u64 = 4;
const EVE: u64 = 5;

fn config() -> Config {
    Config {
        class_deposit: 10,
        instance_deposit: 1,
        metadata_deposit_base: 5,
        metadata_deposit_per_byte: 1,
        string_limit: 50,
    }
}

fn new_pallet() -> Pallet<Balances> {
    let mut currency = Balances::new();
    for who in [ALICE, BOB, CAROL, DAVE, EVE] {
        currency.make_free_balance_be(who, 1000);
    }
    Pallet::new(config(), currency)
}

fn reserved(p: &Pallet<Balances>, who: u64) -> u128 {
    p.currency().reserved_balance(who)
}

fn details(p: &Pallet<Balances>, class: u32) -> ClassDetails {
    p.class(class).expect("class exists")
}

/// Alice creates class 7 with Bob as admin; Bob mints instance 42 for Carol.
fn created_and_minted() -> Pallet<Balances> {
    let mut p = new_pallet();
    assert_eq!(p.create(Origin::Signed(ALICE), 7, BOB), Ok(()));
    assert_eq!(p.mint(Origin::Signed(BOB), 7, 42, CAROL), Ok(()));
    p
}

#[test]
fn public_create_mint_burn() {
    let mut p = new_pallet();
    assert_eq!(p.create(Origin::Signed(ALICE), 7, BOB), Ok(()));
    assert_eq!(reserved(&p, ALICE), 10);
    assert_eq!(p.currency().free_balance(ALICE), 990);
    let d = details(&p, 7);
    assert_eq!((d.owner, d.issuer, d.admin, d.freezer), (ALICE, BOB, BOB, BOB));
    assert_eq!(d.total_deposit, 10);
    assert_eq!(p.mint(Origin::Signed(BOB), 7, 42, CAROL), Ok(()));
    assert_eq!(reserved(&p, ALICE), 11);
    assert_eq!(details(&p, 7).total_deposit, 11);
    assert_eq!(p.owner(7, 42), Some(CAROL));
    assert!(p.account_holds(CAROL, 7, 42));
    assert_eq!(p.burn(Origin::Signed(BOB), 7, 42, None), Ok(()));
    assert_eq!(reserved(&p, ALICE), 10);
    let d = details(&p, 7);
    assert_eq!((d.instances, d.free_holds), (0, 0));
    assert_eq!(p.owner(7, 42), None);
    assert!(!p.account_holds(CAROL, 7, 42));
    assert_eq!(
        p.events().clone(),
        vec![Event::Created(7, ALICE, BOB), Event::Issued(7, 42, CAROL), Event::Burned(7, 42, CAROL)]
    );
}

#[test]
fn force_create_free_holding() {
    let mut p = new_pallet();
    assert_eq!(p.force_create(Origin::Force, 1, ALICE, true), Ok(()));
    assert_eq!(reserved(&p, ALICE), 0);
    assert_eq!(p.mint(Origin::Signed(ALICE), 1, 1, BOB), Ok(()));
    let d = details(&p, 1);
    assert_eq!((d.instances, d.free_holds, d.total_deposit), (1, 1, 0));
    assert_eq!(reserved(&p, ALICE), 0);
    assert_eq!(p.asset(1, 1).unwrap().deposit, 0);
    assert_eq!(p.events().clone(), vec![Event::ForceCreated(1, ALICE), Event::Issued(1, 1, BOB)]);
}

#[test]
fn delegated_transfer_consumes_approval() {
    let mut p = created_and_minted();
    assert_eq!(p.approve_transfer(Origin::Signed(CAROL), 7, 42, DAVE), Ok(()));
    assert_eq!(p.asset(7, 42).unwrap().approved, Some(DAVE));
    assert_eq!(p.transfer(Origin::Signed(DAVE), 7, 42, EVE), Ok(()));
    let item = p.asset(7, 42).unwrap();
    assert_eq!(item.approved, None);
    assert_eq!(item.owner, EVE);
    assert!(p.account_holds(EVE, 7, 42));
    assert!(!p.account_holds(CAROL, 7, 42));
    assert_eq!(
        p.transfer(Origin::Signed(DAVE), 7, 42, DAVE),
        Err(DispatchError::Module(Error::NoPermission))
    );
    assert_eq!(p.events().last(), Some(&Event::Transferred(7, 42, DAVE, EVE)));
}

/// A class with three instances, one of them minted under free holding.
fn class_of_three() -> Pallet<Balances> {
    let mut p = new_pallet();
    assert_eq!(p.force_create(Origin::Force, 9, ALICE, true), Ok(()));
    assert_eq!(p.mint(Origin::Signed(ALICE), 9, 1, BOB), Ok(()));
    assert_eq!(
        p.force_asset_status(Origin::Force, 9, ALICE, ALICE, ALICE, ALICE, false, false),
        Ok(())
    );
    assert_eq!(p.mint(Origin::Signed(ALICE), 9, 2, BOB), Ok(()));
    assert_eq!(p.mint(Origin::Signed(ALICE), 9, 3, CAROL), Ok(()));
    let d = details(&p, 9);
    assert_eq!((d.instances, d.free_holds), (3, 1));
    p
}

#[test]
fn destroy_with_wrong_witness() {
    let mut p = class_of_three();
    let events = p.events().len();
    let alice_reserved = reserved(&p, ALICE);
    for (instances, free_holds) in [(3, 0), (3, 2), (2, 1), (4, 1)] {
        assert_eq!(
            p.destroy(Origin::Signed(ALICE), 9, DestroyWitness { instances, free_holds }),
            Err(DispatchError::Module(Error::BadWitness))
        );
    }
    assert_eq!(p.owner(9, 1), Some(BOB));
    assert_eq!(p.owner(9, 2), Some(BOB));
    assert_eq!(p.owner(9, 3), Some(CAROL));
    assert!(p.account_holds(BOB, 9, 1));
    assert!(p.account_holds(BOB, 9, 2));
    assert!(p.account_holds(CAROL, 9, 3));
    assert_eq!(reserved(&p, ALICE), alice_reserved);
    assert_eq!(p.events().len(), events);
}

#[test]
fn destroy_with_right_witness() {
    let mut p = class_of_three();
    assert_eq!(p.set_class_metadata(Origin::Signed(ALICE), 9, vec![1], vec![], false), Ok(()));
    assert_eq!(p.set_metadata(Origin::Signed(ALICE), 9, 3, vec![1, 2], vec![], false), Ok(()));
    assert_eq!(reserved(&p, ALICE), 2 + 6 + 7);
    assert_eq!(
        p.destroy(Origin::Signed(BOB), 9, DestroyWitness { instances: 3, free_holds: 1 }),
        Err(DispatchError::Module(Error::NoPermission))
    );
    assert_eq!(
        p.destroy(Origin::Signed(ALICE), 9, DestroyWitness { instances: 3, free_holds: 1 }),
        Ok(())
    );
    assert_eq!(p.class(9), None);
    assert_eq!(p.owner(9, 3), None);
    assert!(!p.account_holds(CAROL, 9, 3));
    assert!(p.class_metadata(9).is_none());
    assert!(p.instance_metadata(9, 3).is_none());
    assert_eq!(reserved(&p, ALICE), 0);
    assert_eq!(p.events().last(), Some(&Event::Destroyed(9)));
}

#[test]
fn destroy_from_force_origin() {
    let mut p = created_and_minted();
    assert_eq!(
        p.destroy(Origin::Force, 7, DestroyWitness { instances: 1, free_holds: 0 }),
        Ok(())
    );
    assert_eq!(reserved(&p, ALICE), 0);
    assert_eq!(p.currency().free_balance(ALICE), 1000);
    assert_eq!(
        p.destroy(Origin::Force, 7, DestroyWitness { instances: 0, free_holds: 0 }),
        Err(DispatchError::Module(Error::Unknown))
    );
}

#[test]
fn metadata_deposit_differential() {
    let mut p = created_and_minted();
    let before = reserved(&p, ALICE);
    assert_eq!(
        p.set_metadata(Origin::Signed(ALICE), 7, 42, b"ab".to_vec(), b"x".to_vec(), false),
        Ok(())
    );
    assert_eq!(reserved(&p, ALICE), before + 8);
    assert_eq!(p.instance_metadata(7, 42).unwrap().deposit, 8);
    assert_eq!(
        p.set_metadata(Origin::Signed(ALICE), 7, 42, b"abcd".to_vec(), b"x".to_vec(), false),
        Ok(())
    );
    assert_eq!(reserved(&p, ALICE), before + 10);
    assert_eq!(details(&p, 7).total_deposit, 11 + 10);
    assert_eq!(
        p.events().last(),
        Some(&Event::MetadataSet(7, b"abcd".to_vec(), b"x".to_vec(), false))
    );
    assert_eq!(p.clear_metadata(Origin::Signed(ALICE), 7, 42), Ok(()));
    assert_eq!(reserved(&p, ALICE), before);
    assert_eq!(details(&p, 7).total_deposit, 11);
    assert!(p.instance_metadata(7, 42).is_none());
    assert_eq!(p.events().last(), Some(&Event::MetadataCleared(7)));
}

#[test]
fn transfer_ownership_moves_the_whole_reserve() {
    let mut p = new_pallet();
    assert_eq!(p.create(Origin::Signed(ALICE), 7, BOB), Ok(()));
    assert_eq!(p.mint(Origin::Signed(BOB), 7, 42, CAROL), Ok(()));
    assert_eq!(p.burn(Origin::Signed(BOB), 7, 42, None), Ok(()));
    assert_eq!(reserved(&p, ALICE), 10);
    assert_eq!(p.transfer_ownership(Origin::Signed(ALICE), 7, DAVE), Ok(()));
    assert_eq!(reserved(&p, ALICE), 0);
    assert_eq!(reserved(&p, DAVE), 10);
    assert_eq!(details(&p, 7).owner, DAVE);
    assert_eq!(p.events().last(), Some(&Event::OwnerChanged(7, DAVE)));
}

#[test]
fn transfer_ownership_there_and_back() {
    let mut p = created_and_minted();
    let roles = details(&p, 7);
    let (alice, dave) = (reserved(&p, ALICE), reserved(&p, DAVE));
    assert_eq!(p.transfer_ownership(Origin::Signed(ALICE), 7, DAVE), Ok(()));
    assert_eq!(p.transfer_ownership(Origin::Signed(DAVE), 7, ALICE), Ok(()));
    assert_eq!(details(&p, 7), roles);
    assert_eq!((reserved(&p, ALICE), reserved(&p, DAVE)), (alice, dave));
}

#[test]
fn transfer_ownership_to_the_owner_changes_nothing() {
    let mut p = created_and_minted();
    let events = p.events().len();
    assert_eq!(p.transfer_ownership(Origin::Signed(ALICE), 7, ALICE), Ok(()));
    assert_eq!(p.events().len(), events);
    assert_eq!(reserved(&p, ALICE), 11);
    assert_eq!(
        p.transfer_ownership(Origin::Signed(BOB), 7, BOB),
        Err(DispatchError::Module(Error::NoPermission))
    );
}

#[test]
fn mint_then_burn_restores_reserves_and_counters() {
    let mut p = created_and_minted();
    let before = details(&p, 7);
    let alice = reserved(&p, ALICE);
    assert_eq!(p.mint(Origin::Signed(BOB), 7, 43, DAVE), Ok(()));
    assert_eq!(reserved(&p, ALICE), alice + 1);
    assert_eq!(p.burn(Origin::Signed(DAVE), 7, 43, Some(DAVE)), Ok(()));
    assert_eq!(details(&p, 7), before);
    assert_eq!(reserved(&p, ALICE), alice);
}

#[test]
fn set_metadata_twice_is_like_once() {
    let mut twice = created_and_minted();
    let mut once = created_and_minted();
    assert_eq!(
        twice.set_metadata(Origin::Signed(ALICE), 7, 42, vec![1; 20], vec![2; 3], false),
        Ok(())
    );
    assert_eq!(twice.set_metadata(Origin::Signed(ALICE), 7, 42, vec![1; 4], vec![], true), Ok(()));
    assert_eq!(once.set_metadata(Origin::Signed(ALICE), 7, 42, vec![1; 4], vec![], true), Ok(()));
    assert_eq!(reserved(&twice, ALICE), reserved(&once, ALICE));
    assert_eq!(details(&twice, 7), details(&once, 7));
    assert_eq!(details(&once, 7).total_deposit, 11 + 9);
}

#[test]
fn approve_then_cancel_restores_the_instance() {
    let mut p = created_and_minted();
    let item = p.asset(7, 42).unwrap();
    assert_eq!(p.approve_transfer(Origin::Signed(CAROL), 7, 42, DAVE), Ok(()));
    assert_eq!(p.cancel_approval(Origin::Signed(CAROL), 7, 42, Some(DAVE)), Ok(()));
    assert_eq!(p.asset(7, 42), Some(item));
    assert_eq!(p.events().last(), Some(&Event::ApprovalCancelled(7, 42, CAROL, DAVE)));
}

#[test]
fn metadata_length_boundary() {
    let mut p = created_and_minted();
    assert_eq!(p.set_metadata(Origin::Signed(ALICE), 7, 42, vec![0; 50], vec![0; 50], false), Ok(()));
    assert_eq!(
        p.set_metadata(Origin::Signed(ALICE), 7, 42, vec![0; 51], vec![], false),
        Err(DispatchError::Module(Error::BadMetadata))
    );
    assert_eq!(
        p.set_metadata(Origin::Signed(ALICE), 7, 42, vec![], vec![0; 51], false),
        Err(DispatchError::Module(Error::BadMetadata))
    );
    assert_eq!(
        p.set_class_metadata(Origin::Signed(ALICE), 7, vec![0; 51], vec![], false),
        Err(DispatchError::Module(Error::BadMetadata))
    );
    assert_eq!(p.set_class_metadata(Origin::Signed(ALICE), 7, vec![0; 50], vec![], false), Ok(()));
}

#[test]
fn free_holding_mint_and_burn_move_no_reserve() {
    let mut p = new_pallet();
    assert_eq!(p.force_create(Origin::Force, 1, ALICE, true), Ok(()));
    assert_eq!(p.mint(Origin::Signed(ALICE), 1, 5, BOB), Ok(()));
    assert_eq!(p.burn(Origin::Signed(BOB), 1, 5, None), Ok(()));
    assert_eq!(reserved(&p, ALICE), 0);
    let d = details(&p, 1);
    assert_eq!((d.instances, d.free_holds, d.total_deposit), (0, 1, 0));
}

#[test]
fn burn_checks() {
    let mut p = created_and_minted();
    assert_eq!(
        p.burn(Origin::Signed(DAVE), 7, 42, None),
        Err(DispatchError::Module(Error::NoPermission))
    );
    assert_eq!(
        p.burn(Origin::Signed(BOB), 7, 42, Some(DAVE)),
        Err(DispatchError::Module(Error::WrongOwner))
    );
    assert_eq!(
        p.burn(Origin::Signed(BOB), 7, 43, None),
        Err(DispatchError::Module(Error::Unknown))
    );
    assert_eq!(p.burn(Origin::Force, 7, 42, None), Err(DispatchError::BadOrigin));
    assert_eq!(p.set_metadata(Origin::Signed(ALICE), 7, 42, vec![1], vec![], false), Ok(()));
    assert_eq!(reserved(&p, ALICE), 11 + 6);
    assert_eq!(p.burn(Origin::Signed(CAROL), 7, 42, Some(CAROL)), Ok(()));
    assert_eq!(reserved(&p, ALICE), 10);
    assert!(p.instance_metadata(7, 42).is_none());
}

#[test]
fn create_checks() {
    let mut p = new_pallet();
    assert_eq!(p.create(Origin::Force, 7, BOB), Err(DispatchError::BadOrigin));
    assert_eq!(p.create(Origin::Unsigned, 7, BOB), Err(DispatchError::BadOrigin));
    assert_eq!(p.create(Origin::Signed(ALICE), 7, BOB), Ok(()));
    assert_eq!(p.create(Origin::Signed(BOB), 7, BOB), Err(DispatchError::Module(Error::InUse)));
    assert_eq!(
        p.force_create(Origin::Force, 7, BOB, false),
        Err(DispatchError::Module(Error::InUse))
    );
    assert_eq!(p.force_create(Origin::Signed(ALICE), 8, BOB, false), Err(DispatchError::BadOrigin));
    let mut poor = Pallet::new(config(), Balances::new());
    assert_eq!(
        poor.create(Origin::Signed(ALICE), 7, BOB),
        Err(DispatchError::Currency(CurrencyError::InsufficientBalance))
    );
    assert_eq!(poor.class(7), None);
    assert!(poor.events().is_empty());
}

#[test]
fn mint_checks() {
    let mut p = created_and_minted();
    assert_eq!(
        p.mint(Origin::Signed(BOB), 7, 42, DAVE),
        Err(DispatchError::Module(Error::AlreadyExists))
    );
    assert_eq!(p.mint(Origin::Signed(BOB), 8, 1, DAVE), Err(DispatchError::Module(Error::Unknown)));
    assert_eq!(
        p.mint(Origin::Signed(ALICE), 7, 1, DAVE),
        Err(DispatchError::Module(Error::NoPermission))
    );
    let mut poor = Pallet::new(config(), Balances::new());
    assert_eq!(poor.force_create(Origin::Force, 1, ALICE, false), Ok(()));
    assert_eq!(
        poor.mint(Origin::Signed(ALICE), 1, 1, BOB),
        Err(DispatchError::Currency(CurrencyError::InsufficientBalance))
    );
    assert_eq!(poor.owner(1, 1), None);
    assert_eq!(details(&poor, 1).instances, 0);
}

#[test]
fn transfer_checks() {
    let mut p = created_and_minted();
    assert_eq!(p.freeze(Origin::Signed(BOB), 7, 42), Ok(()));
    assert_eq!(p.events().last(), Some(&Event::Frozen(7, 42)));
    assert_eq!(
        p.transfer(Origin::Signed(CAROL), 7, 42, DAVE),
        Err(DispatchError::Module(Error::Frozen))
    );
    assert_eq!(p.thaw(Origin::Signed(BOB), 7, 42), Ok(()));
    assert_eq!(p.events().last(), Some(&Event::Frozen(7, 42)));
    assert_eq!(p.freeze_class(Origin::Signed(BOB), 7), Ok(()));
    assert_eq!(
        p.transfer(Origin::Signed(CAROL), 7, 42, DAVE),
        Err(DispatchError::Module(Error::Frozen))
    );
    assert_eq!(p.thaw_class(Origin::Signed(BOB), 7), Ok(()));
    assert_eq!(p.events().last(), Some(&Event::ClassThawed(7)));
    assert_eq!(
        p.transfer(Origin::Signed(EVE), 7, 42, DAVE),
        Err(DispatchError::Module(Error::NoPermission))
    );
    assert_eq!(p.transfer(Origin::Signed(BOB), 7, 42, DAVE), Ok(()));
    assert_eq!(p.owner(7, 42), Some(DAVE));
    assert_eq!(p.transfer(Origin::Signed(DAVE), 7, 42, EVE), Ok(()));
    assert_eq!(
        p.transfer(Origin::Signed(DAVE), 7, 99, EVE),
        Err(DispatchError::Module(Error::Unknown))
    );
}

#[test]
fn freeze_roles() {
    let mut p = created_and_minted();
    assert_eq!(p.set_team(Origin::Signed(ALICE), 7, BOB, CAROL, DAVE), Ok(()));
    assert_eq!(p.events().last(), Some(&Event::TeamChanged(7, BOB, CAROL, DAVE)));
    assert_eq!(p.freeze(Origin::Signed(CAROL), 7, 42), Err(DispatchError::Module(Error::NoPermission)));
    assert_eq!(p.freeze(Origin::Signed(DAVE), 7, 42), Ok(()));
    assert!(p.asset(7, 42).unwrap().is_frozen);
    assert_eq!(p.thaw(Origin::Signed(DAVE), 7, 42), Err(DispatchError::Module(Error::NoPermission)));
    assert_eq!(p.thaw(Origin::Signed(CAROL), 7, 42), Ok(()));
    assert!(!p.asset(7, 42).unwrap().is_frozen);
    assert_eq!(p.freeze_class(Origin::Signed(CAROL), 7), Err(DispatchError::Module(Error::NoPermission)));
    assert_eq!(p.freeze_class(Origin::Signed(DAVE), 7), Ok(()));
    assert!(details(&p, 7).is_frozen);
    assert_eq!(p.thaw_class(Origin::Signed(DAVE), 7), Err(DispatchError::Module(Error::NoPermission)));
    assert_eq!(p.set_team(Origin::Signed(BOB), 7, BOB, BOB, BOB), Err(DispatchError::Module(Error::NoPermission)));
}

#[test]
fn approval_checks() {
    let mut p = created_and_minted();
    assert_eq!(
        p.approve_transfer(Origin::Signed(DAVE), 7, 42, EVE),
        Err(DispatchError::Module(Error::NoPermission))
    );
    assert_eq!(
        p.cancel_approval(Origin::Signed(CAROL), 7, 42, None),
        Err(DispatchError::Module(Error::NoDelegate))
    );
    assert_eq!(p.approve_transfer(Origin::Signed(CAROL), 7, 42, DAVE), Ok(()));
    assert_eq!(p.approve_transfer(Origin::Signed(CAROL), 7, 42, EVE), Ok(()));
    assert_eq!(
        p.cancel_approval(Origin::Signed(CAROL), 7, 42, Some(DAVE)),
        Err(DispatchError::Module(Error::WrongDelegate))
    );
    assert_eq!(
        p.force_cancel_approval(Origin::Signed(CAROL), 7, 42, None),
        Err(DispatchError::Module(Error::NoPermission))
    );
    assert_eq!(p.force_cancel_approval(Origin::Signed(BOB), 7, 42, Some(EVE)), Ok(()));
    assert_eq!(p.events().last(), Some(&Event::ApprovalCancelled(7, 42, CAROL, EVE)));
    assert_eq!(p.approve_transfer(Origin::Signed(CAROL), 7, 42, DAVE), Ok(()));
    assert_eq!(p.force_cancel_approval(Origin::Force, 7, 42, None), Ok(()));
    assert_eq!(p.asset(7, 42).unwrap().approved, None);
    assert_eq!(
        p.force_cancel_approval(Origin::Unsigned, 7, 42, None),
        Err(DispatchError::BadOrigin)
    );
}

#[test]
fn force_asset_status_overwrites_roles() {
    let mut p = created_and_minted();
    assert_eq!(
        p.force_asset_status(Origin::Signed(ALICE), 7, DAVE, DAVE, DAVE, DAVE, true, true),
        Err(DispatchError::BadOrigin)
    );
    assert_eq!(
        p.force_asset_status(Origin::Force, 8, DAVE, DAVE, DAVE, DAVE, true, true),
        Err(DispatchError::Module(Error::Unknown))
    );
    assert_eq!(p.force_asset_status(Origin::Force, 7, DAVE, EVE, CAROL, BOB, true, true), Ok(()));
    let d = details(&p, 7);
    assert_eq!((d.owner, d.issuer, d.admin, d.freezer), (DAVE, EVE, CAROL, BOB));
    assert!(d.free_holding && d.is_frozen);
    assert_eq!(d.total_deposit, 11);
    assert_eq!(reserved(&p, ALICE), 11);
    assert_eq!(p.events().last(), Some(&Event::AssetStatusChanged(7)));
}

#[test]
fn frozen_metadata_needs_the_force_origin() {
    let mut p = created_and_minted();
    assert_eq!(p.set_metadata(Origin::Signed(ALICE), 7, 42, vec![1], vec![], true), Ok(()));
    assert_eq!(
        p.set_metadata(Origin::Signed(ALICE), 7, 42, vec![2], vec![], false),
        Err(DispatchError::Module(Error::Frozen))
    );
    assert_eq!(
        p.clear_metadata(Origin::Signed(ALICE), 7, 42),
        Err(DispatchError::Module(Error::Frozen))
    );
    assert_eq!(
        p.set_metadata(Origin::Signed(BOB), 7, 42, vec![2], vec![], false),
        Err(DispatchError::Module(Error::NoPermission))
    );
    assert_eq!(p.set_metadata(Origin::Force, 7, 42, vec![2; 30], vec![], false), Ok(()));
    assert_eq!(p.instance_metadata(7, 42).unwrap().deposit, 6);
    assert_eq!(reserved(&p, ALICE), 17);
    assert_eq!(p.clear_metadata(Origin::Force, 7, 42), Ok(()));
    assert_eq!(reserved(&p, ALICE), 11);
    assert_eq!(
        p.clear_metadata(Origin::Force, 7, 42),
        Err(DispatchError::Module(Error::Unknown))
    );
    assert_eq!(
        p.set_metadata(Origin::Force, 7, 43, vec![], vec![], false),
        Err(DispatchError::Module(Error::Unknown))
    );
}

#[test]
fn class_metadata_round() {
    let mut p = created_and_minted();
    assert_eq!(p.set_class_metadata(Origin::Signed(ALICE), 7, b"abc".to_vec(), vec![], false), Ok(()));
    assert_eq!(reserved(&p, ALICE), 11 + 8);
    assert_eq!(details(&p, 7).total_deposit, 19);
    assert_eq!(p.class_metadata(7).unwrap().name, b"abc".to_vec());
    assert_eq!(p.set_class_metadata(Origin::Signed(ALICE), 7, vec![], vec![], false), Ok(()));
    assert_eq!(reserved(&p, ALICE), 11 + 5);
    assert_eq!(p.clear_class_metadata(Origin::Signed(ALICE), 7), Ok(()));
    assert_eq!(reserved(&p, ALICE), 11);
    assert_eq!(details(&p, 7).total_deposit, 11);
    assert_eq!(p.events().last(), Some(&Event::ClassMetadataCleared(7)));
    assert_eq!(
        p.clear_class_metadata(Origin::Signed(ALICE), 7),
        Err(DispatchError::Module(Error::Unknown))
    );
    assert_eq!(
        p.clear_class_metadata(Origin::Signed(BOB), 7),
        Err(DispatchError::Module(Error::NoPermission))
    );
}

#[test]
fn total_deposit_is_the_sum_of_its_parts() {
    let mut p = created_and_minted();
    assert_eq!(p.mint(Origin::Signed(BOB), 7, 43, DAVE), Ok(()));
    assert_eq!(p.set_class_metadata(Origin::Signed(ALICE), 7, vec![1, 2], vec![3], false), Ok(()));
    assert_eq!(p.set_metadata(Origin::Signed(ALICE), 7, 43, vec![1; 7], vec![], false), Ok(()));
    let class_meta = p.class_metadata(7).unwrap().deposit;
    let instance_meta = p.instance_metadata(7, 43).unwrap().deposit;
    let instances = p.asset(7, 42).unwrap().deposit + p.asset(7, 43).unwrap().deposit;
    assert_eq!((class_meta, instance_meta, instances), (8, 12, 2));
    assert_eq!(details(&p, 7).total_deposit, 10 + instances + class_meta + instance_meta);
    assert_eq!(details(&p, 7).instances, 2);
}

#[test]
fn reserves_equal_the_deposits_of_owned_classes() {
    let mut p = new_pallet();
    assert_eq!(p.create(Origin::Signed(ALICE), 1, BOB), Ok(()));
    assert_eq!(p.create(Origin::Signed(ALICE), 2, BOB), Ok(()));
    assert_eq!(p.create(Origin::Signed(DAVE), 3, DAVE), Ok(()));
    assert_eq!(p.mint(Origin::Signed(BOB), 1, 1, CAROL), Ok(()));
    assert_eq!(p.mint(Origin::Signed(BOB), 2, 1, CAROL), Ok(()));
    assert_eq!(p.set_metadata(Origin::Signed(ALICE), 2, 1, vec![9], vec![], false), Ok(()));
    assert_eq!(p.transfer_ownership(Origin::Signed(ALICE), 1, DAVE), Ok(()));
    let owned = |who: u64| -> u128 {
        [1, 2, 3]
            .iter()
            .map(|c| details(&p, *c))
            .filter(|d| d.owner == who)
            .map(|d| d.total_deposit)
            .sum()
    };
    assert_eq!(reserved(&p, ALICE), owned(ALICE));
    assert_eq!(reserved(&p, DAVE), owned(DAVE));
    assert_eq!((owned(ALICE), owned(DAVE)), (17, 21));
}

#[test]
fn instance_counters_follow_the_instances() {
    let mut p = new_pallet();
    assert_eq!(p.force_create(Origin::Force, 4, ALICE, true), Ok(()));
    for i in 0..5 {
        assert_eq!(p.mint(Origin::Signed(ALICE), 4, i, BOB), Ok(()));
    }
    assert_eq!(p.force_asset_status(Origin::Force, 4, ALICE, ALICE, ALICE, ALICE, false, false), Ok(()));
    assert_eq!(p.mint(Origin::Signed(ALICE), 4, 5, BOB), Ok(()));
    assert_eq!(p.burn(Origin::Signed(BOB), 4, 5, None), Ok(()));
    assert_eq!(p.mint(Origin::Signed(ALICE), 4, 6, BOB), Ok(()));
    let d = details(&p, 4);
    let live = (0..10).filter(|i| p.asset(4, *i).is_some()).count() as u32;
    let free = (0..10).filter(|i| p.asset(4, *i).map_or(false, |a| a.deposit == 0)).count() as u32;
    assert_eq!((d.instances, live), (6, 6));
    assert_eq!((d.free_holds, free), (5, 5));
}
