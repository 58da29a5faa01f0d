use kitties::genome::EntropyContext;
use kitties::pallet::Config;
use kitties::pallet::Error;
use kitties::pallet::Event;
use kitties::pallet::Pallet;

fn pallet(staked: bool, exact_price: bool, max_owned: usize, stake: u64, min_balance: u64) -> Pallet {
    Pallet::new(
        Config { max_owned, stake_for_each_kitty: stake, staked, exact_price },
        min_balance,
    )
}

fn ctx() -> EntropyContext {
    EntropyContext { seed: [2u8; 16], block_number: 8, extrinsic_index: 4 }
}

#[test]
fn transfer_moves_the_creature() {
    let mut p = pallet(false, false, 10, 0, 0);
    let id = p.create(1, &ctx()).unwrap();
    p.sell(1, id, Some(40)).unwrap();
    p.transfer(1, 2, id).unwrap();
    assert_eq!(p.owner_of(id), Some(2));
    assert!(p.owned_by(1).is_empty());
    assert_eq!(p.owned_by(2), vec![id]);
    // the listing is cleared by the move
    assert_eq!(p.kitties_list_for_sales(id), None);
    assert_eq!(*p.events.last().unwrap(), Event::KittyTransfer(1, 2, id));
}

#[test]
fn transfer_by_non_owner_fails() {
    let mut p = pallet(false, false, 10, 0, 0);
    let id = p.create(1, &ctx()).unwrap();
    assert_eq!(p.transfer(2, 3, id), Err(Error::NotOwner));
    assert_eq!(p.transfer(1, 2, id + 1), Err(Error::NotOwner));
    assert_eq!(p.owner_of(id), Some(1));
}

#[test]
fn transfer_to_self_without_staking_fails() {
    let mut p = pallet(false, false, 10, 0, 0);
    let id = p.create(1, &ctx()).unwrap();
    assert_eq!(p.transfer(1, 1, id), Err(Error::TransferToSelf));
    assert_eq!(p.owner_of(id), Some(1));
}

#[test]
fn transfer_to_self_with_staking_needs_the_stake() {
    let mut p = pallet(true, false, 10, 10, 0);
    p.set_free_balance(1, 30);
    let id = p.create(1, &ctx()).unwrap();
    assert_eq!(p.free_balance(1), 20);
    p.transfer(1, 1, id).unwrap();
    assert_eq!(p.owner_of(id), Some(1));
    assert_eq!(p.owned_by(1), vec![id]);
    assert_eq!(p.free_balance(1), 20);
    assert_eq!(p.reserved_balance(1), 10);
    // an owner whose free balance cannot cover the stake is refused
    p.set_free_balance(1, 5);
    assert_eq!(p.transfer(1, 1, id), Err(Error::NotEnoughBalanceForStaking));
}

#[test]
fn transfer_to_full_account_fails() {
    let mut p = pallet(false, false, 1, 0, 0);
    let id = p.create(1, &ctx()).unwrap();
    p.create(2, &ctx()).unwrap();
    assert_eq!(p.transfer(1, 2, id), Err(Error::ExceedMaxOwned));
    assert_eq!(p.owner_of(id), Some(1));
}

#[test]
fn staked_transfer_moves_the_stake() {
    let mut p = pallet(true, false, 10, 10, 0);
    p.set_free_balance(1, 30);
    p.set_free_balance(2, 50);
    let id = p.create(1, &ctx()).unwrap();
    p.transfer(1, 2, id).unwrap();
    assert_eq!(p.owner_of(id), Some(2));
    assert_eq!(p.free_balance(1), 30);
    assert_eq!(p.reserved_balance(1), 0);
    assert_eq!(p.free_balance(2), 40);
    assert_eq!(p.reserved_balance(2), 10);
}

#[test]
fn staked_transfer_needs_destination_stake() {
    let mut p = pallet(true, false, 10, 10, 0);
    p.set_free_balance(1, 30);
    p.set_free_balance(2, 5);
    let id = p.create(1, &ctx()).unwrap();
    assert_eq!(p.transfer(1, 2, id), Err(Error::NotEnoughBalanceForStaking));
    assert_eq!(p.owner_of(id), Some(1));
    assert_eq!(p.free_balance(2), 5);
}

#[test]
fn buy_without_listing_fails() {
    let mut p = pallet(false, false, 10, 0, 0);
    let id = p.create(1, &ctx()).unwrap();
    p.set_free_balance(2, 500);
    assert_eq!(p.buy(2, id, 100), Err(Error::KittyNotForSell));
    assert_eq!(p.owner_of(id), Some(1));
    assert_eq!(p.free_balance(2), 500);
}

#[test]
fn buy_of_missing_creature_fails() {
    let mut p = pallet(false, false, 10, 0, 0);
    assert_eq!(p.buy(2, 0, 100), Err(Error::InvalidKittyIndex));
}

#[test]
fn buy_by_the_owner_fails() {
    let mut p = pallet(false, false, 10, 0, 0);
    let id = p.create(1, &ctx()).unwrap();
    p.sell(1, id, Some(10)).unwrap();
    p.set_free_balance(1, 500);
    assert_eq!(p.buy(1, id, 10), Err(Error::BuyerIsOwner));
}

#[test]
fn buy_below_the_asked_price_fails() {
    let mut p = pallet(false, false, 10, 0, 0);
    let id = p.create(1, &ctx()).unwrap();
    p.sell(1, id, Some(100)).unwrap();
    p.set_free_balance(2, 500);
    assert_eq!(p.buy(2, id, 99), Err(Error::BidTooLow));
    // at or above the asked price, the asked price is what moves
    p.buy(2, id, 120).unwrap();
    assert_eq!(p.free_balance(2), 400);
    assert_eq!(p.free_balance(1), 100);
}

#[test]
fn exact_pricing_rejects_any_other_bid() {
    let mut p = pallet(false, true, 10, 0, 0);
    let id = p.create(1, &ctx()).unwrap();
    p.sell(1, id, Some(100)).unwrap();
    p.set_free_balance(2, 500);
    assert_eq!(p.buy(2, id, 99), Err(Error::BidTooLow));
    assert_eq!(p.buy(2, id, 101), Err(Error::BidTooLow));
    p.buy(2, id, 100).unwrap();
    assert_eq!(p.owner_of(id), Some(2));
}

#[test]
fn buy_with_short_balance_fails() {
    let mut p = pallet(false, false, 10, 0, 0);
    let id = p.create(1, &ctx()).unwrap();
    p.sell(1, id, Some(100)).unwrap();
    p.set_free_balance(2, 99);
    assert_eq!(p.buy(2, id, 100), Err(Error::NotEnoughBalanceForBuying));
    assert_eq!(p.owner_of(id), Some(1));
    assert_eq!(p.kitties_list_for_sales(id), Some(100));
}

#[test]
fn buy_with_balance_exactly_covering_succeeds() {
    let mut p = pallet(false, false, 10, 0, 0);
    let id = p.create(1, &ctx()).unwrap();
    p.sell(1, id, Some(100)).unwrap();
    p.set_free_balance(2, 100);
    p.buy(2, id, 100).unwrap();
    assert_eq!(p.owner_of(id), Some(2));
    assert_eq!(p.free_balance(2), 0);
    assert_eq!(p.free_balance(1), 100);
}

#[test]
fn staked_buy_with_balance_exactly_covering_succeeds() {
    let mut p = pallet(true, false, 10, 10, 0);
    p.set_free_balance(1, 30);
    let id = p.create(1, &ctx()).unwrap();
    p.sell(1, id, Some(100)).unwrap();
    p.set_free_balance(2, 110);
    p.buy(2, id, 100).unwrap();
    assert_eq!(p.owner_of(id), Some(2));
    assert_eq!(p.free_balance(2), 0);
    assert_eq!(p.reserved_balance(2), 10);
    assert_eq!(p.free_balance(1), 130);
    assert_eq!(p.reserved_balance(1), 0);
    // one unit short of covering price plus stake is refused
    let mut q = pallet(true, false, 10, 10, 0);
    q.set_free_balance(1, 30);
    let id2 = q.create(1, &ctx()).unwrap();
    q.sell(1, id2, Some(100)).unwrap();
    q.set_free_balance(2, 109);
    assert_eq!(q.buy(2, id2, 100), Err(Error::NotEnoughBalanceForBuying));
}

#[test]
fn buy_keeps_the_buyer_above_the_threshold() {
    let mut p = pallet(false, false, 10, 0, 50);
    let id = p.create(1, &ctx()).unwrap();
    p.sell(1, id, Some(100)).unwrap();
    p.set_free_balance(2, 140);
    assert_eq!(p.buy(2, id, 100), Err(Error::NotEnoughBalanceForBuying));
    p.set_free_balance(2, 160);
    p.buy(2, id, 100).unwrap();
    assert_eq!(p.free_balance(2), 60);
}

#[test]
fn buy_moves_price_clears_listing_and_transfers_ownership() {
    let mut p = pallet(false, false, 10, 0, 0);
    let a: u64 = 1;
    let b: u64 = 2;
    let id = p.create(a, &ctx()).unwrap();
    p.sell(a, id, Some(100)).unwrap();
    p.set_free_balance(a, 50);
    p.set_free_balance(b, 200);
    p.buy(b, id, 100).unwrap();
    assert_eq!(p.owner_of(id), Some(b));
    assert_eq!(p.kitties_list_for_sales(id), None);
    assert_eq!(p.free_balance(a), 150);
    assert_eq!(p.free_balance(b), 100);
    assert!(p.owned_by(a).is_empty());
    assert_eq!(p.owned_by(b), vec![id]);
    assert_eq!(*p.events.last().unwrap(), Event::KittySold(b, a, id, 100));
}

#[test]
fn staked_buy_swaps_the_stake_too() {
    let mut p = pallet(true, false, 10, 10, 0);
    let a: u64 = 1;
    let b: u64 = 2;
    p.set_free_balance(a, 30);
    let id = p.create(a, &ctx()).unwrap();
    p.sell(a, id, Some(100)).unwrap();
    p.set_free_balance(b, 200);
    p.buy(b, id, 100).unwrap();
    assert_eq!(p.owner_of(id), Some(b));
    assert_eq!(p.free_balance(b), 90);
    assert_eq!(p.reserved_balance(b), 10);
    assert_eq!(p.free_balance(a), 130);
    assert_eq!(p.reserved_balance(a), 0);
}

#[test]
fn buy_into_full_account_fails() {
    let mut p = pallet(false, false, 1, 0, 0);
    let id = p.create(1, &ctx()).unwrap();
    p.create(2, &ctx()).unwrap();
    p.sell(1, id, Some(10)).unwrap();
    p.set_free_balance(2, 500);
    assert_eq!(p.buy(2, id, 10), Err(Error::ExceedMaxOwned));
    assert_eq!(p.owner_of(id), Some(1));
    assert_eq!(p.free_balance(2), 500);
}

#[test]
fn scenario_mint_breed_list_buy() {
    let mut p = pallet(false, false, 10, 0, 0);
    let a: u64 = 1;
    let b: u64 = 2;
    let id = p.create(a, &ctx()).unwrap();
    assert_eq!(p.total_count(), 1);
    assert_eq!(p.owner_of(0), Some(a));
    assert_eq!(p.breed(a, &ctx(), 0, 0), Err(Error::SameParentIndex));
    p.sell(a, 0, Some(100)).unwrap();
    assert_eq!(p.kitties_list_for_sales(0), Some(100));
    p.set_free_balance(a, 0);
    p.set_free_balance(b, 150);
    p.buy(b, 0, 100).unwrap();
    assert_eq!(p.owner_of(0), Some(b));
    assert_eq!(p.kitties_list_for_sales(0), None);
    assert_eq!(p.free_balance(a), 100);
    assert_eq!(p.free_balance(b), 50);
    assert_eq!(
        p.events,
        vec![
            Event::KittyCreate(a, id),
            Event::KittyListed(a, id, Some(100)),
            Event::KittySold(b, a, id, 100),
        ]
    );
}
