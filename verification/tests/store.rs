use kitties::genome::random_value;
use kitties::genome::EntropyContext;
use kitties::pallet::Config;
use kitties::pallet::Error;
use kitties::pallet::Event;
use kitties::pallet::Pallet;

fn unstaked(max_owned: usize) -> Pallet {
    Pallet::new(
        Config { max_owned, stake_for_each_kitty: 0, staked: false, exact_price: false },
        0,
    )
}

fn staked(max_owned: usize, stake: u64) -> Pallet {
    Pallet::new(
        Config { max_owned, stake_for_each_kitty: stake, staked: true, exact_price: false },
        0,
    )
}

fn ctx() -> EntropyContext {
    EntropyContext { seed: [7u8; 16], block_number: 3, extrinsic_index: 1 }
}

#[test]
fn mint_assigns_next_id_and_owner() {
    let mut p = unstaked(10);
    let a: u64 = 1;
    let id = p.create(a, &ctx()).unwrap();
    assert_eq!(id, 0);
    assert_eq!(p.total_count(), 1);
    assert_eq!(p.owner_of(0), Some(a));
    assert_eq!(p.owned_by(a), vec![0]);
    assert!(p.owned_by(2).is_empty());
    assert_eq!(p.kitties_list_for_sales(0), None);
    assert_eq!(p.events, vec![Event::KittyCreate(a, 0)]);
}

#[test]
fn mint_ids_are_monotonic_and_unique() {
    let mut p = unstaked(10);
    let id0 = p.create(1, &ctx()).unwrap();
    let id1 = p.create(1, &ctx()).unwrap();
    let id2 = p.create(2, &ctx()).unwrap();
    assert_eq!((id0, id1, id2), (0, 1, 2));
    assert_eq!(p.total_count(), 3);
    assert_eq!(p.owned_by(1), vec![0, 1]);
    assert_eq!(p.owned_by(2), vec![2]);
}

#[test]
fn mint_genome_comes_from_the_derivation() {
    let mut p = unstaked(10);
    let a: u64 = 9;
    let c = ctx();
    let id = p.create(a, &c).unwrap();
    let expected = random_value(&c, a);
    assert_eq!(p.get(id).unwrap().dna, expected);
}

#[test]
fn mint_at_capacity_fails_with_no_change() {
    let mut p = unstaked(3);
    let a: u64 = 4;
    for expected in 0..3u64 {
        assert_eq!(p.create(a, &ctx()).unwrap(), expected);
    }
    let events_before = p.events.len();
    assert_eq!(p.create(a, &ctx()), Err(Error::ExceedMaxOwned));
    assert_eq!(p.total_count(), 3);
    assert_eq!(p.owned_by(a).len(), 3);
    assert_eq!(p.events.len(), events_before);
    // another account still has room
    assert_eq!(p.create(5, &ctx()).unwrap(), 3);
}

#[test]
fn staked_mint_reserves_the_stake() {
    let mut p = staked(10, 10);
    let a: u64 = 1;
    p.set_free_balance(a, 25);
    p.create(a, &ctx()).unwrap();
    assert_eq!(p.free_balance(a), 15);
    assert_eq!(p.reserved_balance(a), 10);
    p.create(a, &ctx()).unwrap();
    assert_eq!(p.free_balance(a), 5);
    assert_eq!(p.reserved_balance(a), 20);
    let before_count = p.total_count();
    assert_eq!(p.create(a, &ctx()), Err(Error::NotEnoughBalanceForStaking));
    assert_eq!(p.total_count(), before_count);
    assert_eq!(p.free_balance(a), 5);
    assert_eq!(p.reserved_balance(a), 20);
}

#[test]
fn breed_child_follows_the_crossover_formula() {
    let mut p = unstaked(10);
    let a: u64 = 1;
    let dna1 = [0xAAu8; 16];
    let dna2 = [0x55u8; 16];
    let id1 = p.create_kitty_with_stake(a, dna1).unwrap();
    let id2 = p.create_kitty_with_stake(a, dna2).unwrap();
    let c = ctx();
    let child = p.breed(a, &c, id1, id2).unwrap();
    assert_eq!(child, 2);
    let selector = random_value(&c, a);
    let child_dna = p.get(child).unwrap().dna;
    for i in 0..16 {
        assert_eq!(child_dna[i], (selector[i] & dna1[i]) | (!selector[i] & dna2[i]));
    }
}

#[test]
fn breed_with_same_parent_fails_with_no_change() {
    let mut p = unstaked(10);
    let a: u64 = 1;
    let id = p.create(a, &ctx()).unwrap();
    let events_before = p.events.clone();
    assert_eq!(p.breed(a, &ctx(), id, id), Err(Error::SameParentIndex));
    assert_eq!(p.total_count(), 1);
    assert_eq!(p.owned_by(a), vec![id]);
    assert_eq!(p.events, events_before);
}

#[test]
fn breed_with_missing_parent_fails() {
    let mut p = unstaked(10);
    let a: u64 = 1;
    let id = p.create(a, &ctx()).unwrap();
    assert_eq!(p.breed(a, &ctx(), id, 7), Err(Error::InvalidKittyIndex));
    assert_eq!(p.breed(a, &ctx(), 7, id), Err(Error::InvalidKittyIndex));
    assert_eq!(p.total_count(), 1);
}

#[test]
fn breed_with_foreign_parent_fails() {
    let mut p = unstaked(10);
    let mine = p.create(1, &ctx()).unwrap();
    let theirs = p.create(2, &ctx()).unwrap();
    assert_eq!(p.breed(1, &ctx(), mine, theirs), Err(Error::NotOwner));
    assert_eq!(p.breed(1, &ctx(), theirs, mine), Err(Error::NotOwner));
    assert_eq!(p.total_count(), 2);
}

#[test]
fn breed_emits_creation_for_the_child() {
    let mut p = unstaked(10);
    let a: u64 = 1;
    let id1 = p.create(a, &ctx()).unwrap();
    let id2 = p.create(a, &ctx()).unwrap();
    let child = p.breed(a, &ctx(), id1, id2).unwrap();
    assert_eq!(p.owner_of(child), Some(a));
    assert_eq!(*p.events.last().unwrap(), Event::KittyCreate(a, child));
}

#[test]
fn sell_sets_and_clears_the_listing() {
    let mut p = unstaked(10);
    let a: u64 = 1;
    let id = p.create(a, &ctx()).unwrap();
    p.sell(a, id, Some(100)).unwrap();
    assert_eq!(p.kitties_list_for_sales(id), Some(100));
    assert_eq!(*p.events.last().unwrap(), Event::KittyListed(a, id, Some(100)));
    p.sell(a, id, None).unwrap();
    assert_eq!(p.kitties_list_for_sales(id), None);
    assert_eq!(*p.events.last().unwrap(), Event::KittyListed(a, id, None));
}

#[test]
fn sell_by_non_owner_fails() {
    let mut p = unstaked(10);
    let id = p.create(1, &ctx()).unwrap();
    assert_eq!(p.sell(2, id, Some(5)), Err(Error::NotOwner));
    assert_eq!(p.kitties_list_for_sales(id), None);
}

#[test]
fn sell_of_missing_creature_fails() {
    let mut p = unstaked(10);
    assert_eq!(p.sell(1, 0, Some(5)), Err(Error::NotOwner));
}

#[test]
fn staked_breed_reserves_a_stake_for_the_child() {
    let mut p = staked(10, 10);
    let a: u64 = 1;
    p.set_free_balance(a, 35);
    let id1 = p.create(a, &ctx()).unwrap();
    let id2 = p.create(a, &ctx()).unwrap();
    assert_eq!(p.free_balance(a), 15);
    p.breed(a, &ctx(), id1, id2).unwrap();
    assert_eq!(p.free_balance(a), 5);
    assert_eq!(p.reserved_balance(a), 30);
    // a fourth creature is beyond the remaining free balance
    assert_eq!(p.breed(a, &ctx(), id1, id2), Err(Error::NotEnoughBalanceForStaking));
    assert_eq!(p.total_count(), 3);
}

#[test]
fn breed_checks_parents_before_capacity() {
    let mut p = unstaked(1);
    let a: u64 = 1;
    let id = p.create(a, &ctx()).unwrap();
    // the parent checks come first, even though the account is full
    assert_eq!(p.breed(a, &ctx(), id, id), Err(Error::SameParentIndex));
    assert_eq!(p.breed(a, &ctx(), id, 9), Err(Error::InvalidKittyIndex));
    // with valid distinct parents the capacity refusal surfaces
    let mut q = unstaked(2);
    let id1 = q.create(a, &ctx()).unwrap();
    let id2 = q.create(a, &ctx()).unwrap();
    assert_eq!(q.breed(a, &ctx(), id1, id2), Err(Error::ExceedMaxOwned));
    assert_eq!(q.total_count(), 2);
}

#[test]
fn every_creature_has_exactly_one_owner() {
    let mut p = unstaked(10);
    let accounts = [1u64, 2, 3];
    let mut ids = Vec::new();
    for a in accounts {
        ids.push(p.create(a, &ctx()).unwrap());
        ids.push(p.create(a, &ctx()).unwrap());
    }
    p.transfer(1, 3, 0).unwrap();
    for id in ids {
        let holders = accounts
            .iter()
            .filter(|a| p.owned_by(**a).contains(&id))
            .count();
        assert_eq!(holders, 1);
        let owner = p.owner_of(id).unwrap();
        assert!(p.owned_by(owner).contains(&id));
    }
}
