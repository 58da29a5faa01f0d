//! The creature store and marketplace: minting, breeding, listing,
//! transferring and buying uniquely identified creatures.
//!
//! Every action either completes with all its writes applied, or fails with
//! an error and leaves the whole state exactly as it was: each action
//! validates everything it needs before it mutates anything.

use vstd::prelude::*;

use crate::genome::blake2_128_of;
use crate::genome::breed_dna;
use crate::genome::crossover;
use crate::genome::payload_bytes;
use crate::genome::random_value;
use crate::genome::EntropyContext;
use crate::ledger::Ledger;
use crate::owner_index::OwnerIndex;

verus! {

/// A creature: its 16-byte genome. Its id, owner and listing live in the
/// surrounding store.
#[derive(Clone, Copy)]
pub struct Kitty {
    pub dna: [u8; 16],
}

/// The store's configurable policy.
#[derive(Clone, Copy)]
pub struct Config {
    /// How many creatures one account may hold at once.
    pub max_owned: usize,
    /// The currency amount reserved against an owner's balance for each
    /// creature it holds, when staking is on.
    pub stake_for_each_kitty: u64,
    /// Whether holding a creature reserves a stake.
    pub staked: bool,
    /// Whether a purchase must bid the asked price exactly; otherwise any
    /// bid at or above the asked price is accepted.
    pub exact_price: bool,
}

/// Why an action was refused.
#[derive(Clone, Copy, Debug, PartialEq, Eq, Structural)]
pub enum Error {
    KittiesCountOverflow,
    NotOwner,
    SameParentIndex,
    InvalidKittyIndex,
    BuyerIsOwner,
    KittyNotForSell,
    NotEnoughBalanceForBuying,
    NotEnoughBalanceForStaking,
    ExceedMaxOwned,
    TransferToSelf,
    BidTooLow,
}

/// A notification of a completed action, in action order.
#[derive(Clone, Copy, Debug, PartialEq, Eq)]
pub enum Event {
    /// owner, id
    KittyCreate(u64, u64),
    /// from, to, id
    KittyTransfer(u64, u64, u64),
    /// owner, id, asked price
    KittyListed(u64, u64, Option<u64>),
    /// buyer, seller, id, price paid
    KittySold(u64, u64, u64, u64),
}

/// The whole store: creature records, their owners and listings, the owner
/// index, the currency ledger and the event log. Ids are assigned by a
/// monotonic counter, so id `i` exists exactly when `i < count`.
pub struct Pallet {
    pub config: Config,
    pub count: u64,
    pub kitties: Vec<Kitty>,
    pub owners: Vec<u64>,
    pub prices: Vec<Option<u64>>,
    pub index: OwnerIndex,
    pub ledger: Ledger,
    pub events: Vec<Event>,
}

impl Pallet {
    /// The owner of creature `id` (meaningful for `id < count`).
    pub open spec fn spec_owner_of(self, id: u64) -> u64 {
        self.owners@[id as int]
    }

    /// The listing of creature `id`: `Some(price)` when it is for sale.
    pub open spec fn spec_price_of(self, id: u64) -> Option<u64> {
        self.prices@[id as int]
    }

    /// The genome of creature `id`.
    pub open spec fn spec_dna_of(self, id: u64) -> Seq<u8> {
        self.kitties@[id as int].dna@
    }

    /// The ids account `a` holds.
    pub open spec fn owned(self, a: u64) -> Seq<u64> {
        self.index.owned(a)
    }

    /// Whether account `a` holds creature `id`.
    pub open spec fn owns(self, a: u64, id: u64) -> bool {
        self.index.owns(a, id)
    }

    /// How many creatures account `a` holds.
    pub open spec fn owned_count(self, a: u64) -> nat {
        self.index.count(a)
    }

    /// The free balance of account `a`.
    pub open spec fn free_of(self, a: u64) -> u64 {
        self.ledger.free(a)
    }

    /// The reserved balance of account `a`.
    pub open spec fn reserved_of(self, a: u64) -> u64 {
        self.ledger.reserved(a)
    }

    /// The stake each held creature binds: 0 when staking is off.
    pub open spec fn stake_amount(self) -> u64 {
        if self.config.staked {
            self.config.stake_for_each_kitty
        } else {
            0
        }
    }

    /// The store's invariant.
    ///
    /// The three record tables all have one row per assigned id; every
    /// existing id lies in its owner's set in the index, and an id in some
    /// account's set is an existing id owned by that account (so no id is
    /// ever in two sets); and, when staking is on, each account has exactly
    /// the stake for the creatures it holds reserved in the ledger.
    pub open spec fn wf(self) -> bool {
        &&& self.index.wf()
        &&& self.ledger.wf()
        &&& self.index.max_owned == self.config.max_owned
        &&& self.kitties@.len() == self.count
        &&& self.owners@.len() == self.count
        &&& self.prices@.len() == self.count
        &&& forall|id: u64|
            id < self.count ==> #[trigger] self.index.owns(self.owners@[id as int], id)
        &&& forall|a: u64, id: u64|
            #[trigger] self.index.owns(a, id) ==> id < self.count && self.owners@[id as int] == a
        &&& (self.config.staked ==> forall|a: u64|
            (#[trigger] self.ledger.reserved(a)) as int == self.config.stake_for_each_kitty as int
                * self.index.count(a) as int)
    }

    /// The first reason a mint for `owner` would be refused, if any: the id
    /// counter is exhausted; then, with staking on, the owner cannot cover
    /// the stake; then the owner's set is at capacity.
    pub open spec fn mint_outcome(self, owner: u64) -> Option<Error> {
        if self.count == u64::MAX {
            Some(Error::KittiesCountOverflow)
        } else if self.config.staked && self.ledger.free(owner)
            < self.config.stake_for_each_kitty {
            Some(Error::NotEnoughBalanceForStaking)
        } else if self.index.count(owner) >= self.config.max_owned {
            Some(Error::ExceedMaxOwned)
        } else {
            None
        }
    }

    /// An empty store under the given policy, over an empty ledger with the
    /// given minimum-existence threshold.
    pub fn new(config: Config, min_balance: u64) -> (p: Pallet)
        ensures
            p.wf(),
            p.config == config,
            p.count == 0,
            p.events@ == Seq::<Event>::empty(),
            p.ledger.min_balance == min_balance,
            forall|a: u64| #[trigger] p.ledger.free(a) == 0,
            forall|a: u64| #[trigger] p.ledger.reserved(a) == 0,
            forall|a: u64| #[trigger] p.index.owned(a) == Seq::<u64>::empty(),
    {
        let p = Pallet {
            config,
            count: 0,
            kitties: Vec::new(),
            owners: Vec::new(),
            prices: Vec::new(),
            index: OwnerIndex::new(config.max_owned),
            ledger: Ledger::new(min_balance),
            events: Vec::new(),
        };
        proof {
            assert forall|a: u64, id: u64| !(#[trigger] p.index.owns(a, id)) by {
                assert(p.index.owned(a) == Seq::<u64>::empty());
            }
            if p.config.staked {
                assert forall|a: u64| (#[trigger] p.ledger.reserved(a)) as int
                    == p.config.stake_for_each_kitty as int * p.index.count(a) as int by {
                    assert(p.ledger.reserved(a) == 0);
                    assert(p.index.owned(a) == Seq::<u64>::empty());
                    assert(p.index.count(a) == 0);
                }
            }
        }
        p
    }

    /// How many creatures have ever been minted.
    pub fn total_count(&self) -> (r: u64)
        ensures
            r == self.count,
    {
        self.count
    }

    /// The record of creature `kitty_id`, if it exists.
    pub fn get(&self, kitty_id: u64) -> (r: Option<Kitty>)
        requires
            self.wf(),
        ensures
            r == if kitty_id < self.count {
                Some(self.kitties@[kitty_id as int])
            } else {
                None::<Kitty>
            },
    {
        if kitty_id < self.count {
            proof {
                vstd::std_specs::vec::axiom_spec_len(&self.kitties);
            }
            Some(self.kitties[kitty_id as usize])
        } else {
            None
        }
    }

    /// The owner of creature `kitty_id`, if it exists.
    pub fn owner_of(&self, kitty_id: u64) -> (r: Option<u64>)
        requires
            self.wf(),
        ensures
            r == if kitty_id < self.count {
                Some(self.spec_owner_of(kitty_id))
            } else {
                None::<u64>
            },
    {
        if kitty_id < self.count {
            proof {
                vstd::std_specs::vec::axiom_spec_len(&self.owners);
            }
            Some(self.owners[kitty_id as usize])
        } else {
            None
        }
    }

    /// The asked price of creature `kitty_id`: `None` when it is not for
    /// sale (or does not exist).
    pub fn kitties_list_for_sales(&self, kitty_id: u64) -> (r: Option<u64>)
        requires
            self.wf(),
        ensures
            r == if kitty_id < self.count {
                self.spec_price_of(kitty_id)
            } else {
                None::<u64>
            },
    {
        if kitty_id < self.count {
            proof {
                vstd::std_specs::vec::axiom_spec_len(&self.prices);
            }
            self.prices[kitty_id as usize]
        } else {
            None
        }
    }

    /// The ids account `account` holds.
    pub fn owned_by(&self, account: u64) -> (r: Vec<u64>)
        requires
            self.wf(),
        ensures
            r@ == self.owned(account),
    {
        self.index.owned_ids(account)
    }

    /// The free balance of `account`.
    pub fn free_balance(&self, account: u64) -> (r: u64)
        requires
            self.wf(),
        ensures
            r == self.free_of(account),
    {
        self.ledger.free_balance(account)
    }

    /// The reserved balance of `account`.
    pub fn reserved_balance(&self, account: u64) -> (r: u64)
        requires
            self.wf(),
        ensures
            r == self.reserved_of(account),
    {
        self.ledger.reserved_balance(account)
    }

    /// Set the free balance of `account`, leaving reservations alone.
    pub fn set_free_balance(&mut self, account: u64, amount: u64)
        requires
            old(self).wf(),
            amount as int + old(self).reserved_of(account) as int <= u64::MAX as int,
        ensures
            final(self).wf(),
            final(self).free_of(account) == amount,
            final(self).reserved_of(account) == old(self).reserved_of(account),
            forall|b: u64| b != account ==> #[trigger] final(self).free_of(b) == old(self).free_of(
                b,
            ),
            forall|b: u64| #[trigger] final(self).reserved_of(b) == old(self).reserved_of(b),
            final(self).config == old(self).config,
            final(self).count == old(self).count,
            final(self).kitties@ == old(self).kitties@,
            final(self).owners@ == old(self).owners@,
            final(self).prices@ == old(self).prices@,
            final(self).index == old(self).index,
            final(self).events@ == old(self).events@,
            final(self).ledger.min_balance == old(self).ledger.min_balance,
    {
        self.ledger.set_free_balance(account, amount);
    }
}

/// What a successful mint does: `id` is the next counter value; the new
/// creature gets genome `dna`, owner `owner` and no listing; the owner's set
/// gains `id`; with staking on, the stake moves from the owner's free to its
/// reserved balance; and a creation event is logged. Nothing else changes.
pub open spec fn minted(pre: Pallet, post: Pallet, owner: u64, dna: Seq<u8>, id: u64) -> bool {
    &&& pre.mint_outcome(owner) is None
    &&& id == pre.count
    &&& post.config == pre.config
    &&& post.count == pre.count + 1
    &&& post.kitties@.len() == pre.kitties@.len() + 1
    &&& post.kitties@[id as int].dna@ == dna
    &&& forall|j: int| 0 <= j < pre.count ==> post.kitties@[j] == pre.kitties@[j]
    &&& post.owners@ == pre.owners@.push(owner)
    &&& post.prices@ == pre.prices@.push(None::<u64>)
    &&& post.index.owned(owner) == pre.index.owned(owner).push(id)
    &&& forall|b: u64| b != owner ==> #[trigger] post.index.owned(b) == pre.index.owned(b)
    &&& post.ledger.free(owner) == pre.ledger.free(owner) - pre.stake_amount()
    &&& post.ledger.reserved(owner) == pre.ledger.reserved(owner) + pre.stake_amount()
    &&& forall|b: u64| b != owner ==> #[trigger] post.ledger.free(b) == pre.ledger.free(b)
    &&& forall|b: u64| b != owner ==> #[trigger] post.ledger.reserved(b) == pre.ledger.reserved(b)
    &&& post.ledger.min_balance == pre.ledger.min_balance
    &&& post.events@ == pre.events@.push(Event::KittyCreate(owner, id))
}

impl Pallet {
    /// Mint a creature with the given genome for `owner`, reserving the
    /// per-creature stake when staking is on. All checks precede all
    /// writes, so a refused mint changes nothing.
    pub fn create_kitty_with_stake(&mut self, owner: u64, dna: [u8; 16]) -> (r: Result<
        u64,
        Error,
    >)
        requires
            old(self).wf(),
        ensures
            final(self).wf(),
            match r {
                Ok(id) => minted(*old(self), *final(self), owner, dna@, id),
                Err(e) => *final(self) == *old(self) && old(self).mint_outcome(owner) == Some(e),
            },
            r is Ok <==> old(self).mint_outcome(owner) is None,
    {
        if self.count == u64::MAX {
            return Err(Error::KittiesCountOverflow);
        }
        let stake = self.config.stake_for_each_kitty;
        if self.config.staked {
            let f = self.ledger.free_balance(owner);
            if f < stake {
                return Err(Error::NotEnoughBalanceForStaking);
            }
        }
        let held = self.index.owned_count(owner);
        if held >= self.config.max_owned {
            return Err(Error::ExceedMaxOwned);
        }
        let ghost pre = *self;
        let id = self.count;
        if self.config.staked {
            let ok = self.ledger.reserve(owner, stake);
            proof {
                assert(ok);
            }
        }
        self.kitties.push(Kitty { dna });
        self.owners.push(owner);
        self.prices.push(None);
        proof {
            assert(!self.index.owns(owner, id));
        }
        let inserted = self.index.insert(owner, id);
        proof {
            assert(inserted);
        }
        self.count = self.count + 1;
        self.events.push(Event::KittyCreate(owner, id));
        proof {
            lemma_mint_wf(pre, *self, owner, id);
        }
        Ok(id)
    }
}

/// A mint that passed its checks re-establishes the store invariant.
proof fn lemma_mint_wf(pre: Pallet, post: Pallet, owner: u64, id: u64)
    requires
        pre.wf(),
        pre.mint_outcome(owner) is None,
        id == pre.count,
        post.config == pre.config,
        post.count == pre.count + 1,
        post.kitties@.len() == pre.kitties@.len() + 1,
        post.owners@ == pre.owners@.push(owner),
        post.prices@ == pre.prices@.push(None::<u64>),
        post.index.wf(),
        post.index.max_owned == pre.index.max_owned,
        post.index.owned(owner) == pre.index.owned(owner).push(id),
        forall|b: u64| b != owner ==> #[trigger] post.index.owned(b) == pre.index.owned(b),
        post.ledger.wf(),
        post.ledger.reserved(owner) == pre.ledger.reserved(owner) + pre.stake_amount(),
        forall|b: u64| b != owner ==> #[trigger] post.ledger.reserved(b) == pre.ledger.reserved(b),
    ensures
        post.wf(),
{
    let n = pre.count;
    assert forall|id2: u64| id2 < post.count implies #[trigger] post.index.owns(
        post.owners@[id2 as int],
        id2,
    ) by {
        if id2 < n {
            let o = pre.owners@[id2 as int];
            assert(pre.index.owns(o, id2));
            assert(post.owners@[id2 as int] == o);
            let w = choose|w: int|
                0 <= w < pre.index.owned(o).len() && pre.index.owned(o)[w] == id2;
            if o == owner {
                assert(post.index.owned(o)[w] == id2);
            } else {
                assert(post.index.owned(o) == pre.index.owned(o));
                assert(post.index.owned(o)[w] == id2);
            }
            assert(post.index.owned(o).contains(id2));
        } else {
            assert(id2 == id);
            assert(post.owners@[id2 as int] == owner);
            let m = pre.index.owned(owner).len() as int;
            assert(post.index.owned(owner)[m] == id);
            assert(post.index.owned(owner).contains(id));
        }
    }
    assert forall|a: u64, id2: u64| #[trigger] post.index.owns(a, id2) implies id2 < post.count
        && post.owners@[id2 as int] == a by {
        if a == owner {
            let w = choose|w: int|
                0 <= w < post.index.owned(a).len() && post.index.owned(a)[w] == id2;
            if w < pre.index.owned(owner).len() {
                assert(pre.index.owned(a)[w] == id2);
                assert(pre.index.owns(a, id2));
                assert(id2 < n && pre.owners@[id2 as int] == a);
                assert(post.owners@[id2 as int] == a);
            } else {
                assert(id2 == id);
                assert(post.owners@[id as int] == owner);
            }
        } else {
            assert(post.index.owned(a) == pre.index.owned(a));
            assert(pre.index.owns(a, id2));
            assert(id2 < n && pre.owners@[id2 as int] == a);
            assert(post.owners@[id2 as int] == a);
        }
    }
    if post.config.staked {
        let stake = pre.config.stake_for_each_kitty as int;
        assert forall|a: u64| (#[trigger] post.ledger.reserved(a)) as int == stake
            * post.index.count(a) as int by {
            if a == owner {
                let c = pre.index.count(owner) as int;
                assert(pre.ledger.reserved(owner) as int == stake * c);
                assert(post.index.count(owner) as int == c + 1);
                assert(stake * (c + 1) == stake * c + stake) by (nonlinear_arith);
            } else {
                assert(post.index.owned(a) == pre.index.owned(a));
                assert(pre.ledger.reserved(a) as int == stake * pre.index.count(a) as int);
            }
        }
    }
}

impl Pallet {
    /// Mint a creature for `who` with a freshly derived genome.
    pub fn create(&mut self, who: u64, ctx: &EntropyContext) -> (r: Result<u64, Error>)
        requires
            old(self).wf(),
        ensures
            final(self).wf(),
            match r {
                Ok(id) => minted(
                    *old(self),
                    *final(self),
                    who,
                    blake2_128_of(payload_bytes(*ctx, who)),
                    id,
                ),
                Err(e) => *final(self) == *old(self) && old(self).mint_outcome(who) == Some(e),
            },
            r is Ok <==> old(self).mint_outcome(who) is None,
    {
        let dna = random_value(ctx, who);
        self.create_kitty_with_stake(who, dna)
    }

    /// The first reason breeding `kitty_id_1` with `kitty_id_2` for `who`
    /// would be refused, if any: equal parents; then a missing parent; then
    /// a parent not held by the caller; then whatever refuses the mint of
    /// the child.
    pub open spec fn breed_outcome(self, who: u64, kitty_id_1: u64, kitty_id_2: u64) -> Option<
        Error,
    > {
        if kitty_id_1 == kitty_id_2 {
            Some(Error::SameParentIndex)
        } else if !(kitty_id_1 < self.count && kitty_id_2 < self.count) {
            Some(Error::InvalidKittyIndex)
        } else if !(self.spec_owner_of(kitty_id_1) == who && self.spec_owner_of(kitty_id_2)
            == who) {
            Some(Error::NotOwner)
        } else {
            self.mint_outcome(who)
        }
    }

    /// Breed two creatures `who` holds into a new one. The child's genome
    /// takes each bit from the first parent where a freshly derived
    /// selector bit is 1, else from the second parent.
    pub fn breed(&mut self, who: u64, ctx: &EntropyContext, kitty_id_1: u64, kitty_id_2: u64) -> (r:
        Result<u64, Error>)
        requires
            old(self).wf(),
        ensures
            final(self).wf(),
            match r {
                Ok(id) => minted(
                    *old(self),
                    *final(self),
                    who,
                    crossover(
                        blake2_128_of(payload_bytes(*ctx, who)),
                        old(self).spec_dna_of(kitty_id_1),
                        old(self).spec_dna_of(kitty_id_2),
                    ),
                    id,
                ),
                Err(e) => *final(self) == *old(self) && old(self).breed_outcome(
                    who,
                    kitty_id_1,
                    kitty_id_2,
                ) == Some(e),
            },
            r is Ok <==> old(self).breed_outcome(who, kitty_id_1, kitty_id_2) is None,
    {
        if kitty_id_1 == kitty_id_2 {
            return Err(Error::SameParentIndex);
        }
        if !(kitty_id_1 < self.count && kitty_id_2 < self.count) {
            return Err(Error::InvalidKittyIndex);
        }
        proof {
            vstd::std_specs::vec::axiom_spec_len(&self.owners);
            vstd::std_specs::vec::axiom_spec_len(&self.kitties);
        }
        let owner1 = self.owners[kitty_id_1 as usize];
        let owner2 = self.owners[kitty_id_2 as usize];
        if !(owner1 == who && owner2 == who) {
            return Err(Error::NotOwner);
        }
        let dna1 = self.kitties[kitty_id_1 as usize].dna;
        let dna2 = self.kitties[kitty_id_2 as usize].dna;
        let selector = random_value(ctx, who);
        let new_dna = breed_dna(&selector, &dna1, &dna2);
        self.create_kitty_with_stake(who, new_dna)
    }

    /// The reason listing `kitty_id` for `who` would be refused, if any:
    /// only the current owner of an existing creature may list it.
    pub open spec fn sell_outcome(self, who: u64, kitty_id: u64) -> Option<Error> {
        if !(kitty_id < self.count && self.spec_owner_of(kitty_id) == who) {
            Some(Error::NotOwner)
        } else {
            None
        }
    }

    /// List creature `kitty_id` for sale at `price`, or take it off sale
    /// with `None`.
    pub fn sell(&mut self, who: u64, kitty_id: u64, price: Option<u64>) -> (r: Result<(), Error>)
        requires
            old(self).wf(),
        ensures
            final(self).wf(),
            match r {
                Ok(_) => {
                    &&& old(self).sell_outcome(who, kitty_id) is None
                    &&& final(self).prices@ == old(self).prices@.update(kitty_id as int, price)
                    &&& final(self).events@ == old(self).events@.push(
                        Event::KittyListed(who, kitty_id, price),
                    )
                    &&& final(self).config == old(self).config
                    &&& final(self).count == old(self).count
                    &&& final(self).kitties@ == old(self).kitties@
                    &&& final(self).owners@ == old(self).owners@
                    &&& final(self).index == old(self).index
                    &&& final(self).ledger == old(self).ledger
                },
                Err(e) => *final(self) == *old(self) && old(self).sell_outcome(who, kitty_id)
                    == Some(e),
            },
            r is Ok <==> old(self).sell_outcome(who, kitty_id) is None,
    {
        if !(kitty_id < self.count) {
            return Err(Error::NotOwner);
        }
        proof {
            vstd::std_specs::vec::axiom_spec_len(&self.owners);
            vstd::std_specs::vec::axiom_spec_len(&self.prices);
        }
        let owner = self.owners[kitty_id as usize];
        if owner != who {
            return Err(Error::NotOwner);
        }
        self.prices[kitty_id as usize] = price;
        self.events.push(Event::KittyListed(who, kitty_id, price));
        Ok(())
    }

    /// The first reason moving `kitty_id` from `who` to `new_owner` would be
    /// refused, if any: the caller does not own an existing creature; then,
    /// without staking, a transfer to oneself; then, with staking, a
    /// destination that cannot cover the stake; then a destination at
    /// capacity.
    pub open spec fn transfer_outcome(self, who: u64, new_owner: u64, kitty_id: u64) -> Option<
        Error,
    > {
        if !(kitty_id < self.count && self.spec_owner_of(kitty_id) == who) {
            Some(Error::NotOwner)
        } else if !self.config.staked && new_owner == who {
            Some(Error::TransferToSelf)
        } else if self.config.staked && self.ledger.free(new_owner)
            < self.config.stake_for_each_kitty {
            Some(Error::NotEnoughBalanceForStaking)
        } else if new_owner != who && self.index.count(new_owner) >= self.config.max_owned {
            Some(Error::ExceedMaxOwned)
        } else {
            None
        }
    }

    /// Move creature `kitty_id` from its owner `who` to `new_owner`: the id
    /// changes sets in the index, the listing is cleared, and, with staking
    /// on, the stake moves to the new owner's balance. All checks precede
    /// all writes, so a refused transfer changes nothing.
    pub fn transfer(&mut self, who: u64, new_owner: u64, kitty_id: u64) -> (r: Result<(), Error>)
        requires
            old(self).wf(),
        ensures
            final(self).wf(),
            match r {
                Ok(_) => {
                    &&& old(self).transfer_outcome(who, new_owner, kitty_id) is None
                    &&& final(self).config == old(self).config
                    &&& final(self).count == old(self).count
                    &&& final(self).kitties@ == old(self).kitties@
                    &&& final(self).owners@ == old(self).owners@.update(
                        kitty_id as int,
                        new_owner,
                    )
                    &&& final(self).prices@ == old(self).prices@.update(
                        kitty_id as int,
                        None::<u64>,
                    )
                    &&& final(self).events@ == old(self).events@.push(
                        Event::KittyTransfer(who, new_owner, kitty_id),
                    )
                    &&& final(self).ledger.min_balance == old(self).ledger.min_balance
                    &&& (who != new_owner ==> {
                        &&& (forall|x: u64|
                            #[trigger] final(self).owns(who, x) <==> (old(self).owns(who, x) && x
                                != kitty_id))
                        &&& final(self).owned(new_owner) == old(self).owned(new_owner).push(
                            kitty_id,
                        )
                        &&& (forall|b: u64|
                            b != who && b != new_owner ==> #[trigger] final(self).owned(b) == old(
                                self,
                            ).owned(b))
                        &&& final(self).owned_count(who) == old(self).owned_count(who) - 1
                        &&& (old(self).config.staked ==> {
                            &&& final(self).free_of(new_owner) == old(self).free_of(new_owner)
                                - old(self).config.stake_for_each_kitty
                            &&& final(self).reserved_of(new_owner) == old(self).reserved_of(
                                new_owner,
                            ) + old(self).config.stake_for_each_kitty
                            &&& final(self).free_of(who) == old(self).free_of(who) + old(
                                self,
                            ).config.stake_for_each_kitty
                            &&& final(self).reserved_of(who) == old(self).reserved_of(who) - old(
                                self,
                            ).config.stake_for_each_kitty
                            &&& (forall|b: u64|
                                b != who && b != new_owner ==> #[trigger] final(self).free_of(b)
                                    == old(self).free_of(b) && final(self).reserved_of(b) == old(
                                    self,
                                ).reserved_of(b))
                        })
                        &&& (!old(self).config.staked ==> final(self).ledger == old(self).ledger)
                    })
                    &&& (who == new_owner ==> {
                        &&& (forall|b: u64| #[trigger] final(self).owned(b) == old(self).owned(b))
                        &&& final(self).ledger == old(self).ledger
                    })
                },
                Err(e) => *final(self) == *old(self) && old(self).transfer_outcome(
                    who,
                    new_owner,
                    kitty_id,
                ) == Some(e),
            },
            r is Ok <==> old(self).transfer_outcome(who, new_owner, kitty_id) is None,
    {
        if !(kitty_id < self.count) {
            return Err(Error::NotOwner);
        }
        proof {
            vstd::std_specs::vec::axiom_spec_len(&self.owners);
            vstd::std_specs::vec::axiom_spec_len(&self.prices);
        }
        let owner = self.owners[kitty_id as usize];
        if owner != who {
            return Err(Error::NotOwner);
        }
        if !self.config.staked && new_owner == who {
            return Err(Error::TransferToSelf);
        }
        let stake = self.config.stake_for_each_kitty;
        if self.config.staked {
            let f = self.ledger.free_balance(new_owner);
            if f < stake {
                return Err(Error::NotEnoughBalanceForStaking);
            }
        }
        if new_owner != who {
            let held = self.index.owned_count(new_owner);
            if held >= self.config.max_owned {
                return Err(Error::ExceedMaxOwned);
            }
        }
        let ghost pre = *self;
        if new_owner != who {
            if self.config.staked {
                let ok = self.ledger.reserve(new_owner, stake);
                proof {
                    assert(ok);
                    assert(pre.index.owns(who, kitty_id));
                    assert(pre.index.count(who) >= 1);
                    assert(pre.config.stake_for_each_kitty as int * pre.index.count(who) as int
                        >= pre.config.stake_for_each_kitty as int * 1) by (nonlinear_arith)
                        requires
                            pre.index.count(who) >= 1,
                    ;
                }
                self.ledger.unreserve(who, stake);
            }
            proof {
                assert(pre.index.owns(who, kitty_id));
                assert(!pre.index.owns(new_owner, kitty_id));
            }
            self.index.remove(who, kitty_id);
            let ghost mid = self.index;
            proof {
                assert(!self.index.owns(new_owner, kitty_id));
                assert(self.index.owned(new_owner) == pre.index.owned(new_owner));
            }
            let inserted = self.index.insert(new_owner, kitty_id);
            proof {
                assert(inserted);
                assert(self.index.owned(who) == mid.owned(who));
                assert forall|x: u64| #[trigger] self.index.owns(who, x) <==> (pre.index.owns(
                    who,
                    x,
                ) && x != kitty_id) by {
                    assert(mid.owns(who, x) <==> (pre.index.owns(who, x) && x != kitty_id));
                }
                assert(self.index.count(who) == pre.index.count(who) - 1);
                assert forall|b: u64| b != who && b != new_owner implies #[trigger] self.index.owned(
                    b,
                ) == pre.index.owned(b) by {
                    assert(self.index.owned(b) == mid.owned(b));
                    assert(mid.owned(b) == pre.index.owned(b));
                }
            }
        }
        proof {
            vstd::std_specs::vec::axiom_spec_len(&self.owners);
            vstd::std_specs::vec::axiom_spec_len(&self.prices);
        }
        self.owners[kitty_id as usize] = new_owner;
        self.prices[kitty_id as usize] = None;
        self.events.push(Event::KittyTransfer(who, new_owner, kitty_id));
        proof {
            if who == new_owner {
                assert(self.owners@ =~= pre.owners@);
                assert(self.wf());
            } else {
                lemma_move_wf(pre, *self, who, new_owner, kitty_id);
            }
        }
        Ok(())
    }
}

impl Pallet {
    /// The first reason `buyer`'s purchase of `kitty_id` at `bid` would be
    /// refused, if any: a missing creature; then the buyer already owning
    /// it; then no listing; then a bid the pricing policy rejects; then a
    /// free balance that does not cover price plus stake; then a buyer at
    /// capacity; then a currency transfer the ledger would refuse (the
    /// buyer dropping below the minimum-existence threshold, or the
    /// seller's total balance no longer fitting the balance type).
    pub open spec fn buy_outcome(self, buyer: u64, kitty_id: u64, bid: u64) -> Option<Error> {
        if kitty_id >= self.count {
            Some(Error::InvalidKittyIndex)
        } else if self.spec_owner_of(kitty_id) == buyer {
            Some(Error::BuyerIsOwner)
        } else {
            let seller = self.spec_owner_of(kitty_id);
            match self.spec_price_of(kitty_id) {
                None => Some(Error::KittyNotForSell),
                Some(ask) => if self.config.exact_price && bid != ask {
                    Some(Error::BidTooLow)
                } else if !self.config.exact_price && bid < ask {
                    Some(Error::BidTooLow)
                } else if !(self.ledger.free(buyer) as int >= ask as int
                    + self.stake_amount() as int) {
                    Some(Error::NotEnoughBalanceForBuying)
                } else if self.index.count(buyer) >= self.config.max_owned {
                    Some(Error::ExceedMaxOwned)
                } else if !(self.ledger.free(buyer) as int - self.stake_amount() as int
                    - ask as int >= self.ledger.min_balance as int && self.ledger.free(
                    seller,
                ) as int + self.ledger.reserved(seller) as int + ask as int <= u64::MAX as int) {
                    Some(Error::NotEnoughBalanceForBuying)
                } else {
                    None
                },
            }
        }
    }

    /// Buy creature `kitty_id` at `bid`: the asked price moves from the
    /// buyer to the seller, the creature moves to the buyer (with its stake
    /// reservation, when staking is on), and the listing is cleared. All
    /// checks precede all writes, so a refused purchase changes nothing.
    pub fn buy(&mut self, buyer: u64, kitty_id: u64, bid: u64) -> (r: Result<(), Error>)
        requires
            old(self).wf(),
        ensures
            final(self).wf(),
            match r {
                Ok(_) => {
                    &&& old(self).buy_outcome(buyer, kitty_id, bid) is None
                    &&& ({
                        let seller = old(self).spec_owner_of(kitty_id);
                        let ask = old(self).spec_price_of(kitty_id)->Some_0;
                        let stake_amt = old(self).stake_amount();
                        &&& final(self).config == old(self).config
                        &&& final(self).count == old(self).count
                        &&& final(self).kitties@ == old(self).kitties@
                        &&& final(self).owners@ == old(self).owners@.update(kitty_id as int, buyer)
                        &&& final(self).prices@ == old(self).prices@.update(
                            kitty_id as int,
                            None::<u64>,
                        )
                        &&& final(self).events@ == old(self).events@.push(
                            Event::KittySold(buyer, seller, kitty_id, ask),
                        )
                        &&& (forall|x: u64|
                            #[trigger] final(self).owns(seller, x) <==> (old(self).owns(seller, x)
                                && x != kitty_id))
                        &&& final(self).owned_count(seller) == old(self).owned_count(seller) - 1
                        &&& final(self).owned(buyer) == old(self).owned(buyer).push(kitty_id)
                        &&& (forall|b: u64|
                            b != seller && b != buyer ==> #[trigger] final(self).owned(b) == old(
                                self,
                            ).owned(b))
                        &&& final(self).free_of(buyer) == old(self).free_of(buyer) - ask
                            - stake_amt
                        &&& final(self).reserved_of(buyer) == old(self).reserved_of(buyer)
                            + stake_amt
                        &&& final(self).free_of(seller) == old(self).free_of(seller) + ask
                            + stake_amt
                        &&& final(self).reserved_of(seller) == old(self).reserved_of(seller)
                            - stake_amt
                        &&& (forall|b: u64|
                            b != buyer && b != seller ==> #[trigger] final(self).free_of(b) == old(
                                self,
                            ).free_of(b) && final(self).reserved_of(b) == old(self).reserved_of(b))
                        &&& final(self).ledger.min_balance == old(self).ledger.min_balance
                    })
                },
                Err(e) => *final(self) == *old(self) && old(self).buy_outcome(buyer, kitty_id, bid)
                    == Some(e),
            },
            r is Ok <==> old(self).buy_outcome(buyer, kitty_id, bid) is None,
    {
        if kitty_id >= self.count {
            return Err(Error::InvalidKittyIndex);
        }
        proof {
            vstd::std_specs::vec::axiom_spec_len(&self.owners);
            vstd::std_specs::vec::axiom_spec_len(&self.prices);
        }
        let seller = self.owners[kitty_id as usize];
        if seller == buyer {
            return Err(Error::BuyerIsOwner);
        }
        let ask = match self.prices[kitty_id as usize] {
            None => {
                return Err(Error::KittyNotForSell);
            },
            Some(p) => p,
        };
        if self.config.exact_price {
            if bid != ask {
                return Err(Error::BidTooLow);
            }
        } else {
            if bid < ask {
                return Err(Error::BidTooLow);
            }
        }
        let stake_amt = if self.config.staked {
            self.config.stake_for_each_kitty
        } else {
            0
        };
        let buyer_free = self.ledger.free_balance(buyer);
        let total = match ask.checked_add(stake_amt) {
            None => {
                return Err(Error::NotEnoughBalanceForBuying);
            },
            Some(t) => t,
        };
        if buyer_free < total {
            return Err(Error::NotEnoughBalanceForBuying);
        }
        let held = self.index.owned_count(buyer);
        if held >= self.config.max_owned {
            return Err(Error::ExceedMaxOwned);
        }
        let remainder = buyer_free - total;
        let seller_free = self.ledger.free_balance(seller);
        let seller_reserved = self.ledger.reserved_balance(seller);
        proof {
            self.ledger.lemma_balance_fits(seller);
        }
        if remainder < self.ledger.min_balance || ask > u64::MAX - seller_free - seller_reserved {
            return Err(Error::NotEnoughBalanceForBuying);
        }
        let ghost pre = *self;
        if self.config.staked {
            let ok = self.ledger.reserve(buyer, stake_amt);
            proof {
                assert(ok);
                assert(pre.index.owns(seller, kitty_id));
                assert(pre.index.count(seller) >= 1);
                assert(pre.config.stake_for_each_kitty as int * pre.index.count(seller) as int
                    >= pre.config.stake_for_each_kitty as int * 1) by (nonlinear_arith)
                    requires
                        pre.index.count(seller) >= 1,
                ;
            }
            self.ledger.unreserve(seller, stake_amt);
        }
        let transferred = self.ledger.transfer(buyer, seller, ask, true);
        proof {
            assert(transferred);
        }
        proof {
            assert(pre.index.owns(seller, kitty_id));
            assert(!pre.index.owns(buyer, kitty_id));
        }
        self.index.remove(seller, kitty_id);
        let ghost mid = self.index;
        proof {
            assert(!self.index.owns(buyer, kitty_id));
            assert(self.index.owned(buyer) == pre.index.owned(buyer));
        }
        let inserted = self.index.insert(buyer, kitty_id);
        proof {
            assert(inserted);
            assert(self.index.owned(seller) == mid.owned(seller));
            assert forall|x: u64| #[trigger] self.index.owns(seller, x) <==> (pre.index.owns(
                seller,
                x,
            ) && x != kitty_id) by {
                assert(mid.owns(seller, x) <==> (pre.index.owns(seller, x) && x != kitty_id));
            }
            assert(self.index.count(seller) == pre.index.count(seller) - 1);
            assert forall|b: u64| b != seller && b != buyer implies #[trigger] self.index.owned(b)
                == pre.index.owned(b) by {
                assert(self.index.owned(b) == mid.owned(b));
                assert(mid.owned(b) == pre.index.owned(b));
            }
        }
        proof {
            vstd::std_specs::vec::axiom_spec_len(&self.owners);
            vstd::std_specs::vec::axiom_spec_len(&self.prices);
        }
        self.owners[kitty_id as usize] = buyer;
        self.prices[kitty_id as usize] = None;
        self.events.push(Event::KittySold(buyer, seller, kitty_id, ask));
        proof {
            lemma_move_wf(pre, *self, seller, buyer, kitty_id);
        }
        Ok(())
    }
}

/// Law: a successful mint raises the total count by exactly one and places
/// the new id in the minter's owned set and in no other account's set.
pub proof fn lemma_minted_ownership(pre: Pallet, post: Pallet, owner: u64, dna: Seq<u8>, id: u64)
    requires
        pre.wf(),
        post.wf(),
        minted(pre, post, owner, dna, id),
    ensures
        post.count == pre.count + 1,
        post.owns(owner, id),
        forall|a: u64| a != owner ==> !(#[trigger] post.owns(a, id)),
{
    let m = pre.index.owned(owner).len() as int;
    assert(post.index.owned(owner)[m] == id);
    assert(post.index.owned(owner).contains(id));
    assert forall|a: u64| a != owner implies !(#[trigger] post.owns(a, id)) by {
        if post.owns(a, id) {
            assert(post.owners@[id as int] == a);
            assert(post.owners@[id as int] == owner);
        }
    }
}

/// Law: breeding a creature with itself is always refused with the
/// same-parent error; by `breed`'s contract such a call changes nothing.
pub proof fn lemma_breed_same_parent(p: Pallet, who: u64, kitty_id: u64)
    ensures
        p.breed_outcome(who, kitty_id, kitty_id) == Some(Error::SameParentIndex),
{
}

/// Law: every existing creature id lies in exactly one account's owned set:
/// its recorded owner's. Any account whose set holds the id is that owner.
pub proof fn lemma_exactly_one_owner(p: Pallet, id: u64)
    requires
        p.wf(),
        id < p.count,
    ensures
        p.owns(p.spec_owner_of(id), id),
        forall|a: u64| #[trigger] p.owns(a, id) ==> a == p.spec_owner_of(id),
{
}

/// Law: no account's owned set ever exceeds the configured capacity.
pub proof fn lemma_capacity_bound(p: Pallet, a: u64)
    requires
        p.wf(),
    ensures
        p.owned_count(a) <= p.config.max_owned,
{
    p.index.lemma_count_bound(a);
}

/// Law: a mint for an owner whose set is already at capacity is refused with
/// the capacity error; by `create`'s contract such a refusal changes
/// nothing. The mint's own check order puts the counter and, with staking
/// on, the stake first, so those two conditions are assumed here: where one
/// of them fails too, that earlier error is owed instead.
pub proof fn lemma_mint_at_capacity_refused(p: Pallet, owner: u64)
    requires
        p.wf(),
        p.owned_count(owner) >= p.config.max_owned,
        p.count < u64::MAX,
        p.config.staked ==> p.free_of(owner) >= p.config.stake_for_each_kitty,
    ensures
        p.mint_outcome(owner) == Some(Error::ExceedMaxOwned),
{
}

/// Law: a transfer to a distinct account whose set is already at capacity
/// is refused with the capacity error; by `transfer`'s contract such a
/// refusal changes nothing. The transfer's own check order puts ownership
/// and, with staking on, the destination's stake first, so those conditions
/// are assumed here: where one of them fails too, that earlier error is
/// owed instead.
pub proof fn lemma_transfer_at_capacity_refused(p: Pallet, who: u64, new_owner: u64, kitty_id: u64)
    requires
        p.wf(),
        kitty_id < p.count,
        p.spec_owner_of(kitty_id) == who,
        new_owner != who,
        p.owned_count(new_owner) >= p.config.max_owned,
        p.config.staked ==> p.free_of(new_owner) >= p.config.stake_for_each_kitty,
    ensures
        p.transfer_outcome(who, new_owner, kitty_id) == Some(Error::ExceedMaxOwned),
{
}

/// Law (staking): at any time, each account has exactly the per-creature
/// stake reserved for each creature it holds.
pub proof fn lemma_stake_accounting(p: Pallet, a: u64)
    requires
        p.wf(),
        p.config.staked,
    ensures
        p.reserved_of(a) as int == p.config.stake_for_each_kitty as int * p.owned_count(a) as int,
{
}

/// Moving one id between two distinct owners' sets (with the stake moved
/// alongside when staking is on) re-establishes the store invariant.
proof fn lemma_move_wf(pre: Pallet, post: Pallet, from: u64, to: u64, id: u64)
    requires
        pre.wf(),
        id < pre.count,
        pre.owners@[id as int] == from,
        from != to,
        post.config == pre.config,
        post.count == pre.count,
        post.kitties@ == pre.kitties@,
        post.owners@ == pre.owners@.update(id as int, to),
        post.prices@.len() == pre.prices@.len(),
        post.index.wf(),
        post.index.max_owned == pre.index.max_owned,
        forall|x: u64| #[trigger] post.index.owns(from, x) <==> (pre.index.owns(from, x) && x
            != id),
        post.index.count(from) == pre.index.count(from) - 1,
        post.index.owned(to) == pre.index.owned(to).push(id),
        forall|b: u64| b != from && b != to ==> #[trigger] post.index.owned(b) == pre.index.owned(
            b,
        ),
        post.ledger.wf(),
        pre.config.staked ==> {
            &&& post.ledger.reserved(to) == pre.ledger.reserved(to)
                + pre.config.stake_for_each_kitty
            &&& post.ledger.reserved(from) == pre.ledger.reserved(from)
                - pre.config.stake_for_each_kitty
            &&& (forall|b: u64|
                b != from && b != to ==> #[trigger] post.ledger.reserved(b) == pre.ledger.reserved(
                    b,
                ))
        },
    ensures
        post.wf(),
{
    let n = pre.count;
    assert forall|id2: u64| id2 < post.count implies #[trigger] post.index.owns(
        post.owners@[id2 as int],
        id2,
    ) by {
        if id2 == id {
            assert(post.owners@[id2 as int] == to);
            let m = pre.index.owned(to).len() as int;
            assert(post.index.owned(to)[m] == id);
            assert(post.index.owned(to).contains(id));
        } else {
            let o = pre.owners@[id2 as int];
            assert(pre.index.owns(o, id2));
            assert(post.owners@[id2 as int] == o);
            if o == from {
                assert(post.index.owns(from, id2));
            } else if o == to {
                let w = choose|w: int|
                    0 <= w < pre.index.owned(to).len() && pre.index.owned(to)[w] == id2;
                assert(post.index.owned(to)[w] == id2);
                assert(post.index.owned(to).contains(id2));
            } else {
                assert(post.index.owned(o) == pre.index.owned(o));
                let w = choose|w: int|
                    0 <= w < pre.index.owned(o).len() && pre.index.owned(o)[w] == id2;
                assert(post.index.owned(o)[w] == id2);
                assert(post.index.owned(o).contains(id2));
            }
        }
    }
    assert forall|a: u64, id2: u64| #[trigger] post.index.owns(a, id2) implies id2 < post.count
        && post.owners@[id2 as int] == a by {
        if a == from {
            assert(pre.index.owns(from, id2) && id2 != id);
            assert(id2 < n && pre.owners@[id2 as int] == a);
            assert(post.owners@[id2 as int] == a);
        } else if a == to {
            let w = choose|w: int|
                0 <= w < post.index.owned(to).len() && post.index.owned(to)[w] == id2;
            if w < pre.index.owned(to).len() {
                assert(pre.index.owned(to)[w] == id2);
                assert(pre.index.owns(to, id2));
                assert(id2 < n && pre.owners@[id2 as int] == to);
                assert(id2 != id);
                assert(post.owners@[id2 as int] == to);
            } else {
                assert(id2 == id);
                assert(post.owners@[id as int] == to);
            }
        } else {
            assert(post.index.owned(a) == pre.index.owned(a));
            assert(pre.index.owns(a, id2));
            assert(id2 < n && pre.owners@[id2 as int] == a);
            assert(id2 != id) by {
                if id2 == id {
                    assert(pre.owners@[id as int] == from);
                }
            }
            assert(post.owners@[id2 as int] == a);
        }
    }
    if post.config.staked {
        let stake = pre.config.stake_for_each_kitty as int;
        assert forall|a: u64| (#[trigger] post.ledger.reserved(a)) as int == stake
            * post.index.count(a) as int by {
            if a == from {
                let c = pre.index.count(from) as int;
                assert(pre.ledger.reserved(from) as int == stake * c);
                assert(post.index.count(from) as int == c - 1);
                assert(stake * (c - 1) == stake * c - stake) by (nonlinear_arith);
            } else if a == to {
                let c = pre.index.count(to) as int;
                assert(pre.ledger.reserved(to) as int == stake * c);
                assert(post.index.count(to) as int == c + 1);
                assert(stake * (c + 1) == stake * c + stake) by (nonlinear_arith);
            } else {
                assert(post.index.owned(a) == pre.index.owned(a));
                assert(pre.ledger.reserved(a) as int == stake * pre.index.count(a) as int);
            }
        }
    }
}

} // verus!
