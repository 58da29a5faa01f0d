//! A verified asset-lifecycle and marketplace state machine for uniquely
//! identified digital collectibles ("kitties") with genetic inheritance.
//!
//! The store mints creatures with derived genomes, breeds two owned
//! creatures into a child by bitwise crossover, transfers ownership under a
//! per-account capacity bound (moving a currency stake alongside when
//! staking is on), and runs a simple listing/purchase marketplace over a
//! ledger of free and reserved balances. Every action is all-or-nothing:
//! it validates everything before it writes, so a refused action provably
//! changes nothing.

pub mod genome;
pub mod ledger;
pub mod owner_index;
pub mod pallet;
