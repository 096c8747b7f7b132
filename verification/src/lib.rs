//! A token-economy staking engine: participants lock a fungible balance for a
//! fixed round, may recruit grantors to co-back their stake, and receive a
//! reward token proportional to stake duration and backing at round close.
//!
//! The crate holds the verified core: the round lifecycle, grantor
//! bookkeeping, the reward-rate computation, and the settlement that splits a
//! newly minted reward across a staker and up to four grantors. All value
//! movement (transfers, mints, burns against the shared ledger) is left to the
//! caller: each operation here validates its preconditions, mutates the plain
//! state records, and reports the amounts to move.

pub mod arith;
pub mod errors;
pub mod grant;
pub mod market;
pub mod round;
pub mod settle;
pub mod sort;
pub mod stake;
pub mod state;
