//! Staking: locking a participant's whole token balance for the rest of the
//! current round.
//!
//! Staking is the hand-off point for grants submitted mid-round: the queued
//! grantor list is promoted to the active one, and the deposit under
//! management becomes the participant's own balance plus every promoted
//! grant.

use crate::errors::CustomErrors;
use crate::state::Platform;
use crate::state::Receipt;
use crate::state::ReceiptView;
use crate::state::lemma_sum_nonneg;
use crate::state::lemma_sum_take_le;
use crate::state::lemma_sum_take_succ;
use crate::state::sum_amounts;
use vstd::prelude::*;

verus! {

/// The receipt after a successful stake of `balance` at `now`, in a round
/// closing at `round_end`.
pub open spec fn staked(r: ReceiptView, balance: u64, round_end: int, now: u64) -> ReceiptView {
    ReceiptView {
        is_valid: true,
        stake_ts: now,
        stake_duration: (round_end - now) as u64,
        amount_deposited: (balance + sum_amounts(r.next_round_grantors)) as u64,
        grantors: r.next_round_grantors,
        next_round_grantors: Seq::empty(),
        ..r
    }
}

/// What staking decides: the new receipt, or the error that leaves it
/// untouched.
pub open spec fn stake_spec(
    r: ReceiptView,
    p: Platform,
    balance: u64,
    now: u64,
    caller: u64,
) -> Result<ReceiptView, CustomErrors> {
    if r.authority != caller {
        Err(CustomErrors::InvalidReceiptAuthority)
    } else if r.is_valid {
        Err(CustomErrors::InvalidReceipt)
    } else if now >= p.round_end() {
        Err(CustomErrors::NoActiveRound)
    } else {
        Ok(staked(r, balance, p.round_end(), now))
    }
}

/// Stake the caller's whole balance of `user_balance` token units at `now`.
///
/// On success the queued grantor list replaces the active one, the receipt
/// turns valid with the window `[now, round end)` recorded, and the deposit
/// under management is the balance plus every promoted grant. The returned
/// amount — the caller's balance — is what the caller moves into the pooled
/// vault.
pub fn stake(
    receipt: &mut Receipt,
    platform: &Platform,
    user_balance: u64,
    now: u64,
    caller: u64,
) -> (r: Result<u64, CustomErrors>)
    requires
        old(receipt)@.wf(),
        platform.wf(),
        platform.round_start + platform.round_duration <= u64::MAX,
        user_balance + sum_amounts(old(receipt)@.next_round_grantors) <= u64::MAX,
    ensures
        final(receipt)@.wf(),
        match r {
            Ok(moved) => {
                &&& moved == user_balance
                &&& Ok::<ReceiptView, CustomErrors>(final(receipt)@) == stake_spec(
                    old(receipt)@,
                    *platform,
                    user_balance,
                    now,
                    caller,
                )
            },
            Err(e) => {
                &&& final(receipt)@ == old(receipt)@
                &&& Err::<ReceiptView, CustomErrors>(e) == stake_spec(
                    old(receipt)@,
                    *platform,
                    user_balance,
                    now,
                    caller,
                )
            },
        },
{
    if receipt.authority != caller {
        return Err(CustomErrors::InvalidReceiptAuthority);
    }
    if receipt.is_valid {
        return Err(CustomErrors::InvalidReceipt);
    }
    if now >= platform.round_start + platform.round_duration {
        return Err(CustomErrors::NoActiveRound);
    }
    let ghost gs = receipt.next_round_grantors@;
    let n = receipt.next_round_grantors.len();
    let mut granted: u64 = 0;
    let mut i: usize = 0;
    proof {
        lemma_sum_nonneg(gs);
        assert(gs.take(0) =~= Seq::empty());
    }
    while i < n
        invariant
            *receipt == *old(receipt),
            n == gs.len(),
            gs == receipt.next_round_grantors@,
            0 <= i <= n,
            granted == sum_amounts(gs.take(i as int)),
            user_balance + sum_amounts(gs) <= u64::MAX,
        decreases n - i,
    {
        proof {
            lemma_sum_take_succ(gs, i as int);
            lemma_sum_take_le(gs, i as int + 1);
            lemma_sum_nonneg(gs.take(i as int));
        }
        granted = granted + receipt.next_round_grantors[i].amount;
        i = i + 1;
    }
    proof {
        assert(gs.take(n as int) =~= gs);
    }
    let mut promoted: Vec<crate::state::GrantorRecord> = Vec::new();
    core::mem::swap(&mut promoted, &mut receipt.next_round_grantors);
    receipt.grantors = promoted;
    receipt.is_valid = true;
    receipt.stake_ts = now;
    receipt.stake_duration = platform.round_start + platform.round_duration - now;
    receipt.amount_deposited = user_balance + granted;

    proof {
        assert(receipt@ =~= staked(old(receipt)@, user_balance, platform.round_end(), now));
        lemma_sum_nonneg(receipt@.grantors);
    }
    Ok(user_balance)
}

/// Staking establishes the deposit bookkeeping: afterwards the deposit under
/// management is exactly the staker's own balance plus the sum of the active
/// grants, so the staker's own principal is the balance that was locked.
pub proof fn lemma_stake_establishes_principal(
    r: ReceiptView,
    p: Platform,
    balance: u64,
    now: u64,
    caller: u64,
)
    requires
        balance + sum_amounts(r.next_round_grantors) <= u64::MAX,
        stake_spec(r, p, balance, now, caller) is Ok,
    ensures
        stake_spec(r, p, balance, now, caller)->Ok_0.amount_deposited == balance + sum_amounts(
            stake_spec(r, p, balance, now, caller)->Ok_0.grantors,
        ),
        stake_spec(r, p, balance, now, caller)->Ok_0.own_principal() == balance,
{
    lemma_sum_nonneg(r.next_round_grantors);
}

} // verus!
