//! The pricing edge of the platform: buying the stakeable token for native
//! currency, selling both tokens back, and the vault-withdrawal rule.
//!
//! These operations are thin wrappers over the external ledger; only their
//! arithmetic lives here. The caller performs the native transfers, mints and
//! burns with the amounts these functions return.

use crate::errors::CustomErrors;
use crate::state::Platform;
use crate::state::User;
use vstd::prelude::*;

verus! {

/// Lamports in one unit of the native currency.
pub const LAMPORTS_PER_SOL: u64 = 1_000_000_000;

/// Stakeable-token units bought per lamport, before decimal scaling.
pub const BUY_RATE: u64 = 109;

/// Ratio of the stakeable token's decimal scale to the native one's.
pub const FCTR_LAMPORT_SCALE: u64 = 1_000;

/// Lamports paid out per stakeable-token unit are scaled down by this.
pub const SELL_FCTR_DIVISOR: u64 = 101;

/// Reward-token units per lamport at sale, decimal scaling included.
pub const SELL_BCDEV_DIVISOR: u64 = 11_000_000_000;

/// Smallest purchase accepted, in stakeable-token units.
pub const MIN_BUY_AMOUNT: u64 = 10;

/// Cooldown of the final withdrawal, in round durations.
pub const WITHDRAW_ROUNDS: u64 = 3;

/// Stakeable-token units bought with `lamports`.
pub open spec fn buy_fctr_count(lamports: u64) -> int {
    BUY_RATE * lamports * FCTR_LAMPORT_SCALE
}

/// Lamports paid out when a stakeable-token balance of `vault` is sold whole.
pub open spec fn sell_fctr_lamports(vault: u64) -> int {
    vault * LAMPORTS_PER_SOL / (SELL_FCTR_DIVISOR as int)
}

/// Lamports paid out on a reward-token sale from a balance of `vault`.
pub open spec fn sell_bcdev_lamports(vault: u64) -> int {
    vault as int / (SELL_BCDEV_DIVISOR as int)
}

/// The native vault may be emptied either once every token is back in the
/// platform's hands (all stakeable tokens returned, no reward tokens issued),
/// or once the campaign is final and the withdrawal cooldown has elapsed.
pub open spec fn withdraw_allowed(p: Platform, fctr_token_vault_amount: u64, now: u64) -> bool {
    ||| (p.fctr_token_total_amount == fctr_token_vault_amount && p.bcdev_token_total_amount == 0)
    ||| (p.is_final && now > p.round_start + WITHDRAW_ROUNDS * p.round_duration)
}

/// Buy stakeable tokens with `lamports`. On success the participant's balance
/// and the platform's supply counter grow by the bought amount, which the
/// caller mints; purchases under `MIN_BUY_AMOUNT` are rejected whole.
pub fn buy_tokens(user: &mut User, platform: &mut Platform, lamports: u64) -> (r: Result<
    u64,
    CustomErrors,
>)
    requires
        buy_fctr_count(lamports) <= u64::MAX,
        old(user).total_fctr_amount + buy_fctr_count(lamports) <= u64::MAX,
        old(platform).fctr_token_total_amount + buy_fctr_count(lamports) <= u64::MAX,
    ensures
        r is Ok <==> buy_fctr_count(lamports) >= MIN_BUY_AMOUNT,
        match r {
            Ok(count) => {
                &&& count == buy_fctr_count(lamports)
                &&& *final(user) == (User {
                    total_fctr_amount: (old(user).total_fctr_amount + count) as u64,
                    ..*old(user)
                })
                &&& *final(platform) == (Platform {
                    fctr_token_total_amount: (old(platform).fctr_token_total_amount
                        + count) as u64,
                    ..*old(platform)
                })
            },
            Err(e) => {
                &&& e == CustomErrors::InvalidBuyAmount
                &&& *final(user) == *old(user)
                &&& *final(platform) == *old(platform)
            },
        },
{
    proof {
        assert(BUY_RATE * lamports <= BUY_RATE * lamports * FCTR_LAMPORT_SCALE)
            by (nonlinear_arith);
    }
    let fctr_count = BUY_RATE * lamports * FCTR_LAMPORT_SCALE;
    if fctr_count < MIN_BUY_AMOUNT {
        return Err(CustomErrors::InvalidBuyAmount);
    }
    user.total_fctr_amount = user.total_fctr_amount + fctr_count;
    platform.fctr_token_total_amount = platform.fctr_token_total_amount + fctr_count;
    Ok(fctr_count)
}

/// Sell a participant's whole stakeable-token balance back for lamports. The
/// platform's supply counter drops by the sold balance, which the caller
/// burns; the returned lamports are paid out of the native vault.
pub fn sell_fctr_tokens(platform: &mut Platform, fctr_vault_amount: u64) -> (lamports: u64)
    requires
        fctr_vault_amount <= old(platform).fctr_token_total_amount,
        sell_fctr_lamports(fctr_vault_amount) <= u64::MAX,
    ensures
        lamports == sell_fctr_lamports(fctr_vault_amount),
        *final(platform) == (Platform {
            fctr_token_total_amount: (old(platform).fctr_token_total_amount
                - fctr_vault_amount) as u64,
            ..*old(platform)
        }),
{
    let wide: u128 = fctr_vault_amount as u128 * LAMPORTS_PER_SOL as u128;
    let lamports: u64 = (wide / SELL_FCTR_DIVISOR as u128) as u64;
    platform.fctr_token_total_amount = platform.fctr_token_total_amount - fctr_vault_amount;
    lamports
}

/// Sell `amount` reward tokens. The payout is priced off the seller's whole
/// reward balance; the platform's supply counter drops by `amount`, which the
/// caller burns.
pub fn sell_bcdev_tokens(
    platform: &mut Platform,
    bcdev_vault_amount: u64,
    amount: u64,
) -> (lamports: u64)
    requires
        amount <= old(platform).bcdev_token_total_amount,
    ensures
        lamports == sell_bcdev_lamports(bcdev_vault_amount),
        *final(platform) == (Platform {
            bcdev_token_total_amount: (old(platform).bcdev_token_total_amount - amount) as u64,
            ..*old(platform)
        }),
{
    let lamports = bcdev_vault_amount / SELL_BCDEV_DIVISOR;
    platform.bcdev_token_total_amount = platform.bcdev_token_total_amount - amount;
    lamports
}

/// Whether the native vault may be emptied now.
pub fn check_withdraw_conditions(
    platform: &Platform,
    fctr_token_vault_amount: u64,
    now: u64,
) -> (b: bool)
    ensures
        b == withdraw_allowed(*platform, fctr_token_vault_amount, now),
{
    if platform.fctr_token_total_amount == fctr_token_vault_amount
        && platform.bcdev_token_total_amount == 0 {
        return true;
    }
    proof {
        assert((WITHDRAW_ROUNDS as u128) * (platform.round_duration as u128) <= (WITHDRAW_ROUNDS
            as u128) * (u64::MAX as u128)) by (nonlinear_arith)
            requires
                platform.round_duration <= u64::MAX,
        ;
    }
    platform.is_final && (now as u128) > (platform.round_start as u128) + (WITHDRAW_ROUNDS as u128)
        * (platform.round_duration as u128)
}

/// Guard the native-vault withdrawal: succeeds exactly when the withdrawal
/// conditions hold; the caller then moves the vault's free balance.
pub fn withdraw(platform: &Platform, fctr_token_vault_amount: u64, now: u64) -> (r: Result<
    (),
    CustomErrors,
>)
    ensures
        r is Ok <==> withdraw_allowed(*platform, fctr_token_vault_amount, now),
        r is Err ==> r->Err_0 == CustomErrors::WithdrawConditions,
{
    if check_withdraw_conditions(platform, fctr_token_vault_amount, now) {
        Ok(())
    } else {
        Err(CustomErrors::WithdrawConditions)
    }
}

} // verus!
