//! The grant engine: third-party backing of a stake, and the reclaim of a
//! grant that settlement has not yet consumed.
//!
//! A grant lands on the target's active grantor list exactly while the target
//! is staked and its stake window has not ended; anything else queues for the
//! target's next stake. The engine enforces the program opt-in, the
//! authority bindings, the capacity, duplicate and balance-ratio rules, the
//! cooldown ledger, and a minimum grant of one token unit — in that order,
//! and it validates everything before mutating anything.

use crate::arith::rounded_div;
use crate::arith::rounded_div_u128;
use crate::errors::CustomErrors;
use crate::state::GrantorHistoryRecord;
use crate::state::GrantorRecord;
use crate::state::MAX_ACTIVE_GRANTORS;
use crate::state::MAX_GRANTORS_HISTORY;
use crate::state::Platform;
use crate::state::Receipt;
use crate::state::ReceiptView;
use crate::state::User;
use crate::state::contains_grantor;
use crate::state::distinct_grantors;
use crate::state::find_grantor;
use crate::state::grantor_index;
use crate::state::has_grantor;
use crate::state::has_history_entry;
use crate::state::history_contains;
use crate::state::lemma_grantor_index_unique;
use crate::state::lemma_sum_nonneg;
use crate::state::lemma_sum_push;
use crate::state::lemma_sum_remove;
use crate::state::sum_amounts;
use vstd::prelude::*;

verus! {

/// Whether a grant recorded at `now` joins the target's active list (rather
/// than queueing for the target's next stake).
pub open spec fn grant_joins_active(target: ReceiptView, now: u64) -> bool {
    target.is_valid && now < target.stake_ts + target.stake_duration
}

/// The grantor list a grant recorded at `now` would join.
pub open spec fn grant_target_list(target: ReceiptView, now: u64) -> Seq<GrantorRecord> {
    if grant_joins_active(target, now) {
        target.grantors
    } else {
        target.next_round_grantors
    }
}

/// The blocked balance-ratio band: the backer's and the target's total
/// balances lie within a factor of two of each other, both boundaries
/// included. Grants between similarly sized holders are refused.
pub open spec fn ratio_blocked(backer_total: u64, target_total: u64) -> bool {
    target_total <= 2 * backer_total && backer_total <= 2 * target_total
}

/// The target's reward rate after a grant: scaled by the backer's balance
/// against what the backer keeps, rounded to the nearest fixed-point unit.
pub open spec fn granted_apr(apr: u64, backer_vault: u64, amount: u64) -> int
    recommends
        amount < backer_vault,
{
    rounded_div(apr * backer_vault, backer_vault - amount)
}

/// The remaining time a grant recorded at `now` backs: what is left of the
/// target's stake window, or the full round length when queued.
pub open spec fn grant_duration_of(target: ReceiptView, p: Platform, now: u64) -> u64 {
    if grant_joins_active(target, now) {
        (target.stake_ts + target.stake_duration - now) as u64
    } else {
        p.round_duration
    }
}

/// The target receipt after a successful grant of `amount` by `backer`.
pub open spec fn granted(
    target: ReceiptView,
    p: Platform,
    backer: u64,
    backer_vault: u64,
    amount: u64,
    now: u64,
) -> ReceiptView {
    let rec = GrantorRecord {
        amount,
        grant_duration: grant_duration_of(target, p, now),
        grantor: backer,
    };
    let hist = GrantorHistoryRecord { grant_ts: now, grantor: backer };
    let apr = granted_apr(target.apr, backer_vault, amount) as u64;
    if grant_joins_active(target, now) {
        ReceiptView {
            grantors: target.grantors.push(rec),
            amount_deposited: (target.amount_deposited + amount) as u64,
            apr,
            grantors_history: target.grantors_history.push(hist),
            ..target
        }
    } else {
        ReceiptView {
            next_round_grantors: target.next_round_grantors.push(rec),
            apr,
            grantors_history: target.grantors_history.push(hist),
            ..target
        }
    }
}

/// What granting decides: the target's new receipt, or the error that leaves
/// it untouched. The checks run in this order, each its own failure.
pub open spec fn grant_spec(
    backer_user: User,
    target_user: User,
    backer_receipt_auth: u64,
    target: ReceiptView,
    p: Platform,
    backer_vault: u64,
    amount: u64,
    now: u64,
    caller: u64,
) -> Result<ReceiptView, CustomErrors> {
    if !(backer_user.grant_program && target_user.grant_program) {
        Err(CustomErrors::GrantProgramError)
    } else if backer_receipt_auth != caller || target.authority != target_user.authority {
        Err(CustomErrors::InvalidReceiptAuthority)
    } else if grant_target_list(target, now).len() >= MAX_ACTIVE_GRANTORS as nat
        || contains_grantor(grant_target_list(target, now), backer_user.authority)
        || ratio_blocked(backer_user.total_fctr_amount, target_user.total_fctr_amount) {
        Err(CustomErrors::TokenGrantError)
    } else if history_contains(target.grantors_history, backer_user.authority) {
        Err(CustomErrors::GrantCooldown)
    } else if target.grantors_history.len() >= MAX_GRANTORS_HISTORY as nat {
        Err(CustomErrors::GrantorsCountLimit)
    } else if amount < 1 {
        Err(CustomErrors::InsufficientAmount)
    } else {
        Ok(granted(target, p, backer_user.authority, backer_vault, amount, now))
    }
}

/// Record a grant of `amount` token units by the backer onto the target's
/// receipt.
///
/// On success the chosen grantor list gains the backer's record, the cooldown
/// ledger gains an entry stamped `now`, the target's reward rate is rescaled
/// by the backer's proportional contribution, and — for a grant joining the
/// active list — the deposit under management grows by `amount`. The caller
/// then moves the returned amount from the backer's vault into the pool.
pub fn grant_tokens(
    backer_user: &User,
    target_user: &User,
    backer_receipt: &Receipt,
    target_receipt: &mut Receipt,
    platform: &Platform,
    backer_vault_amount: u64,
    amount: u64,
    now: u64,
    caller: u64,
) -> (r: Result<u64, CustomErrors>)
    requires
        old(target_receipt)@.wf(),
        platform.wf(),
        amount < backer_vault_amount,
        old(target_receipt)@.stake_ts + old(target_receipt)@.stake_duration <= u64::MAX,
        old(target_receipt)@.amount_deposited + amount <= u64::MAX,
        granted_apr(old(target_receipt)@.apr, backer_vault_amount, amount) <= u64::MAX,
    ensures
        final(target_receipt)@.wf(),
        match r {
            Ok(moved) => {
                &&& moved == amount
                &&& Ok::<ReceiptView, CustomErrors>(final(target_receipt)@) == grant_spec(
                    *backer_user,
                    *target_user,
                    backer_receipt@.authority,
                    old(target_receipt)@,
                    *platform,
                    backer_vault_amount,
                    amount,
                    now,
                    caller,
                )
            },
            Err(e) => {
                &&& final(target_receipt)@ == old(target_receipt)@
                &&& Err::<ReceiptView, CustomErrors>(e) == grant_spec(
                    *backer_user,
                    *target_user,
                    backer_receipt@.authority,
                    old(target_receipt)@,
                    *platform,
                    backer_vault_amount,
                    amount,
                    now,
                    caller,
                )
            },
        },
{
    if !(backer_user.grant_program && target_user.grant_program) {
        return Err(CustomErrors::GrantProgramError);
    }
    if backer_receipt.authority != caller || target_receipt.authority != target_user.authority {
        return Err(CustomErrors::InvalidReceiptAuthority);
    }
    let active = target_receipt.is_valid && now < target_receipt.stake_ts
        + target_receipt.stake_duration;
    proof {
        assert(active == grant_joins_active(target_receipt@, now));
    }
    let list_full = if active {
        target_receipt.grantors.len() >= MAX_ACTIVE_GRANTORS
    } else {
        target_receipt.next_round_grantors.len() >= MAX_ACTIVE_GRANTORS
    };
    let duplicate = if active {
        has_grantor(&target_receipt.grantors, backer_user.authority)
    } else {
        has_grantor(&target_receipt.next_round_grantors, backer_user.authority)
    };
    let blocked = (target_user.total_fctr_amount as u128) <= 2 * (backer_user.total_fctr_amount
        as u128) && (backer_user.total_fctr_amount as u128) <= 2 * (target_user.total_fctr_amount
        as u128);
    if list_full || duplicate || blocked {
        return Err(CustomErrors::TokenGrantError);
    }
    if has_history_entry(&target_receipt.grantors_history, backer_user.authority) {
        return Err(CustomErrors::GrantCooldown);
    }
    if target_receipt.grantors_history.len() >= MAX_GRANTORS_HISTORY {
        return Err(CustomErrors::GrantorsCountLimit);
    }
    if amount < 1 {
        return Err(CustomErrors::InsufficientAmount);
    }

    let grant_duration = if active {
        target_receipt.stake_ts + target_receipt.stake_duration - now
    } else {
        platform.round_duration
    };
    let rec = GrantorRecord { amount, grant_duration, grantor: backer_user.authority };

    proof {
        assert((target_receipt.apr as int) * (backer_vault_amount as int) <= (u64::MAX as int) * (
        u64::MAX as int)) by (nonlinear_arith)
            requires
                target_receipt.apr <= u64::MAX,
                backer_vault_amount <= u64::MAX,
        ;
    }
    let apr_scaled = rounded_div_u128(
        (target_receipt.apr as u128) * (backer_vault_amount as u128),
        (backer_vault_amount - amount) as u128,
    );
    target_receipt.apr = apr_scaled as u64;

    let ghost old_view = old(target_receipt)@;
    let ghost chosen = grant_target_list(old_view, now);
    if active {
        target_receipt.grantors.push(rec);
        target_receipt.amount_deposited = target_receipt.amount_deposited + amount;
    } else {
        target_receipt.next_round_grantors.push(rec);
    }
    target_receipt.grantors_history.push(
        GrantorHistoryRecord { grant_ts: now, grantor: backer_user.authority },
    );

    proof {
        assert(target_receipt@ =~= granted(
            old_view,
            *platform,
            backer_user.authority,
            backer_vault_amount,
            amount,
            now,
        ));
        lemma_grant_wf(old_view, *platform, backer_user.authority, backer_vault_amount, amount, now);
    }
    Ok(amount)
}

/// A successful grant keeps the receipt well formed: the chosen list had
/// room, the backer was not on it, the amount is positive, and an active-list
/// grant grows the deposit together with the granted sum.
proof fn lemma_grant_wf(
    target: ReceiptView,
    p: Platform,
    backer: u64,
    backer_vault: u64,
    amount: u64,
    now: u64,
)
    requires
        target.wf(),
        amount >= 1,
        target.amount_deposited + amount <= u64::MAX,
        grant_target_list(target, now).len() < MAX_ACTIVE_GRANTORS as nat,
        !contains_grantor(grant_target_list(target, now), backer),
        target.grantors_history.len() < MAX_GRANTORS_HISTORY as nat,
    ensures
        granted(target, p, backer, backer_vault, amount, now).wf(),
{
    let new = granted(target, p, backer, backer_vault, amount, now);
    let rec = GrantorRecord {
        amount,
        grant_duration: grant_duration_of(target, p, now),
        grantor: backer,
    };
    let list = grant_target_list(target, now);
    let pushed = list.push(rec);
    assert forall|i: int, j: int| 0 <= i < j < pushed.len() implies (#[trigger] pushed[i]).grantor
        != (#[trigger] pushed[j]).grantor by {
        if j == list.len() {
            assert(pushed[i] == list[i]);
        }
    }
    assert(distinct_grantors(pushed));
    if grant_joins_active(target, now) {
        lemma_sum_push(target.grantors, rec);
    }
}

/// Granting never changes the staker's own principal: an active-list grant
/// grows the deposit and the granted sum by the same amount, and a queued
/// grant touches neither. Together with staking's bookkeeping, the deposit
/// under management always equals the staker's own balance plus the active
/// grants.
pub proof fn lemma_grant_preserves_principal(
    backer_user: User,
    target_user: User,
    backer_receipt_auth: u64,
    target: ReceiptView,
    p: Platform,
    backer_vault: u64,
    amount: u64,
    now: u64,
    caller: u64,
)
    requires
        target.amount_deposited + amount <= u64::MAX,
        grant_spec(
            backer_user,
            target_user,
            backer_receipt_auth,
            target,
            p,
            backer_vault,
            amount,
            now,
            caller,
        ) is Ok,
    ensures
        ({
            let new = grant_spec(
                backer_user,
                target_user,
                backer_receipt_auth,
                target,
                p,
                backer_vault,
                amount,
                now,
                caller,
            )->Ok_0;
            new.own_principal() == target.own_principal() && new.is_valid == target.is_valid
        }),
{
    let rec = GrantorRecord {
        amount,
        grant_duration: grant_duration_of(target, p, now),
        grantor: backer_user.authority,
    };
    if grant_joins_active(target, now) {
        lemma_sum_push(target.grantors, rec);
    }
}

/// A grant whose backer:target balance ratio sits exactly on the boundary of
/// the blocked band — one half or two — is rejected, like every ratio within
/// the band.
pub proof fn lemma_grant_rejects_balanced_ratio(
    backer_user: User,
    target_user: User,
    backer_receipt_auth: u64,
    target: ReceiptView,
    p: Platform,
    backer_vault: u64,
    amount: u64,
    now: u64,
    caller: u64,
)
    requires
        backer_user.grant_program && target_user.grant_program,
        backer_receipt_auth == caller,
        target.authority == target_user.authority,
        2 * backer_user.total_fctr_amount == target_user.total_fctr_amount || backer_user.total_fctr_amount
            == 2 * target_user.total_fctr_amount,
    ensures
        grant_spec(
            backer_user,
            target_user,
            backer_receipt_auth,
            target,
            p,
            backer_vault,
            amount,
            now,
            caller,
        ) == Err::<ReceiptView, CustomErrors>(CustomErrors::TokenGrantError),
{
}

/// A fifth grant against a receipt already backed by four active grantors is
/// rejected as a capacity violation, whatever the amount or the balance
/// ratio.
pub proof fn lemma_grant_rejects_full_list(
    backer_user: User,
    target_user: User,
    backer_receipt_auth: u64,
    target: ReceiptView,
    p: Platform,
    backer_vault: u64,
    amount: u64,
    now: u64,
    caller: u64,
)
    requires
        backer_user.grant_program && target_user.grant_program,
        backer_receipt_auth == caller,
        target.authority == target_user.authority,
        grant_target_list(target, now).len() >= MAX_ACTIVE_GRANTORS as nat,
    ensures
        grant_spec(
            backer_user,
            target_user,
            backer_receipt_auth,
            target,
            p,
            backer_vault,
            amount,
            now,
            caller,
        ) == Err::<ReceiptView, CustomErrors>(CustomErrors::TokenGrantError),
{
}

/// While the backer still has an entry on the target's cooldown ledger, a
/// fresh grant — otherwise admissible — fails with the cooldown error.
pub proof fn lemma_grant_rejects_on_cooldown(
    backer_user: User,
    target_user: User,
    backer_receipt_auth: u64,
    target: ReceiptView,
    p: Platform,
    backer_vault: u64,
    amount: u64,
    now: u64,
    caller: u64,
)
    requires
        backer_user.grant_program && target_user.grant_program,
        backer_receipt_auth == caller,
        target.authority == target_user.authority,
        grant_target_list(target, now).len() < MAX_ACTIVE_GRANTORS as nat,
        !contains_grantor(grant_target_list(target, now), backer_user.authority),
        !ratio_blocked(backer_user.total_fctr_amount, target_user.total_fctr_amount),
        history_contains(target.grantors_history, backer_user.authority),
    ensures
        grant_spec(
            backer_user,
            target_user,
            backer_receipt_auth,
            target,
            p,
            backer_vault,
            amount,
            now,
            caller,
        ) == Err::<ReceiptView, CustomErrors>(CustomErrors::GrantCooldown),
{
}

/// What reclaiming a grant decides: the target's new receipt and the refund,
/// or the error that leaves the receipt untouched.
pub open spec fn claim_spec(
    user: User,
    backer_receipt_auth: u64,
    target: ReceiptView,
    caller: u64,
    confidant_authority: u64,
) -> Result<(ReceiptView, u64), CustomErrors> {
    if backer_receipt_auth != caller || target.authority != confidant_authority {
        Err(CustomErrors::InvalidReceiptAuthority)
    } else if !contains_grantor(target.grantors, user.authority) {
        Err(CustomErrors::GrantorNotFound)
    } else {
        let i = grantor_index(target.grantors, user.authority);
        let g = target.grantors[i];
        Ok(
            (
                ReceiptView {
                    grantors: target.grantors.remove(i),
                    amount_deposited: (target.amount_deposited - g.amount) as u64,
                    ..target
                },
                g.amount,
            ),
        )
    }
}

/// Reclaim the backer's grant from the target's active list before settlement
/// consumes it.
///
/// On success the backer's record leaves the list and the deposit under
/// management shrinks by the reclaimed amount, which the caller returns from
/// the pooled vault to the backer. The reward-rate adjustment the grant made
/// is not reversed here — the rate keeps its granted value.
pub fn claim_tokens(
    user: &User,
    receipt: &Receipt,
    confidant_receipt: &mut Receipt,
    caller: u64,
    confidant_authority: u64,
) -> (r: Result<u64, CustomErrors>)
    requires
        old(confidant_receipt)@.wf(),
    ensures
        final(confidant_receipt)@.wf(),
        match r {
            Ok(refund) => Ok::<(ReceiptView, u64), CustomErrors>(
                (final(confidant_receipt)@, refund),
            ) == claim_spec(
                *user,
                receipt@.authority,
                old(confidant_receipt)@,
                caller,
                confidant_authority,
            ),
            Err(e) => {
                &&& final(confidant_receipt)@ == old(confidant_receipt)@
                &&& Err::<(ReceiptView, u64), CustomErrors>(e) == claim_spec(
                    *user,
                    receipt@.authority,
                    old(confidant_receipt)@,
                    caller,
                    confidant_authority,
                )
            },
        },
{
    if receipt.authority != caller || confidant_receipt.authority != confidant_authority {
        return Err(CustomErrors::InvalidReceiptAuthority);
    }
    let found = find_grantor(&confidant_receipt.grantors, user.authority);
    match found {
        None => Err(CustomErrors::GrantorNotFound),
        Some(i) => {
            let ghost old_view = old(confidant_receipt)@;
            proof {
                lemma_grantor_index_unique(old_view.grantors, user.authority, i as int);
                lemma_sum_remove(old_view.grantors, i as int);
                lemma_sum_nonneg(old_view.grantors.remove(i as int));
            }
            let g = confidant_receipt.grantors.remove(i);
            confidant_receipt.amount_deposited = confidant_receipt.amount_deposited - g.amount;
            proof {
                let new = claim_spec(
                    *user,
                    receipt@.authority,
                    old_view,
                    caller,
                    confidant_authority,
                )->Ok_0.0;
                assert(confidant_receipt@ =~= new);
                lemma_claim_wf(old_view, i as int);
            }
            Ok(g.amount)
        },
    }
}

/// Removing a grantor record keeps the receipt well formed.
proof fn lemma_claim_wf(target: ReceiptView, i: int)
    requires
        target.wf(),
        0 <= i < target.grantors.len(),
        target.is_valid,
    ensures
        (ReceiptView {
            grantors: target.grantors.remove(i),
            amount_deposited: (target.amount_deposited - target.grantors[i].amount) as u64,
            ..target
        }).wf(),
{
    let removed = target.grantors.remove(i);
    target.grantors.remove_ensures(i);
    assert forall|a: int, b: int| 0 <= a < b < removed.len() implies (#[trigger] removed[a]).grantor
        != (#[trigger] removed[b]).grantor by {
        if b < i {
        } else if a < i <= b {
            assert(removed[b] == target.grantors[b + 1]);
        } else {
            assert(removed[a] == target.grantors[a + 1]);
            assert(removed[b] == target.grantors[b + 1]);
        }
    }
    lemma_sum_remove(target.grantors, i);
    lemma_sum_nonneg(removed);
}

/// Reclaiming a grant never changes the staker's own principal: the deposit
/// and the active-grant sum shrink by the same reclaimed amount.
pub proof fn lemma_claim_preserves_principal(
    user: User,
    backer_receipt_auth: u64,
    target: ReceiptView,
    caller: u64,
    confidant_authority: u64,
)
    requires
        target.wf(),
        claim_spec(user, backer_receipt_auth, target, caller, confidant_authority) is Ok,
    ensures
        ({
            let new = claim_spec(user, backer_receipt_auth, target, caller, confidant_authority)
                ->Ok_0.0;
            new.own_principal() == target.own_principal() && new.is_valid == target.is_valid
        }),
{
    let i = grantor_index(target.grantors, user.authority);
    assert(0 <= i < target.grantors.len() && target.grantors[i].grantor == user.authority);
    lemma_sum_remove(target.grantors, i);
    lemma_sum_nonneg(target.grantors.remove(i));
}

} // verus!
