use token_stacking::errors::CustomErrors;
use token_stacking::grant::claim_tokens;
use token_stacking::grant::grant_tokens;
use token_stacking::stake::stake;
use token_stacking::state::GrantorHistoryRecord;
use token_stacking::state::Platform;
use token_stacking::state::Receipt;
use token_stacking::state::User;

/// A staked target (identity 1, balance 1000) inside the round [0, 100).
fn staked_target() -> (Platform, User, Receipt) {
    let p = Platform::new(99, 100);
    let target_user = User {
        grant_program: true,
        total_fctr_amount: 1000,
        authority: 1,
    };
    let mut target_receipt = Receipt::new(1);
    assert_eq!(stake(&mut target_receipt, &p, 1000, 0, 1), Ok(1000));
    (p, target_user, target_receipt)
}

fn backer(authority: u64, total: u64) -> (User, Receipt) {
    let user = User {
        grant_program: true,
        total_fctr_amount: total,
        authority,
    };
    let receipt = Receipt::new(authority);
    (user, receipt)
}

fn deposited_invariant(receipt: &Receipt, principal: u64) {
    let granted: u64 = receipt.grantors.iter().map(|g| g.amount).sum();
    assert_eq!(receipt.amount_deposited, principal + granted);
}

#[test]
fn grant_joins_the_active_list_of_a_staked_target() {
    let (p, tu, mut tr) = staked_target();
    let (bu, br) = backer(2, 5000);
    let moved = grant_tokens(&bu, &tu, &br, &mut tr, &p, 5000, 500, 50, 2);
    assert_eq!(moved, Ok(500));
    assert_eq!(tr.grantors.len(), 1);
    assert_eq!(tr.grantors[0].grantor, 2);
    assert_eq!(tr.grantors[0].amount, 500);
    // what is left of the target's stake window at the time of the grant
    assert_eq!(tr.grantors[0].grant_duration, 50);
    assert!(tr.next_round_grantors.is_empty());
    // the deposit under management grows with the grant
    assert_eq!(tr.amount_deposited, 1500);
    deposited_invariant(&tr, 1000);
    // rate rescaled by the backer's contribution: 100 * 5000 / 4500, rounded
    assert_eq!(tr.apr, 111);
    // cooldown entry recorded
    assert_eq!(tr.grantors_history.len(), 1);
    assert_eq!(tr.grantors_history[0].grantor, 2);
    assert_eq!(tr.grantors_history[0].grant_ts, 50);
}

#[test]
fn grant_to_an_unstaked_target_queues_for_the_next_round() {
    let p = Platform::new(99, 100);
    let tu = User {
        grant_program: true,
        total_fctr_amount: 1000,
        authority: 1,
    };
    let mut tr = Receipt::new(1);
    let (bu, br) = backer(2, 5000);
    assert_eq!(grant_tokens(&bu, &tu, &br, &mut tr, &p, 5000, 500, 10, 2), Ok(500));
    assert!(tr.grantors.is_empty());
    assert_eq!(tr.next_round_grantors.len(), 1);
    // a queued grant backs a full round
    assert_eq!(tr.next_round_grantors[0].grant_duration, 100);
    // the deposit changes only when the grant becomes active
    assert_eq!(tr.amount_deposited, 0);
}

#[test]
fn grant_at_the_window_end_queues() {
    let (p, tu, mut tr) = staked_target();
    let (bu, br) = backer(2, 5000);
    // the stake window is [0, 100): at 100 the grant can only back the next
    // round, for its full length
    assert_eq!(grant_tokens(&bu, &tu, &br, &mut tr, &p, 5000, 500, 100, 2), Ok(500));
    assert!(tr.grantors.is_empty());
    assert_eq!(tr.next_round_grantors.len(), 1);
    assert_eq!(tr.next_round_grantors[0].grant_duration, 100);
    assert_eq!(tr.amount_deposited, 1000);
}

#[test]
fn grant_requires_both_opt_ins() {
    let (p, tu, mut tr) = staked_target();
    let (mut bu, br) = backer(2, 5000);
    bu.grant_program = false;
    assert_eq!(
        grant_tokens(&bu, &tu, &br, &mut tr, &p, 5000, 500, 50, 2),
        Err(CustomErrors::GrantProgramError)
    );
    let (bu2, br2) = backer(3, 5000);
    let mut tu2 = tu;
    tu2.grant_program = false;
    assert_eq!(
        grant_tokens(&bu2, &tu2, &br2, &mut tr, &p, 5000, 500, 50, 3),
        Err(CustomErrors::GrantProgramError)
    );
}

#[test]
fn grant_requires_matching_authorities() {
    let (p, tu, mut tr) = staked_target();
    let (bu, br) = backer(2, 5000);
    // the caller does not own the backer receipt
    assert_eq!(
        grant_tokens(&bu, &tu, &br, &mut tr, &p, 5000, 500, 50, 9),
        Err(CustomErrors::InvalidReceiptAuthority)
    );
}

#[test]
fn grant_rejects_balance_ratio_inside_the_band() {
    let (p, tu, mut tr) = staked_target();
    // backer:target of exactly 0.5 — the lower boundary is rejected
    let (bu_half, br_half) = backer(2, 500);
    assert_eq!(
        grant_tokens(&bu_half, &tu, &br_half, &mut tr, &p, 5000, 100, 50, 2),
        Err(CustomErrors::TokenGrantError)
    );
    // backer:target of exactly 2.0 — the upper boundary is rejected
    let (bu_double, br_double) = backer(3, 2000);
    assert_eq!(
        grant_tokens(&bu_double, &tu, &br_double, &mut tr, &p, 5000, 100, 50, 3),
        Err(CustomErrors::TokenGrantError)
    );
    // similarly sized holders inside the band are rejected
    let (bu_eq, br_eq) = backer(4, 1000);
    assert_eq!(
        grant_tokens(&bu_eq, &tu, &br_eq, &mut tr, &p, 5000, 100, 50, 4),
        Err(CustomErrors::TokenGrantError)
    );
    // far enough below the band the grant passes
    let (bu_small, br_small) = backer(5, 400);
    assert_eq!(grant_tokens(&bu_small, &tu, &br_small, &mut tr, &p, 5000, 100, 50, 5), Ok(100));
}

#[test]
fn grant_rejects_a_duplicate_backer() {
    let (p, tu, mut tr) = staked_target();
    let (bu, br) = backer(2, 5000);
    assert_eq!(grant_tokens(&bu, &tu, &br, &mut tr, &p, 5000, 500, 50, 2), Ok(500));
    assert_eq!(
        grant_tokens(&bu, &tu, &br, &mut tr, &p, 4500, 200, 60, 2),
        Err(CustomErrors::TokenGrantError)
    );
}

#[test]
fn fifth_grant_hits_the_capacity_limit() {
    let (p, tu, mut tr) = staked_target();
    for authority in 2u64..6 {
        let (bu, br) = backer(authority, 5000);
        assert_eq!(grant_tokens(&bu, &tu, &br, &mut tr, &p, 5000, 100, 50, authority), Ok(100));
    }
    assert_eq!(tr.grantors.len(), 4);
    // a fifth backer is refused whatever its amount or balance ratio
    let (bu5, br5) = backer(6, 5000);
    assert_eq!(
        grant_tokens(&bu5, &tu, &br5, &mut tr, &p, 5000, 9999, 50, 6),
        Err(CustomErrors::TokenGrantError)
    );
    deposited_invariant(&tr, 1000);
}

#[test]
fn regrant_during_cooldown_fails() {
    let (p, tu, mut tr) = staked_target();
    let (bu, br) = backer(2, 5000);
    assert_eq!(grant_tokens(&bu, &tu, &br, &mut tr, &p, 5000, 500, 50, 2), Ok(500));
    // reclaim the grant: the list entry goes, the cooldown entry stays
    assert_eq!(claim_tokens(&bu, &br, &mut tr, 2, 1), Ok(500));
    assert_eq!(
        grant_tokens(&bu, &tu, &br, &mut tr, &p, 5000, 500, 60, 2),
        Err(CustomErrors::GrantCooldown)
    );
}

#[test]
fn grant_rejects_a_full_cooldown_ledger() {
    let (p, tu, mut tr) = staked_target();
    for g in 0..100u64 {
        tr.grantors_history.push(GrantorHistoryRecord { grant_ts: 1, grantor: 1000 + g });
    }
    let (bu, br) = backer(2, 5000);
    assert_eq!(
        grant_tokens(&bu, &tu, &br, &mut tr, &p, 5000, 500, 50, 2),
        Err(CustomErrors::GrantorsCountLimit)
    );
}

#[test]
fn grant_of_nothing_is_rejected() {
    let (p, tu, mut tr) = staked_target();
    let (bu, br) = backer(2, 5000);
    assert_eq!(
        grant_tokens(&bu, &tu, &br, &mut tr, &p, 5000, 0, 50, 2),
        Err(CustomErrors::InsufficientAmount)
    );
}

#[test]
fn claim_returns_the_grant_and_shrinks_the_deposit() {
    let (p, tu, mut tr) = staked_target();
    let (bu, br) = backer(2, 5000);
    assert_eq!(grant_tokens(&bu, &tu, &br, &mut tr, &p, 5000, 500, 50, 2), Ok(500));
    let apr_after_grant = tr.apr;
    assert_eq!(claim_tokens(&bu, &br, &mut tr, 2, 1), Ok(500));
    assert!(tr.grantors.is_empty());
    assert_eq!(tr.amount_deposited, 1000);
    deposited_invariant(&tr, 1000);
    // the rate adjustment the grant made is not reversed by the reclaim
    assert_eq!(tr.apr, apr_after_grant);
    // the cooldown entry stays behind
    assert_eq!(tr.grantors_history.len(), 1);
}

#[test]
fn claim_without_a_grant_fails() {
    let (_p, _tu, mut tr) = staked_target();
    let (bu, br) = backer(2, 5000);
    assert_eq!(claim_tokens(&bu, &br, &mut tr, 2, 1), Err(CustomErrors::GrantorNotFound));
}

#[test]
fn claim_with_wrong_authority_fails() {
    let (p, tu, mut tr) = staked_target();
    let (bu, br) = backer(2, 5000);
    assert_eq!(grant_tokens(&bu, &tu, &br, &mut tr, &p, 5000, 500, 50, 2), Ok(500));
    assert_eq!(claim_tokens(&bu, &br, &mut tr, 9, 1), Err(CustomErrors::InvalidReceiptAuthority));
    assert_eq!(claim_tokens(&bu, &br, &mut tr, 2, 9), Err(CustomErrors::InvalidReceiptAuthority));
}
