use token_stacking::errors::CustomErrors;
use token_stacking::grant::grant_tokens;
use token_stacking::round::start_round;
use token_stacking::settle::unstake;
use token_stacking::stake::stake;
use token_stacking::state::Platform;
use token_stacking::state::Receipt;
use token_stacking::state::User;

fn user(authority: u64, total: u64) -> User {
    User {
        grant_program: true,
        total_fctr_amount: total,
        authority,
    }
}

/// Identity 1 stakes 1000 at t = 0 in the round [0, 100).
fn staked_target() -> (Platform, User, Receipt) {
    let p = Platform::new(99, 100);
    let tu = user(1, 1000);
    let mut tr = Receipt::new(1);
    assert_eq!(stake(&mut tr, &p, 1000, 0, 1), Ok(1000));
    (p, tu, tr)
}

#[test]
fn solo_unstake_returns_principal_and_full_reward() {
    // round_duration 100, stake of 1000 at t = 0 with the initial rate of
    // one hundredth: the reward is round(1000 * 0.01 * 100/100) = 10
    let (p, _tu, mut tr) = staked_target();
    let s = unstake(&mut tr, &p, &Vec::new(), 100, 1).unwrap();
    assert_eq!(s.staker_principal, 1000);
    assert_eq!(s.total_reward, 10);
    assert_eq!(s.staker_reward, 10);
    assert!(s.payouts.is_empty());
    assert!(!tr.is_valid);
    assert!(tr.grantors.is_empty());
}

#[test]
fn single_grantor_splits_the_reward_in_half() {
    // grantor 2 backs 500 of its 5000-token vault at t = 50, so the grant
    // runs 50 of the 100-long round; the rate becomes round(100*5000/4500)
    // = 111 and the settlement seed 111 + 10000
    let (p, tu, mut tr) = staked_target();
    let bu = user(2, 5000);
    let br = Receipt::new(2);
    assert_eq!(grant_tokens(&bu, &tu, &br, &mut tr, &p, 5000, 500, 50, 2), Ok(500));
    let s = unstake(&mut tr, &p, &vec![2u64], 100, 1).unwrap();
    // round(1500 * 1.0111 * 50/100) = round(758.325) = 758
    assert_eq!(s.total_reward, 758);
    assert_eq!(s.staker_reward, 379);
    assert_eq!(s.payouts.len(), 1);
    assert_eq!(s.payouts[0].grantor, 2);
    assert_eq!(s.payouts[0].principal, 500);
    // the single grantor's share is the whole grantors' half: 500/500 of it
    assert_eq!(s.payouts[0].reward, 379);
    assert_eq!(s.staker_reward + s.payouts[0].reward, s.total_reward);
    assert_eq!(s.staker_principal, 1000);
}

#[test]
fn grantors_settle_in_ascending_duration_order() {
    let (p, tu, mut tr) = staked_target();
    // grantor 2 at t = 20 backs for 80; grantor 3 at t = 60 backs for 40
    let bu2 = user(2, 5000);
    let br2 = Receipt::new(2);
    assert_eq!(grant_tokens(&bu2, &tu, &br2, &mut tr, &p, 5000, 500, 20, 2), Ok(500));
    assert_eq!(tr.apr, 111);
    let bu3 = user(3, 400);
    let br3 = Receipt::new(3);
    assert_eq!(grant_tokens(&bu3, &tu, &br3, &mut tr, &p, 2000, 300, 60, 3), Ok(300));
    assert_eq!(tr.apr, 131);
    assert_eq!(tr.amount_deposited, 1800);

    // supplied longest-first: settlement still processes grantor 3 (40)
    // before grantor 2 (80), decaying the rate between them
    let s = unstake(&mut tr, &p, &vec![2u64, 3], 100, 1).unwrap();
    // seed 131 + 20000; round(1800*2.0131*40/100) = 1449, then the rate
    // decays by 0.02: round(1800*1.9931*80/100) = 2870
    assert_eq!(s.total_reward, 1449 + 2870);
    assert_eq!(s.staker_reward, 2159);
    assert_eq!(s.payouts.len(), 2);
    assert_eq!(s.payouts[0].grantor, 3);
    assert_eq!(s.payouts[0].principal, 300);
    assert_eq!(s.payouts[0].reward, 810);
    assert_eq!(s.payouts[1].grantor, 2);
    assert_eq!(s.payouts[1].principal, 500);
    assert_eq!(s.payouts[1].reward, 1350);
    assert_eq!(s.staker_principal, 1000);
    // the pool of 2160 divides exactly by the granted 800, so nothing is
    // lost to the floor division and the shares add back up to the total
    assert_eq!(s.staker_reward + s.payouts[0].reward + s.payouts[1].reward, s.total_reward);
}

#[test]
fn floor_shares_lose_less_than_one_unit_per_grantor() {
    let (p, tu, mut tr) = staked_target();
    for (authority, amount) in [(4u64, 300u64), (5, 300), (6, 301)] {
        let bu = user(authority, 5000);
        let br = Receipt::new(authority);
        assert_eq!(grant_tokens(&bu, &tu, &br, &mut tr, &p, 5000, amount, 50, authority), Ok(amount));
    }
    assert_eq!(tr.apr, 120);
    assert_eq!(tr.amount_deposited, 1901);
    let s = unstake(&mut tr, &p, &vec![4u64, 5, 6], 100, 1).unwrap();
    // equal durations keep the supplied order; seed 120 + 30000, decaying
    // 0.02 per grantor: 2863 + 2844 + 2825
    assert_eq!(s.total_reward, 8532);
    assert_eq!(s.staker_reward, 4266);
    let shares: Vec<u64> = s.payouts.iter().map(|g| g.reward).collect();
    assert_eq!(shares, vec![1420, 1420, 1425]);
    // the floor division keeps one unit of the grantors' pool unminted
    let minted: u64 = s.staker_reward + shares.iter().sum::<u64>();
    assert_eq!(minted, s.total_reward - 1);
    assert_eq!(s.staker_principal, 1000);
}

#[test]
fn queued_grant_settles_after_promotion() {
    let p = Platform::new(99, 100);
    let tu = user(1, 1000);
    let mut tr = Receipt::new(1);
    // grantor 2 backs the next round while identity 1 is not staked yet
    let bu = user(2, 5000);
    let br = Receipt::new(2);
    assert_eq!(grant_tokens(&bu, &tu, &br, &mut tr, &p, 5000, 500, 10, 2), Ok(500));
    assert_eq!(tr.apr, 111);
    // staking promotes the queued grant for the rest of the round
    assert_eq!(stake(&mut tr, &p, 1000, 20, 1), Ok(1000));
    assert_eq!(tr.amount_deposited, 1500);
    assert_eq!(tr.grantors.len(), 1);
    assert_eq!(tr.grantors[0].grant_duration, 100);

    let mut p2 = p;
    assert_eq!(start_round(&mut p2, 100, false), Ok(()));
    let s = unstake(&mut tr, &p2, &vec![2u64], 100, 1).unwrap();
    // round(1500 * 1.0111 * 100/100) = round(1516.65) = 1517
    assert_eq!(s.total_reward, 1517);
    assert_eq!(s.staker_reward, 758);
    assert_eq!(s.payouts[0].reward, 759);
    assert_eq!(s.payouts[0].principal, 500);
    assert_eq!(s.staker_principal, 1000);
}

#[test]
fn unstake_needs_the_exact_grantor_set() {
    let (p, tu, mut tr) = staked_target();
    let bu2 = user(2, 5000);
    let br2 = Receipt::new(2);
    assert_eq!(grant_tokens(&bu2, &tu, &br2, &mut tr, &p, 5000, 500, 20, 2), Ok(500));
    let bu3 = user(3, 5000);
    let br3 = Receipt::new(3);
    assert_eq!(grant_tokens(&bu3, &tu, &br3, &mut tr, &p, 5000, 300, 30, 3), Ok(300));

    // too few
    assert_eq!(unstake(&mut tr, &p, &vec![2u64], 100, 1), Err(CustomErrors::InvalidGrantorsList));
    // an identity that never granted
    assert_eq!(
        unstake(&mut tr, &p, &vec![2u64, 9], 100, 1),
        Err(CustomErrors::InvalidGrantorsList)
    );
    // the same grantor twice
    assert_eq!(
        unstake(&mut tr, &p, &vec![2u64, 2], 100, 1),
        Err(CustomErrors::InvalidGrantorsList)
    );
    // the receipt is untouched by the failures
    assert!(tr.is_valid);
    assert_eq!(tr.grantors.len(), 2);
    // and the exact set settles
    assert!(unstake(&mut tr, &p, &vec![3u64, 2], 100, 1).is_ok());
}

#[test]
fn unstake_before_a_new_round_fails() {
    let mut p = Platform::new(99, 100);
    assert_eq!(start_round(&mut p, 100, false), Ok(()));
    let mut tr = Receipt::new(1);
    assert_eq!(stake(&mut tr, &p, 1000, 150, 1), Ok(1000));
    // no round has started at or after the stake timestamp yet
    assert_eq!(unstake(&mut tr, &p, &Vec::new(), 210, 1), Err(CustomErrors::RoundStillGoing));
    assert!(tr.is_valid);
    assert_eq!(start_round(&mut p, 210, false), Ok(()));
    assert!(unstake(&mut tr, &p, &Vec::new(), 210, 1).is_ok());
}

#[test]
fn unstake_of_an_invalid_receipt_fails() {
    let (p, _tu, mut tr) = staked_target();
    assert!(unstake(&mut tr, &p, &Vec::new(), 100, 1).is_ok());
    assert_eq!(unstake(&mut tr, &p, &Vec::new(), 110, 1), Err(CustomErrors::InvalidReceipt));
}

#[test]
fn unstake_with_wrong_authority_fails() {
    let (p, _tu, mut tr) = staked_target();
    assert_eq!(unstake(&mut tr, &p, &Vec::new(), 100, 8), Err(CustomErrors::InvalidReceiptAuthority));
}

#[test]
fn cooldown_expires_thirty_rounds_after_the_grant() {
    // a short round of 1 makes the 30-round cooldown window [0, 30]
    let p = Platform::new(99, 1);
    let tu = user(1, 1000);
    let mut tr = Receipt::new(1);
    assert_eq!(stake(&mut tr, &p, 1000, 0, 1), Ok(1000));
    let bu = user(2, 5000);
    let br = Receipt::new(2);
    assert_eq!(grant_tokens(&bu, &tu, &br, &mut tr, &p, 5000, 500, 0, 2), Ok(500));

    // settling exactly 30 round-durations later keeps the entry alive
    let mut tr_kept = Receipt::new(1);
    tr_kept.is_valid = tr.is_valid;
    tr_kept.stake_duration = tr.stake_duration;
    tr_kept.stake_ts = tr.stake_ts;
    tr_kept.amount_deposited = tr.amount_deposited;
    tr_kept.apr = tr.apr;
    tr_kept.grantors = tr.grantors.clone();
    tr_kept.grantors_history = tr.grantors_history.clone();
    assert!(unstake(&mut tr_kept, &p, &vec![2u64], 30, 1).is_ok());
    assert_eq!(tr_kept.grantors_history.len(), 1);
    assert_eq!(
        grant_tokens(&bu, &tu, &br, &mut tr_kept, &p, 5000, 500, 30, 2),
        Err(CustomErrors::GrantCooldown)
    );

    // one tick later the entry is pruned and the same backer may grant again
    assert!(unstake(&mut tr, &p, &vec![2u64], 31, 1).is_ok());
    assert!(tr.grantors_history.is_empty());
    assert_eq!(grant_tokens(&bu, &tu, &br, &mut tr, &p, 5000, 500, 31, 2), Ok(500));
}
