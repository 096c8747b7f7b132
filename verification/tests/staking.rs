use token_stacking::errors::CustomErrors;
use token_stacking::stake::stake;
use token_stacking::state::GrantorRecord;
use token_stacking::state::INITIAL_APR;
use token_stacking::state::Platform;
use token_stacking::state::Receipt;

fn granted_sum(records: &[GrantorRecord]) -> u64 {
    records.iter().map(|g| g.amount).sum()
}

#[test]
fn stake_locks_the_balance_for_the_rest_of_the_round() {
    let p = Platform::new(1, 100);
    let mut r = Receipt::new(7);
    assert_eq!(stake(&mut r, &p, 1000, 0, 7), Ok(1000));
    assert!(r.is_valid);
    assert_eq!(r.stake_ts, 0);
    assert_eq!(r.stake_duration, 100);
    assert_eq!(r.amount_deposited, 1000);
    assert_eq!(r.apr, INITIAL_APR);
    assert!(r.grantors.is_empty());
}

#[test]
fn stake_midway_records_the_remaining_window() {
    let p = Platform::new(1, 100);
    let mut r = Receipt::new(7);
    assert_eq!(stake(&mut r, &p, 500, 60, 7), Ok(500));
    assert_eq!(r.stake_ts, 60);
    assert_eq!(r.stake_duration, 40);
}

#[test]
fn stake_with_wrong_authority_fails() {
    let p = Platform::new(1, 100);
    let mut r = Receipt::new(7);
    assert_eq!(stake(&mut r, &p, 1000, 0, 8), Err(CustomErrors::InvalidReceiptAuthority));
    assert!(!r.is_valid);
}

#[test]
fn stake_twice_fails() {
    let p = Platform::new(1, 100);
    let mut r = Receipt::new(7);
    assert_eq!(stake(&mut r, &p, 1000, 0, 7), Ok(1000));
    assert_eq!(stake(&mut r, &p, 1000, 10, 7), Err(CustomErrors::InvalidReceipt));
}

#[test]
fn stake_at_round_end_fails() {
    let p = Platform::new(1, 100);
    let mut r = Receipt::new(7);
    // the window is [0, 100): at 100 there is no active round any more
    assert_eq!(stake(&mut r, &p, 1000, 100, 7), Err(CustomErrors::NoActiveRound));
    assert_eq!(stake(&mut r, &p, 1000, 101, 7), Err(CustomErrors::NoActiveRound));
}

#[test]
fn stake_promotes_queued_grantors() {
    let p = Platform::new(1, 100);
    let mut r = Receipt::new(7);
    r.next_round_grantors.push(GrantorRecord { amount: 500, grant_duration: 100, grantor: 2 });
    r.next_round_grantors.push(GrantorRecord { amount: 300, grant_duration: 100, grantor: 3 });
    assert_eq!(stake(&mut r, &p, 1000, 20, 7), Ok(1000));
    assert_eq!(r.grantors.len(), 2);
    assert_eq!(r.grantors[0].grantor, 2);
    assert_eq!(r.grantors[1].grantor, 3);
    assert!(r.next_round_grantors.is_empty());
    // deposit bookkeeping: own balance plus every promoted grant
    assert_eq!(r.amount_deposited, 1000 + granted_sum(&r.grantors));
    assert_eq!(r.amount_deposited, 1800);
}
