use token_stacking::errors::CustomErrors;
use token_stacking::market::buy_tokens;
use token_stacking::market::check_withdraw_conditions;
use token_stacking::market::sell_bcdev_tokens;
use token_stacking::market::sell_fctr_tokens;
use token_stacking::market::withdraw;
use token_stacking::state::Platform;
use token_stacking::state::User;

#[test]
fn buy_converts_lamports_at_the_posted_rate() {
    let mut user = User::new(7, false);
    let mut p = Platform::new(1, 100);
    let bought = buy_tokens(&mut user, &mut p, 1);
    assert_eq!(bought, Ok(109_000));
    assert_eq!(user.total_fctr_amount, 109_000);
    assert_eq!(p.fctr_token_total_amount, 109_000);
}

#[test]
fn buy_accumulates_over_purchases() {
    let mut user = User::new(7, false);
    let mut p = Platform::new(1, 100);
    assert_eq!(buy_tokens(&mut user, &mut p, 2), Ok(218_000));
    assert_eq!(buy_tokens(&mut user, &mut p, 3), Ok(327_000));
    assert_eq!(user.total_fctr_amount, 545_000);
    assert_eq!(p.fctr_token_total_amount, 545_000);
}

#[test]
fn buy_of_nothing_is_rejected() {
    let mut user = User::new(7, false);
    let mut p = Platform::new(1, 100);
    assert_eq!(buy_tokens(&mut user, &mut p, 0), Err(CustomErrors::InvalidBuyAmount));
    assert_eq!(user.total_fctr_amount, 0);
    assert_eq!(p.fctr_token_total_amount, 0);
}

#[test]
fn sell_fctr_prices_the_whole_balance() {
    let mut p = Platform::new(1, 100);
    p.fctr_token_total_amount = 500;
    let lamports = sell_fctr_tokens(&mut p, 101);
    assert_eq!(lamports, 1_000_000_000);
    assert_eq!(p.fctr_token_total_amount, 399);
}

#[test]
fn sell_bcdev_prices_off_the_balance_and_burns_the_amount() {
    let mut p = Platform::new(1, 100);
    p.bcdev_token_total_amount = 50;
    let lamports = sell_bcdev_tokens(&mut p, 22_000_000_000, 5);
    assert_eq!(lamports, 2);
    assert_eq!(p.bcdev_token_total_amount, 45);
}

#[test]
fn withdraw_allowed_when_all_tokens_are_home() {
    let mut p = Platform::new(1, 100);
    p.fctr_token_total_amount = 777;
    assert_eq!(withdraw(&p, 777, 5), Ok(()));
    assert!(check_withdraw_conditions(&p, 777, 5));
}

#[test]
fn withdraw_allowed_after_final_cooldown() {
    let mut p = Platform::new(1, 100);
    p.is_final = true;
    p.round_start = 1000;
    p.fctr_token_total_amount = 10;
    // withdrawal unlocks strictly after round_start + 3 * round_duration = 1300
    assert_eq!(withdraw(&p, 0, 1300), Err(CustomErrors::WithdrawConditions));
    assert_eq!(withdraw(&p, 0, 1301), Ok(()));
}

#[test]
fn withdraw_refused_otherwise() {
    let mut p = Platform::new(1, 100);
    p.fctr_token_total_amount = 10;
    p.bcdev_token_total_amount = 1;
    assert_eq!(withdraw(&p, 10, 5), Err(CustomErrors::WithdrawConditions));
    assert!(!check_withdraw_conditions(&p, 10, 5));
}
