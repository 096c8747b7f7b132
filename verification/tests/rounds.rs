use token_stacking::errors::CustomErrors;
use token_stacking::round::start_round;
use token_stacking::state::Platform;

fn platform() -> Platform {
    Platform::new(1, 100)
}

#[test]
fn round_start_succeeds_after_window() {
    let mut p = platform();
    assert_eq!(start_round(&mut p, 150, false), Ok(()));
    assert_eq!(p.round_start, 150);
    assert!(!p.is_final);
    assert_eq!(p.round_duration, 100);
}

#[test]
fn round_start_at_exact_window_end_succeeds() {
    let mut p = platform();
    // the first window is [0, 100); at 100 it has fully elapsed
    assert_eq!(start_round(&mut p, 100, false), Ok(()));
    assert_eq!(p.round_start, 100);
}

#[test]
fn round_start_inside_window_fails() {
    let mut p = platform();
    assert_eq!(start_round(&mut p, 99, false), Err(CustomErrors::RoundAlreadyStarted));
    assert_eq!(p.round_start, 0);
}

#[test]
fn round_start_after_final_fails() {
    let mut p = platform();
    assert_eq!(start_round(&mut p, 100, true), Ok(()));
    assert!(p.is_final);
    assert_eq!(start_round(&mut p, 300, false), Err(CustomErrors::StackingFinished));
    assert_eq!(p.round_start, 100);
}

#[test]
fn round_end_never_moves_backwards() {
    let mut p = platform();
    let mut last_end = p.round_start + p.round_duration;
    for now in [100u64, 250, 350, 1000] {
        assert_eq!(start_round(&mut p, now, false), Ok(()));
        let end = p.round_start + p.round_duration;
        assert!(end >= last_end);
        last_end = end;
    }
}
