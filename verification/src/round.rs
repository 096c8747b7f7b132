//! The round controller: advances the platform's round window.
//!
//! A round is fully elapsed before a new one starts, and no round starts once
//! the platform was finalized. The authority signature on the request is
//! checked by the caller before the record is handed in here.

use crate::errors::CustomErrors;
use crate::state::Platform;
use vstd::prelude::*;

verus! {

/// The platform record after a round successfully started at `now`.
pub open spec fn started(p: Platform, now: u64, is_final: bool) -> Platform {
    Platform { round_start: now, is_final, ..p }
}

/// What starting a round decides: the new platform record, or the error that
/// leaves the record untouched.
pub open spec fn start_round_spec(p: Platform, now: u64, is_final: bool) -> Result<
    Platform,
    CustomErrors,
> {
    if now < p.round_end() {
        Err(CustomErrors::RoundAlreadyStarted)
    } else if p.is_final {
        Err(CustomErrors::StackingFinished)
    } else {
        Ok(started(p, now, is_final))
    }
}

/// Start a new round at `now`, marking the campaign finished when `is_final`
/// is set. Fails while the current window still runs, and forever once a
/// final round was started; a failure mutates nothing.
pub fn start_round(platform: &mut Platform, now: u64, is_final: bool) -> (r: Result<
    (),
    CustomErrors,
>)
    requires
        old(platform).wf(),
        old(platform).round_start + old(platform).round_duration <= u64::MAX,
    ensures
        final(platform).wf(),
        match r {
            Ok(()) => Ok::<Platform, CustomErrors>(*final(platform)) == start_round_spec(
                *old(platform),
                now,
                is_final,
            ),
            Err(e) => {
                &&& *final(platform) == *old(platform)
                &&& Err::<Platform, CustomErrors>(e) == start_round_spec(
                    *old(platform),
                    now,
                    is_final,
                )
            },
        },
{
    if now < platform.round_start + platform.round_duration {
        return Err(CustomErrors::RoundAlreadyStarted);
    }
    if platform.is_final {
        return Err(CustomErrors::StackingFinished);
    }
    platform.round_start = now;
    platform.is_final = is_final;
    Ok(())
}

/// The end of the round window never moves backwards: a start only succeeds
/// once the old window has elapsed, so the new window closes no earlier.
pub proof fn lemma_round_end_monotone(p: Platform, now: u64, is_final: bool)
    requires
        start_round_spec(p, now, is_final) is Ok,
    ensures
        start_round_spec(p, now, is_final)->Ok_0.round_end() >= p.round_end(),
{
}

/// Finalization is permanent: once `is_final` is set, every further attempt
/// to start a round fails.
pub proof fn lemma_final_is_permanent(p: Platform, now: u64, is_final: bool)
    requires
        p.is_final,
    ensures
        start_round_spec(p, now, is_final) is Err,
{
}

} // verus!
