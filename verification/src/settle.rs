//! The settlement engine: unstaking a receipt at round close.
//!
//! The caller supplies exactly the identities of the receipt's active
//! grantors. Settlement computes the rate-weighted reward, returns each
//! grantor's principal and a proportional share of half the reward, hands
//! the staker the rest, invalidates the receipt and prunes the expired part
//! of the cooldown ledger. Grantors are processed in ascending order of
//! their grant duration, ties keeping the supplied order, and the reward
//! rate decays one step per grantor processed.

use crate::arith::rounded_div;
use crate::arith::rounded_div_u128;
use crate::errors::CustomErrors;
use crate::sort::lemma_stable_sort_ensures;
use crate::sort::sort_grantors_by_duration;
use crate::sort::stable_sort_by_duration;
use crate::state::APR_DECAY_STEP;
use crate::state::APR_SCALE;
use crate::state::COOLDOWN_ROUNDS;
use crate::state::GrantorHistoryRecord;
use crate::state::GrantorRecord;
use crate::state::MAX_ACTIVE_GRANTORS;
use crate::state::Platform;
use crate::state::Receipt;
use crate::state::ReceiptView;
use crate::state::contains_grantor;
use crate::state::distinct_grantors;
use crate::state::find_grantor;
use crate::state::grantor_index;
use crate::state::history_contains;
use crate::state::lemma_distinct_remove;
use crate::state::lemma_grantor_index_unique;
use crate::state::lemma_remove_contains;
use crate::state::lemma_sum_element_le;
use crate::state::lemma_sum_eq_multiset;
use crate::state::lemma_sum_nonneg;
use crate::state::lemma_sum_take_le;
use crate::state::lemma_sum_take_succ;
use crate::state::sum_amounts;
use vstd::prelude::*;
use vstd::seq_lib::lemma_multiset_commutative;

verus! {

/// The caller's grantor set matches the receipt's: as many identities as
/// active grantors, each an active grantor, none named twice.
pub open spec fn supplied_matches(grantors: Seq<GrantorRecord>, supplied: Seq<u64>) -> bool {
    &&& supplied.len() == grantors.len()
    &&& forall|k: int|
        0 <= k < supplied.len() ==> contains_grantor(grantors, #[trigger] supplied[k])
    &&& forall|k: int, l: int| 0 <= k < l < supplied.len() ==> supplied[k] != supplied[l]
}

/// The receipt's grantor records in the order the caller supplied them.
pub open spec fn matched_records(grantors: Seq<GrantorRecord>, supplied: Seq<u64>) -> Seq<
    GrantorRecord,
> {
    Seq::new(supplied.len(), |k: int| grantors[grantor_index(grantors, supplied[k])])
}

/// A matching supplied set names every record exactly once: the matched list
/// is a permutation of the receipt's grantor list.
pub proof fn lemma_matched_multiset(grantors: Seq<GrantorRecord>, supplied: Seq<u64>)
    requires
        distinct_grantors(grantors),
        supplied_matches(grantors, supplied),
    ensures
        matched_records(grantors, supplied).to_multiset() =~= grantors.to_multiset(),
        matched_records(grantors, supplied).len() == grantors.len(),
    decreases supplied.len(),
{
    broadcast use vstd::seq_lib::group_to_multiset_ensures;
    broadcast use vstd::multiset::group_multiset_axioms;

    let m = matched_records(grantors, supplied);
    if supplied.len() == 0 {
        assert(m =~= Seq::empty());
        assert forall|a: GrantorRecord| grantors.to_multiset().count(a) == 0 by {
            assert(!grantors.contains(a));
        }
        assert(m.to_multiset() =~= grantors.to_multiset());
    } else {
        let id = supplied[0];
        assert(contains_grantor(grantors, id));
        let i = grantor_index(grantors, id);
        assert(0 <= i < grantors.len() && grantors[i].grantor == id);
        let g = grantors[i];
        let gs2 = grantors.remove(i);
        let sup2 = supplied.skip(1);
        lemma_distinct_remove(grantors, i);
        lemma_remove_contains(grantors, i);
        grantors.remove_ensures(i);

        assert forall|k: int| 0 <= k < sup2.len() implies contains_grantor(
            gs2,
            #[trigger] sup2[k],
        ) by {
            assert(sup2[k] == supplied[k + 1]);
            assert(contains_grantor(grantors, supplied[k + 1]));
            let j = choose|j: int|
                0 <= j < grantors.len() && (#[trigger] grantors[j]).grantor == supplied[k + 1];
            assert(supplied[k + 1] != id);
            assert(grantors[j] != g);
            assert(grantors.contains(grantors[j]));
            assert(gs2.contains(grantors[j]));
            let j2 = choose|j2: int| 0 <= j2 < gs2.len() && gs2[j2] == grantors[j];
            assert(gs2[j2].grantor == supplied[k + 1]);
        }
        assert(supplied_matches(gs2, sup2));

        lemma_grantor_index_unique(grantors, id, i);
        assert(m[0] == g);

        let m2 = matched_records(gs2, sup2);
        assert forall|k: int| 0 <= k < m2.len() implies m[k + 1] == m2[k] by {
            let idk = supplied[k + 1];
            assert(sup2[k] == idk);
            assert(contains_grantor(grantors, idk));
            let a = grantor_index(grantors, idk);
            assert(0 <= a < grantors.len() && grantors[a].grantor == idk);
            assert(contains_grantor(gs2, idk));
            let b = grantor_index(gs2, idk);
            assert(0 <= b < gs2.len() && gs2[b].grantor == idk);
            assert(gs2.contains(gs2[b]));
            assert(grantors.contains(gs2[b]));
            let c = choose|c: int| 0 <= c < grantors.len() && grantors[c] == gs2[b];
            lemma_grantor_index_unique(grantors, idk, c);
            assert(a == c);
            assert(m[k + 1] == grantors[a]);
            assert(m2[k] == gs2[b]);
        }
        assert(m =~= seq![g] + m2);
        lemma_matched_multiset(gs2, sup2);
        lemma_multiset_commutative(seq![g], m2);
        lemma_multiset_commutative(m2, seq![g]);
        assert(m2 + seq![g] =~= m2.push(g));
        assert(m.to_multiset() =~= m2.to_multiset().insert(g));
        assert(gs2.to_multiset() =~= grantors.to_multiset().remove(g));
        assert(grantors.contains(g));
        assert(grantors.to_multiset().count(g) > 0);
        assert forall|a: GrantorRecord|
            gs2.to_multiset().insert(g).count(a) == grantors.to_multiset().count(a) by {}
        assert(gs2.to_multiset().insert(g) =~= grantors.to_multiset());
        assert(m.to_multiset() =~= grantors.to_multiset());
    }
}

/// One grantor's reward contribution: the deposit, scaled by the current
/// rate and the granted share of the round, rounded to the nearest unit.
pub open spec fn grantor_contribution(
    amount_deposited: u64,
    apr_units: int,
    dur: u64,
    round_duration: u64,
) -> int {
    rounded_div(amount_deposited * apr_units * dur, round_duration * APR_SCALE)
}

/// The reward accumulated over sorted grantors: the rate starts at
/// `apr_units` and decays one step per grantor processed.
pub open spec fn total_reward_of(
    gs: Seq<GrantorRecord>,
    amount_deposited: u64,
    apr_units: int,
    round_duration: u64,
) -> int
    decreases gs.len(),
{
    if gs.len() == 0 {
        0
    } else {
        grantor_contribution(amount_deposited, apr_units, gs[0].grant_duration, round_duration)
            + total_reward_of(
            gs.skip(1),
            amount_deposited,
            apr_units - APR_DECAY_STEP,
            round_duration,
        )
    }
}

/// The settlement rate seed: the receipt's rate plus one whole rate unit per
/// grantor processed.
pub open spec fn seeded_apr(apr: u64, n: nat) -> int {
    apr + n * (APR_SCALE as int)
}

/// The staker's reward when nobody granted: the deposit, scaled by the rate
/// and the staked share of the round, rounded to the nearest unit.
pub open spec fn solo_reward(r: ReceiptView, round_duration: u64) -> int {
    rounded_div(r.amount_deposited * r.apr * r.stake_duration, round_duration * APR_SCALE)
}

/// The whole reward a settlement mints, before it is split.
pub open spec fn settlement_total_reward(
    r: ReceiptView,
    supplied: Seq<u64>,
    round_duration: u64,
) -> int {
    if supplied.len() == 0 {
        solo_reward(r, round_duration)
    } else {
        total_reward_of(
            stable_sort_by_duration(matched_records(r.grantors, supplied)),
            r.amount_deposited,
            seeded_apr(r.apr, supplied.len()),
            round_duration,
        )
    }
}

/// What one grantor is paid at settlement: their principal back, plus their
/// proportional share of the grantors' half of the reward.
#[derive(Clone, Copy, Debug, PartialEq, Eq, Structural)]
pub struct GrantorPayout {
    pub grantor: u64,
    pub principal: u64,
    pub reward: u64,
}

/// Everything a settlement pays out. The caller returns each principal from
/// the pooled vault and mints each reward amount.
#[derive(Debug, PartialEq)]
pub struct Settlement {
    pub staker_principal: u64,
    pub staker_reward: u64,
    pub total_reward: u64,
    pub payouts: Vec<GrantorPayout>,
}

/// The mathematical value of a `Settlement`.
#[verifier::ext_equal]
pub ghost struct SettlementView {
    pub staker_principal: u64,
    pub staker_reward: u64,
    pub total_reward: u64,
    pub payouts: Seq<GrantorPayout>,
}

impl View for Settlement {
    type V = SettlementView;

    open spec fn view(&self) -> SettlementView {
        SettlementView {
            staker_principal: self.staker_principal,
            staker_reward: self.staker_reward,
            total_reward: self.total_reward,
            payouts: self.payouts@,
        }
    }
}

/// Whether a cooldown entry is still live at `now`: it blocks re-granting
/// for `COOLDOWN_ROUNDS` round durations.
pub open spec fn entry_live(e: GrantorHistoryRecord, round_duration: u64, now: u64) -> bool {
    e.grant_ts + COOLDOWN_ROUNDS * round_duration >= now
}

/// The cooldown ledger with every expired entry pruned.
pub open spec fn pruned_history(
    h: Seq<GrantorHistoryRecord>,
    round_duration: u64,
    now: u64,
) -> Seq<GrantorHistoryRecord> {
    h.filter(|e: GrantorHistoryRecord| entry_live(e, round_duration, now))
}

/// The receipt after settlement: invalid, no active grantors, the cooldown
/// ledger pruned; everything else keeps its last value.
pub open spec fn settled_receipt(r: ReceiptView, round_duration: u64, now: u64) -> ReceiptView {
    ReceiptView {
        is_valid: false,
        grantors: Seq::empty(),
        grantors_history: pruned_history(r.grantors_history, round_duration, now),
        ..r
    }
}

/// The per-grantor payouts, in settlement order: each grantor's principal
/// back, and `pool * amount / total_granted` of the grantors' reward pool.
pub open spec fn settlement_payouts(
    sorted: Seq<GrantorRecord>,
    pool: int,
    total_granted: int,
) -> Seq<GrantorPayout> {
    Seq::new(
        sorted.len(),
        |k: int|
            GrantorPayout {
                grantor: sorted[k].grantor,
                principal: sorted[k].amount,
                reward: (pool * sorted[k].amount / total_granted) as u64,
            },
    )
}

/// What unstaking decides: the settled receipt and the settlement, or the
/// error that leaves the receipt untouched.
pub open spec fn unstake_spec(
    r: ReceiptView,
    p: Platform,
    supplied: Seq<u64>,
    now: u64,
    caller: u64,
) -> Result<(ReceiptView, SettlementView), CustomErrors> {
    if r.authority != caller {
        Err(CustomErrors::InvalidReceiptAuthority)
    } else if !r.is_valid {
        Err(CustomErrors::InvalidReceipt)
    } else if p.round_start < r.stake_ts {
        Err(CustomErrors::RoundStillGoing)
    } else if !supplied_matches(r.grantors, supplied) {
        Err(CustomErrors::InvalidGrantorsList)
    } else {
        let total = settlement_total_reward(r, supplied, p.round_duration);
        let total_granted = sum_amounts(r.grantors);
        let pool = if supplied.len() == 0 {
            0
        } else {
            total - total / 2
        };
        let sorted = stable_sort_by_duration(matched_records(r.grantors, supplied));
        Ok(
            (
                settled_receipt(r, p.round_duration, now),
                SettlementView {
                    staker_principal: (r.amount_deposited - total_granted) as u64,
                    staker_reward: (total - pool) as u64,
                    total_reward: total as u64,
                    payouts: settlement_payouts(sorted, pool, total_granted),
                },
            ),
        )
    }
}

/// The machine limits a settlement needs: the seeded rate fits a word, every
/// contribution's product fits the wide words it is computed in, and — for a
/// matching supplied set — the total reward fits a word.
pub open spec fn settlement_fits(r: ReceiptView, p: Platform, supplied: Seq<u64>) -> bool {
    &&& seeded_apr(r.apr, r.grantors.len()) <= u64::MAX
    &&& (r.grantors.len() == 0 ==> r.amount_deposited * r.apr * r.stake_duration <= u128::MAX)
    &&& (forall|k: int|
        0 <= k < r.grantors.len() ==> r.amount_deposited * seeded_apr(r.apr, r.grantors.len()) * ((
        #[trigger] r.grantors[k]).grant_duration as int) <= u128::MAX)
    &&& (supplied_matches(r.grantors, supplied) ==> settlement_total_reward(
        r,
        supplied,
        p.round_duration,
    ) <= u64::MAX)
}

/// Every reward contribution is nonnegative while the decaying rate stays
/// nonnegative, and so is their sum.
proof fn lemma_total_reward_nonneg(
    gs: Seq<GrantorRecord>,
    amount_deposited: u64,
    apr_units: int,
    round_duration: u64,
)
    requires
        round_duration >= 1,
        apr_units >= APR_DECAY_STEP * gs.len(),
    ensures
        total_reward_of(gs, amount_deposited, apr_units, round_duration) >= 0,
    decreases gs.len(),
{
    if gs.len() > 0 {
        assert(amount_deposited * apr_units * (gs[0].grant_duration as int) >= 0)
            by (nonlinear_arith)
            requires
                apr_units >= 0,
        ;
        assert(round_duration * APR_SCALE >= 1) by (nonlinear_arith)
            requires
                round_duration >= 1,
        ;
        crate::arith::lemma_rounded_div_bounds(
            amount_deposited * apr_units * (gs[0].grant_duration as int),
            round_duration * APR_SCALE,
        );
        vstd::arithmetic::div_mod::lemma_div_pos_is_pos(
            amount_deposited * apr_units * (gs[0].grant_duration as int),
            round_duration * APR_SCALE,
        );
        lemma_total_reward_nonneg(
            gs.skip(1),
            amount_deposited,
            apr_units - APR_DECAY_STEP,
            round_duration,
        );
    }
}

/// Unfolding one step of the reward accumulation at position `k`.
proof fn lemma_total_reward_step(
    gs: Seq<GrantorRecord>,
    amount_deposited: u64,
    apr_units: int,
    round_duration: u64,
    k: int,
)
    requires
        0 <= k < gs.len(),
    ensures
        total_reward_of(gs.skip(k), amount_deposited, apr_units - k * APR_DECAY_STEP,
            round_duration,
        ) == grantor_contribution(
            amount_deposited,
            apr_units - k * APR_DECAY_STEP,
            gs[k].grant_duration,
            round_duration,
        ) + total_reward_of(
            gs.skip(k + 1),
            amount_deposited,
            apr_units - (k + 1) * APR_DECAY_STEP,
            round_duration,
        ),
{
    assert(gs.skip(k).len() > 0);
    assert(gs.skip(k)[0] == gs[k]);
    assert(gs.skip(k).skip(1) =~= gs.skip(k + 1));
}

/// Filtering an empty ledger yields an empty ledger.
proof fn lemma_pruned_history_empty(round_duration: u64, now: u64)
    ensures
        pruned_history(Seq::empty(), round_duration, now) =~= Seq::<GrantorHistoryRecord>::empty(),
{
    reveal_with_fuel(Seq::filter, 1);
}

/// Pruning a ledger extended by one entry keeps the entry exactly when it is
/// still live.
proof fn lemma_pruned_history_push(
    h: Seq<GrantorHistoryRecord>,
    e: GrantorHistoryRecord,
    round_duration: u64,
    now: u64,
)
    ensures
        pruned_history(h.push(e), round_duration, now) == if entry_live(e, round_duration, now) {
            pruned_history(h, round_duration, now).push(e)
        } else {
            pruned_history(h, round_duration, now)
        },
{
    reveal_with_fuel(Seq::filter, 1);
    assert(h.push(e).drop_last() =~= h);
    assert(h.push(e).last() == e);
}

/// The pruned ledger never grows.
proof fn lemma_pruned_history_len(h: Seq<GrantorHistoryRecord>, round_duration: u64, now: u64)
    ensures
        pruned_history(h, round_duration, now).len() <= h.len(),
    decreases h.len(),
{
    if h.len() == 0 {
        lemma_pruned_history_empty(round_duration, now);
        assert(h =~= Seq::empty());
    } else {
        assert(h.drop_last().push(h.last()) =~= h);
        lemma_pruned_history_push(h.drop_last(), h.last(), round_duration, now);
        lemma_pruned_history_len(h.drop_last(), round_duration, now);
    }
}

/// A backer all of whose cooldown entries have expired is gone from the
/// pruned ledger.
proof fn lemma_pruned_history_removes_expired(
    h: Seq<GrantorHistoryRecord>,
    round_duration: u64,
    now: u64,
    backer: u64,
)
    requires
        forall|j: int|
            0 <= j < h.len() && (#[trigger] h[j]).grantor == backer ==> !entry_live(
                h[j],
                round_duration,
                now,
            ),
    ensures
        !history_contains(pruned_history(h, round_duration, now), backer),
    decreases h.len(),
{
    if h.len() == 0 {
        lemma_pruned_history_empty(round_duration, now);
        assert(h =~= Seq::empty());
    } else {
        let dl = h.drop_last();
        assert(dl.push(h.last()) =~= h);
        lemma_pruned_history_push(dl, h.last(), round_duration, now);
        assert forall|j: int|
            0 <= j < dl.len() && (#[trigger] dl[j]).grantor == backer implies !entry_live(
            dl[j],
            round_duration,
            now,
        ) by {
            assert(dl[j] == h[j]);
        }
        lemma_pruned_history_removes_expired(dl, round_duration, now, backer);
        if entry_live(h.last(), round_duration, now) {
            assert(h[h.len() - 1] == h.last());
            assert(h.last().grantor != backer);
            let pr = pruned_history(h, round_duration, now);
            let prd = pruned_history(dl, round_duration, now);
            assert forall|i: int| 0 <= i < pr.len() implies (#[trigger] pr[i]).grantor != backer by {
                if i < prd.len() {
                    assert(pr[i] == prd[i]);
                    assert(!history_contains(prd, backer));
                }
            }
        }
    }
}

/// Settle and unstake the caller's receipt at `now`.
///
/// The supplied identities must be exactly the receipt's active grantors,
/// each once, in any order. On success the receipt turns invalid with its
/// active list cleared and its cooldown ledger pruned, and the returned
/// settlement carries every amount the caller must move: each grantor's
/// principal and reward share, and the staker's remaining principal and
/// reward.
#[verifier::loop_isolation(false)]
pub fn unstake(
    receipt: &mut Receipt,
    platform: &Platform,
    supplied: &Vec<u64>,
    now: u64,
    caller: u64,
) -> (r: Result<Settlement, CustomErrors>)
    requires
        old(receipt)@.wf(),
        platform.wf(),
        settlement_fits(old(receipt)@, *platform, supplied@),
    ensures
        final(receipt)@.wf(),
        match r {
            Ok(s) => Ok::<(ReceiptView, SettlementView), CustomErrors>((final(receipt)@, s@))
                == unstake_spec(old(receipt)@, *platform, supplied@, now, caller),
            Err(e) => {
                &&& final(receipt)@ == old(receipt)@
                &&& Err::<(ReceiptView, SettlementView), CustomErrors>(e) == unstake_spec(
                    old(receipt)@,
                    *platform,
                    supplied@,
                    now,
                    caller,
                )
            },
        },
{
    if receipt.authority != caller {
        return Err(CustomErrors::InvalidReceiptAuthority);
    }
    if !receipt.is_valid {
        return Err(CustomErrors::InvalidReceipt);
    }
    if platform.round_start < receipt.stake_ts {
        return Err(CustomErrors::RoundStillGoing);
    }

    let ghost r0 = old(receipt)@;
    let ghost gs0 = r0.grantors;
    let rd = platform.round_duration;

    let n = supplied.len();
    if n != receipt.grantors.len() {
        return Err(CustomErrors::InvalidGrantorsList);
    }

    let mut remaining: Vec<GrantorRecord> = Vec::new();
    let gl = receipt.grantors.len();
    let mut i: usize = 0;
    while i < gl
        invariant
            0 <= i <= gl,
            gl == gs0.len(),
            receipt.grantors@ == gs0,
            remaining@ == gs0.take(i as int),
        decreases gl - i,
    {
        remaining.push(receipt.grantors[i]);
        proof {
            assert(remaining@ =~= gs0.take(i as int + 1));
        }
        i = i + 1;
    }
    proof {
        assert(remaining@ =~= gs0);
    }

    let mut matched: Vec<GrantorRecord> = Vec::new();
    let mut k: usize = 0;
    while k < n
        invariant
            0 <= k <= n,
            n == supplied@.len(),
            n == gs0.len(),
            distinct_grantors(gs0),
            distinct_grantors(remaining@),
            remaining@.len() == n - k,
            forall|g: GrantorRecord| #[trigger]
                remaining@.contains(g) <==> (gs0.contains(g) && !supplied@.take(
                    k as int,
                ).contains(g.grantor)),
            forall|j: int| 0 <= j < k ==> contains_grantor(gs0, #[trigger] supplied@[j]),
            forall|j1: int, j2: int| 0 <= j1 < j2 < k ==> supplied@[j1] != supplied@[j2],
            matched@.len() == k,
            forall|j: int|
                0 <= j < k ==> #[trigger] matched@[j] == gs0[grantor_index(gs0, supplied@[j])],
        decreases n - k,
    {
        let id = supplied[k];
        let found = find_grantor(&remaining, id);
        match found {
            None => {
                proof {
                    if supplied_matches(gs0, supplied@) {
                        assert(contains_grantor(gs0, id));
                        let j = choose|j: int|
                            0 <= j < gs0.len() && (#[trigger] gs0[j]).grantor == id;
                        assert(!supplied@.take(k as int).contains(id)) by {
                            if supplied@.take(k as int).contains(id) {
                                let j2 = choose|j2: int|
                                    0 <= j2 < k && supplied@.take(k as int)[j2] == id;
                                assert(supplied@[j2] == supplied@[k as int]);
                            }
                        }
                        assert(gs0.contains(gs0[j]));
                        assert(remaining@.contains(gs0[j]));
                        let j3 = choose|j3: int| 0 <= j3 < remaining@.len() && remaining@[j3] == gs0[j];
                        assert(remaining@[j3].grantor == id);
                        assert(contains_grantor(remaining@, id));
                        assert(false);
                    }
                }
                return Err(CustomErrors::InvalidGrantorsList);
            },
            Some(idx) => {
                let ghost rem_old = remaining@;
                let g = remaining.remove(idx);
                matched.push(g);
                proof {
                    assert(rem_old.contains(g)) by {
                        assert(rem_old[idx as int] == g);
                    }
                    assert(gs0.contains(g) && !supplied@.take(k as int).contains(g.grantor));
                    let c = choose|c: int| 0 <= c < gs0.len() && gs0[c] == g;
                    lemma_grantor_index_unique(gs0, id, c);
                    assert(matched@[k as int] == gs0[grantor_index(gs0, supplied@[k as int])]);
                    assert(contains_grantor(gs0, id));

                    lemma_distinct_remove(rem_old, idx as int);
                    lemma_remove_contains(rem_old, idx as int);
                    assert forall|x: GrantorRecord| #[trigger]
                        remaining@.contains(x) <==> (gs0.contains(x) && !supplied@.take(
                            k as int + 1,
                        ).contains(x.grantor)) by {
                        assert(supplied@.take(k as int + 1) =~= supplied@.take(k as int).push(id));
                        assert(supplied@.take(k as int + 1)[k as int] == id);
                        if remaining@.contains(x) {
                            assert(rem_old.contains(x) && x != g);
                            assert(x.grantor != id) by {
                                if x.grantor == id {
                                    let xi = choose|xi: int|
                                        0 <= xi < remaining@.len() && remaining@[xi] == x;
                                    let gi = choose|gi: int|
                                        0 <= gi < gs0.len() && gs0[gi] == x;
                                    lemma_grantor_index_unique(gs0, id, gi);
                                    assert(x == gs0[grantor_index(gs0, id)]);
                                    assert(g == gs0[grantor_index(gs0, id)]);
                                }
                            }
                        } else {
                            if gs0.contains(x) && !supplied@.take(k as int + 1).contains(
                                x.grantor,
                            ) {
                                assert(!supplied@.take(k as int).contains(x.grantor));
                                assert(rem_old.contains(x));
                                assert(x.grantor != id);
                                assert(x != g);
                                assert(remaining@.contains(x));
                            }
                        }
                    }
                    assert(!supplied@.take(k as int).contains(id)) by {
                        assert(rem_old.contains(g));
                    }
                    assert forall|j1: int, j2: int|
                        0 <= j1 < j2 < k + 1 implies supplied@[j1] != supplied@[j2] by {
                        if j2 == k {
                            if supplied@[j1] == id {
                                assert(supplied@.take(k as int)[j1] == id);
                            }
                        }
                    }
                }
                k = k + 1;
            },
        }
    }
    proof {
        assert(supplied_matches(gs0, supplied@));
        assert(matched@ =~= matched_records(gs0, supplied@));
    }

    let sorted_v = sort_grantors_by_duration(matched);
    let ghost sseq = sorted_v@;
    proof {
        lemma_stable_sort_ensures(matched_records(gs0, supplied@));
        lemma_matched_multiset(gs0, supplied@);
        lemma_sum_eq_multiset(sseq, gs0);
        lemma_sum_nonneg(sseq);
    }
    let sn = sorted_v.len();
    proof {
        assert(sn == n);
    }

    let mut total_granted: u64 = 0;
    let mut k2: usize = 0;
    proof {
        assert(sseq.take(0) =~= Seq::empty());
    }
    while k2 < sn
        invariant
            0 <= k2 <= sn,
            sn == sseq.len(),
            sorted_v@ == sseq,
            total_granted == sum_amounts(sseq.take(k2 as int)),
            sum_amounts(sseq) <= u64::MAX,
        decreases sn - k2,
    {
        proof {
            lemma_sum_take_succ(sseq, k2 as int);
            lemma_sum_take_le(sseq, k2 as int + 1);
            lemma_sum_nonneg(sseq.take(k2 as int));
        }
        total_granted = total_granted + sorted_v[k2].amount;
        k2 = k2 + 1;
    }
    proof {
        assert(sseq.take(sn as int) =~= sseq);
        assert(total_granted == sum_amounts(gs0));
    }
    let staker_principal = receipt.amount_deposited - total_granted;

    let ghost seed_int = seeded_apr(r0.apr, n as nat);
    let total: u64;
    if n == 0 {
        proof {
            assert((receipt.amount_deposited as int) * (receipt.apr as int) <= (u64::MAX as int)
                * (u64::MAX as int)) by (nonlinear_arith)
                requires
                    receipt.amount_deposited <= u64::MAX,
                    receipt.apr <= u64::MAX,
            ;
            assert((rd as int) * (APR_SCALE as int) <= (u64::MAX as int) * (APR_SCALE as int))
                by (nonlinear_arith)
                requires
                    rd <= u64::MAX,
            ;
            assert((rd as int) * (APR_SCALE as int) >= 1) by (nonlinear_arith)
                requires
                    rd >= 1,
            ;
        }
        let num = (receipt.amount_deposited as u128) * (receipt.apr as u128) * (receipt.stake_duration
            as u128);
        let den = (rd as u128) * (APR_SCALE as u128);
        let t = rounded_div_u128(num, den);
        proof {
            assert(t == solo_reward(r0, rd));
            assert(supplied@ =~= Seq::<u64>::empty());
            assert(supplied_matches(gs0, supplied@));
            assert(t <= u64::MAX);
        }
        total = t as u64;
    } else {
        let seed: u64 = receipt.apr + (n as u64) * APR_SCALE;
        proof {
            assert(seed == seed_int);
            assert(settlement_total_reward(r0, supplied@, rd) == total_reward_of(
                sseq,
                r0.amount_deposited,
                seed_int,
                rd,
            ));
            assert(total_reward_of(sseq, r0.amount_deposited, seed_int, rd) <= u64::MAX);
            assert(seed_int >= APR_DECAY_STEP * sn) by (nonlinear_arith)
                requires
                    seed_int == r0.apr + (sn as int) * (APR_SCALE as int),
                    r0.apr >= 0,
                    sn >= 0,
                    APR_SCALE == 10000,
                    APR_DECAY_STEP == 200,
            ;
            lemma_total_reward_nonneg(sseq, r0.amount_deposited, seed_int, rd);
        }
        let mut t: u64 = 0;
        let mut apr_cur: u64 = seed;
        let mut kt: usize = 0;
        while kt < sn
            invariant
                0 <= kt <= sn,
                sn == sseq.len(),
                sorted_v@ == sseq,
                rd >= 1,
                r0.amount_deposited == receipt.amount_deposited,
                apr_cur as int == seed_int - kt * APR_DECAY_STEP,
                apr_cur as int >= APR_DECAY_STEP * (sn - kt),
                t as int + total_reward_of(sseq.skip(kt as int), r0.amount_deposited, apr_cur
                    as int, rd) == total_reward_of(sseq, r0.amount_deposited, seed_int, rd),
                total_reward_of(sseq, r0.amount_deposited, seed_int, rd) <= u64::MAX,
                sseq.to_multiset() == gs0.to_multiset(),
                forall|j: int|
                    0 <= j < gs0.len() ==> r0.amount_deposited * seed_int * ((
                    #[trigger] gs0[j]).grant_duration as int) <= u128::MAX,
            decreases sn - kt,
        {
            proof {
                lemma_total_reward_step(sseq, r0.amount_deposited, seed_int, rd, kt as int);
                lemma_total_reward_nonneg(
                    sseq.skip(kt as int + 1),
                    r0.amount_deposited,
                    apr_cur as int - APR_DECAY_STEP,
                    rd,
                );
                broadcast use vstd::seq_lib::group_to_multiset_ensures;

                assert(sseq.contains(sseq[kt as int]));
                assert(sseq.to_multiset().count(sseq[kt as int]) > 0);
                assert(gs0.to_multiset().count(sseq[kt as int]) > 0);
                assert(gs0.contains(sseq[kt as int]));
                let j = choose|j: int| 0 <= j < gs0.len() && gs0[j] == sseq[kt as int];
                assert(r0.amount_deposited * seed_int * (gs0[j].grant_duration as int)
                    <= u128::MAX);
                assert(r0.amount_deposited * (apr_cur as int) * (sseq[kt as int].grant_duration
                    as int) <= r0.amount_deposited * seed_int * (sseq[kt as int].grant_duration
                    as int)) by (nonlinear_arith)
                    requires
                        0 <= apr_cur as int <= seed_int,
                        r0.amount_deposited >= 0,
                        sseq[kt as int].grant_duration >= 0,
                ;
                assert((r0.amount_deposited as int) * (apr_cur as int) <= (u64::MAX as int) * (
                u64::MAX as int)) by (nonlinear_arith)
                    requires
                        r0.amount_deposited <= u64::MAX,
                        apr_cur <= u64::MAX,
                ;
                assert((rd as int) * (APR_SCALE as int) >= 1) by (nonlinear_arith)
                    requires
                        rd >= 1,
                ;
                assert((rd as int) * (APR_SCALE as int) <= (u64::MAX as int) * (APR_SCALE as int))
                    by (nonlinear_arith)
                    requires
                        rd <= u64::MAX,
                ;
            }
            let num = (receipt.amount_deposited as u128) * (apr_cur as u128) * (sorted_v[kt].grant_duration
                as u128);
            let den = (rd as u128) * (APR_SCALE as u128);
            let c = rounded_div_u128(num, den);
            proof {
                assert(c as int == grantor_contribution(
                    r0.amount_deposited,
                    apr_cur as int,
                    sseq[kt as int].grant_duration,
                    rd,
                ));
                crate::arith::lemma_rounded_div_bounds(
                    r0.amount_deposited * (apr_cur as int) * (sseq[kt as int].grant_duration
                        as int),
                    (rd as int) * (APR_SCALE as int),
                );
                assert(r0.amount_deposited * (apr_cur as int) * (sseq[kt as int].grant_duration
                    as int) >= 0) by (nonlinear_arith)
                    requires
                        r0.amount_deposited >= 0,
                        apr_cur >= 0,
                        sseq[kt as int].grant_duration >= 0,
                ;
                vstd::arithmetic::div_mod::lemma_div_pos_is_pos(
                    r0.amount_deposited * (apr_cur as int) * (sseq[kt as int].grant_duration
                        as int),
                    (rd as int) * (APR_SCALE as int),
                );
            }
            t = t + (c as u64);
            apr_cur = apr_cur - APR_DECAY_STEP;
            kt = kt + 1;
        }
        proof {
            assert(sseq.skip(sn as int) =~= Seq::empty());
            assert(t as int == total_reward_of(sseq, r0.amount_deposited, seed_int, rd));
        }
        total = t;
    }

    let pool: u64 = if n == 0 {
        0
    } else {
        total - total / 2
    };
    let staker_reward: u64 = total - pool;

    let ghost expected_payouts = settlement_payouts(
        sseq,
        pool as int,
        sum_amounts(gs0),
    );
    let mut payouts: Vec<GrantorPayout> = Vec::new();
    let mut kp: usize = 0;
    proof {
        if sn >= 1 {
            broadcast use vstd::seq_lib::group_to_multiset_ensures;

            assert(sseq.contains(sseq[0]));
            assert(sseq.to_multiset().count(sseq[0]) > 0);
            assert(gs0.to_multiset().count(sseq[0]) > 0);
            assert(gs0.contains(sseq[0]));
            let j = choose|j: int| 0 <= j < gs0.len() && gs0[j] == sseq[0];
            assert(gs0[j].amount >= 1);
            lemma_sum_element_le(sseq, 0);
        }
    }
    while kp < sn
        invariant
            0 <= kp <= sn,
            sn == sseq.len(),
            sorted_v@ == sseq,
            total_granted as int == sum_amounts(sseq),
            sum_amounts(sseq) == sum_amounts(gs0),
            sn >= 1 ==> total_granted >= 1,
            payouts@.len() == kp,
            forall|j: int| 0 <= j < kp ==> #[trigger] payouts@[j] == expected_payouts[j],
            expected_payouts == settlement_payouts(sseq, pool as int, sum_amounts(gs0)),
        decreases sn - kp,
    {
        proof {
            lemma_sum_element_le(sseq, kp as int);
            assert((pool as int) * (sseq[kp as int].amount as int) <= (pool as int) * (
            total_granted as int)) by (nonlinear_arith)
                requires
                    0 <= sseq[kp as int].amount as int <= total_granted as int,
                    pool >= 0,
            ;
            vstd::arithmetic::div_mod::lemma_div_is_ordered(
                (pool as int) * (sseq[kp as int].amount as int),
                (pool as int) * (total_granted as int),
                total_granted as int,
            );
            vstd::arithmetic::div_mod::lemma_div_by_multiple(pool as int, total_granted as int);
            assert((pool as int) * (sseq[kp as int].amount as int) >= 0) by (nonlinear_arith)
                requires
                    pool >= 0,
                    sseq[kp as int].amount >= 0,
            ;
            vstd::arithmetic::div_mod::lemma_div_pos_is_pos(
                (pool as int) * (sseq[kp as int].amount as int),
                total_granted as int,
            );
            assert((pool as int) * (sseq[kp as int].amount as int) <= (u64::MAX as int) * (u64::MAX
                as int)) by (nonlinear_arith)
                requires
                    pool <= u64::MAX,
                    sseq[kp as int].amount <= u64::MAX,
                    pool >= 0,
                    sseq[kp as int].amount >= 0,
            ;
        }
        let share = ((pool as u128) * (sorted_v[kp].amount as u128)) / (total_granted as u128);
        payouts.push(
            GrantorPayout {
                grantor: sorted_v[kp].grantor,
                principal: sorted_v[kp].amount,
                reward: share as u64,
            },
        );
        kp = kp + 1;
    }

    receipt.is_valid = false;
    receipt.grantors = Vec::new();

    let ghost h0 = r0.grantors_history;
    let hn = receipt.grantors_history.len();
    let mut kept: Vec<GrantorHistoryRecord> = Vec::new();
    let mut ih: usize = 0;
    proof {
        assert(h0.take(0) =~= Seq::empty());
        lemma_pruned_history_empty(rd, now);
    }
    while ih < hn
        invariant
            0 <= ih <= hn,
            hn == h0.len(),
            receipt.grantors_history@ == h0,
            rd >= 1,
            kept@ == pruned_history(h0.take(ih as int), rd, now),
        decreases hn - ih,
    {
        let e = receipt.grantors_history[ih];
        proof {
            assert(h0.take(ih as int + 1) =~= h0.take(ih as int).push(h0[ih as int]));
            lemma_pruned_history_push(h0.take(ih as int), h0[ih as int], rd, now);
            assert((COOLDOWN_ROUNDS as u128) * (rd as u128) <= (COOLDOWN_ROUNDS as u128) * (
            u64::MAX as u128)) by (nonlinear_arith)
                requires
                    rd <= u64::MAX,
            ;
        }
        if (e.grant_ts as u128) + (COOLDOWN_ROUNDS as u128) * (rd as u128) >= (now as u128) {
            kept.push(e);
        }
        ih = ih + 1;
    }
    receipt.grantors_history = kept;
    proof {
        assert(h0.take(hn as int) =~= h0);
    }

    let settlement = Settlement { staker_principal, staker_reward, total_reward: total, payouts };
    proof {
        lemma_pruned_history_len(h0, rd, now);
        assert(receipt@ =~= settled_receipt(r0, rd, now));
        let spec_result = unstake_spec(r0, *platform, supplied@, now, caller);
        assert(spec_result is Ok);
        assert(payouts@ =~= expected_payouts);
        assert(settlement@ =~= spec_result->Ok_0.1);
        assert(receipt@ =~= spec_result->Ok_0.0);
    }
    Ok(settlement)
}

/// The reward minted to the grantors, summed over the payouts.
pub open spec fn sum_payout_rewards(payouts: Seq<GrantorPayout>) -> int
    decreases payouts.len(),
{
    if payouts.len() == 0 {
        0
    } else {
        sum_payout_rewards(payouts.drop_last()) + payouts.last().reward
    }
}

/// The exact (unclamped) share sum: `pool * amount / total_granted` over the
/// records.
spec fn ideal_shares(s: Seq<GrantorRecord>, pool: int, total_granted: int) -> int
    decreases s.len(),
{
    if s.len() == 0 {
        0
    } else {
        ideal_shares(s.drop_last(), pool, total_granted) + pool * s.last().amount / total_granted
    }
}

/// Floor shares keep within one unit per grantor of the exact proportional
/// split: their sum reaches at most the exact total share and falls short of
/// it by less than the number of grantors.
proof fn lemma_ideal_shares_bounds(s: Seq<GrantorRecord>, pool: int, total_granted: int)
    requires
        pool >= 0,
        total_granted >= 1,
    ensures
        ideal_shares(s, pool, total_granted) <= pool * sum_amounts(s) / total_granted,
        s.len() >= 1 ==> ideal_shares(s, pool, total_granted) >= pool * sum_amounts(s)
            / total_granted - (s.len() - 1),
        ideal_shares(s, pool, total_granted) >= 0,
    decreases s.len(),
{
    if s.len() == 0 {
        assert(pool * sum_amounts(s) == 0) by (nonlinear_arith)
            requires
                sum_amounts(s) == 0,
        ;
        assert(pool * sum_amounts(s) / total_granted == 0);
    } else {
        let dl = s.drop_last();
        let a = s.last().amount;
        lemma_sum_nonneg(dl);
        lemma_ideal_shares_bounds(dl, pool, total_granted);
        let big_a = pool * sum_amounts(dl);
        let big_b = pool * (a as int);
        assert(pool * sum_amounts(s) == pool * sum_amounts(dl) + pool * (a as int))
            by (nonlinear_arith)
            requires
                sum_amounts(s) == sum_amounts(dl) + a,
        ;
        assert(pool * sum_amounts(dl) >= 0) by (nonlinear_arith)
            requires
                pool >= 0,
                sum_amounts(dl) >= 0,
        ;
        assert(pool * (a as int) >= 0) by (nonlinear_arith)
            requires
                pool >= 0,
                a >= 0,
        ;
        crate::arith::lemma_div_add_bounds(big_a, big_b, total_granted);
        if dl.len() == 0 {
            assert(pool * sum_amounts(dl) == 0) by (nonlinear_arith)
                requires
                    sum_amounts(dl) == 0,
            ;
            assert(big_a / total_granted == 0);
        }
        vstd::arithmetic::div_mod::lemma_div_pos_is_pos(big_b, total_granted);
    }
}

/// The payout rewards are the floor shares themselves: every share fits a
/// word because no amount exceeds the granted total.
proof fn lemma_payouts_sum(s: Seq<GrantorRecord>, pool: int, total_granted: int)
    requires
        0 <= pool <= u64::MAX,
        total_granted >= 1,
        forall|k: int| 0 <= k < s.len() ==> (#[trigger] s[k]).amount <= total_granted,
    ensures
        sum_payout_rewards(settlement_payouts(s, pool, total_granted)) == ideal_shares(
            s,
            pool,
            total_granted,
        ),
    decreases s.len(),
{
    let ps = settlement_payouts(s, pool, total_granted);
    if s.len() == 0 {
        assert(ps =~= Seq::empty());
    } else {
        let dl = s.drop_last();
        assert(ps.drop_last() =~= settlement_payouts(dl, pool, total_granted));
        lemma_payouts_sum(dl, pool, total_granted);
        let a = s.last().amount;
        let share = pool * (a as int) / total_granted;
        assert(s[s.len() - 1] == s.last());
        assert(pool * (a as int) <= pool * total_granted) by (nonlinear_arith)
            requires
                0 <= a as int <= total_granted,
                pool >= 0,
        ;
        vstd::arithmetic::div_mod::lemma_div_is_ordered(
            pool * (a as int),
            pool * total_granted,
            total_granted,
        );
        vstd::arithmetic::div_mod::lemma_div_by_multiple(pool, total_granted);
        assert(pool * (a as int) >= 0) by (nonlinear_arith)
            requires
                pool >= 0,
                a >= 0,
        ;
        vstd::arithmetic::div_mod::lemma_div_pos_is_pos(pool * (a as int), total_granted);
        assert(ps.last().reward == share as u64);
        assert((share as u64) as int == share);
    }
}

/// A settlement with no grantors hands the staker everything: the whole
/// deposit back, and the full reward, which is the deposit scaled by the
/// receipt's rate and the staked share of the round.
pub proof fn lemma_solo_settlement(
    r: ReceiptView,
    p: Platform,
    supplied: Seq<u64>,
    now: u64,
    caller: u64,
)
    requires
        p.wf(),
        settlement_fits(r, p, supplied),
        r.grantors.len() == 0,
        unstake_spec(r, p, supplied, now, caller) is Ok,
    ensures
        ({
            let s = unstake_spec(r, p, supplied, now, caller)->Ok_0.1;
            &&& s.payouts.len() == 0
            &&& s.staker_reward == s.total_reward
            &&& s.total_reward == solo_reward(r, p.round_duration)
            &&& s.staker_principal == r.amount_deposited
        }),
{
    let total = settlement_total_reward(r, supplied, p.round_duration);
    assert(supplied.len() == 0);
    assert(total == solo_reward(r, p.round_duration));
    assert(r.amount_deposited * r.apr * r.stake_duration >= 0) by (nonlinear_arith);
    assert(p.round_duration * APR_SCALE >= 1) by (nonlinear_arith)
        requires
            p.round_duration >= 1,
    ;
    crate::arith::lemma_rounded_div_bounds(
        r.amount_deposited * r.apr * r.stake_duration,
        p.round_duration * APR_SCALE,
    );
    vstd::arithmetic::div_mod::lemma_div_pos_is_pos(
        r.amount_deposited * r.apr * r.stake_duration,
        p.round_duration * APR_SCALE,
    );
    let sorted = stable_sort_by_duration(matched_records(r.grantors, supplied));
    assert(matched_records(r.grantors, supplied) =~= Seq::empty());
    assert(settlement_payouts(sorted, 0, sum_amounts(r.grantors)).len() == 0);
}

/// No reward leaks and none is counted twice: the staker's half plus the
/// grantors' floor shares reaches the minted total exactly for at most one
/// grantor, and falls short of it by less than one unit per grantor
/// otherwise — the shortfall is what the floor division discards.
pub proof fn lemma_settlement_conserves_reward(
    r: ReceiptView,
    p: Platform,
    supplied: Seq<u64>,
    now: u64,
    caller: u64,
)
    requires
        r.wf(),
        p.wf(),
        settlement_fits(r, p, supplied),
        unstake_spec(r, p, supplied, now, caller) is Ok,
    ensures
        ({
            let s = unstake_spec(r, p, supplied, now, caller)->Ok_0.1;
            &&& s.payouts.len() == supplied.len()
            &&& s.staker_reward + sum_payout_rewards(s.payouts) <= s.total_reward
            &&& s.total_reward - (s.staker_reward + sum_payout_rewards(s.payouts)) <= (if supplied.len()
                <= 1 {
                0int
            } else {
                supplied.len() - 1
            })
        }),
{
    broadcast use vstd::seq_lib::group_to_multiset_ensures;

    let n = supplied.len();
    let total = settlement_total_reward(r, supplied, p.round_duration);
    let gs = r.grantors;
    let sorted = stable_sort_by_duration(matched_records(gs, supplied));
    let tg = sum_amounts(gs);
    if n == 0 {
        lemma_solo_settlement(r, p, supplied, now, caller);
        assert(matched_records(gs, supplied) =~= Seq::empty());
        assert(settlement_payouts(sorted, 0, tg) =~= Seq::empty());
        assert(r.amount_deposited * r.apr * r.stake_duration >= 0) by (nonlinear_arith);
        assert(p.round_duration * APR_SCALE >= 1) by (nonlinear_arith)
            requires
                p.round_duration >= 1,
        ;
        crate::arith::lemma_rounded_div_bounds(
            r.amount_deposited * r.apr * r.stake_duration,
            p.round_duration * APR_SCALE,
        );
        vstd::arithmetic::div_mod::lemma_div_pos_is_pos(
            r.amount_deposited * r.apr * r.stake_duration,
            p.round_duration * APR_SCALE,
        );
    } else {
        lemma_stable_sort_ensures(matched_records(gs, supplied));
        lemma_matched_multiset(gs, supplied);
        lemma_sum_eq_multiset(sorted, gs);
        assert(sorted.len() == n);
        assert(sum_amounts(sorted) == tg);

        assert(seeded_apr(r.apr, n) >= APR_DECAY_STEP * sorted.len()) by (nonlinear_arith)
            requires
                seeded_apr(r.apr, n) == r.apr + (n as int) * (APR_SCALE as int),
                sorted.len() == n,
                r.apr >= 0,
                APR_SCALE == 10000,
                APR_DECAY_STEP == 200,
        ;
        lemma_total_reward_nonneg(sorted, r.amount_deposited, seeded_apr(r.apr, n), p.round_duration);
        assert(0 <= total <= u64::MAX);

        let pool = total - total / 2;
        vstd::arithmetic::div_mod::lemma_div_pos_is_pos(total, 2);
        vstd::arithmetic::div_mod::lemma_div_is_ordered(0, total, 2);
        assert(total / 2 <= total) by {
            vstd::arithmetic::div_mod::lemma_div_nonincreasing(total, 2);
        }
        assert(0 <= pool <= total);

        assert(tg >= 1) by {
            assert(sorted.contains(sorted[0]));
            assert(sorted.to_multiset().count(sorted[0]) > 0);
            assert(gs.to_multiset().count(sorted[0]) > 0);
            assert(gs.contains(sorted[0]));
            let j = choose|j: int| 0 <= j < gs.len() && gs[j] == sorted[0];
            assert(gs[j].amount >= 1);
            lemma_sum_element_le(sorted, 0);
        }
        assert forall|k: int| 0 <= k < sorted.len() implies (#[trigger] sorted[k]).amount <= tg by {
            lemma_sum_element_le(sorted, k);
        }
        lemma_payouts_sum(sorted, pool, tg);
        lemma_ideal_shares_bounds(sorted, pool, tg);
        vstd::arithmetic::div_mod::lemma_div_by_multiple(pool, tg);
        assert(pool * sum_amounts(sorted) / tg == pool);
    }
}

/// Settlement ends the stake: the receipt comes out invalid with no active
/// grantors, so the deposit bookkeeping holds vacuously until the next
/// stake re-establishes it.
pub proof fn lemma_unstake_invalidates(
    r: ReceiptView,
    p: Platform,
    supplied: Seq<u64>,
    now: u64,
    caller: u64,
)
    requires
        unstake_spec(r, p, supplied, now, caller) is Ok,
    ensures
        !unstake_spec(r, p, supplied, now, caller)->Ok_0.0.is_valid,
        unstake_spec(r, p, supplied, now, caller)->Ok_0.0.grantors.len() == 0,
{
}

/// Settlement lifts an expired cooldown: a backer all of whose entries are
/// older than the cooldown window is gone from the settled receipt's ledger.
pub proof fn lemma_settlement_lifts_cooldown(
    r: ReceiptView,
    p: Platform,
    supplied: Seq<u64>,
    now: u64,
    caller: u64,
    backer: u64,
)
    requires
        unstake_spec(r, p, supplied, now, caller) is Ok,
        forall|j: int|
            0 <= j < r.grantors_history.len() && (#[trigger] r.grantors_history[j]).grantor
                == backer ==> r.grantors_history[j].grant_ts + COOLDOWN_ROUNDS * p.round_duration
                < now,
    ensures
        !history_contains(
            unstake_spec(r, p, supplied, now, caller)->Ok_0.0.grantors_history,
            backer,
        ),
{
    lemma_pruned_history_removes_expired(r.grantors_history, p.round_duration, now, backer);
}

/// After a settlement that pruned every entry of the backer, the same backer
/// may grant to the same participant again: a grant against the settled
/// receipt that meets every other rule succeeds.
pub proof fn lemma_regrant_after_settlement(
    backer_user: crate::state::User,
    target_user: crate::state::User,
    backer_receipt_auth: u64,
    r: ReceiptView,
    p: Platform,
    supplied: Seq<u64>,
    now: u64,
    caller: u64,
    backer_vault: u64,
    amount: u64,
    grant_now: u64,
    grant_caller: u64,
)
    requires
        unstake_spec(r, p, supplied, now, caller) is Ok,
        forall|j: int|
            0 <= j < r.grantors_history.len() && (#[trigger] r.grantors_history[j]).grantor
                == backer_user.authority ==> r.grantors_history[j].grant_ts + COOLDOWN_ROUNDS
                * p.round_duration < now,
        backer_user.grant_program && target_user.grant_program,
        backer_receipt_auth == grant_caller,
        r.authority == target_user.authority,
        ({
            let settled = unstake_spec(r, p, supplied, now, caller)->Ok_0.0;
            &&& crate::grant::grant_target_list(settled, grant_now).len() < MAX_ACTIVE_GRANTORS
                as nat
            &&& !contains_grantor(
                crate::grant::grant_target_list(settled, grant_now),
                backer_user.authority,
            )
            &&& !crate::grant::ratio_blocked(
                backer_user.total_fctr_amount,
                target_user.total_fctr_amount,
            )
            &&& settled.grantors_history.len() < crate::state::MAX_GRANTORS_HISTORY as nat
            &&& amount >= 1
        }),
    ensures
        crate::grant::grant_spec(
            backer_user,
            target_user,
            backer_receipt_auth,
            unstake_spec(r, p, supplied, now, caller)->Ok_0.0,
            p,
            backer_vault,
            amount,
            grant_now,
            grant_caller,
        ) is Ok,
{
    lemma_settlement_lifts_cooldown(r, p, supplied, now, caller, backer_user.authority);
}

} // verus!
