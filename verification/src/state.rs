//! The persisted records of the staking platform and the spec-level view of
//! the per-participant receipt.
//!
//! Amounts are plain token units. Identities are opaque integer handles: the
//! caller is trusted to have bound each record to the cryptographic signer it
//! stands for. The reward rate (`apr`) is a fixed-point scalar measured in
//! units of `1 / APR_SCALE`, so `INITIAL_APR` stands for a rate of one
//! hundredth.

use vstd::prelude::*;

verus! {

/// Number of fixed-point units in a reward rate of one.
pub const APR_SCALE: u64 = 10_000;

/// Reward rate of a freshly registered receipt: one hundredth.
pub const INITIAL_APR: u64 = 100;

/// Fixed-point units subtracted from the rate for each grantor settled: two
/// hundredths.
pub const APR_DECAY_STEP: u64 = 200;

/// Capacity of the active and the queued grantor lists.
pub const MAX_ACTIVE_GRANTORS: usize = 4;

/// Capacity of the grant-cooldown ledger.
pub const MAX_GRANTORS_HISTORY: usize = 100;

/// A cooldown entry blocks re-granting for this many round durations.
pub const COOLDOWN_ROUNDS: u64 = 30;

/// One third-party backing of a stake: who granted, how much, and how much of
/// the round was left when the grant was recorded (or the full round length,
/// for a grant queued for the next round).
#[derive(Clone, Copy, Debug, PartialEq, Eq, Structural)]
pub struct GrantorRecord {
    pub amount: u64,
    pub grant_duration: u64,
    pub grantor: u64,
}

/// One entry of the grant-cooldown ledger: who granted and when.
#[derive(Clone, Copy, Debug, PartialEq, Eq, Structural)]
pub struct GrantorHistoryRecord {
    pub grant_ts: u64,
    pub grantor: u64,
}

/// The single process-wide record: the current round window, the finalization
/// flag, and the cumulative token supply counters.
#[derive(Clone, Copy, Debug, PartialEq, Eq, Structural)]
pub struct Platform {
    pub round_start: u64,
    pub is_final: bool,
    pub round_duration: u64,
    pub fctr_token_total_amount: u64,
    pub bcdev_token_total_amount: u64,
    pub authority: u64,
}

/// Per-participant static configuration, created at registration.
#[derive(Clone, Copy, Debug, PartialEq, Eq, Structural)]
pub struct User {
    pub grant_program: bool,
    pub total_fctr_amount: u64,
    pub authority: u64,
}

/// Per-participant staking ledger: validity, deposit, stake window, grantor
/// lists, reward rate, and the grant-cooldown history.
pub struct Receipt {
    pub is_valid: bool,
    pub stake_duration: u64,
    pub stake_ts: u64,
    pub amount_deposited: u64,
    /// Fixed-point reward rate in units of `1 / APR_SCALE`.
    pub apr: u64,
    pub grantors: Vec<GrantorRecord>,
    pub grantors_history: Vec<GrantorHistoryRecord>,
    pub next_round_grantors: Vec<GrantorRecord>,
    pub authority: u64,
}

/// The mathematical value of a `Receipt`: the same fields with the bounded
/// vectors abstracted to sequences.
#[verifier::ext_equal]
pub ghost struct ReceiptView {
    pub is_valid: bool,
    pub stake_duration: u64,
    pub stake_ts: u64,
    pub amount_deposited: u64,
    pub apr: u64,
    pub grantors: Seq<GrantorRecord>,
    pub grantors_history: Seq<GrantorHistoryRecord>,
    pub next_round_grantors: Seq<GrantorRecord>,
    pub authority: u64,
}

impl View for Receipt {
    type V = ReceiptView;

    open spec fn view(&self) -> ReceiptView {
        ReceiptView {
            is_valid: self.is_valid,
            stake_duration: self.stake_duration,
            stake_ts: self.stake_ts,
            amount_deposited: self.amount_deposited,
            apr: self.apr,
            grantors: self.grantors@,
            grantors_history: self.grantors_history@,
            next_round_grantors: self.next_round_grantors@,
            authority: self.authority,
        }
    }
}

/// Sum of the granted amounts of a grantor list.
pub open spec fn sum_amounts(s: Seq<GrantorRecord>) -> int
    decreases s.len(),
{
    if s.len() == 0 {
        0
    } else {
        sum_amounts(s.drop_last()) + s.last().amount
    }
}

/// No two records of the list name the same grantor.
pub open spec fn distinct_grantors(s: Seq<GrantorRecord>) -> bool {
    forall|i: int, j: int|
        0 <= i < j < s.len() ==> (#[trigger] s[i]).grantor != (#[trigger] s[j]).grantor
}

/// Some record of the list names this grantor.
pub open spec fn contains_grantor(s: Seq<GrantorRecord>, id: u64) -> bool {
    exists|i: int| 0 <= i < s.len() && (#[trigger] s[i]).grantor == id
}

/// Every record of the list carries a positive amount.
pub open spec fn positive_amounts(s: Seq<GrantorRecord>) -> bool {
    forall|i: int| 0 <= i < s.len() ==> (#[trigger] s[i]).amount >= 1
}

/// Some cooldown entry names this grantor.
pub open spec fn history_contains(s: Seq<GrantorHistoryRecord>, id: u64) -> bool {
    exists|i: int| 0 <= i < s.len() && (#[trigger] s[i]).grantor == id
}

/// The position of this grantor's record; meaningful when the list contains
/// the grantor and the records are mutually exclusive by identity.
pub open spec fn grantor_index(s: Seq<GrantorRecord>, id: u64) -> int {
    choose|i: int| 0 <= i < s.len() && (#[trigger] s[i]).grantor == id
}

/// In a list of mutually exclusive grantors, any position holding `id` is the
/// one `grantor_index` names.
pub proof fn lemma_grantor_index_unique(s: Seq<GrantorRecord>, id: u64, i: int)
    requires
        distinct_grantors(s),
        0 <= i < s.len(),
        s[i].grantor == id,
    ensures
        contains_grantor(s, id),
        grantor_index(s, id) == i,
{
    assert(contains_grantor(s, id));
    let j = grantor_index(s, id);
    if i < j {
        assert(s[i].grantor != s[j].grantor);
    } else if j < i {
        assert(s[j].grantor != s[i].grantor);
    }
}

/// Find the record of grantor `id`, scanning from the front.
pub fn find_grantor(v: &Vec<GrantorRecord>, id: u64) -> (r: Option<usize>)
    ensures
        match r {
            Some(i) => {
                &&& i < v@.len()
                &&& v@[i as int].grantor == id
                &&& forall|j: int| 0 <= j < i ==> (#[trigger] v@[j]).grantor != id
            },
            None => !contains_grantor(v@, id),
        },
{
    let n = v.len();
    let mut i: usize = 0;
    while i < n
        invariant
            n == v@.len(),
            0 <= i <= n,
            forall|j: int| 0 <= j < i ==> (#[trigger] v@[j]).grantor != id,
        decreases n - i,
    {
        if v[i].grantor == id {
            return Some(i);
        }
        i = i + 1;
    }
    None
}

/// Whether some record of the list names grantor `id`.
pub fn has_grantor(v: &Vec<GrantorRecord>, id: u64) -> (b: bool)
    ensures
        b == contains_grantor(v@, id),
{
    find_grantor(v, id).is_some()
}

/// Whether some cooldown entry names grantor `id`.
pub fn has_history_entry(v: &Vec<GrantorHistoryRecord>, id: u64) -> (b: bool)
    ensures
        b == history_contains(v@, id),
{
    let n = v.len();
    let mut i: usize = 0;
    while i < n
        invariant
            n == v@.len(),
            0 <= i <= n,
            forall|j: int| 0 <= j < i ==> (#[trigger] v@[j]).grantor != id,
        decreases n - i,
    {
        if v[i].grantor == id {
            return true;
        }
        i = i + 1;
    }
    false
}

/// Removing a record keeps the remaining grantors mutually exclusive.
pub proof fn lemma_distinct_remove(s: Seq<GrantorRecord>, i: int)
    requires
        distinct_grantors(s),
        0 <= i < s.len(),
    ensures
        distinct_grantors(s.remove(i)),
{
    let r = s.remove(i);
    s.remove_ensures(i);
    assert forall|a: int, b: int| 0 <= a < b < r.len() implies (#[trigger] r[a]).grantor != (
    #[trigger] r[b]).grantor by {
        if b < i {
        } else if a < i <= b {
            assert(r[b] == s[b + 1]);
        } else {
            assert(r[a] == s[a + 1]);
            assert(r[b] == s[b + 1]);
        }
    }
}

/// In a list of mutually exclusive grantors, removing position `i` removes
/// exactly that record: everything else stays, and nothing else equals it.
pub proof fn lemma_remove_contains(s: Seq<GrantorRecord>, i: int)
    requires
        distinct_grantors(s),
        0 <= i < s.len(),
    ensures
        forall|g: GrantorRecord| #[trigger]
            s.remove(i).contains(g) <==> (s.contains(g) && g != s[i]),
{
    let r = s.remove(i);
    s.remove_ensures(i);
    assert forall|g: GrantorRecord| #[trigger] r.contains(g) implies (s.contains(g) && g != s[i]) by {
        let j = choose|j: int| 0 <= j < r.len() && r[j] == g;
        if j < i {
            assert(s[j] == g);
            assert(s[j].grantor != s[i].grantor);
        } else {
            assert(s[j + 1] == g);
            assert(s[j + 1].grantor != s[i].grantor);
        }
    }
    assert forall|g: GrantorRecord| s.contains(g) && g != s[i] implies #[trigger] r.contains(g) by {
        let j = choose|j: int| 0 <= j < s.len() && s[j] == g;
        if j < i {
            assert(r[j] == g);
        } else if j > i {
            assert(r[j - 1] == g);
        }
    }
}

/// A grantor-list sum is never negative.
pub proof fn lemma_sum_nonneg(s: Seq<GrantorRecord>)
    ensures
        sum_amounts(s) >= 0,
    decreases s.len(),
{
    if s.len() > 0 {
        lemma_sum_nonneg(s.drop_last());
    }
}

/// Appending a record grows the sum by its amount.
pub proof fn lemma_sum_push(s: Seq<GrantorRecord>, g: GrantorRecord)
    ensures
        sum_amounts(s.push(g)) == sum_amounts(s) + g.amount,
{
    assert(s.push(g).drop_last() =~= s);
}

/// The sum of a prefix grows by the next element's amount.
pub proof fn lemma_sum_take_succ(s: Seq<GrantorRecord>, i: int)
    requires
        0 <= i < s.len(),
    ensures
        sum_amounts(s.take(i + 1)) == sum_amounts(s.take(i)) + s[i].amount,
{
    assert(s.take(i + 1).drop_last() =~= s.take(i));
}

/// A prefix never sums to more than the whole list.
pub proof fn lemma_sum_take_le(s: Seq<GrantorRecord>, i: int)
    requires
        0 <= i <= s.len(),
    ensures
        sum_amounts(s.take(i)) <= sum_amounts(s),
    decreases s.len() - i,
{
    if i == s.len() {
        assert(s.take(i) =~= s);
    } else {
        lemma_sum_take_succ(s, i);
        lemma_sum_take_le(s, i + 1);
    }
}

/// Removing a record shrinks the sum by its amount.
pub proof fn lemma_sum_remove(s: Seq<GrantorRecord>, i: int)
    requires
        0 <= i < s.len(),
    ensures
        sum_amounts(s.remove(i)) == sum_amounts(s) - s[i].amount,
    decreases s.len(),
{
    if i == s.len() - 1 {
        assert(s.remove(i) =~= s.drop_last());
    } else {
        assert(s.remove(i).drop_last() =~= s.drop_last().remove(i));
        assert(s.remove(i).last() == s.last());
        lemma_sum_remove(s.drop_last(), i);
    }
}

/// No single record's amount exceeds the list's sum.
pub proof fn lemma_sum_element_le(s: Seq<GrantorRecord>, i: int)
    requires
        0 <= i < s.len(),
    ensures
        s[i].amount <= sum_amounts(s),
{
    lemma_sum_remove(s, i);
    lemma_sum_nonneg(s.remove(i));
}

/// Two lists with the same records, counted with multiplicity, have the same
/// sum.
pub proof fn lemma_sum_eq_multiset(s1: Seq<GrantorRecord>, s2: Seq<GrantorRecord>)
    requires
        s1.to_multiset() == s2.to_multiset(),
    ensures
        sum_amounts(s1) == sum_amounts(s2),
    decreases s1.len(),
{
    broadcast use vstd::seq_lib::group_to_multiset_ensures;

    if s1.len() == 0 {
        assert(s2.to_multiset().len() == 0);
        assert(s2.len() == 0);
    } else {
        let g = s1.last();
        assert(s1.contains(g));
        assert(s1.to_multiset().count(g) > 0);
        assert(s2.to_multiset().count(g) > 0);
        assert(s2.contains(g));
        let j = choose|j: int| 0 <= j < s2.len() && s2[j] == g;
        let s1p = s1.drop_last();
        let s2p = s2.remove(j);
        assert(s1p =~= s1.remove(s1.len() - 1));
        assert(s1p.to_multiset() =~= s1.to_multiset().remove(g));
        assert(s2p.to_multiset() =~= s2.to_multiset().remove(g));
        lemma_sum_remove(s2, j);
        lemma_sum_eq_multiset(s1p, s2p);
    }
}

impl ReceiptView {
    /// Structural well-formedness: the bounded lists respect their capacity,
    /// grantors are mutually exclusive by identity, every grant is positive,
    /// a valid receipt's deposit covers the granted amounts, and an invalid
    /// receipt backs no active grantors.
    pub open spec fn wf(self) -> bool {
        &&& self.grantors.len() <= MAX_ACTIVE_GRANTORS as nat
        &&& self.next_round_grantors.len() <= MAX_ACTIVE_GRANTORS as nat
        &&& self.grantors_history.len() <= MAX_GRANTORS_HISTORY as nat
        &&& distinct_grantors(self.grantors)
        &&& distinct_grantors(self.next_round_grantors)
        &&& positive_amounts(self.grantors)
        &&& positive_amounts(self.next_round_grantors)
        &&& (self.is_valid ==> sum_amounts(self.grantors) <= self.amount_deposited)
        &&& (!self.is_valid ==> self.grantors.len() == 0)
    }

    /// The share of the deposit that is the staker's own: what remains after
    /// the currently active grants are taken back out.
    pub open spec fn own_principal(self) -> int {
        self.amount_deposited - sum_amounts(self.grantors)
    }
}

impl Platform {
    /// Structural well-formedness: a round has a positive length.
    pub open spec fn wf(self) -> bool {
        self.round_duration >= 1
    }

    /// The instant the current round window closes.
    pub open spec fn round_end(self) -> int {
        self.round_start + self.round_duration
    }

    /// A fresh platform record: counters cleared, no round started, not
    /// final. The round length is fixed here for the platform's lifetime.
    pub fn new(authority: u64, round_duration: u64) -> (p: Platform)
        requires
            round_duration >= 1,
        ensures
            p == (Platform {
                round_start: 0,
                is_final: false,
                round_duration,
                fctr_token_total_amount: 0,
                bcdev_token_total_amount: 0,
                authority,
            }),
            p.wf(),
    {
        Platform {
            round_start: 0,
            is_final: false,
            round_duration,
            fctr_token_total_amount: 0,
            bcdev_token_total_amount: 0,
            authority,
        }
    }
}

impl User {
    /// A fresh participant record with no token balance.
    pub fn new(authority: u64, grant_program: bool) -> (u: User)
        ensures
            u == (User { grant_program, total_fctr_amount: 0, authority }),
    {
        User { grant_program, total_fctr_amount: 0, authority }
    }
}

impl Receipt {
    /// A fresh receipt: not staked, empty grantor lists, and the reward rate
    /// seeded at `INITIAL_APR`.
    pub fn new(authority: u64) -> (r: Receipt)
        ensures
            r@ == (ReceiptView {
                is_valid: false,
                stake_duration: 0,
                stake_ts: 0,
                amount_deposited: 0,
                apr: INITIAL_APR,
                grantors: Seq::empty(),
                grantors_history: Seq::empty(),
                next_round_grantors: Seq::empty(),
                authority,
            }),
            r@.wf(),
    {
        let r = Receipt {
            is_valid: false,
            stake_duration: 0,
            stake_ts: 0,
            amount_deposited: 0,
            apr: INITIAL_APR,
            grantors: Vec::new(),
            grantors_history: Vec::new(),
            next_round_grantors: Vec::new(),
            authority,
        };
        proof {
            assert(r@ =~= (ReceiptView {
                is_valid: false,
                stake_duration: 0,
                stake_ts: 0,
                amount_deposited: 0,
                apr: INITIAL_APR,
                grantors: Seq::empty(),
                grantors_history: Seq::empty(),
                next_round_grantors: Seq::empty(),
                authority,
            }));
        }
        r
    }
}

} // verus!
