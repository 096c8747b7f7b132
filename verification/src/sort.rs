//! Ordering grantors for settlement: ascending by `grant_duration`, records
//! of equal duration keeping their order of encounter.
//!
//! `stable_sort_by_duration` is the mathematical statement of that order —
//! an insertion sort that places each record after its equals. The runtime
//! sort is delegated to an outside routine whose documented behaviour is
//! exactly this.

use crate::state::GrantorRecord;
use itertools::Itertools;
use vstd::prelude::*;
use vstd::multiset::Multiset;

verus! {

/// Ascending by grant duration.
pub open spec fn sorted_by_duration(s: Seq<GrantorRecord>) -> bool {
    forall|i: int, j: int|
        0 <= i < j < s.len() ==> (#[trigger] s[i]).grant_duration <= (
        #[trigger] s[j]).grant_duration
}

/// Insert `g` behind every record whose duration does not exceed `g`'s: the
/// placement a stable insertion makes.
pub open spec fn insert_by_duration(s: Seq<GrantorRecord>, g: GrantorRecord) -> Seq<GrantorRecord>
    decreases s.len(),
{
    if s.len() == 0 {
        seq![g]
    } else if s.last().grant_duration <= g.grant_duration {
        s.push(g)
    } else {
        insert_by_duration(s.drop_last(), g).push(s.last())
    }
}

/// The stable ascending sort by grant duration: records of equal duration
/// keep their relative order.
pub open spec fn stable_sort_by_duration(s: Seq<GrantorRecord>) -> Seq<GrantorRecord>
    decreases s.len(),
{
    if s.len() == 0 {
        Seq::empty()
    } else {
        insert_by_duration(stable_sort_by_duration(s.drop_last()), s.last())
    }
}

/// A stable insertion into a sorted list keeps it sorted and adds exactly the
/// inserted record.
proof fn lemma_insert_by_duration_ensures(s: Seq<GrantorRecord>, g: GrantorRecord)
    requires
        sorted_by_duration(s),
    ensures
        sorted_by_duration(insert_by_duration(s, g)),
        insert_by_duration(s, g).len() == s.len() + 1,
        insert_by_duration(s, g).to_multiset() =~= s.to_multiset().insert(g),
        forall|x: GrantorRecord| #[trigger]
            insert_by_duration(s, g).contains(x) ==> s.contains(x) || x == g,
    decreases s.len(),
{
    broadcast use vstd::seq_lib::group_to_multiset_ensures;

    let out = insert_by_duration(s, g);
    if s.len() == 0 {
        assert(out =~= Seq::empty().push(g));
        assert(Seq::<GrantorRecord>::empty().to_multiset() =~= Multiset::empty());
    } else if s.last().grant_duration <= g.grant_duration {
        assert forall|x: GrantorRecord| #[trigger] out.contains(x) implies s.contains(x) || x
            == g by {
            let j = choose|j: int| 0 <= j < out.len() && out[j] == x;
            if j < s.len() {
                assert(s[j] == x);
            }
        }
    } else {
        let inner = insert_by_duration(s.drop_last(), g);
        lemma_insert_by_duration_ensures(s.drop_last(), g);
        assert forall|x: GrantorRecord| #[trigger] out.contains(x) implies s.contains(x) || x
            == g by {
            let j = choose|j: int| 0 <= j < out.len() && out[j] == x;
            if j < inner.len() {
                assert(inner.contains(x));
                if s.drop_last().contains(x) {
                    let k = choose|k: int| 0 <= k < s.drop_last().len() && s.drop_last()[k] == x;
                    assert(s[k] == x);
                }
            } else {
                assert(x == s.last());
                assert(s[s.len() - 1] == x);
            }
        }
        assert forall|i: int, j: int| 0 <= i < j < out.len() implies (
        #[trigger] out[i]).grant_duration <= (#[trigger] out[j]).grant_duration by {
            if j == out.len() - 1 {
                assert(out[j] == s.last());
                assert(inner.contains(out[i]));
                if s.drop_last().contains(out[i]) {
                    let k = choose|k: int|
                        0 <= k < s.drop_last().len() && s.drop_last()[k] == out[i];
                    assert(s[k].grant_duration <= s.last().grant_duration);
                }
            }
        }
        assert(s.drop_last().to_multiset().insert(s.last()) =~= s.to_multiset()) by {
            assert(s.drop_last().push(s.last()) =~= s);
        }
        assert(out.to_multiset() =~= inner.to_multiset().insert(s.last()));
    }
}

/// The stable sort orders by duration and is a permutation: same records,
/// counted with multiplicity, and the same length.
pub proof fn lemma_stable_sort_ensures(s: Seq<GrantorRecord>)
    ensures
        sorted_by_duration(stable_sort_by_duration(s)),
        stable_sort_by_duration(s).to_multiset() =~= s.to_multiset(),
        stable_sort_by_duration(s).len() == s.len(),
    decreases s.len(),
{
    broadcast use vstd::seq_lib::group_to_multiset_ensures;

    if s.len() == 0 {
        assert(stable_sort_by_duration(s) =~= Seq::empty());
        assert(s.to_multiset() =~= Multiset::empty());
    } else {
        lemma_stable_sort_ensures(s.drop_last());
        lemma_insert_by_duration_ensures(stable_sort_by_duration(s.drop_last()), s.last());
        assert(s.drop_last().to_multiset().insert(s.last()) =~= s.to_multiset()) by {
            assert(s.drop_last().push(s.last()) =~= s);
        }
    }
}

/// Relies on itertools' `sorted_by` (via `slice::sort_by`): an ascending sort
/// under the given comparator, documented stable — records comparing equal
/// keep their order of encounter. With the comparator reading
/// `grant_duration`, that is precisely the stable ascending sort by duration.
#[verifier::external_body]
pub fn sort_grantors_by_duration(v: Vec<GrantorRecord>) -> (r: Vec<GrantorRecord>)
    ensures
        r@ == stable_sort_by_duration(v@),
{
    v.into_iter().sorted_by(|a, b| a.grant_duration.cmp(&b.grant_duration)).collect()
}

} // verus!
