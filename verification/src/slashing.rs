//! Slashing Evidence Evaluator: the validator indices that signed both
//! attestations of an attester-slashing report and are still slashable.

use vstd::prelude::*;
use vstd::seq_lib::group_filter_ensures;
use crate::types::{AttesterSlashing, State, spec_is_slashable_validator};

verus! {

/// The retention test of the evaluator, as a predicate over one index of
/// the first attestation: the index was also signed by the other
/// attestation, and its validator is slashable at the state's epoch.
pub open spec fn spec_slashable_filter(st: State, other: Seq<u64>) -> spec_fn(u64) -> bool {
    |idx: u64|
        other.contains(idx) && spec_is_slashable_validator(
            st.validators[idx as int],
            st.spec_current_epoch(),
        )
}

/// The slashable intersection: the indices of the first attestation,
/// in their stored (ascending) order, that the second attestation also
/// names and whose validator is slashable at the state's current epoch.
pub open spec fn spec_slashable_indices(st: State, s: AttesterSlashing) -> Seq<u64> {
    s.attestation_1.attesting_indices@.filter(
        spec_slashable_filter(st, s.attestation_2.attesting_indices@),
    )
}

fn contains_u64(v: &Vec<u64>, x: u64) -> (r: bool)
    ensures
        r == v@.contains(x),
{
    let mut i: usize = 0;
    while i < v.len()
        invariant
            0 <= i <= v@.len(),
            forall|j: int| 0 <= j < i ==> v@[j] != x,
        decreases v@.len() - i,
    {
        if v[i] == x {
            assert(v@.contains(x)) by { assert(v@[i as int] == x); }
            return true;
        }
        i = i + 1;
    }
    false
}

/// Computes the ordered set of validator indices named by both
/// attestations of `attester_slashing` and slashable at the state's
/// current epoch; ascending, hence deterministic on every node.
pub fn get_slashable_attester_indices(
    beacon_state: &State,
    attester_slashing: &AttesterSlashing,
) -> (r: Vec<u64>)
    requires
        attester_slashing.wf(beacon_state.validators@.len() as int),
    ensures
        r@ == spec_slashable_indices(*beacon_state, *attester_slashing),
        strictly_ascending(r@),
{
    proof {
        lemma_filter_keeps_ascending(
            attester_slashing.attestation_1.attesting_indices@,
            spec_slashable_filter(
                *beacon_state,
                attester_slashing.attestation_2.attesting_indices@,
            ),
        );
    }
    let epoch = beacon_state.get_current_epoch();
    let a1 = &attester_slashing.attestation_1.attesting_indices;
    let a2 = &attester_slashing.attestation_2.attesting_indices;
    let ghost pred = spec_slashable_filter(*beacon_state, a2@);
    let mut out: Vec<u64> = Vec::new();
    let mut i: usize = 0;
    proof {
        reveal(Seq::filter);
        assert(a1@.take(0) =~= Seq::<u64>::empty());
    }
    while i < a1.len()
        invariant
            0 <= i <= a1@.len(),
            a1 == attester_slashing.attestation_1.attesting_indices,
            a2 == attester_slashing.attestation_2.attesting_indices,
            attester_slashing.wf(beacon_state.validators@.len() as int),
            epoch == beacon_state.spec_current_epoch(),
            pred == spec_slashable_filter(*beacon_state, a2@),
            out@ == a1@.take(i as int).filter(pred),
        decreases a1@.len() - i,
    {
        let idx = a1[i];
        let in_other = contains_u64(a2, idx);
        let keep = if in_other {
            let nvals = beacon_state.validators.len();
            assert(idx < nvals as u64);
            let v = &beacon_state.validators[idx as usize];
            v.is_slashable_validator(epoch)
        } else {
            false
        };
        if keep {
            out.push(idx);
        }
        proof {
            reveal(Seq::filter);
            assert(a1@.take(i as int + 1).drop_last() =~= a1@.take(i as int));
            assert(a1@.take(i as int + 1).last() == idx);
            assert(pred(idx) == (a2@.contains(idx) && spec_is_slashable_validator(
                beacon_state.validators@[idx as int],
                beacon_state.spec_current_epoch(),
            )));
            assert(keep == pred(idx));
        }
        i = i + 1;
    }
    proof {
        assert(a1@.take(a1@.len() as int) =~= a1@);
    }
    out
}

/// A sequence is strictly ascending.
pub open spec fn strictly_ascending(s: Seq<u64>) -> bool {
    forall|i: int, j: int| 0 <= i < j < s.len() ==> s[i] < s[j]
}

/// Filtering keeps a strictly ascending sequence strictly ascending.
proof fn lemma_filter_keeps_ascending(s: Seq<u64>, pred: spec_fn(u64) -> bool)
    requires
        strictly_ascending(s),
    ensures
        strictly_ascending(s.filter(pred)),
    decreases s.len(),
{
    broadcast use group_filter_ensures;

    reveal(Seq::filter);
    if s.len() > 0 {
        let rest = s.drop_last();
        assert(strictly_ascending(rest));
        lemma_filter_keeps_ascending(rest, pred);
        let f = rest.filter(pred);
        if pred(s.last()) {
            assert forall|i: int, j: int|
                0 <= i < j < s.filter(pred).len() implies s.filter(pred)[i] < s.filter(
                pred,
            )[j] by {
                if j < f.len() {
                } else {
                    assert(s.filter(pred)[j] == s.last());
                    assert(f.contains(f[i]));
                    rest.lemma_filter_contains_rev(pred, f[i]);
                    let k = choose|k: int| 0 <= k < rest.len() && rest[k] == f[i];
                    assert(rest[k] < s.last());
                }
            }
        }
    }
}

/// Two strictly ascending sequences with the same members are equal.
proof fn lemma_ascending_same_members(s1: Seq<u64>, s2: Seq<u64>)
    requires
        strictly_ascending(s1),
        strictly_ascending(s2),
        forall|x: u64| s1.contains(x) <==> s2.contains(x),
    ensures
        s1 == s2,
    decreases s1.len(),
{
    if s1.len() == 0 {
        if s2.len() > 0 {
            assert(s2.contains(s2[0]));
            assert(false);
        }
        assert(s1 =~= s2);
    } else {
        assert(s1.contains(s1[0]));
        assert(s2.contains(s1[0]));
        if s2.len() == 0 {
            assert(false);
        }
        // The first elements are mutual minima, so they agree.
        let i = choose|i: int| 0 <= i < s2.len() && s2[i] == s1[0];
        let j = choose|j: int| 0 <= j < s1.len() && s1[j] == s2[0];
        assert(s2.contains(s2[0]));
        assert(s1.contains(s2[0]));
        assert(s2[0] <= s2[i] && s1[0] <= s1[j]);
        assert(s1[0] == s2[0]);
        let t1 = s1.drop_first();
        let t2 = s2.drop_first();
        assert forall|x: u64| t1.contains(x) implies t2.contains(x) by {
            let k = choose|k: int| 0 <= k < t1.len() && t1[k] == x;
            assert(s1[k + 1] == x);
            assert(s1.contains(x));
            assert(s2.contains(x));
            let m = choose|m: int| 0 <= m < s2.len() && s2[m] == x;
            assert(x > s1[0]);
            assert(m != 0);
            assert(t2[m - 1] == x);
        }
        assert forall|x: u64| t2.contains(x) implies t1.contains(x) by {
            let k = choose|k: int| 0 <= k < t2.len() && t2[k] == x;
            assert(s2[k + 1] == x);
            assert(s2.contains(x));
            assert(s1.contains(x));
            let m = choose|m: int| 0 <= m < s1.len() && s1[m] == x;
            assert(x > s2[0]);
            assert(m != 0);
            assert(t1[m - 1] == x);
        }
        assert(strictly_ascending(t1)) by {
            assert(forall|i: int, j: int|
                0 <= i < j < t1.len() ==> t1[i] == s1[i + 1] && t1[j] == s1[j + 1]);
        }
        assert(strictly_ascending(t2)) by {
            assert(forall|i: int, j: int|
                0 <= i < j < t2.len() ==> t2[i] == s2[i + 1] && t2[j] == s2[j + 1]);
        }
        lemma_ascending_same_members(t1, t2);
        assert forall|i: int| 0 <= i < s1.len() implies s1[i] == s2[i] by {
            if i > 0 {
                assert(t1[i - 1] == s1[i]);
                assert(t2[i - 1] == s2[i]);
            }
        }
        assert(s1 =~= s2);
    }
}

/// Law: the slashable intersection does not depend on the order of the
/// two attestations within the report. Swapping them yields the same
/// ordered index set.
pub proof fn lemma_slashable_indices_symmetric(
    st: State,
    s: AttesterSlashing,
    swapped: AttesterSlashing,
)
    requires
        s.wf(st.validators@.len() as int),
        swapped.attestation_1 == s.attestation_2,
        swapped.attestation_2 == s.attestation_1,
    ensures
        spec_slashable_indices(st, s) == spec_slashable_indices(st, swapped),
{
    broadcast use group_filter_ensures;

    let a1 = s.attestation_1.attesting_indices@;
    let a2 = s.attestation_2.attesting_indices@;
    let f1 = a1.filter(spec_slashable_filter(st, a2));
    let f2 = a2.filter(spec_slashable_filter(st, a1));
    lemma_filter_keeps_ascending(a1, spec_slashable_filter(st, a2));
    lemma_filter_keeps_ascending(a2, spec_slashable_filter(st, a1));
    assert forall|x: u64| f1.contains(x) implies f2.contains(x) by {
        a1.lemma_filter_contains_rev(spec_slashable_filter(st, a2), x);
        let i = choose|i: int| 0 <= i < f1.len() && f1[i] == x;
        assert(spec_slashable_filter(st, a2)(x));
        let j = choose|j: int| 0 <= j < a2.len() && a2[j] == x;
        assert(spec_slashable_filter(st, a1)(a2[j]));
        a2.lemma_filter_contains(spec_slashable_filter(st, a1), j);
    }
    assert forall|x: u64| f2.contains(x) implies f1.contains(x) by {
        a2.lemma_filter_contains_rev(spec_slashable_filter(st, a1), x);
        let i = choose|i: int| 0 <= i < f2.len() && f2[i] == x;
        assert(spec_slashable_filter(st, a1)(x));
        let j = choose|j: int| 0 <= j < a1.len() && a1[j] == x;
        assert(spec_slashable_filter(st, a2)(a1[j]));
        a1.lemma_filter_contains(spec_slashable_filter(st, a2), j);
    }
    lemma_ascending_same_members(f1, f2);
}

/// Law: a validator index named by both attestations but already
/// slashed, or outside its activation/withdrawal window, is excluded
/// from the slashable intersection.
pub proof fn lemma_epoch_gating_excludes(st: State, s: AttesterSlashing, idx: u64)
    requires
        !spec_is_slashable_validator(st.validators[idx as int], st.spec_current_epoch()),
    ensures
        !spec_slashable_indices(st, s).contains(idx),
{
    broadcast use group_filter_ensures;

    let f = spec_slashable_indices(st, s);
    if f.contains(idx) {
        let i = choose|i: int| 0 <= i < f.len() && f[i] == idx;
        assert(spec_slashable_filter(st, s.attestation_2.attesting_indices@)(f[i]));
        assert(false);
    }
}

} // verus!
