//! Reward Calculator: the four reward components a proposer earned for
//! a block, evaluated against the pre-block state, and their sum.

use vstd::prelude::*;
use vstd::seq_lib::group_filter_ensures;
use crate::types::{
    ApiError, Attestation, AttesterSlashing, Block, BlockId, BlockRewards, Committee,
    ProposerSlashing, State, StoreSnapshot,
};
use crate::accessor::{
    get_beacon_block_from_id, get_beacon_state, spec_block_from_id, spec_state_from_id,
};
use crate::slashing::{get_slashable_attester_indices, spec_slashable_indices};
use crate::{
    EFFECTIVE_BALANCE_INCREMENT, MAX_ATTESTATIONS, MAX_ATTESTER_SLASHINGS, MAX_ATTESTING_INDICES,
    MAX_EFFECTIVE_BALANCE, MAX_PROPOSER_SLASHINGS, PROPOSER_WEIGHT,
    SLOTS_PER_EPOCH, SYNC_COMMITTEE_SIZE, SYNC_REWARD_WEIGHT, WEIGHT_DENOMINATOR,
    WHISTLEBLOWER_REWARD_QUOTIENT,
};

verus! {

/// The protocol base reward of one validator: balance increments times
/// the state's base reward per increment.
pub open spec fn spec_base_reward(st: State, index: u64) -> int {
    (st.validators[index as int].effective_balance as int / (EFFECTIVE_BALANCE_INCREMENT as int))
        * (st.base_reward_per_increment as int)
}

/// The proposer's share of one attester's base reward.
pub open spec fn spec_proposer_reward(st: State, index: u64) -> int {
    spec_base_reward(st, index) * (PROPOSER_WEIGHT as int) / ((WEIGHT_DENOMINATOR
        - PROPOSER_WEIGHT) as int)
}

/// The first committee recorded for (slot, index), if any.
pub open spec fn spec_find_committee(cs: Seq<Committee>, slot: u64, index: u64) -> Option<
    Committee,
>
    decreases cs.len(),
{
    if cs.len() == 0 {
        None
    } else if cs[0].slot == slot && cs[0].index == index {
        Some(cs[0])
    } else {
        spec_find_committee(cs.drop_first(), slot, index)
    }
}

/// The committee members whose participation bit is set, in committee
/// order.
pub open spec fn spec_selected_members(members: Seq<u64>, bits: Seq<bool>) -> Seq<u64>
    decreases members.len(),
{
    if members.len() == 0 {
        Seq::empty()
    } else {
        let rest = spec_selected_members(members.drop_last(), bits.drop_last());
        if bits.len() > 0 && bits.last() {
            rest.push(members.last())
        } else {
            rest
        }
    }
}

/// Committee resolution of one attestation: the attesting-index set, or
/// nothing when the referenced committee cannot be derived or the
/// bitfield does not fit it.
pub open spec fn spec_attesting_indices(st: State, a: Attestation) -> Option<Seq<u64>> {
    match spec_find_committee(st.committees@, a.data.slot, a.data.index) {
        None => None,
        Some(c) => if a.aggregation_bits@.len() == c.members@.len() {
            Some(spec_selected_members(c.members@, a.aggregation_bits@))
        } else {
            None
        },
    }
}

/// Sum of the proposer rewards of the given attesting indices.
pub open spec fn spec_proposer_reward_sum(st: State, ids: Seq<u64>) -> int
    decreases ids.len(),
{
    if ids.len() == 0 {
        0
    } else {
        spec_proposer_reward_sum(st, ids.drop_last()) + spec_proposer_reward(st, ids.last())
    }
}

/// Reward contributed by one attestation: zero when its attesting-index
/// resolution fails (the documented best-effort degrade).
pub open spec fn spec_attestation_reward_one(st: State, a: Attestation) -> int {
    match spec_attesting_indices(st, a) {
        Some(ids) => spec_proposer_reward_sum(st, ids),
        None => 0,
    }
}

/// The attestation-inclusion component over a block body.
pub open spec fn spec_attestations_reward(st: State, atts: Seq<Attestation>) -> int
    decreases atts.len(),
{
    if atts.len() == 0 {
        0
    } else {
        spec_attestations_reward(st, atts.drop_last()) + spec_attestation_reward_one(
            st,
            atts.last(),
        )
    }
}

/// Number of set bits of the sync-committee participation bitfield.
pub open spec fn spec_count_set_bits(bits: Seq<bool>) -> int
    decreases bits.len(),
{
    if bits.len() == 0 {
        0
    } else {
        spec_count_set_bits(bits.drop_last()) + if bits.last() {
            1int
        } else {
            0int
        }
    }
}

/// Reward of one sync-committee participant, with every truncating
/// division in protocol order.
pub open spec fn spec_participant_reward(st: State) -> int {
    let total_active_increments = st.total_active_balance as int / (
    EFFECTIVE_BALANCE_INCREMENT as int);
    let total_base_rewards = (st.base_reward_per_increment as int) * total_active_increments;
    let max_participant_rewards = total_base_rewards * (SYNC_REWARD_WEIGHT as int) / (
    WEIGHT_DENOMINATOR as int) / (SLOTS_PER_EPOCH as int);
    max_participant_rewards / (SYNC_COMMITTEE_SIZE as int)
}

/// The proposer's share of one participant's sync reward.
pub open spec fn spec_sync_proposer_share(st: State) -> int {
    spec_participant_reward(st) * (PROPOSER_WEIGHT as int) / ((WEIGHT_DENOMINATOR
        - PROPOSER_WEIGHT) as int)
}

/// The sync-committee component: the proposer share scaled by the
/// number of set participation bits.
pub open spec fn spec_sync_committee_reward(st: State, bits: Seq<bool>) -> int {
    spec_count_set_bits(bits) * spec_sync_proposer_share(st)
}

/// The proposer-slashing component: the full effective balance of each
/// reported proposer at inclusion time.
pub open spec fn spec_proposer_slashings_reward(st: State, ps: Seq<ProposerSlashing>) -> int
    decreases ps.len(),
{
    if ps.len() == 0 {
        0
    } else {
        spec_proposer_slashings_reward(st, ps.drop_last()) + st.validators[ps.last().proposer_index
            as int].effective_balance as int
    }
}

/// Whistleblower reward over a set of slashable indices.
pub open spec fn spec_whistleblower_sum(st: State, ids: Seq<u64>) -> int
    decreases ids.len(),
{
    if ids.len() == 0 {
        0
    } else {
        spec_whistleblower_sum(st, ids.drop_last()) + st.validators[ids.last() as int]
            .effective_balance as int / (WHISTLEBLOWER_REWARD_QUOTIENT as int)
    }
}

/// The attester-slashing component over a block body.
pub open spec fn spec_attester_slashings_reward(st: State, sls: Seq<AttesterSlashing>) -> int
    decreases sls.len(),
{
    if sls.len() == 0 {
        0
    } else {
        spec_attester_slashings_reward(st, sls.drop_last()) + spec_whistleblower_sum(
            st,
            spec_slashable_indices(st, sls.last()),
        )
    }
}

/// The proposer reward of one validator is bounded by its (capped)
/// effective balance.
pub proof fn lemma_proposer_reward_bound(st: State, index: u64)
    requires
        st.wf(),
        index < st.validators@.len(),
    ensures
        0 <= spec_proposer_reward(st, index) <= MAX_EFFECTIVE_BALANCE,
{
    let eb = st.validators[index as int].effective_balance as int;
    let inc = EFFECTIVE_BALANCE_INCREMENT as int;
    let d = eb / inc;
    let bri = st.base_reward_per_increment as int;
    assert(0 <= d <= 2048);
    assert(0 <= d * bri <= 2048 * 1_000_000_000) by (nonlinear_arith)
        requires
            0 <= d <= 2048,
            0 <= bri <= 1_000_000_000,
    ;
}

proof fn lemma_proposer_reward_sum_bound(st: State, ids: Seq<u64>)
    requires
        st.wf(),
        forall|j: int| 0 <= j < ids.len() ==> (#[trigger] ids[j]) < st.validators@.len(),
    ensures
        0 <= spec_proposer_reward_sum(st, ids) <= ids.len() * MAX_EFFECTIVE_BALANCE,
    decreases ids.len(),
{
    if ids.len() == 0 {
    } else {
        lemma_proposer_reward_sum_bound(st, ids.drop_last());
        lemma_proposer_reward_bound(st, ids.last());
        assert((ids.len() - 1) * MAX_EFFECTIVE_BALANCE + MAX_EFFECTIVE_BALANCE == ids.len()
            * MAX_EFFECTIVE_BALANCE) by (nonlinear_arith);
    }
}

/// A committee found for (slot, index) is one of the state's committees.
proof fn lemma_find_committee_member(cs: Seq<Committee>, slot: u64, index: u64)
    requires
        spec_find_committee(cs, slot, index) is Some,
    ensures
        exists|i: int|
            0 <= i < cs.len() && cs[i] == spec_find_committee(cs, slot, index)->Some_0,
    decreases cs.len(),
{
    if cs.len() == 0 {
    } else if cs[0].slot == slot && cs[0].index == index {
        assert(cs[0] == spec_find_committee(cs, slot, index)->Some_0);
    } else {
        lemma_find_committee_member(cs.drop_first(), slot, index);
        let i = choose|i: int|
            0 <= i < cs.drop_first().len() && cs.drop_first()[i] == spec_find_committee(
                cs,
                slot,
                index,
            )->Some_0;
        assert(cs[i + 1] == cs.drop_first()[i]);
    }
}

/// Selected members are a subset of the committee, no more numerous.
proof fn lemma_selected_members_props(members: Seq<u64>, bits: Seq<bool>)
    ensures
        spec_selected_members(members, bits).len() <= members.len(),
        forall|x: u64|
            #[trigger] spec_selected_members(members, bits).contains(x) ==> members.contains(x),
    decreases members.len(),
{
    if members.len() == 0 {
    } else {
        lemma_selected_members_props(members.drop_last(), bits.drop_last());
        let sel = spec_selected_members(members, bits);
        let rest = spec_selected_members(members.drop_last(), bits.drop_last());
        assert forall|x: u64| #[trigger] sel.contains(x) implies members.contains(x) by {
            if rest.contains(x) {
                assert(members.drop_last().contains(x));
                let k = choose|k: int|
                    0 <= k < members.drop_last().len() && members.drop_last()[k] == x;
                assert(members[k] == x);
            } else {
                assert(bits.len() > 0 && bits.last());
                let j = choose|j: int| 0 <= j < sel.len() && sel[j] == x;
                assert(sel == rest.push(members.last()));
                assert(x == members.last());
                assert(members[members.len() - 1] == x);
            }
        }
    }
}

/// A successful resolution names at most one committee's worth of
/// registry indices.
proof fn lemma_attesting_indices_bounded(st: State, a: Attestation)
    requires
        st.wf(),
        spec_attesting_indices(st, a) is Some,
    ensures
        spec_attesting_indices(st, a)->Some_0.len() <= MAX_ATTESTING_INDICES,
        forall|j: int|
            0 <= j < spec_attesting_indices(st, a)->Some_0.len() ==> (
            #[trigger] spec_attesting_indices(st, a)->Some_0[j]) < st.validators@.len(),
{
    let c = spec_find_committee(st.committees@, a.data.slot, a.data.index)->Some_0;
    lemma_find_committee_member(st.committees@, a.data.slot, a.data.index);
    let i = choose|i: int| 0 <= i < st.committees@.len() && st.committees@[i] == c;
    assert(c.wf(st.validators@.len() as int));
    lemma_selected_members_props(c.members@, a.aggregation_bits@);
    let ids = spec_attesting_indices(st, a)->Some_0;
    assert forall|j: int| 0 <= j < ids.len() implies (#[trigger] ids[j])
        < st.validators@.len() by {
        assert(ids.contains(ids[j]));
        assert(c.members@.contains(ids[j]));
        let k = choose|k: int| 0 <= k < c.members@.len() && c.members@[k] == ids[j];
    }
}

/// One attestation contributes a bounded, non-negative reward.
proof fn lemma_attestation_reward_one_bound(st: State, a: Attestation)
    requires
        st.wf(),
    ensures
        0 <= spec_attestation_reward_one(st, a) <= MAX_ATTESTING_INDICES * MAX_EFFECTIVE_BALANCE,
{
    match spec_attesting_indices(st, a) {
        Some(ids) => {
            lemma_attesting_indices_bounded(st, a);
            lemma_proposer_reward_sum_bound(st, ids);
            assert(ids.len() * MAX_EFFECTIVE_BALANCE <= MAX_ATTESTING_INDICES
                * MAX_EFFECTIVE_BALANCE) by (nonlinear_arith)
                requires
                    0 <= ids.len() <= MAX_ATTESTING_INDICES,
            ;
        },
        None => {},
    }
}

proof fn lemma_attestations_reward_bound(st: State, atts: Seq<Attestation>)
    requires
        st.wf(),
    ensures
        0 <= spec_attestations_reward(st, atts) <= atts.len() * (MAX_ATTESTING_INDICES
            * MAX_EFFECTIVE_BALANCE),
    decreases atts.len(),
{
    if atts.len() == 0 {
    } else {
        lemma_attestations_reward_bound(st, atts.drop_last());
        lemma_attestation_reward_one_bound(st, atts.last());
        assert((atts.len() - 1) * (MAX_ATTESTING_INDICES * MAX_EFFECTIVE_BALANCE)
            + MAX_ATTESTING_INDICES * MAX_EFFECTIVE_BALANCE == atts.len() * (MAX_ATTESTING_INDICES
            * MAX_EFFECTIVE_BALANCE)) by (nonlinear_arith);
    }
}

/// Locates the committee recorded for (slot, index), if any.
fn find_committee<'a>(cs: &'a Vec<Committee>, slot: u64, index: u64) -> (r: Option<&'a Committee>)
    ensures
        match r {
            Some(c) => spec_find_committee(cs@, slot, index) == Some(*c),
            None => spec_find_committee(cs@, slot, index) is None,
        },
{
    let mut i: usize = 0;
    assert(cs@.skip(0) =~= cs@);
    while i < cs.len()
        invariant
            0 <= i <= cs@.len(),
            spec_find_committee(cs@, slot, index) == spec_find_committee(
                cs@.skip(i as int),
                slot,
                index,
            ),
        decreases cs@.len() - i,
    {
        assert(cs@.skip(i as int)[0] == cs@[i as int]);
        if cs[i].slot == slot && cs[i].index == index {
            return Some(&cs[i]);
        }
        assert(cs@.skip(i as int).drop_first() =~= cs@.skip(i as int + 1));
        i = i + 1;
    }
    assert(cs@.skip(i as int).len() == 0);
    None
}

/// Resolves an attestation's attesting-index set against the state's
/// committee assignment; `None` when the committee cannot be derived or
/// the bitfield does not fit it.
pub fn get_attesting_indices(beacon_state: &State, attestation: &Attestation) -> (r: Option<
    Vec<u64>,
>)
    ensures
        match r {
            Some(v) => spec_attesting_indices(*beacon_state, *attestation) == Some(v@),
            None => spec_attesting_indices(*beacon_state, *attestation) is None,
        },
{
    let c = match find_committee(
        &beacon_state.committees,
        attestation.data.slot,
        attestation.data.index,
    ) {
        Some(c) => c,
        None => {
            return None;
        },
    };
    if attestation.aggregation_bits.len() != c.members.len() {
        return None;
    }
    let mut out: Vec<u64> = Vec::new();
    let mut i: usize = 0;
    proof {
        assert(c.members@.take(0) =~= Seq::<u64>::empty());
    }
    while i < c.members.len()
        invariant
            0 <= i <= c.members@.len(),
            c.members@.len() == attestation.aggregation_bits@.len(),
            out@ == spec_selected_members(
                c.members@.take(i as int),
                attestation.aggregation_bits@.take(i as int),
            ),
        decreases c.members@.len() - i,
    {
        if attestation.aggregation_bits[i] {
            out.push(c.members[i]);
        }
        proof {
            let m1 = c.members@.take(i as int + 1);
            let b1 = attestation.aggregation_bits@.take(i as int + 1);
            assert(m1.drop_last() =~= c.members@.take(i as int));
            assert(b1.drop_last() =~= attestation.aggregation_bits@.take(i as int));
            assert(m1.last() == c.members@[i as int]);
            assert(b1.last() == attestation.aggregation_bits@[i as int]);
        }
        i = i + 1;
    }
    proof {
        assert(c.members@.take(c.members@.len() as int) =~= c.members@);
        assert(attestation.aggregation_bits@.take(attestation.aggregation_bits@.len() as int)
            =~= attestation.aggregation_bits@);
    }
    Some(out)
}

/// The proposer's reward share for one attester, per the protocol
/// weights, from the attester's effective balance.
pub fn get_proposer_reward(beacon_state: &State, index: u64) -> (r: u64)
    requires
        beacon_state.wf(),
        index < beacon_state.validators@.len(),
    ensures
        r as int == spec_proposer_reward(*beacon_state, index),
{
    proof {
        lemma_proposer_reward_bound(*beacon_state, index);
    }
    let nvals = beacon_state.validators.len();
    assert(index < nvals as u64);
    let eb = beacon_state.validators[index as usize].effective_balance;
    let increments = eb / EFFECTIVE_BALANCE_INCREMENT;
    assert(increments <= 2048);
    assert(increments * beacon_state.base_reward_per_increment <= 2048 * 1_000_000_000)
        by (nonlinear_arith)
        requires
            0 <= increments <= 2048,
            0 <= beacon_state.base_reward_per_increment <= 1_000_000_000,
    ;
    let base_reward = increments * beacon_state.base_reward_per_increment;
    base_reward * PROPOSER_WEIGHT / (WEIGHT_DENOMINATOR - PROPOSER_WEIGHT)
}

/// Attestation-inclusion component: every attestation's resolved
/// attesters contribute their proposer reward; an attestation whose
/// resolution fails contributes zero and does not abort the rest.
pub fn get_attestations_rewards(beacon_state: &State, beacon_block: &Block) -> (r: u64)
    requires
        beacon_state.wf(),
        beacon_block.wf(*beacon_state),
    ensures
        r as int == spec_attestations_reward(*beacon_state, beacon_block.body.attestations@),
{
    let atts = &beacon_block.body.attestations;
    let mut attester_reward: u64 = 0;
    let mut i: usize = 0;
    proof {
        assert(atts@.take(0) =~= Seq::<Attestation>::empty());
    }
    while i < atts.len()
        invariant
            0 <= i <= atts@.len(),
            beacon_state.wf(),
            atts == beacon_block.body.attestations,
            atts@.len() <= MAX_ATTESTATIONS,
            attester_reward as int == spec_attestations_reward(*beacon_state, atts@.take(i as int)),
        decreases atts@.len() - i,
    {
        proof {
            lemma_attestations_reward_bound(*beacon_state, atts@.take(i as int));
            lemma_attestation_reward_one_bound(*beacon_state, atts@[i as int]);
            assert(i as int * (MAX_ATTESTING_INDICES * MAX_EFFECTIVE_BALANCE) <= MAX_ATTESTATIONS
                * (MAX_ATTESTING_INDICES * MAX_EFFECTIVE_BALANCE)) by (nonlinear_arith)
                requires
                    0 <= i as int <= MAX_ATTESTATIONS,
            ;
        }
        let one = attestation_reward_one(beacon_state, &atts[i]);
        attester_reward = attester_reward + one;
        proof {
            assert(atts@.take(i as int + 1).drop_last() =~= atts@.take(i as int));
            assert(atts@.take(i as int + 1).last() == atts@[i as int]);
        }
        i = i + 1;
    }
    proof {
        assert(atts@.take(atts@.len() as int) =~= atts@);
    }
    attester_reward
}

/// Reward of a single attestation, zero when resolution fails.
fn attestation_reward_one(beacon_state: &State, attestation: &Attestation) -> (r: u64)
    requires
        beacon_state.wf(),
    ensures
        r as int == spec_attestation_reward_one(*beacon_state, *attestation),
        r as int <= MAX_ATTESTING_INDICES * MAX_EFFECTIVE_BALANCE,
{
    proof {
        lemma_attestation_reward_one_bound(*beacon_state, *attestation);
    }
    let ids = match get_attesting_indices(beacon_state, attestation) {
        Some(ids) => ids,
        None => {
            return 0;
        },
    };
    proof {
        lemma_attesting_indices_bounded(*beacon_state, *attestation);
    }
    let mut sum: u64 = 0;
    let mut j: usize = 0;
    proof {
        assert(ids@.take(0) =~= Seq::<u64>::empty());
    }
    while j < ids.len()
        invariant
            0 <= j <= ids@.len(),
            beacon_state.wf(),
            ids@.len() <= MAX_ATTESTING_INDICES,
            forall|k: int| 0 <= k < ids@.len() ==> (#[trigger] ids@[k]) < beacon_state.validators@.len(),
            sum as int == spec_proposer_reward_sum(*beacon_state, ids@.take(j as int)),
        decreases ids@.len() - j,
    {
        proof {
            lemma_proposer_reward_sum_bound(*beacon_state, ids@.take(j as int));
            lemma_proposer_reward_bound(*beacon_state, ids@[j as int]);
            assert(j as int * MAX_EFFECTIVE_BALANCE <= MAX_ATTESTING_INDICES
                * MAX_EFFECTIVE_BALANCE) by (nonlinear_arith)
                requires
                    0 <= j as int <= MAX_ATTESTING_INDICES,
            ;
        }
        let one = get_proposer_reward(beacon_state, ids[j]);
        sum = sum + one;
        proof {
            assert(ids@.take(j as int + 1).drop_last() =~= ids@.take(j as int));
            assert(ids@.take(j as int + 1).last() == ids@[j as int]);
        }
        j = j + 1;
    }
    proof {
        assert(ids@.take(ids@.len() as int) =~= ids@);
    }
    sum
}

/// Number of set bits of a participation bitfield.
pub fn num_set_bits(bits: &Vec<bool>) -> (r: u64)
    ensures
        r as int == spec_count_set_bits(bits@),
        r <= bits@.len(),
{
    let mut r: u64 = 0;
    let mut i: usize = 0;
    proof {
        assert(bits@.take(0) =~= Seq::<bool>::empty());
    }
    while i < bits.len()
        invariant
            0 <= i <= bits@.len(),
            r as int == spec_count_set_bits(bits@.take(i as int)),
            r <= i,
        decreases bits@.len() - i,
    {
        proof {
            assert(bits@.take(i as int + 1).drop_last() =~= bits@.take(i as int));
            assert(bits@.take(i as int + 1).last() == bits@[i as int]);
        }
        if bits[i] {
            r = r + 1;
        }
        i = i + 1;
    }
    proof {
        assert(bits@.take(bits@.len() as int) =~= bits@);
    }
    r
}

proof fn lemma_count_set_bits_bounds(bits: Seq<bool>)
    ensures
        0 <= spec_count_set_bits(bits) <= bits.len(),
    decreases bits.len(),
{
    if bits.len() > 0 {
        lemma_count_set_bits_bounds(bits.drop_last());
    }
}

/// The sync proposer share stays far under the word size for a
/// well-formed state.
proof fn lemma_sync_proposer_share_bound(st: State)
    requires
        st.wf(),
    ensures
        0 <= spec_sync_proposer_share(st) <= 2_500_000_000_000,
{
    let tai = st.total_active_balance as int / (EFFECTIVE_BALANCE_INCREMENT as int);
    let bri = st.base_reward_per_increment as int;
    assert(0 <= tai <= 9_000_000_000);
    assert(0 <= bri * tai <= 9_000_000_000_000_000_000) by (nonlinear_arith)
        requires
            0 <= tai <= 9_000_000_000,
            0 <= bri <= 1_000_000_000,
    ;
}

/// The sync-committee component is non-negative and bounded for a
/// well-formed state and a full-size bitfield.
pub proof fn lemma_sync_committee_reward_bound(st: State, bits: Seq<bool>)
    requires
        st.wf(),
        bits.len() == SYNC_COMMITTEE_SIZE,
    ensures
        0 <= spec_sync_committee_reward(st, bits) <= SYNC_COMMITTEE_SIZE * 2_500_000_000_000,
{
    lemma_count_set_bits_bounds(bits);
    lemma_sync_proposer_share_bound(st);
    let c = spec_count_set_bits(bits);
    let p = spec_sync_proposer_share(st);
    assert(0 <= c * p <= SYNC_COMMITTEE_SIZE * 2_500_000_000_000) by (nonlinear_arith)
        requires
            0 <= c <= SYNC_COMMITTEE_SIZE,
            0 <= p <= 2_500_000_000_000,
    ;
}

/// Sync-committee component, with every truncating division in the
/// exact protocol order.
pub fn get_sync_committee_rewards(beacon_state: &State, beacon_block: &Block) -> (r: u64)
    requires
        beacon_state.wf(),
        beacon_block.wf(*beacon_state),
    ensures
        r as int == spec_sync_committee_reward(
            *beacon_state,
            beacon_block.body.sync_committee_bits@,
        ),
{
    let total_active_balance = beacon_state.total_active_balance;
    let total_active_increments = total_active_balance / EFFECTIVE_BALANCE_INCREMENT;
    assert(total_active_increments <= 9_000_000_000);
    assert(beacon_state.base_reward_per_increment * total_active_increments
        <= 9_000_000_000_000_000_000) by (nonlinear_arith)
        requires
            0 <= total_active_increments <= 9_000_000_000,
            0 <= beacon_state.base_reward_per_increment <= 1_000_000_000,
    ;
    let total_base_rewards = beacon_state.base_reward_per_increment * total_active_increments;
    let max_participant_rewards = total_base_rewards * SYNC_REWARD_WEIGHT / WEIGHT_DENOMINATOR
        / SLOTS_PER_EPOCH;
    let participant_reward = max_participant_rewards / SYNC_COMMITTEE_SIZE;
    let proposer_reward = participant_reward * PROPOSER_WEIGHT / (WEIGHT_DENOMINATOR
        - PROPOSER_WEIGHT);
    let n = num_set_bits(&beacon_block.body.sync_committee_bits);
    proof {
        lemma_count_set_bits_bounds(beacon_block.body.sync_committee_bits@);
        lemma_sync_proposer_share_bound(*beacon_state);
    }
    assert(n * proposer_reward <= 512 * 2_500_000_000_000) by (nonlinear_arith)
        requires
            0 <= n <= 512,
            0 <= proposer_reward <= 2_500_000_000_000,
    ;
    n * proposer_reward
}

proof fn lemma_proposer_slashings_reward_bound(st: State, ps: Seq<ProposerSlashing>)
    requires
        st.wf(),
        forall|i: int| 0 <= i < ps.len() ==> (#[trigger] ps[i]).proposer_index < st.validators@.len(),
    ensures
        0 <= spec_proposer_slashings_reward(st, ps) <= ps.len() * MAX_EFFECTIVE_BALANCE,
    decreases ps.len(),
{
    if ps.len() > 0 {
        lemma_proposer_slashings_reward_bound(st, ps.drop_last());
        assert((ps.len() - 1) * MAX_EFFECTIVE_BALANCE + MAX_EFFECTIVE_BALANCE == ps.len()
            * MAX_EFFECTIVE_BALANCE) by (nonlinear_arith);
    }
}

/// Proposer-slashing component: the full effective balance of each
/// reported proposer, read from the pre-block state.
pub fn get_proposer_slashing_rewards(beacon_state: &State, beacon_block: &Block) -> (r: u64)
    requires
        beacon_state.wf(),
        beacon_block.wf(*beacon_state),
    ensures
        r as int == spec_proposer_slashings_reward(
            *beacon_state,
            beacon_block.body.proposer_slashings@,
        ),
{
    let ps = &beacon_block.body.proposer_slashings;
    let mut reward: u64 = 0;
    let mut i: usize = 0;
    proof {
        assert(ps@.take(0) =~= Seq::<ProposerSlashing>::empty());
    }
    while i < ps.len()
        invariant
            0 <= i <= ps@.len(),
            beacon_state.wf(),
            ps == beacon_block.body.proposer_slashings,
            ps@.len() <= MAX_PROPOSER_SLASHINGS,
            forall|k: int|
                0 <= k < ps@.len() ==> (#[trigger] ps@[k]).proposer_index
                    < beacon_state.validators@.len(),
            reward as int == spec_proposer_slashings_reward(*beacon_state, ps@.take(i as int)),
        decreases ps@.len() - i,
    {
        proof {
            lemma_proposer_slashings_reward_bound(*beacon_state, ps@.take(i as int));
            assert(i as int * MAX_EFFECTIVE_BALANCE <= MAX_PROPOSER_SLASHINGS
                * MAX_EFFECTIVE_BALANCE) by (nonlinear_arith)
                requires
                    0 <= i as int <= MAX_PROPOSER_SLASHINGS,
            ;
        }
        let index = ps[i].proposer_index;
        let nvals = beacon_state.validators.len();
        assert(index < nvals as u64);
        let eb = beacon_state.validators[index as usize].effective_balance;
        reward = reward + eb;
        proof {
            assert(ps@.take(i as int + 1).drop_last() =~= ps@.take(i as int));
            assert(ps@.take(i as int + 1).last() == ps@[i as int]);
        }
        i = i + 1;
    }
    proof {
        assert(ps@.take(ps@.len() as int) =~= ps@);
    }
    reward
}

/// The slashable intersection stays within one attestation's bounds.
proof fn lemma_slashable_indices_bounded(st: State, sl: AttesterSlashing)
    requires
        sl.wf(st.validators@.len() as int),
    ensures
        spec_slashable_indices(st, sl).len() <= MAX_ATTESTING_INDICES,
        forall|j: int|
            0 <= j < spec_slashable_indices(st, sl).len() ==> (#[trigger] spec_slashable_indices(
                st,
                sl,
            )[j]) < st.validators@.len(),
{
    broadcast use group_filter_ensures;

    let a1 = sl.attestation_1.attesting_indices@;
    let ids = spec_slashable_indices(st, sl);
    assert forall|j: int| 0 <= j < ids.len() implies (#[trigger] ids[j])
        < st.validators@.len() by {
        assert(ids.contains(ids[j]));
        a1.lemma_filter_contains_rev(
            crate::slashing::spec_slashable_filter(st, sl.attestation_2.attesting_indices@),
            ids[j],
        );
        let k = choose|k: int| 0 <= k < a1.len() && a1[k] == ids[j];
    }
}

proof fn lemma_whistleblower_sum_bound(st: State, ids: Seq<u64>)
    requires
        st.wf(),
        forall|j: int| 0 <= j < ids.len() ==> (#[trigger] ids[j]) < st.validators@.len(),
    ensures
        0 <= spec_whistleblower_sum(st, ids) <= ids.len() * (MAX_EFFECTIVE_BALANCE
            / WHISTLEBLOWER_REWARD_QUOTIENT),
    decreases ids.len(),
{
    if ids.len() > 0 {
        lemma_whistleblower_sum_bound(st, ids.drop_last());
        assert((ids.len() - 1) * (MAX_EFFECTIVE_BALANCE / WHISTLEBLOWER_REWARD_QUOTIENT) + (
        MAX_EFFECTIVE_BALANCE / WHISTLEBLOWER_REWARD_QUOTIENT) == ids.len() * (
        MAX_EFFECTIVE_BALANCE / WHISTLEBLOWER_REWARD_QUOTIENT)) by (nonlinear_arith);
    }
}

proof fn lemma_attester_slashings_reward_bound(st: State, sls: Seq<AttesterSlashing>)
    requires
        st.wf(),
        forall|i: int| 0 <= i < sls.len() ==> (#[trigger] sls[i]).wf(st.validators@.len() as int),
    ensures
        0 <= spec_attester_slashings_reward(st, sls) <= sls.len() * (MAX_ATTESTING_INDICES * (
        MAX_EFFECTIVE_BALANCE / WHISTLEBLOWER_REWARD_QUOTIENT)),
    decreases sls.len(),
{
    if sls.len() > 0 {
        lemma_attester_slashings_reward_bound(st, sls.drop_last());
        lemma_slashable_indices_bounded(st, sls.last());
        lemma_whistleblower_sum_bound(st, spec_slashable_indices(st, sls.last()));
        let per = MAX_ATTESTING_INDICES * (MAX_EFFECTIVE_BALANCE / WHISTLEBLOWER_REWARD_QUOTIENT);
        let n = spec_slashable_indices(st, sls.last()).len() as int;
        let q = (MAX_EFFECTIVE_BALANCE / WHISTLEBLOWER_REWARD_QUOTIENT) as int;
        assert(n * q <= per) by (nonlinear_arith)
            requires
                0 <= n <= MAX_ATTESTING_INDICES,
                q >= 0,
                per == MAX_ATTESTING_INDICES * q,
        ;
        assert((sls.len() - 1) * per + per == sls.len() * per) by (nonlinear_arith);
    }
}

/// Attester-slashing component: every index slashable under a report
/// earns the whistleblower quotient of its effective balance.
pub fn get_attester_slashing_rewards(beacon_state: &State, beacon_block: &Block) -> (r: u64)
    requires
        beacon_state.wf(),
        beacon_block.wf(*beacon_state),
    ensures
        r as int == spec_attester_slashings_reward(
            *beacon_state,
            beacon_block.body.attester_slashings@,
        ),
{
    let sls = &beacon_block.body.attester_slashings;
    let mut reward: u64 = 0;
    let mut i: usize = 0;
    proof {
        assert(sls@.take(0) =~= Seq::<AttesterSlashing>::empty());
    }
    while i < sls.len()
        invariant
            0 <= i <= sls@.len(),
            beacon_state.wf(),
            sls == beacon_block.body.attester_slashings,
            sls@.len() <= MAX_ATTESTER_SLASHINGS,
            forall|k: int|
                0 <= k < sls@.len() ==> (#[trigger] sls@[k]).wf(
                    beacon_state.validators@.len() as int,
                ),
            reward as int == spec_attester_slashings_reward(*beacon_state, sls@.take(i as int)),
        decreases sls@.len() - i,
    {
        proof {
            lemma_attester_slashings_reward_bound(*beacon_state, sls@.take(i as int));
            let per = MAX_ATTESTING_INDICES * (MAX_EFFECTIVE_BALANCE
                / WHISTLEBLOWER_REWARD_QUOTIENT);
            assert(i as int * per <= MAX_ATTESTER_SLASHINGS * per) by (nonlinear_arith)
                requires
                    0 <= i as int <= MAX_ATTESTER_SLASHINGS,
                    per == MAX_ATTESTING_INDICES * (MAX_EFFECTIVE_BALANCE
                        / WHISTLEBLOWER_REWARD_QUOTIENT),
            ;
        }
        let one = attester_slashing_reward_one(beacon_state, &sls[i]);
        reward = reward + one;
        proof {
            assert(sls@.take(i as int + 1).drop_last() =~= sls@.take(i as int));
            assert(sls@.take(i as int + 1).last() == sls@[i as int]);
        }
        i = i + 1;
    }
    proof {
        assert(sls@.take(sls@.len() as int) =~= sls@);
    }
    reward
}

/// Whistleblower reward of one attester-slashing report.
fn attester_slashing_reward_one(beacon_state: &State, sl: &AttesterSlashing) -> (r: u64)
    requires
        beacon_state.wf(),
        sl.wf(beacon_state.validators@.len() as int),
    ensures
        r as int == spec_whistleblower_sum(
            *beacon_state,
            spec_slashable_indices(*beacon_state, *sl),
        ),
        r as int <= MAX_ATTESTING_INDICES * (MAX_EFFECTIVE_BALANCE
            / WHISTLEBLOWER_REWARD_QUOTIENT),
{
    proof {
        lemma_slashable_indices_bounded(*beacon_state, *sl);
        lemma_whistleblower_sum_bound(
            *beacon_state,
            spec_slashable_indices(*beacon_state, *sl),
        );
        let n = spec_slashable_indices(*beacon_state, *sl).len() as int;
        let q = (MAX_EFFECTIVE_BALANCE / WHISTLEBLOWER_REWARD_QUOTIENT) as int;
        assert(n * q <= MAX_ATTESTING_INDICES * q) by (nonlinear_arith)
            requires
                0 <= n <= MAX_ATTESTING_INDICES,
                q >= 0,
        ;
    }
    let ids = get_slashable_attester_indices(beacon_state, sl);
    let mut sum: u64 = 0;
    let mut j: usize = 0;
    proof {
        assert(ids@.take(0) =~= Seq::<u64>::empty());
    }
    while j < ids.len()
        invariant
            0 <= j <= ids@.len(),
            beacon_state.wf(),
            ids@ == spec_slashable_indices(*beacon_state, *sl),
            ids@.len() <= MAX_ATTESTING_INDICES,
            forall|k: int|
                0 <= k < ids@.len() ==> (#[trigger] ids@[k]) < beacon_state.validators@.len(),
            sum as int == spec_whistleblower_sum(*beacon_state, ids@.take(j as int)),
        decreases ids@.len() - j,
    {
        proof {
            lemma_whistleblower_sum_bound(*beacon_state, ids@.take(j as int));
            assert(j as int * (MAX_EFFECTIVE_BALANCE / WHISTLEBLOWER_REWARD_QUOTIENT)
                <= MAX_ATTESTING_INDICES * (MAX_EFFECTIVE_BALANCE
                / WHISTLEBLOWER_REWARD_QUOTIENT)) by (nonlinear_arith)
                requires
                    0 <= j as int <= MAX_ATTESTING_INDICES,
            ;
        }
        let index = ids[j];
        let nvals = beacon_state.validators.len();
        assert(index < nvals as u64);
        let eb = beacon_state.validators[index as usize].effective_balance;
        sum = sum + eb / WHISTLEBLOWER_REWARD_QUOTIENT;
        proof {
            assert(ids@.take(j as int + 1).drop_last() =~= ids@.take(j as int));
            assert(ids@.take(j as int + 1).last() == ids@[j as int]);
        }
        j = j + 1;
    }
    proof {
        assert(ids@.take(ids@.len() as int) =~= ids@);
    }
    sum
}

/// Law: for a well-formed state and block, no reward component nor
/// their sum overflows the 64-bit reward width.
pub proof fn lemma_reward_components_fit(st: State, b: Block)
    requires
        st.wf(),
        b.wf(st),
    ensures
        0 <= spec_attestations_reward(st, b.body.attestations@) <= u64::MAX,
        0 <= spec_sync_committee_reward(st, b.body.sync_committee_bits@) <= u64::MAX,
        0 <= spec_proposer_slashings_reward(st, b.body.proposer_slashings@) <= u64::MAX,
        0 <= spec_attester_slashings_reward(st, b.body.attester_slashings@) <= u64::MAX,
        spec_attestations_reward(st, b.body.attestations@) + spec_sync_committee_reward(
            st,
            b.body.sync_committee_bits@,
        ) + spec_proposer_slashings_reward(st, b.body.proposer_slashings@)
            + spec_attester_slashings_reward(st, b.body.attester_slashings@) <= u64::MAX,
{
    lemma_attestations_reward_bound(st, b.body.attestations@);
    assert(b.body.attestations@.len() * (MAX_ATTESTING_INDICES * MAX_EFFECTIVE_BALANCE)
        <= MAX_ATTESTATIONS * (MAX_ATTESTING_INDICES * MAX_EFFECTIVE_BALANCE))
        by (nonlinear_arith)
        requires
            0 <= b.body.attestations@.len() <= MAX_ATTESTATIONS,
    ;
    lemma_sync_committee_reward_bound(st, b.body.sync_committee_bits@);
    lemma_proposer_slashings_reward_bound(st, b.body.proposer_slashings@);
    assert(b.body.proposer_slashings@.len() * MAX_EFFECTIVE_BALANCE <= MAX_PROPOSER_SLASHINGS
        * MAX_EFFECTIVE_BALANCE) by (nonlinear_arith)
        requires
            0 <= b.body.proposer_slashings@.len() <= MAX_PROPOSER_SLASHINGS,
    ;
    lemma_attester_slashings_reward_bound(st, b.body.attester_slashings@);
    assert(b.body.attester_slashings@.len() * (MAX_ATTESTING_INDICES * (MAX_EFFECTIVE_BALANCE
        / WHISTLEBLOWER_REWARD_QUOTIENT)) <= MAX_ATTESTER_SLASHINGS * (MAX_ATTESTING_INDICES * (
    MAX_EFFECTIVE_BALANCE / WHISTLEBLOWER_REWARD_QUOTIENT))) by (nonlinear_arith)
        requires
            0 <= b.body.attester_slashings@.len() <= MAX_ATTESTER_SLASHINGS,
    ;
}

/// Law: doubling the number of set sync-participation bits, all else
/// fixed, exactly doubles the sync-committee component.
pub proof fn lemma_sync_reward_scales_with_bits(st: State, bits1: Seq<bool>, bits2: Seq<bool>)
    requires
        spec_count_set_bits(bits2) == 2 * spec_count_set_bits(bits1),
    ensures
        spec_sync_committee_reward(st, bits2) == 2 * spec_sync_committee_reward(st, bits1),
{
    let c = spec_count_set_bits(bits1);
    let p = spec_sync_proposer_share(st);
    assert((2 * c) * p == 2 * (c * p)) by (nonlinear_arith);
}

/// Computes the full reward breakdown of the block `block_id` denotes,
/// evaluated against the pre-block state stored under the same root.
pub fn get_block_rewards(block_id: BlockId, s: &StoreSnapshot) -> (r: Result<
    BlockRewards,
    ApiError,
>)
    requires
        s.rewards_wf(),
    ensures
        match r {
            Ok(br) => {
                &&& spec_block_from_id(*s, block_id) matches Ok(b)
                &&& spec_state_from_id(*s, block_id) matches Ok(st)
                &&& (spec_block_from_id(*s, block_id) matches Ok(b)
                    && spec_state_from_id(*s, block_id) matches Ok(st) ==> {
                    &&& br.proposer_index == b.proposer_index
                    &&& br.attestations as int == spec_attestations_reward(
                        st,
                        b.body.attestations@,
                    )
                    &&& br.sync_aggregate as int == spec_sync_committee_reward(
                        st,
                        b.body.sync_committee_bits@,
                    )
                    &&& br.proposer_slashings as int == spec_proposer_slashings_reward(
                        st,
                        b.body.proposer_slashings@,
                    )
                    &&& br.attester_slashings as int == spec_attester_slashings_reward(
                        st,
                        b.body.attester_slashings@,
                    )
                    &&& br.total as int == br.attestations as int + br.sync_aggregate as int
                        + br.proposer_slashings as int + br.attester_slashings as int
                })
            },
            Err(e) => {
                ||| spec_block_from_id(*s, block_id) == Err::<Block, ApiError>(e)
                ||| (spec_block_from_id(*s, block_id) is Ok && spec_state_from_id(*s, block_id)
                    == Err::<State, ApiError>(e))
            },
        },
{
    let beacon_block = match get_beacon_block_from_id(block_id, s) {
        Ok(b) => b,
        Err(e) => {
            return Err(e);
        },
    };
    let beacon_state = match get_beacon_state(block_id, s) {
        Ok(st) => st,
        Err(e) => {
            return Err(e);
        },
    };
    proof {
        let root = crate::accessor::spec_resolve_root(*s, block_id)->Ok_0;
        let bt = s.blocks->Found_0;
        let stt = s.states->Found_0;
        crate::types::lemma_table_lookup_index(bt@, root);
        crate::types::lemma_table_lookup_index(stt@, root);
        assert(beacon_state.wf());
        assert(beacon_block.wf(*beacon_state));
        lemma_reward_components_fit(*beacon_state, *beacon_block);
    }
    let attestation_reward = get_attestations_rewards(beacon_state, beacon_block);
    let attester_slashing_reward = get_attester_slashing_rewards(beacon_state, beacon_block);
    let proposer_slashing_reward = get_proposer_slashing_rewards(beacon_state, beacon_block);
    let sync_committee_reward = get_sync_committee_rewards(beacon_state, beacon_block);

    let total = attestation_reward + sync_committee_reward + proposer_slashing_reward
        + attester_slashing_reward;

    Ok(
        BlockRewards {
            proposer_index: beacon_block.proposer_index,
            total,
            attestations: attestation_reward,
            sync_aggregate: sync_committee_reward,
            proposer_slashings: proposer_slashing_reward,
            attester_slashings: attester_slashing_reward,
        },
    )
}

} // verus!
