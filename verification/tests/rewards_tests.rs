use beacon_accounting::types::{
    Attestation, AttestationData, AttesterSlashing, Block, BlockBody, BlockId, Checkpoint,
    Committee, IndexedAttestation, ProposerSlashing, Root, Signature, State, StoreRead,
    StoreSnapshot, Validator,
};
use beacon_accounting::rewards::{
    get_attestations_rewards, get_attester_slashing_rewards, get_attesting_indices,
    get_block_rewards, get_proposer_reward, get_proposer_slashing_rewards,
    get_sync_committee_rewards,
};
use beacon_accounting::slashing::get_slashable_attester_indices;

fn root(n: u64) -> Root {
    Root { w0: 0, w1: 0, w2: 0, w3: n }
}

fn cp() -> Checkpoint {
    Checkpoint { epoch: 0, root: root(0) }
}

fn data(slot: u64, index: u64) -> AttestationData {
    AttestationData { slot, index, source: cp(), target: cp() }
}

fn sig() -> Signature {
    Signature { bytes: vec![] }
}

fn validator(eb: u64) -> Validator {
    Validator {
        effective_balance: eb,
        slashed: false,
        activation_epoch: 0,
        exit_epoch: 1_000_000,
        withdrawable_epoch: 1_000_000,
    }
}

fn state(n: usize, eb: u64, tab: u64, bri: u64) -> State {
    State {
        slot: 0,
        validators: vec![validator(eb); n],
        total_active_balance: tab,
        base_reward_per_increment: bri,
        committees: vec![],
    }
}

fn empty_body() -> BlockBody {
    BlockBody {
        attestations: vec![],
        proposer_slashings: vec![],
        attester_slashings: vec![],
        sync_committee_bits: vec![false; 512],
    }
}

fn block_with_body(body: BlockBody) -> Block {
    Block { root: root(1), parent_root: root(0), slot: 1, proposer_index: 7, body }
}

fn indexed(ids: Vec<u64>) -> IndexedAttestation {
    IndexedAttestation { attesting_indices: ids, data: data(0, 0), signature: sig() }
}

fn slashing(a: Vec<u64>, b: Vec<u64>) -> AttesterSlashing {
    AttesterSlashing { attestation_1: indexed(a), attestation_2: indexed(b) }
}

#[test]
fn slashable_indices_are_the_ascending_intersection() {
    let st = state(6, 32_000_000_000, 192_000_000_000, 1000);
    let sl = slashing(vec![1, 2, 3], vec![2, 3, 5]);
    assert_eq!(get_slashable_attester_indices(&st, &sl), vec![2, 3]);
}

#[test]
fn slashable_indices_symmetric_under_swap() {
    let st = state(6, 32_000_000_000, 192_000_000_000, 1000);
    let sl = slashing(vec![0, 2, 4], vec![2, 4, 5]);
    let swapped = slashing(vec![2, 4, 5], vec![0, 2, 4]);
    assert_eq!(
        get_slashable_attester_indices(&st, &sl),
        get_slashable_attester_indices(&st, &swapped)
    );
}

#[test]
fn already_slashed_validator_is_excluded() {
    let mut st = state(6, 32_000_000_000, 192_000_000_000, 1000);
    st.validators[3].slashed = true;
    let sl = slashing(vec![1, 2, 3], vec![2, 3, 5]);
    assert_eq!(get_slashable_attester_indices(&st, &sl), vec![2]);
}

#[test]
fn validator_outside_epoch_window_is_excluded() {
    let mut st = state(6, 32_000_000_000, 192_000_000_000, 1000);
    st.slot = 32; // current epoch 1
    st.validators[2].activation_epoch = 5; // not yet active
    st.validators[3].withdrawable_epoch = 1; // already withdrawable
    let sl = slashing(vec![1, 2, 3], vec![1, 2, 3]);
    assert_eq!(get_slashable_attester_indices(&st, &sl), vec![1]);
}

#[test]
fn proposer_reward_formula_exact() {
    let st = state(3, 32_000_000_000, 96_000_000_000, 1000);
    // 32 increments * 1000 = 32000; * 8 / 56 = 4571
    assert_eq!(get_proposer_reward(&st, 0), 4571);
}

#[test]
fn attesting_indices_select_committee_members_by_bit() {
    let mut st = state(3, 32_000_000_000, 96_000_000_000, 1000);
    st.committees = vec![Committee { slot: 5, index: 0, members: vec![0, 1, 2] }];
    let att = Attestation {
        aggregation_bits: vec![true, false, true],
        data: data(5, 0),
        signature: sig(),
    };
    assert_eq!(get_attesting_indices(&st, &att), Some(vec![0, 2]));
    let wrong_slot = Attestation {
        aggregation_bits: vec![true, false, true],
        data: data(6, 0),
        signature: sig(),
    };
    assert_eq!(get_attesting_indices(&st, &wrong_slot), None);
    let wrong_len = Attestation {
        aggregation_bits: vec![true, false],
        data: data(5, 0),
        signature: sig(),
    };
    assert_eq!(get_attesting_indices(&st, &wrong_len), None);
}

#[test]
fn attestation_rewards_sum_resolved_attesters() {
    let mut st = state(3, 32_000_000_000, 96_000_000_000, 1000);
    st.committees = vec![Committee { slot: 5, index: 0, members: vec![0, 1, 2] }];
    let good = Attestation {
        aggregation_bits: vec![true, false, true],
        data: data(5, 0),
        signature: sig(),
    };
    let unresolvable = Attestation {
        aggregation_bits: vec![true, true, true],
        data: data(9, 9),
        signature: sig(),
    };
    let mut body = empty_body();
    body.attestations = vec![good, unresolvable];
    let b = block_with_body(body);
    // two resolved attesters at 4571 each; the unresolvable one adds zero
    assert_eq!(get_attestations_rewards(&st, &b), 9142);
}

#[test]
fn sync_committee_reward_formula_exact() {
    let st = state(10, 32_000_000_000, 1_000_000_000_000_000, 5000);
    let mut body = empty_body();
    for i in 0..3 {
        body.sync_committee_bits[i] = true;
    }
    let b = block_with_body(body);
    // increments 1e6 * 5000 = 5e9; *2/64/32 = 4_882_812; /512 = 9536;
    // *8/56 = 1362 per participant bit; 3 bits set
    assert_eq!(get_sync_committee_rewards(&st, &b), 3 * 1362);
}

#[test]
fn sync_committee_reward_doubles_with_bits() {
    let st = state(10, 32_000_000_000, 1_000_000_000_000_000, 5000);
    let mut body3 = empty_body();
    let mut body6 = empty_body();
    for i in 0..3 {
        body3.sync_committee_bits[i] = true;
    }
    for i in 0..6 {
        body6.sync_committee_bits[i] = true;
    }
    let b3 = block_with_body(body3);
    let b6 = block_with_body(body6);
    assert_eq!(
        get_sync_committee_rewards(&st, &b6),
        2 * get_sync_committee_rewards(&st, &b3)
    );
}

#[test]
fn proposer_slashing_reward_is_full_effective_balance() {
    let st = state(4, 32_000_000_000, 128_000_000_000, 1000);
    let mut body = empty_body();
    body.proposer_slashings = vec![
        ProposerSlashing { proposer_index: 0 },
        ProposerSlashing { proposer_index: 2 },
    ];
    let b = block_with_body(body);
    assert_eq!(get_proposer_slashing_rewards(&st, &b), 64_000_000_000);
}

#[test]
fn attester_slashing_reward_uses_whistleblower_quotient() {
    let st = state(4, 32_000_000_000, 128_000_000_000, 1000);
    let mut body = empty_body();
    body.attester_slashings = vec![slashing(vec![0, 1, 2], vec![1, 2])];
    let b = block_with_body(body);
    // two slashable indices, each 32_000_000_000 / 512 = 62_500_000
    assert_eq!(get_attester_slashing_rewards(&st, &b), 125_000_000);
}

fn snapshot_with(b: Block, st: State) -> StoreSnapshot {
    let r = b.root;
    StoreSnapshot {
        finalized_checkpoint: StoreRead::Absent,
        justified_checkpoint: StoreRead::Absent,
        slot_index: StoreRead::Found(vec![]),
        blocks: StoreRead::Found(vec![(r, b)]),
        states: StoreRead::Found(vec![(r, st)]),
    }
}

#[test]
fn empty_block_earns_exactly_zero() {
    let st = state(10, 32_000_000_000, 320_000_000_000, 1000);
    let b = block_with_body(empty_body());
    let s = snapshot_with(b, st);
    let br = get_block_rewards(BlockId::Root(root(1)), &s).unwrap();
    assert_eq!(br.proposer_index, 7);
    assert_eq!(br.attestations, 0);
    assert_eq!(br.sync_aggregate, 0);
    assert_eq!(br.proposer_slashings, 0);
    assert_eq!(br.attester_slashings, 0);
    assert_eq!(br.total, 0);
}

#[test]
fn block_rewards_total_is_the_component_sum() {
    let mut st = state(3, 32_000_000_000, 1_000_000_000_000_000, 5000);
    st.committees = vec![Committee { slot: 5, index: 0, members: vec![0, 1, 2] }];
    let mut body = empty_body();
    body.attestations = vec![Attestation {
        aggregation_bits: vec![true, false, true],
        data: data(5, 0),
        signature: sig(),
    }];
    body.proposer_slashings = vec![ProposerSlashing { proposer_index: 0 }];
    body.attester_slashings = vec![slashing(vec![0, 1, 2], vec![1, 2])];
    for i in 0..3 {
        body.sync_committee_bits[i] = true;
    }
    let b = block_with_body(body);
    let s = snapshot_with(b, st);
    let br = get_block_rewards(BlockId::Root(root(1)), &s).unwrap();
    // per attester: 32 increments * 5000 = 160000; * 8 / 56 = 22857; two attesters
    assert_eq!(br.attestations, 45714);
    assert_eq!(br.sync_aggregate, 3 * 1362);
    assert_eq!(br.proposer_slashings, 32_000_000_000);
    assert_eq!(br.attester_slashings, 125_000_000);
    assert_eq!(
        br.total,
        br.attestations + br.sync_aggregate + br.proposer_slashings + br.attester_slashings
    );
}

#[test]
fn block_rewards_deterministic_across_calls() {
    let st = state(10, 32_000_000_000, 320_000_000_000, 1000);
    let b = block_with_body(empty_body());
    let s = snapshot_with(b, st);
    let first = get_block_rewards(BlockId::Root(root(1)), &s).unwrap();
    let second = get_block_rewards(BlockId::Root(root(1)), &s).unwrap();
    assert_eq!(first, second);
}

#[test]
fn block_rewards_missing_state_is_not_found() {
    let st = state(10, 32_000_000_000, 320_000_000_000, 1000);
    let b = block_with_body(empty_body());
    let mut s = snapshot_with(b, st);
    s.states = StoreRead::Found(vec![]);
    assert!(get_block_rewards(BlockId::Root(root(1)), &s).is_err());
}
