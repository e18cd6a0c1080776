use beacon_accounting::types::{
    ApiError, Block, BlockBody, BlockId, Checkpoint, NetworkConfig, Root, State, StoreRead,
    StoreSnapshot,
};
use beacon_accounting::accessor::{
    get_beacon_block_from_id, get_beacon_state, get_block_attestations, get_block_root_from_id,
    get_genesis,
};

fn root(n: u64) -> Root {
    Root { w0: 0, w1: 0, w2: 0, w3: n }
}

fn empty_body() -> BlockBody {
    BlockBody {
        attestations: vec![],
        proposer_slashings: vec![],
        attester_slashings: vec![],
        sync_committee_bits: vec![false; 512],
    }
}

fn block(n: u64, parent: u64, slot: u64) -> Block {
    Block {
        root: root(n),
        parent_root: root(parent),
        slot,
        proposer_index: 0,
        body: empty_body(),
    }
}

fn empty_state(slot: u64) -> State {
    State {
        slot,
        validators: vec![],
        total_active_balance: 0,
        base_reward_per_increment: 0,
        committees: vec![],
    }
}

fn empty_snapshot() -> StoreSnapshot {
    StoreSnapshot {
        finalized_checkpoint: StoreRead::Absent,
        justified_checkpoint: StoreRead::Absent,
        slot_index: StoreRead::Found(vec![]),
        blocks: StoreRead::Found(vec![]),
        states: StoreRead::Found(vec![]),
    }
}

#[test]
fn resolve_root_id_is_identity() {
    let s = empty_snapshot();
    let r = root(7);
    assert_eq!(get_block_root_from_id(BlockId::Root(r), &s), Ok(r));
}

#[test]
fn resolve_missing_slot_is_not_found() {
    let s = empty_snapshot();
    assert_eq!(
        get_block_root_from_id(BlockId::Slot(5), &s),
        Err(ApiError::NotFound)
    );
}

#[test]
fn resolve_recorded_slot_finds_root() {
    let mut s = empty_snapshot();
    s.slot_index = StoreRead::Found(vec![(3, root(9)), (4, root(10))]);
    assert_eq!(get_block_root_from_id(BlockId::Slot(4), &s), Ok(root(10)));
}

#[test]
fn resolve_head_and_genesis_are_not_supported() {
    let s = empty_snapshot();
    assert_eq!(
        get_block_root_from_id(BlockId::Head, &s),
        Err(ApiError::NotSupported)
    );
    assert_eq!(
        get_block_root_from_id(BlockId::Genesis, &s),
        Err(ApiError::NotSupported)
    );
}

#[test]
fn resolve_checkpoints_read_the_store() {
    let mut s = empty_snapshot();
    s.finalized_checkpoint = StoreRead::Found(Checkpoint { epoch: 2, root: root(20) });
    s.justified_checkpoint = StoreRead::Found(Checkpoint { epoch: 3, root: root(30) });
    assert_eq!(get_block_root_from_id(BlockId::Finalized, &s), Ok(root(20)));
    assert_eq!(get_block_root_from_id(BlockId::Justified, &s), Ok(root(30)));
}

#[test]
fn resolve_absent_checkpoint_is_not_found() {
    let s = empty_snapshot();
    assert_eq!(
        get_block_root_from_id(BlockId::Finalized, &s),
        Err(ApiError::NotFound)
    );
}

#[test]
fn resolve_failed_store_is_internal_error() {
    let mut s = empty_snapshot();
    s.justified_checkpoint = StoreRead::Failed;
    s.slot_index = StoreRead::Failed;
    assert_eq!(
        get_block_root_from_id(BlockId::Justified, &s),
        Err(ApiError::InternalError)
    );
    assert_eq!(
        get_block_root_from_id(BlockId::Slot(1), &s),
        Err(ApiError::InternalError)
    );
}

#[test]
fn block_fetch_by_root_id() {
    let mut s = empty_snapshot();
    s.blocks = StoreRead::Found(vec![(root(1), block(1, 0, 11))]);
    let b = get_beacon_block_from_id(BlockId::Root(root(1)), &s).unwrap();
    assert_eq!(b.slot, 11);
    assert_eq!(b.root, root(1));
    assert_eq!(
        get_beacon_block_from_id(BlockId::Root(root(2)), &s).unwrap_err(),
        ApiError::NotFound
    );
}

#[test]
fn state_fetch_by_slot_id() {
    let mut s = empty_snapshot();
    s.slot_index = StoreRead::Found(vec![(11, root(1))]);
    s.states = StoreRead::Found(vec![(root(1), empty_state(11))]);
    let st = get_beacon_state(BlockId::Slot(11), &s).unwrap();
    assert_eq!(st.slot, 11);
    assert_eq!(
        get_beacon_state(BlockId::Slot(12), &s).unwrap_err(),
        ApiError::NotFound
    );
}

#[test]
fn failed_block_table_surfaces_internal_error() {
    let mut s = empty_snapshot();
    s.blocks = StoreRead::Failed;
    assert_eq!(
        get_beacon_block_from_id(BlockId::Root(root(1)), &s).unwrap_err(),
        ApiError::InternalError
    );
}

#[test]
fn attestations_of_a_block_are_served() {
    let mut s = empty_snapshot();
    s.blocks = StoreRead::Found(vec![(root(1), block(1, 0, 11))]);
    let atts = get_block_attestations(BlockId::Root(root(1)), &s).unwrap();
    assert_eq!(atts.len(), 0);
}

#[test]
fn genesis_reports_the_network_config() {
    let config = NetworkConfig {
        min_genesis_time: 1606824000,
        genesis_validators_root: root(42),
        genesis_fork_version: 4,
    };
    let g = get_genesis(&config);
    assert_eq!(g.genesis_time, 1606824000);
    assert_eq!(g.genesis_validators_root, root(42));
    assert_eq!(g.genesis_fork_version, 4);
}
