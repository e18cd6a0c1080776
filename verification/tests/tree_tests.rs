use beacon_accounting::types::{
    ApiError, BeaconHead, Block, BlockBody, Checkpoint, Root, StoreRead, StoreSnapshot,
};
use beacon_accounting::tree::{filter_block_tree, get_beacon_heads};

fn root(n: u64) -> Root {
    Root { w0: 0, w1: 0, w2: 0, w3: n }
}

fn empty_body() -> BlockBody {
    BlockBody {
        attestations: vec![],
        proposer_slashings: vec![],
        attester_slashings: vec![],
        sync_committee_bits: vec![false; 512],
    }
}

fn block(n: u64, parent: u64, slot: u64) -> Block {
    Block {
        root: root(n),
        parent_root: root(parent),
        slot,
        proposer_index: 0,
        body: empty_body(),
    }
}

/// Root R(1) with children A(2) and B(3); A has child C(4).
/// X(5) hangs off an unknown parent and is unreachable.
fn tree_snapshot() -> StoreSnapshot {
    StoreSnapshot {
        finalized_checkpoint: StoreRead::Absent,
        justified_checkpoint: StoreRead::Found(Checkpoint { epoch: 0, root: root(1) }),
        slot_index: StoreRead::Found(vec![]),
        blocks: StoreRead::Found(vec![
            (root(1), block(1, 99, 1)),
            (root(2), block(2, 1, 2)),
            (root(3), block(3, 1, 3)),
            (root(4), block(4, 2, 4)),
            (root(5), block(5, 77, 5)),
        ]),
        states: StoreRead::Found(vec![]),
    }
}

#[test]
fn filter_keeps_exactly_the_reachable_blocks() {
    let s = tree_snapshot();
    let m = filter_block_tree(&s, root(1)).unwrap();
    let keys: Vec<u64> = m.iter().map(|e| e.0.w3).collect();
    assert_eq!(keys, vec![1, 2, 3, 4]);
}

#[test]
fn filter_from_absent_root_is_empty() {
    let s = tree_snapshot();
    let m = filter_block_tree(&s, root(42)).unwrap();
    assert_eq!(m.len(), 0);
}

#[test]
fn absent_parent_ends_the_branch() {
    // X(5) descends from an unknown root, so it never joins the subtree,
    // and neither does its child D(6).
    let mut s = tree_snapshot();
    if let StoreRead::Found(t) = &mut s.blocks {
        t.push((root(6), block(6, 5, 6)));
    }
    let m = filter_block_tree(&s, root(1)).unwrap();
    assert!(m.iter().all(|e| e.0.w3 != 5 && e.0.w3 != 6));
}

#[test]
fn filter_is_idempotent() {
    let s = tree_snapshot();
    let first: Vec<u64> = filter_block_tree(&s, root(1)).unwrap().iter().map(|e| e.0.w3).collect();
    let second: Vec<u64> = filter_block_tree(&s, root(1)).unwrap().iter().map(|e| e.0.w3).collect();
    assert_eq!(first, second);
}

#[test]
fn heads_are_the_unreferenced_blocks() {
    let s = tree_snapshot();
    let heads = get_beacon_heads(&s).unwrap();
    assert_eq!(
        heads,
        vec![
            BeaconHead { root: root(3), slot: 3 },
            BeaconHead { root: root(4), slot: 4 },
        ]
    );
}

#[test]
fn heads_identical_across_calls() {
    let s = tree_snapshot();
    assert_eq!(get_beacon_heads(&s).unwrap(), get_beacon_heads(&s).unwrap());
}

#[test]
fn heads_sorted_by_slot_then_root() {
    let mut s = tree_snapshot();
    // give both leaves the same slot; order then falls back to the root
    if let StoreRead::Found(t) = &mut s.blocks {
        t[2].1.slot = 4;
        t[3].1.slot = 4;
    }
    let heads = get_beacon_heads(&s).unwrap();
    assert_eq!(
        heads,
        vec![
            BeaconHead { root: root(3), slot: 4 },
            BeaconHead { root: root(4), slot: 4 },
        ]
    );
}

#[test]
fn heads_without_justified_checkpoint_not_found() {
    let mut s = tree_snapshot();
    s.justified_checkpoint = StoreRead::Absent;
    assert_eq!(get_beacon_heads(&s).unwrap_err(), ApiError::NotFound);
}

#[test]
fn heads_on_failed_store_internal_error() {
    let mut s = tree_snapshot();
    s.blocks = StoreRead::Failed;
    assert_eq!(get_beacon_heads(&s).unwrap_err(), ApiError::InternalError);
}
