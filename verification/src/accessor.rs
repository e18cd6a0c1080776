//! State/Block Accessor: resolves logical block identifiers to roots and
//! serves blocks, states and attestations from the store snapshot.

use vstd::prelude::*;
use crate::types::{
    ApiError, Attestation, Block, BlockId, Checkpoint, Genesis, NetworkConfig, Root, State,
    StoreRead, StoreSnapshot, table_lookup,
};

verus! {

/// What reading a stored checkpoint yields as a root.
pub open spec fn spec_checkpoint_root(c: StoreRead<Checkpoint>) -> Result<Root, ApiError> {
    match c {
        StoreRead::Found(cp) => Ok(cp.root),
        StoreRead::Absent => Err(ApiError::NotFound),
        StoreRead::Failed => Err(ApiError::InternalError),
    }
}

/// What identifier resolution returns on snapshot `s`: `Finalized` and
/// `Justified` read the stored checkpoints, `Slot(n)` reads the slot
/// index, `Root(r)` is `r` unchanged, and `Head`/`Genesis` need live
/// fork-choice state this core does not hold.
pub open spec fn spec_resolve_root(s: StoreSnapshot, id: BlockId) -> Result<Root, ApiError> {
    match id {
        BlockId::Head => Err(ApiError::NotSupported),
        BlockId::Genesis => Err(ApiError::NotSupported),
        BlockId::Finalized => spec_checkpoint_root(s.finalized_checkpoint),
        BlockId::Justified => spec_checkpoint_root(s.justified_checkpoint),
        BlockId::Slot(n) => match s.slot_index {
            StoreRead::Found(t) => match table_lookup(t@, n) {
                Some(r) => Ok(r),
                None => Err(ApiError::NotFound),
            },
            StoreRead::Absent => Err(ApiError::NotFound),
            StoreRead::Failed => Err(ApiError::InternalError),
        },
        BlockId::Root(r) => Ok(r),
    }
}

/// What fetching the block stored under `root` yields.
pub open spec fn spec_fetch_block(s: StoreSnapshot, root: Root) -> Result<Block, ApiError> {
    match s.blocks {
        StoreRead::Found(t) => match table_lookup(t@, root) {
            Some(b) => Ok(b),
            None => Err(ApiError::NotFound),
        },
        StoreRead::Absent => Err(ApiError::NotFound),
        StoreRead::Failed => Err(ApiError::InternalError),
    }
}

/// What fetching the state stored under `root` yields.
pub open spec fn spec_fetch_state(s: StoreSnapshot, root: Root) -> Result<State, ApiError> {
    match s.states {
        StoreRead::Found(t) => match table_lookup(t@, root) {
            Some(st) => Ok(st),
            None => Err(ApiError::NotFound),
        },
        StoreRead::Absent => Err(ApiError::NotFound),
        StoreRead::Failed => Err(ApiError::InternalError),
    }
}

/// Resolution composed with the block fetch.
pub open spec fn spec_block_from_id(s: StoreSnapshot, id: BlockId) -> Result<Block, ApiError> {
    match spec_resolve_root(s, id) {
        Ok(root) => spec_fetch_block(s, root),
        Err(e) => Err(e),
    }
}

/// Resolution composed with the state fetch.
pub open spec fn spec_state_from_id(s: StoreSnapshot, id: BlockId) -> Result<State, ApiError> {
    match spec_resolve_root(s, id) {
        Ok(root) => spec_fetch_state(s, root),
        Err(e) => Err(e),
    }
}

/// Law: resolving `Root(r)` returns `r` unchanged, whatever the store
/// holds; resolving `Slot(n)` when no root is recorded at `n` reports
/// `NotFound`.
pub proof fn lemma_resolution_round_trip(s: StoreSnapshot, r: Root, n: u64)
    ensures
        spec_resolve_root(s, BlockId::Root(r)) == Ok::<Root, ApiError>(r),
        (s.slot_index matches StoreRead::Found(t) ==> (table_lookup(t@, n) is None
            ==> spec_resolve_root(s, BlockId::Slot(n)) == Err::<Root, ApiError>(
            ApiError::NotFound,
        ))),
        s.slot_index is Absent ==> spec_resolve_root(s, BlockId::Slot(n)) == Err::<
            Root,
            ApiError,
        >(ApiError::NotFound),
{
}

fn checkpoint_root(c: &StoreRead<Checkpoint>) -> (r: Result<Root, ApiError>)
    ensures
        r == spec_checkpoint_root(*c),
{
    match c {
        StoreRead::Found(cp) => Ok(cp.root),
        StoreRead::Absent => Err(ApiError::NotFound),
        StoreRead::Failed => Err(ApiError::InternalError),
    }
}

fn find_slot_root(t: &Vec<(u64, Root)>, k: u64) -> (r: Option<Root>)
    ensures
        r == table_lookup(t@, k),
{
    let mut i: usize = 0;
    assert(t@.skip(0) =~= t@);
    while i < t.len()
        invariant
            0 <= i <= t@.len(),
            table_lookup(t@, k) == table_lookup(t@.skip(i as int), k),
        decreases t@.len() - i,
    {
        assert(t@.skip(i as int)[0] == t@[i as int]);
        if t[i].0 == k {
            return Some(t[i].1);
        }
        assert(t@.skip(i as int).drop_first() =~= t@.skip(i as int + 1));
        i = i + 1;
    }
    assert(t@.skip(i as int).len() == 0);
    None
}

pub(crate) fn find_block<'a>(t: &'a Vec<(Root, Block)>, k: &Root) -> (r: Option<&'a Block>)
    ensures
        match r {
            Some(b) => table_lookup(t@, *k) == Some(*b),
            None => table_lookup(t@, *k) is None,
        },
{
    let mut i: usize = 0;
    assert(t@.skip(0) =~= t@);
    while i < t.len()
        invariant
            0 <= i <= t@.len(),
            table_lookup(t@, *k) == table_lookup(t@.skip(i as int), *k),
        decreases t@.len() - i,
    {
        assert(t@.skip(i as int)[0] == t@[i as int]);
        if t[i].0 == *k {
            return Some(&t[i].1);
        }
        assert(t@.skip(i as int).drop_first() =~= t@.skip(i as int + 1));
        i = i + 1;
    }
    assert(t@.skip(i as int).len() == 0);
    None
}

fn find_state<'a>(t: &'a Vec<(Root, State)>, k: &Root) -> (r: Option<&'a State>)
    ensures
        match r {
            Some(st) => table_lookup(t@, *k) == Some(*st),
            None => table_lookup(t@, *k) is None,
        },
{
    let mut i: usize = 0;
    assert(t@.skip(0) =~= t@);
    while i < t.len()
        invariant
            0 <= i <= t@.len(),
            table_lookup(t@, *k) == table_lookup(t@.skip(i as int), *k),
        decreases t@.len() - i,
    {
        assert(t@.skip(i as int)[0] == t@[i as int]);
        if t[i].0 == *k {
            return Some(&t[i].1);
        }
        assert(t@.skip(i as int).drop_first() =~= t@.skip(i as int + 1));
        i = i + 1;
    }
    assert(t@.skip(i as int).len() == 0);
    None
}

/// Maps a logical block identifier to a concrete block root.
pub fn get_block_root_from_id(block_id: BlockId, s: &StoreSnapshot) -> (r: Result<
    Root,
    ApiError,
>)
    ensures
        r == spec_resolve_root(*s, block_id),
{
    match block_id {
        BlockId::Head => Err(ApiError::NotSupported),
        BlockId::Genesis => Err(ApiError::NotSupported),
        BlockId::Finalized => checkpoint_root(&s.finalized_checkpoint),
        BlockId::Justified => checkpoint_root(&s.justified_checkpoint),
        BlockId::Slot(n) => match &s.slot_index {
            StoreRead::Found(t) => match find_slot_root(t, n) {
                Some(r) => Ok(r),
                None => Err(ApiError::NotFound),
            },
            StoreRead::Absent => Err(ApiError::NotFound),
            StoreRead::Failed => Err(ApiError::InternalError),
        },
        BlockId::Root(r) => Ok(r),
    }
}

/// Resolves `block_id` and serves the block stored under the root.
pub fn get_beacon_block_from_id<'a>(block_id: BlockId, s: &'a StoreSnapshot) -> (r: Result<
    &'a Block,
    ApiError,
>)
    ensures
        match r {
            Ok(b) => spec_block_from_id(*s, block_id) == Ok::<Block, ApiError>(*b),
            Err(e) => spec_block_from_id(*s, block_id) == Err::<Block, ApiError>(e),
        },
{
    let root = match get_block_root_from_id(block_id, s) {
        Ok(root) => root,
        Err(e) => {
            return Err(e);
        },
    };
    match &s.blocks {
        StoreRead::Found(t) => match find_block(t, &root) {
            Some(b) => Ok(b),
            None => Err(ApiError::NotFound),
        },
        StoreRead::Absent => Err(ApiError::NotFound),
        StoreRead::Failed => Err(ApiError::InternalError),
    }
}

/// Resolves `block_id` and serves the state stored under the root.
pub fn get_beacon_state<'a>(block_id: BlockId, s: &'a StoreSnapshot) -> (r: Result<
    &'a State,
    ApiError,
>)
    ensures
        match r {
            Ok(st) => spec_state_from_id(*s, block_id) == Ok::<State, ApiError>(*st),
            Err(e) => spec_state_from_id(*s, block_id) == Err::<State, ApiError>(e),
        },
{
    let root = match get_block_root_from_id(block_id, s) {
        Ok(root) => root,
        Err(e) => {
            return Err(e);
        },
    };
    match &s.states {
        StoreRead::Found(t) => match find_state(t, &root) {
            Some(st) => Ok(st),
            None => Err(ApiError::NotFound),
        },
        StoreRead::Absent => Err(ApiError::NotFound),
        StoreRead::Failed => Err(ApiError::InternalError),
    }
}

/// Serves the attestation list of the block `block_id` denotes.
pub fn get_block_attestations<'a>(block_id: BlockId, s: &'a StoreSnapshot) -> (r: Result<
    &'a Vec<Attestation>,
    ApiError,
>)
    ensures
        match r {
            Ok(atts) => spec_block_from_id(*s, block_id) matches Ok(b) && b.body.attestations
                == *atts,
            Err(e) => spec_block_from_id(*s, block_id) == Err::<Block, ApiError>(e),
        },
{
    match get_beacon_block_from_id(block_id, s) {
        Ok(b) => Ok(&b.body.attestations),
        Err(e) => Err(e),
    }
}

/// Assembles the genesis configuration report from the network
/// specification.
pub fn get_genesis(config: &NetworkConfig) -> (g: Genesis)
    ensures
        g.genesis_time == config.min_genesis_time,
        g.genesis_validators_root == config.genesis_validators_root,
        g.genesis_fork_version == config.genesis_fork_version,
{
    Genesis {
        genesis_time: config.min_genesis_time,
        genesis_validators_root: config.genesis_validators_root,
        genesis_fork_version: config.genesis_fork_version,
    }
}

} // verus!
