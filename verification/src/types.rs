//! Data model of the accounting core: roots, checkpoints, validators,
//! blocks, states, and the read-only store snapshot they are served from.

use vstd::prelude::*;
use crate::{
    EFFECTIVE_BALANCE_INCREMENT, MAX_ATTESTATIONS, MAX_ATTESTER_SLASHINGS,
    MAX_ATTESTING_INDICES, MAX_EFFECTIVE_BALANCE, MAX_PROPOSER_SLASHINGS,
    MAX_TOTAL_ACTIVE_BALANCE, SLOTS_PER_EPOCH, SYNC_COMMITTEE_SIZE,
};

verus! {

/// A 256-bit block or state root, stored as four 64-bit limbs,
/// most significant limb first.
#[derive(PartialEq, Eq, Structural, Clone, Copy, Debug)]
pub struct Root {
    pub w0: u64,
    pub w1: u64,
    pub w2: u64,
    pub w3: u64,
}

/// An (epoch, root) pair marking finality progress.
#[derive(PartialEq, Eq, Structural, Clone, Copy, Debug)]
pub struct Checkpoint {
    pub epoch: u64,
    pub root: Root,
}

/// A logical block identifier, resolved to a concrete root and never stored.
#[derive(Clone, Copy, Debug)]
pub enum BlockId {
    Head,
    Genesis,
    Finalized,
    Justified,
    Slot(u64),
    Root(Root),
}

/// The error taxonomy of every read operation of this core.
#[derive(PartialEq, Eq, Structural, Clone, Copy, Debug)]
pub enum ApiError {
    /// The requested entity does not exist in the store.
    NotFound,
    /// The identifier needs live fork-choice state that this core does not hold.
    NotSupported,
    /// The store itself failed to answer.
    InternalError,
}

/// One entry of the validator registry.
#[derive(PartialEq, Eq, Structural, Clone, Copy, Debug)]
pub struct Validator {
    /// Stake as rounded and capped for reward purposes, in Gwei.
    pub effective_balance: u64,
    /// Whether the validator has already been slashed.
    pub slashed: bool,
    pub activation_epoch: u64,
    pub exit_epoch: u64,
    pub withdrawable_epoch: u64,
}

/// An aggregate signature, opaque to this core.
#[derive(Clone, Debug)]
pub struct Signature {
    pub bytes: Vec<u8>,
}

/// The vote an attestation carries.
#[derive(PartialEq, Eq, Structural, Clone, Copy, Debug)]
pub struct AttestationData {
    pub slot: u64,
    /// Committee index within the slot.
    pub index: u64,
    pub source: Checkpoint,
    pub target: Checkpoint,
}

/// An aggregated attestation as carried in a block body: the committee's
/// participation bitfield together with the vote data.
#[derive(Clone, Debug)]
pub struct Attestation {
    pub aggregation_bits: Vec<bool>,
    pub data: AttestationData,
    pub signature: Signature,
}

/// An attestation re-expressed over explicit validator indices.
#[derive(Clone, Debug)]
pub struct IndexedAttestation {
    /// Strictly ascending, hence duplicate-free.
    pub attesting_indices: Vec<u64>,
    pub data: AttestationData,
    pub signature: Signature,
}

/// A pair of attestations alleged to be mutually incompatible.
#[derive(Clone, Debug)]
pub struct AttesterSlashing {
    pub attestation_1: IndexedAttestation,
    pub attestation_2: IndexedAttestation,
}

/// A proposer-slashing report; this core reads only the index of the
/// proposer named by the report's first signed header.
#[derive(PartialEq, Eq, Structural, Clone, Copy, Debug)]
pub struct ProposerSlashing {
    pub proposer_index: u64,
}

/// One committee of the state's committee assignment: the validator
/// indices voting together at (slot, index).
#[derive(Clone, Debug)]
pub struct Committee {
    pub slot: u64,
    pub index: u64,
    pub members: Vec<u64>,
}

/// The body of a beacon block, reduced to what reward accounting reads.
#[derive(Clone, Debug)]
pub struct BlockBody {
    pub attestations: Vec<Attestation>,
    pub proposer_slashings: Vec<ProposerSlashing>,
    pub attester_slashings: Vec<AttesterSlashing>,
    /// Sync-committee participation bitfield, one bit per member.
    pub sync_committee_bits: Vec<bool>,
}

/// A beacon block: its own root identity, a weak back-reference to its
/// parent, and the body the rewards are computed from.
#[derive(Clone, Debug)]
pub struct Block {
    pub root: Root,
    pub parent_root: Root,
    pub slot: u64,
    pub proposer_index: u64,
    pub body: BlockBody,
}

/// A state snapshot as this core reads it: the validator registry,
/// aggregate balance figures, epoch context, and the committee
/// assignment attestations are resolved against.
#[derive(Clone, Debug)]
pub struct State {
    pub slot: u64,
    pub validators: Vec<Validator>,
    /// Sum of the effective balances of the active validators, in Gwei.
    pub total_active_balance: u64,
    /// Protocol base reward granted per balance increment.
    pub base_reward_per_increment: u64,
    pub committees: Vec<Committee>,
}

/// The reward breakdown a proposer earned for one block.
#[derive(PartialEq, Eq, Structural, Clone, Copy, Debug)]
pub struct BlockRewards {
    pub proposer_index: u64,
    pub total: u64,
    pub attestations: u64,
    pub sync_aggregate: u64,
    pub proposer_slashings: u64,
    pub attester_slashings: u64,
}

impl Default for BlockRewards {
    /// An all-zero breakdown for proposer zero.
    fn default() -> (r: Self)
        ensures
            r == (BlockRewards {
                proposer_index: 0,
                total: 0,
                attestations: 0,
                sync_aggregate: 0,
                proposer_slashings: 0,
                attester_slashings: 0,
            }),
    {
        BlockRewards {
            proposer_index: 0,
            total: 0,
            attestations: 0,
            sync_aggregate: 0,
            proposer_slashings: 0,
            attester_slashings: 0,
        }
    }
}

/// The genesis configuration of the chain.
#[derive(PartialEq, Eq, Structural, Clone, Copy, Debug)]
pub struct Genesis {
    pub genesis_time: u64,
    pub genesis_validators_root: Root,
    pub genesis_fork_version: u32,
}

/// The part of the network specification that the genesis read reports.
#[derive(PartialEq, Eq, Structural, Clone, Copy, Debug)]
pub struct NetworkConfig {
    pub min_genesis_time: u64,
    pub genesis_validators_root: Root,
    pub genesis_fork_version: u32,
}

/// A chain head: a leaf of the filtered block tree.
#[derive(PartialEq, Eq, Structural, Clone, Copy, Debug)]
pub struct BeaconHead {
    pub root: Root,
    pub slot: u64,
}

/// Outcome of one store read: the value, a recorded absence, or a
/// failure of the store itself.
#[derive(Clone, Debug)]
pub enum StoreRead<T> {
    Found(T),
    Absent,
    Failed,
}

/// An immutable snapshot of the store tables this core reads. Each
/// table is either served whole or marked failed; lookups never mutate.
#[derive(Clone, Debug)]
pub struct StoreSnapshot {
    pub finalized_checkpoint: StoreRead<Checkpoint>,
    pub justified_checkpoint: StoreRead<Checkpoint>,
    /// Slot number to the root recorded at that slot.
    pub slot_index: StoreRead<Vec<(u64, Root)>>,
    /// Block root to the block carrying that root.
    pub blocks: StoreRead<Vec<(Root, Block)>>,
    /// Block root to the state that block produced.
    pub states: StoreRead<Vec<(Root, State)>>,
}

/// No two entries of the table share a key.
pub open spec fn unique_keys<K, V>(s: Seq<(K, V)>) -> bool {
    forall|i: int, j: int| 0 <= i < j < s.len() ==> #[trigger] s[i].0 != #[trigger] s[j].0
}

/// The value stored under `k`, if any: first match wins.
pub open spec fn table_lookup<K, V>(s: Seq<(K, V)>, k: K) -> Option<V>
    decreases s.len(),
{
    if s.len() == 0 {
        None
    } else if s[0].0 == k {
        Some(s[0].1)
    } else {
        table_lookup(s.drop_first(), k)
    }
}

/// A successful lookup names an entry of the table.
pub proof fn lemma_table_lookup_index<K, V>(t: Seq<(K, V)>, k: K)
    requires
        table_lookup(t, k) is Some,
    ensures
        exists|i: int|
            0 <= i < t.len() && #[trigger] t[i].0 == k && t[i].1 == table_lookup(t, k)->Some_0,
    decreases t.len(),
{
    if t.len() == 0 {
    } else if t[0].0 == k {
        assert(t[0].0 == k && t[0].1 == table_lookup(t, k)->Some_0);
    } else {
        lemma_table_lookup_index(t.drop_first(), k);
        let i = choose|i: int|
            0 <= i < t.drop_first().len() && #[trigger] t.drop_first()[i].0 == k
                && t.drop_first()[i].1 == table_lookup(t.drop_first(), k)->Some_0;
        assert(t[i + 1].0 == k && t[i + 1].1 == table_lookup(t, k)->Some_0);
    }
}

/// Whether the validator can still be slashed at `epoch`: not already
/// slashed, and `epoch` lies in its activation/withdrawal window.
pub open spec fn spec_is_slashable_validator(v: Validator, epoch: u64) -> bool {
    &&& !v.slashed
    &&& v.activation_epoch <= epoch < v.withdrawable_epoch
}

impl Validator {
    /// Slashability test used by the evidence evaluator.
    pub fn is_slashable_validator(&self, epoch: u64) -> (r: bool)
        ensures
            r == spec_is_slashable_validator(*self, epoch),
    {
        !self.slashed && self.activation_epoch <= epoch && epoch < self.withdrawable_epoch
    }
}

impl State {
    /// The epoch the state's slot belongs to.
    pub open spec fn spec_current_epoch(self) -> u64 {
        (self.slot / SLOTS_PER_EPOCH) as u64
    }

    /// Epoch of the state's slot.
    pub fn get_current_epoch(&self) -> (r: u64)
        ensures
            r == self.spec_current_epoch(),
    {
        self.slot / SLOTS_PER_EPOCH
    }

    /// Registry and aggregate figures stay within protocol bounds, and
    /// every committee member is a registry index.
    pub open spec fn wf(self) -> bool {
        &&& forall|i: int|
            0 <= i < self.validators.len()
                ==> (#[trigger] self.validators[i]).effective_balance <= MAX_EFFECTIVE_BALANCE
        &&& self.total_active_balance <= MAX_TOTAL_ACTIVE_BALANCE
        &&& self.base_reward_per_increment <= EFFECTIVE_BALANCE_INCREMENT
        &&& forall|c: int|
            0 <= c < self.committees.len() ==> (#[trigger] self.committees[c]).wf(self.validators.len() as int)
    }
}

impl Committee {
    /// Bounded membership of registry indices.
    pub open spec fn wf(self, n_validators: int) -> bool {
        &&& self.members.len() <= MAX_ATTESTING_INDICES
        &&& forall|i: int|
            0 <= i < self.members.len() ==> (#[trigger] self.members[i]) < n_validators
    }
}

impl IndexedAttestation {
    /// Indices are strictly ascending (hence duplicate-free), bounded in
    /// number, and all name validators of the registry.
    pub open spec fn wf(self, n_validators: int) -> bool {
        &&& self.attesting_indices.len() <= MAX_ATTESTING_INDICES
        &&& forall|i: int, j: int|
            0 <= i < j < self.attesting_indices.len()
                ==> #[trigger] self.attesting_indices[i] < #[trigger] self.attesting_indices[j]
        &&& forall|i: int|
            0 <= i < self.attesting_indices.len()
                ==> (#[trigger] self.attesting_indices[i]) < n_validators
    }
}

impl AttesterSlashing {
    pub open spec fn wf(self, n_validators: int) -> bool {
        &&& self.attestation_1.wf(n_validators)
        &&& self.attestation_2.wf(n_validators)
    }
}

impl Block {
    /// The body stays within the protocol's per-block caps and indexes
    /// only validators of `st`'s registry.
    pub open spec fn wf(self, st: State) -> bool {
        &&& self.body.attestations.len() <= MAX_ATTESTATIONS
        &&& self.body.proposer_slashings.len() <= MAX_PROPOSER_SLASHINGS
        &&& forall|i: int|
            0 <= i < self.body.proposer_slashings.len()
                ==> (#[trigger] self.body.proposer_slashings[i]).proposer_index
                    < st.validators.len()
        &&& self.body.attester_slashings.len() <= MAX_ATTESTER_SLASHINGS
        &&& forall|i: int|
            0 <= i < self.body.attester_slashings.len()
                ==> (#[trigger] self.body.attester_slashings[i]).wf(st.validators.len() as int)
        &&& self.body.sync_committee_bits.len() == SYNC_COMMITTEE_SIZE
    }
}

impl StoreSnapshot {
    /// The blocks table, where served, keys each block by its own root.
    pub open spec fn blocks_wf(self) -> bool {
        self.blocks matches StoreRead::Found(t) ==> {
            &&& unique_keys(t@)
            &&& forall|i: int| 0 <= i < t@.len() ==> (#[trigger] t@[i]).1.root == t@[i].0
        }
    }

    /// Every served state is well formed, and every block whose
    /// pre-state the snapshot also serves is well formed against it.
    pub open spec fn rewards_wf(self) -> bool {
        &&& (self.states matches StoreRead::Found(st) ==> {
            &&& unique_keys(st@)
            &&& forall|j: int| 0 <= j < st@.len() ==> (#[trigger] st@[j]).1.wf()
        })
        &&& (self.blocks matches StoreRead::Found(bt) ==> (self.states matches StoreRead::Found(
            st) ==> forall|i: int, j: int|
                0 <= i < bt@.len() && 0 <= j < st@.len() && (#[trigger] bt@[i]).0 == (
                #[trigger] st@[j]).0 ==> bt@[i].1.wf(st@[j].1)))
    }

    /// Slot index keys are unique.
    pub open spec fn slots_wf(self) -> bool {
        self.slot_index matches StoreRead::Found(t) ==> unique_keys(t@)
    }

    pub open spec fn wf(self) -> bool {
        &&& self.blocks_wf()
        &&& self.rewards_wf()
        &&& self.slots_wf()
    }
}

} // verus!

