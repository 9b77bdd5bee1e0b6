//! One accumulator: a mountain range, the policy that guards it, and the
//! snapshots that make its past readable.

use vstd::prelude::*;
use crate::access::{can_write, may_write, Identity, WriteAccess};
use crate::error::AccumulatorError;
use crate::hash::{Commitment, MAX_PAYLOAD_LEN};
use crate::mmr::{
    bag, bag_peaks, copy_peaks, lemma_peaks_frame, peaks_of, peaks_view, root_of, AppendReceipt, Mmr,
    Peak,
};
use crate::snapshot::{
    lemma_recorded_keeps_past, lemma_recorded_ordered, lemma_state_at_in_history, ordered, recorded,
    state_at, SnapshotModel, SnapshotStore, State, StateModel,
};

verus! {

/// What an accumulator is, mathematically: who owns it, who may write, when it
/// was created, the payloads of its leaves, and its history of snapshots.
pub struct AccumulatorModel {
    pub owner: Identity,
    pub policy: WriteAccess,
    pub created_at: nat,
    pub leaves: Seq<Seq<u8>>,
    pub history: Seq<SnapshotModel>,
}

/// The state of the range over the first `count` of `leaves`.
pub open spec fn state_of(leaves: Seq<Seq<u8>>, count: nat) -> StateModel {
    StateModel { leaf_count: count, peaks: peaks_of(leaves, count) }
}

impl AccumulatorModel {
    /// The accumulator as it is created: no leaves, no snapshots.
    pub open spec fn fresh(owner: Identity, policy: WriteAccess, created_at: nat) -> AccumulatorModel {
        AccumulatorModel { owner, policy, created_at, leaves: Seq::empty(), history: Seq::empty() }
    }

    /// What holds of every accumulator: its history is in order and starts no
    /// earlier than its creation, every snapshot is the state of the range
    /// over the leaves that were there when it was taken, the latest snapshot
    /// is the state over all leaves, and no payload is over the limit.
    pub open spec fn valid(self) -> bool {
        &&& ordered(self.history)
        &&& forall|i: int|
            0 <= i < self.history.len() ==> {
                &&& (#[trigger] self.history[i]).height >= self.created_at
                &&& 0 < self.history[i].state.leaf_count <= self.leaves.len()
                &&& self.history[i].state == state_of(self.leaves, self.history[i].state.leaf_count)
            }
        &&& if self.history.len() == 0 {
            self.leaves.len() == 0
        } else {
            self.history.last().state.leaf_count == self.leaves.len()
        }
        &&& forall|i: int|
            0 <= i < self.leaves.len() ==> (#[trigger] self.leaves[i]).len() <= MAX_PAYLOAD_LEN
    }

    /// Whether an append can commit at `height`: not before the accumulator
    /// was created, and not before its latest snapshot.
    pub open spec fn open_at(self, height: nat) -> bool {
        height >= self.created_at && (self.history.len() == 0 || self.history.last().height
            <= height)
    }

    /// Why an append is turned down, if it is: the caller may not write; or
    /// else the payload is over the limit; or else the height is closed.
    pub open spec fn refusal(self, caller: Identity, payload: Seq<u8>, height: nat) -> Option<
        AccumulatorError,
    > {
        if !may_write(caller, self.policy, self.owner) {
            Some(AccumulatorError::PermissionDenied)
        } else if payload.len() > MAX_PAYLOAD_LEN {
            Some(AccumulatorError::SerializationError)
        } else if !self.open_at(height) {
            Some(AccumulatorError::InvalidHeight)
        } else {
            None
        }
    }

    /// The accumulator after `payload` was appended at `height`: one more
    /// leaf, and the snapshot of `height` is the state over all leaves.
    pub open spec fn appended(self, payload: Seq<u8>, height: nat) -> AccumulatorModel {
        let leaves = self.leaves.push(payload);
        AccumulatorModel {
            leaves,
            history: recorded(
                self.history,
                SnapshotModel { height, state: state_of(leaves, leaves.len()) },
            ),
            ..self
        }
    }

    /// The state over all leaves, whether their height is committed or not.
    pub open spec fn live(self) -> StateModel {
        state_of(self.leaves, self.leaves.len())
    }

    /// What a read at `height` sees while the ledger's tip is at `tip`. A
    /// height beyond the tip or before the creation cannot be read.
    pub open spec fn visible(self, height: nat, tip: nat) -> Result<StateModel, AccumulatorError> {
        if height > tip || height < self.created_at {
            Err(AccumulatorError::InvalidHeight)
        } else {
            Ok(state_at(self.history, height))
        }
    }

    /// What a read of the leaf at `index` sees at `height` while the tip is at
    /// `tip`: the payload, if the leaf was there at that height.
    pub open spec fn visible_leaf(self, index: nat, height: nat, tip: nat) -> Result<
        Seq<u8>,
        AccumulatorError,
    > {
        match self.visible(height, tip) {
            Err(e) => Err(e),
            Ok(state) => if index < state.leaf_count {
                Ok(self.leaves[index as int])
            } else {
                Err(AccumulatorError::NotFound)
            },
        }
    }

    /// A fresh accumulator is valid.
    pub proof fn lemma_fresh_valid(owner: Identity, policy: WriteAccess, created_at: nat)
        ensures
            Self::fresh(owner, policy, created_at).valid(),
    {
    }

    /// Whatever height is read, the state seen is that of the range over the
    /// leaves that were there: a prefix of the leaves of today.
    pub proof fn lemma_history_is_prefix(self, height: nat)
        requires
            self.valid(),
        ensures
            state_at(self.history, height).leaf_count <= self.leaves.len(),
            state_at(self.history, height) == state_of(
                self.leaves,
                state_at(self.history, height).leaf_count,
            ),
    {
        lemma_state_at_in_history(self.history, height);
    }

    /// A read at the latest snapshot's height, or after it, sees the state
    /// over all leaves.
    pub proof fn lemma_latest_is_live(self, height: nat)
        requires
            self.valid(),
            self.history.len() == 0 || self.history.last().height <= height,
        ensures
            state_at(self.history, height) == self.live(),
    {
    }

    /// An accepted append leaves a valid accumulator.
    pub proof fn lemma_appended_valid(self, caller: Identity, payload: Seq<u8>, height: nat)
        requires
            self.valid(),
            self.refusal(caller, payload, height) is None,
        ensures
            self.appended(payload, height).valid(),
    {
        let after = self.appended(payload, height);
        let snapshot = SnapshotModel { height, state: state_of(after.leaves, after.leaves.len()) };
        lemma_recorded_ordered(self.history, snapshot);
        assert forall|i: int| 0 <= i < after.history.len() implies {
            &&& (#[trigger] after.history[i]).height >= after.created_at
            &&& 0 < after.history[i].state.leaf_count <= after.leaves.len()
            &&& after.history[i].state == state_of(after.leaves, after.history[i].state.leaf_count)
        } by {
            if i < after.history.len() - 1 {
                assert(after.history[i] == self.history[i]);
                lemma_peaks_frame(self.leaves, after.leaves, self.history[i].state.leaf_count);
            }
        }
    }

    /// Historical stability: an append at some height changes nothing of what
    /// a read at an earlier height sees, neither the state nor any leaf.
    pub proof fn lemma_append_keeps_history(
        self,
        caller: Identity,
        payload: Seq<u8>,
        height: nat,
        earlier: nat,
        tip: nat,
        index: nat,
    )
        requires
            self.valid(),
            self.refusal(caller, payload, height) is None,
            earlier < height,
        ensures
            self.appended(payload, height).visible(earlier, tip) == self.visible(earlier, tip),
            self.appended(payload, height).visible_leaf(index, earlier, tip) == self.visible_leaf(
                index,
                earlier,
                tip,
            ),
    {
        let after = self.appended(payload, height);
        let snapshot = SnapshotModel { height, state: state_of(after.leaves, after.leaves.len()) };
        lemma_recorded_keeps_past(self.history, snapshot, earlier);
        self.lemma_history_is_prefix(earlier);
    }
}

/// One accumulator. Its view is its model.
pub struct Accumulator {
    owner: Identity,
    policy: WriteAccess,
    created_at: u64,
    mmr: Mmr,
    snapshots: SnapshotStore,
}

impl View for Accumulator {
    type V = AccumulatorModel;

    closed spec fn view(&self) -> AccumulatorModel {
        AccumulatorModel {
            owner: self.owner,
            policy: self.policy,
            created_at: self.created_at as nat,
            leaves: self.mmr@,
            history: self.snapshots@,
        }
    }
}

impl Accumulator {
    /// The invariant of an accumulator: its parts are well formed, and its
    /// model is valid.
    pub closed spec fn wf(&self) -> bool {
        &&& self.mmr.wf()
        &&& self.snapshots.wf()
        &&& self@.valid()
    }

    /// The model of a well-formed accumulator is valid, and its numbers fit
    /// the machine.
    pub proof fn lemma_wf_valid(&self)
        requires
            self.wf(),
        ensures
            self@.valid(),
            self@.created_at <= u64::MAX,
    {
    }

    /// A new, empty accumulator that `owner` created at `created_at`.
    pub fn new(owner: Identity, policy: WriteAccess, created_at: u64) -> (acc: Accumulator)
        ensures
            acc.wf(),
            acc@ == AccumulatorModel::fresh(owner, policy, created_at as nat),
    {
        Accumulator { owner, policy, created_at, mmr: Mmr::new(), snapshots: SnapshotStore::new() }
    }

    /// The identity that created the accumulator.
    pub fn owner(&self) -> (owner: Identity)
        ensures
            owner == self@.owner,
    {
        self.owner
    }

    /// The write policy.
    pub fn policy(&self) -> (policy: WriteAccess)
        ensures
            policy == self@.policy,
    {
        self.policy
    }

    /// The height at which the accumulator was created.
    pub fn created_at(&self) -> (height: u64)
        ensures
            height == self@.created_at,
    {
        self.created_at
    }

    /// Appends `payload` for `caller` at ledger height `height`.
    ///
    /// The append is turned down, and nothing changes, if the caller may not
    /// write, or else if the payload is over the limit, or else if the height
    /// lies before the creation or before the latest snapshot. Otherwise the
    /// leaf is stored, the peaks are merged, and the state over all leaves is
    /// recorded as the snapshot of `height`.
    pub fn append(&mut self, caller: Identity, payload: &[u8], height: u64) -> (r: Result<
        AppendReceipt,
        AccumulatorError,
    >)
        requires
            old(self).wf(),
        ensures
            final(self).wf(),
            match old(self)@.refusal(caller, payload@, height as nat) {
                Some(e) => r == Err::<AppendReceipt, AccumulatorError>(e) && *final(self) == *old(
                    self,
                ),
                None => r is Ok && final(self)@ == old(self)@.appended(payload@, height as nat)
                    && r->Ok_0.index == old(self)@.leaves.len() && r->Ok_0.root@ == root_of(
                    final(self)@.leaves,
                ),
            },
    {
        if !can_write(caller, self.policy, self.owner) {
            return Err(AccumulatorError::PermissionDenied);
        }
        if payload.len() > MAX_PAYLOAD_LEN {
            return Err(AccumulatorError::SerializationError);
        }
        if height < self.created_at {
            return Err(AccumulatorError::InvalidHeight);
        }
        match self.snapshots.latest_height() {
            Some(latest) => {
                if height < latest {
                    return Err(AccumulatorError::InvalidHeight);
                }
            },
            None => {},
        }
        let ghost before = self@;
        proof {
            before.lemma_appended_valid(caller, payload@, height as nat);
        }
        let receipt = match self.mmr.append(payload) {
            Ok(receipt) => receipt,
            Err(e) => {
                return Err(e);
            },
        };
        let count = self.mmr.count();
        let peaks = copy_peaks(self.mmr.peaks());
        let recorded = self.snapshots.record_snapshot(height, count, peaks);
        assert(recorded is Ok);
        Ok(receipt)
    }

    /// The number of leaves, counting those whose height is not committed.
    pub fn count(&self) -> (n: u64)
        ensures
            n == self@.live().leaf_count,
    {
        self.mmr.count()
    }

    /// The peaks over all leaves, highest mountain first.
    pub fn peaks(&self) -> (peaks: &Vec<Peak>)
        requires
            self.wf(),
        ensures
            peaks_view(peaks@) == self@.live().peaks,
    {
        self.mmr.peaks()
    }

    /// The root over all leaves.
    pub fn root(&self) -> (root: Commitment)
        requires
            self.wf(),
        ensures
            root@ == bag_peaks(self@.live().peaks),
    {
        self.mmr.root()
    }

    /// The payload of the leaf at `index`, whether its height is committed or
    /// not.
    pub fn leaf(&self, index: u64) -> (r: Result<&Vec<u8>, AccumulatorError>)
        ensures
            index >= self@.leaves.len() ==> r == Err::<&Vec<u8>, AccumulatorError>(
                AccumulatorError::NotFound,
            ),
            index < self@.leaves.len() ==> r is Ok && r->Ok_0@ == self@.leaves[index as int],
    {
        self.mmr.leaf(index)
    }

    /// The state that a read at `height` sees while the ledger's tip is at
    /// `tip`.
    pub fn resolve(&self, height: u64, tip: u64) -> (r: Result<State, AccumulatorError>)
        requires
            self.wf(),
        ensures
            match self@.visible(height as nat, tip as nat) {
                Err(e) => r == Err::<State, AccumulatorError>(e),
                Ok(state) => r is Ok && r->Ok_0@ == state,
            },
    {
        if height < self.created_at {
            return Err(AccumulatorError::InvalidHeight);
        }
        self.snapshots.resolve(height, tip)
    }

    /// The number of leaves as of `height`.
    pub fn count_at(&self, height: u64, tip: u64) -> (r: Result<u64, AccumulatorError>)
        requires
            self.wf(),
        ensures
            match self@.visible(height as nat, tip as nat) {
                Err(e) => r == Err::<u64, AccumulatorError>(e),
                Ok(state) => r is Ok && r->Ok_0 == state.leaf_count,
            },
    {
        match self.resolve(height, tip) {
            Ok(state) => Ok(state.leaf_count),
            Err(e) => Err(e),
        }
    }

    /// The peaks as of `height`, highest mountain first.
    pub fn peaks_at(&self, height: u64, tip: u64) -> (r: Result<Vec<Peak>, AccumulatorError>)
        requires
            self.wf(),
        ensures
            match self@.visible(height as nat, tip as nat) {
                Err(e) => r == Err::<Vec<Peak>, AccumulatorError>(e),
                Ok(state) => r is Ok && peaks_view(r->Ok_0@) == state.peaks,
            },
    {
        match self.resolve(height, tip) {
            Ok(state) => Ok(state.peaks),
            Err(e) => Err(e),
        }
    }

    /// The root as of `height`: the peaks of that height, bagged.
    pub fn root_at(&self, height: u64, tip: u64) -> (r: Result<Commitment, AccumulatorError>)
        requires
            self.wf(),
        ensures
            match self@.visible(height as nat, tip as nat) {
                Err(e) => r == Err::<Commitment, AccumulatorError>(e),
                Ok(state) => r is Ok && r->Ok_0@ == bag_peaks(state.peaks),
            },
    {
        match self.resolve(height, tip) {
            Ok(state) => Ok(bag(&state.peaks)),
            Err(e) => Err(e),
        }
    }

    /// The payload of the leaf at `index` as of `height`.
    pub fn leaf_at(&self, index: u64, height: u64, tip: u64) -> (r: Result<
        &Vec<u8>,
        AccumulatorError,
    >)
        requires
            self.wf(),
        ensures
            match self@.visible_leaf(index as nat, height as nat, tip as nat) {
                Err(e) => r == Err::<&Vec<u8>, AccumulatorError>(e),
                Ok(payload) => r is Ok && r->Ok_0@ == payload,
            },
    {
        let state = match self.resolve(height, tip) {
            Ok(state) => state,
            Err(e) => {
                return Err(e);
            },
        };
        if index >= state.leaf_count {
            return Err(AccumulatorError::NotFound);
        }
        proof {
            self@.lemma_history_is_prefix(height as nat);
        }
        self.mmr.leaf(index)
    }
}

} // verus!
