//! The machine registry: the arena of accumulators, each under an address of
//! its own, and the ledger clock that decides what is committed.
//!
//! The registry keeps the height of the ledger's tip, the latest committed
//! block. Whatever is created or appended goes into the block above the tip,
//! the pending block, and is committed when the tip moves up. A read of the
//! committed state, or of an explicit height, therefore never sees what is
//! still pending, and no append can change what such a read has seen.

use vstd::prelude::*;
use crate::access::{Identity, WriteAccess};
use crate::error::AccumulatorError;
use crate::hash::{Commitment, MAX_PAYLOAD_LEN};
use crate::machine::{Accumulator, AccumulatorModel};
use crate::mmr::{bag_peaks, peaks_view, AppendReceipt, Peak};
use crate::snapshot::StateModel;

verus! {

/// The address of an accumulator in a registry.
#[derive(Clone, Copy, Debug, PartialEq, Eq, Structural)]
pub struct Address(pub u64);

/// The height that a read asks for.
#[derive(Clone, Copy, Debug, PartialEq, Eq, Structural)]
pub enum QueryHeight {
    /// The latest committed state.
    Committed,
    /// The state with all that is pending.
    Pending,
    /// The state as of the given height.
    Height(u64),
}

/// What a registry is, mathematically: its accumulators by address, and the
/// height of the ledger's tip.
pub struct RegistryModel {
    pub machines: Seq<AccumulatorModel>,
    pub tip: nat,
}

impl RegistryModel {
    /// The registry as it starts: no accumulators, the tip at height 0.
    pub open spec fn fresh() -> RegistryModel {
        RegistryModel { machines: Seq::empty(), tip: 0 }
    }

    /// The height of the pending block.
    pub open spec fn pending_height(self) -> nat {
        self.tip + 1
    }

    /// What holds of every registry: each accumulator is valid, and none was
    /// created or has grown above the pending block.
    pub open spec fn valid(self) -> bool {
        forall|i: int|
            0 <= i < self.machines.len() ==> {
                &&& (#[trigger] self.machines[i]).valid()
                &&& self.machines[i].created_at <= self.pending_height()
                &&& self.machines[i].history.len() > 0 ==> self.machines[i].history.last().height
                    <= self.pending_height()
            }
    }

    /// Whether `address` names an accumulator.
    pub open spec fn knows(self, address: Address) -> bool {
        address.0 < self.machines.len()
    }

    /// The registry after an accumulator was created: it stands under the
    /// next address, and all others are as they were.
    pub open spec fn created(self, policy: WriteAccess, owner: Identity) -> RegistryModel {
        RegistryModel {
            machines: self.machines.push(
                AccumulatorModel::fresh(owner, policy, self.pending_height()),
            ),
            ..self
        }
    }

    /// Why an append is turned down, if it is: the address is unknown; or
    /// else the caller may not write; or else the payload is over the limit.
    pub open spec fn refusal(self, address: Address, caller: Identity, payload: Seq<u8>) -> Option<
        AccumulatorError,
    > {
        if !self.knows(address) {
            Some(AccumulatorError::NotFound)
        } else {
            self.machines[address.0 as int].refusal(caller, payload, self.pending_height())
        }
    }

    /// The registry after `payload` was appended to the accumulator at
    /// `address`, in the pending block.
    pub open spec fn appended(self, address: Address, payload: Seq<u8>) -> RegistryModel {
        RegistryModel {
            machines: self.machines.update(
                address.0 as int,
                self.machines[address.0 as int].appended(payload, self.pending_height()),
            ),
            ..self
        }
    }

    /// The registry after the pending block was committed.
    pub open spec fn committed(self) -> RegistryModel {
        RegistryModel { tip: self.tip + 1, ..self }
    }

    /// The height that a read resolves to: the tip for the committed state,
    /// the pending block for the pending state, itself for an explicit height.
    pub open spec fn height_of(self, query: QueryHeight) -> nat {
        match query {
            QueryHeight::Committed => self.tip,
            QueryHeight::Pending => self.pending_height(),
            QueryHeight::Height(h) => h as nat,
        }
    }

    /// The last height that a read may ask for: the pending block for a read
    /// of the pending state, the tip for every other.
    pub open spec fn horizon_of(self, query: QueryHeight) -> nat {
        match query {
            QueryHeight::Pending => self.pending_height(),
            _ => self.tip,
        }
    }

    /// What a read of the accumulator at `address` sees.
    pub open spec fn visible(self, address: Address, query: QueryHeight) -> Result<
        StateModel,
        AccumulatorError,
    > {
        if !self.knows(address) {
            Err(AccumulatorError::NotFound)
        } else {
            self.machines[address.0 as int].visible(self.height_of(query), self.horizon_of(query))
        }
    }

    /// What a read of the leaf at `index` of the accumulator at `address`
    /// sees.
    pub open spec fn visible_leaf(self, address: Address, index: nat, query: QueryHeight) -> Result<
        Seq<u8>,
        AccumulatorError,
    > {
        if !self.knows(address) {
            Err(AccumulatorError::NotFound)
        } else {
            self.machines[address.0 as int].visible_leaf(
                index,
                self.height_of(query),
                self.horizon_of(query),
            )
        }
    }

    /// Creating an accumulator leaves a valid registry.
    pub proof fn lemma_created_valid(self, policy: WriteAccess, owner: Identity)
        requires
            self.valid(),
        ensures
            self.created(policy, owner).valid(),
    {
        let after = self.created(policy, owner);
        assert forall|i: int| 0 <= i < after.machines.len() implies {
            &&& (#[trigger] after.machines[i]).valid()
            &&& after.machines[i].created_at <= after.pending_height()
            &&& after.machines[i].history.len() > 0 ==> after.machines[i].history.last().height
                <= after.pending_height()
        } by {
            if i < self.machines.len() {
                assert(after.machines[i] == self.machines[i]);
            }
        }
    }

    /// An accepted append leaves a valid registry.
    pub proof fn lemma_appended_valid(self, address: Address, caller: Identity, payload: Seq<u8>)
        requires
            self.valid(),
            self.refusal(address, caller, payload) is None,
        ensures
            self.appended(address, payload).valid(),
    {
        let after = self.appended(address, payload);
        self.machines[address.0 as int].lemma_appended_valid(
            caller,
            payload,
            self.pending_height(),
        );
        assert forall|i: int| 0 <= i < after.machines.len() implies {
            &&& (#[trigger] after.machines[i]).valid()
            &&& after.machines[i].created_at <= after.pending_height()
            &&& after.machines[i].history.len() > 0 ==> after.machines[i].history.last().height
                <= after.pending_height()
        } by {
            if i != address.0 {
                assert(after.machines[i] == self.machines[i]);
            }
        }
    }

    /// In a valid registry an append is never turned down for its height: the
    /// pending block is open on every accumulator.
    pub proof fn lemma_pending_is_open(self, address: Address)
        requires
            self.valid(),
            self.knows(address),
        ensures
            self.machines[address.0 as int].open_at(self.pending_height()),
    {
    }

    /// Access control. On an accumulator that only its owner may write, an
    /// append by anyone else is turned down with `PermissionDenied`. On one
    /// that is public, an append by anyone is accepted, if the payload is
    /// within the limit.
    pub proof fn lemma_access_control(self, address: Address, caller: Identity, payload: Seq<u8>)
        requires
            self.valid(),
            self.knows(address),
        ensures
            self.machines[address.0 as int].policy == WriteAccess::OnlyOwner && caller
                != self.machines[address.0 as int].owner ==> self.refusal(address, caller, payload)
                == Some(AccumulatorError::PermissionDenied),
            self.machines[address.0 as int].policy == WriteAccess::OnlyOwner && caller
                == self.machines[address.0 as int].owner && payload.len() <= MAX_PAYLOAD_LEN
                ==> self.refusal(address, caller, payload) is None,
            self.machines[address.0 as int].policy == WriteAccess::Public && payload.len()
                <= MAX_PAYLOAD_LEN ==> self.refusal(address, caller, payload) is None,
    {
    }

    /// A read of the pending state sees the state over all leaves.
    pub proof fn lemma_pending_is_live(self, address: Address)
        requires
            self.valid(),
            self.knows(address),
        ensures
            self.visible(address, QueryHeight::Pending) == Ok::<StateModel, AccumulatorError>(
                self.machines[address.0 as int].live(),
            ),
    {
        self.machines[address.0 as int].lemma_latest_is_live(self.pending_height());
    }

    /// Historical stability. What a read of the committed state or of an
    /// explicit height sees of any accumulator, its state and its leaves, is
    /// the same after an append as before it, whichever accumulator was
    /// appended to.
    pub proof fn lemma_append_keeps_committed(
        self,
        address: Address,
        caller: Identity,
        payload: Seq<u8>,
        reader: Address,
        query: QueryHeight,
        index: nat,
    )
        requires
            self.valid(),
            self.refusal(address, caller, payload) is None,
            query != QueryHeight::Pending,
        ensures
            self.appended(address, payload).visible(reader, query) == self.visible(reader, query),
            self.appended(address, payload).visible_leaf(reader, index, query)
                == self.visible_leaf(reader, index, query),
    {
        if self.knows(reader) && reader == address && self.height_of(query) <= self.tip {
            self.machines[address.0 as int].lemma_append_keeps_history(
                caller,
                payload,
                self.pending_height(),
                self.height_of(query),
                self.tip,
                index,
            );
        }
    }

    /// Historical stability across blocks. What a read of an explicit height
    /// up to the tip sees is the same after the pending block was committed.
    pub proof fn lemma_commit_keeps_history(self, reader: Address, height: u64, index: nat)
        requires
            height <= self.tip,
        ensures
            self.committed().visible(reader, QueryHeight::Height(height)) == self.visible(
                reader,
                QueryHeight::Height(height),
            ),
            self.committed().visible_leaf(reader, index, QueryHeight::Height(height))
                == self.visible_leaf(reader, index, QueryHeight::Height(height)),
    {
    }

    /// Committing the pending block makes what was pending the committed
    /// state.
    pub proof fn lemma_commit_publishes(self, reader: Address, index: nat)
        ensures
            self.committed().visible(reader, QueryHeight::Committed) == self.visible(
                reader,
                QueryHeight::Pending,
            ),
            self.committed().visible_leaf(reader, index, QueryHeight::Committed)
                == self.visible_leaf(reader, index, QueryHeight::Pending),
    {
    }

    /// Addresses are never reused: a new accumulator stands under an address
    /// that named nothing before, and every address that named an accumulator
    /// still names the same one.
    pub proof fn lemma_addresses_are_stable(self, policy: WriteAccess, owner: Identity, other: Address)
        requires
            self.knows(other),
        ensures
            other.0 != self.machines.len(),
            self.created(policy, owner).knows(other),
            self.created(policy, owner).machines[other.0 as int] == self.machines[other.0 as int],
    {
    }
}

/// The models of a list of accumulators, in the same order.
spec fn models_of(machines: Seq<Accumulator>) -> Seq<AccumulatorModel> {
    machines.map_values(|a: Accumulator| a@)
}

/// The registry of accumulators. Its view is its model.
pub struct Registry {
    machines: Vec<Accumulator>,
    tip: u64,
}

impl View for Registry {
    type V = RegistryModel;

    closed spec fn view(&self) -> RegistryModel {
        RegistryModel { machines: models_of(self.machines@), tip: self.tip as nat }
    }
}

impl Registry {
    /// The invariant of a registry: every accumulator is well formed, the
    /// model is valid, and there is a height left for the pending block.
    pub closed spec fn wf(&self) -> bool {
        &&& forall|i: int| 0 <= i < self.machines@.len() ==> (#[trigger] self.machines@[i]).wf()
        &&& self@.valid()
        &&& self.tip < u64::MAX
    }

    /// The model of a well-formed registry is valid, and its numbers fit the
    /// machine.
    pub proof fn lemma_wf_valid(&self)
        requires
            self.wf(),
        ensures
            self@.valid(),
            self@.tip < u64::MAX,
    {
    }

    /// A registry with no accumulators, the tip at height 0.
    pub fn new() -> (registry: Registry)
        ensures
            registry.wf(),
            registry@ == RegistryModel::fresh(),
    {
        let registry = Registry { machines: Vec::new(), tip: 0 };
        assert(registry@.machines =~= Seq::<AccumulatorModel>::empty());
        registry
    }

    /// The height of the ledger's tip.
    pub fn tip(&self) -> (tip: u64)
        ensures
            tip == self@.tip,
    {
        self.tip
    }

    /// The number of accumulators.
    pub fn len(&self) -> (n: usize)
        ensures
            n == self@.machines.len(),
    {
        self.machines.len()
    }

    /// Creates an empty accumulator with the given policy and owner, in the
    /// pending block, and hands out its address, which no accumulator had
    /// before.
    pub fn create(&mut self, policy: WriteAccess, owner: Identity) -> (address: Address)
        requires
            old(self).wf(),
        ensures
            final(self).wf(),
            address.0 == old(self)@.machines.len(),
            final(self)@ == old(self)@.created(policy, owner),
    {
        let ghost before = self@;
        let address = Address(self.machines.len() as u64);
        self.machines.push(Accumulator::new(owner, policy, self.tip + 1));
        proof {
            assert(self@.machines =~= before.created(policy, owner).machines);
            before.lemma_created_valid(policy, owner);
        }
        address
    }

    /// The accumulator at `address`.
    pub fn attach(&self, address: Address) -> (r: Result<&Accumulator, AccumulatorError>)
        requires
            self.wf(),
        ensures
            !self@.knows(address) ==> r == Err::<&Accumulator, AccumulatorError>(
                AccumulatorError::NotFound,
            ),
            self@.knows(address) ==> r is Ok && r->Ok_0.wf() && r->Ok_0@
                == self@.machines[address.0 as int],
    {
        if address.0 >= self.machines.len() as u64 {
            return Err(AccumulatorError::NotFound);
        }
        Ok(&self.machines[address.0 as usize])
    }

    /// Appends `payload` for `caller` to the accumulator at `address`, in the
    /// pending block.
    ///
    /// The append is turned down, and nothing changes, if the address is
    /// unknown, or else if the caller may not write, or else if the payload
    /// is over the limit.
    pub fn append(&mut self, address: Address, caller: Identity, payload: &[u8]) -> (r: Result<
        AppendReceipt,
        AccumulatorError,
    >)
        requires
            old(self).wf(),
        ensures
            final(self).wf(),
            match old(self)@.refusal(address, caller, payload@) {
                Some(e) => r == Err::<AppendReceipt, AccumulatorError>(e) && final(self)@ == old(
                    self,
                )@,
                None => r is Ok && final(self)@ == old(self)@.appended(address, payload@)
                    && r->Ok_0.index == old(self)@.machines[address.0 as int].leaves.len()
                    && r->Ok_0.root@ == bag_peaks(
                    final(self)@.machines[address.0 as int].live().peaks,
                ),
            },
    {
        if address.0 >= self.machines.len() as u64 {
            return Err(AccumulatorError::NotFound);
        }
        let ghost before = self@;
        let ghost stored = self.machines@;
        let slot = address.0 as usize;
        let height = self.tip + 1;
        let r = self.machines[slot].append(caller, payload, height);
        proof {
            assert forall|i: int| 0 <= i < self.machines@.len() implies (
            #[trigger] self.machines@[i]).wf() by {
                if i != slot {
                    assert(self.machines@[i] == stored[i]);
                }
            }
            if r is Ok {
                before.lemma_appended_valid(address, caller, payload@);
                assert(self@.machines =~= before.appended(address, payload@).machines);
            } else {
                assert(self@.machines =~= before.machines);
            }
        }
        r
    }

    /// Commits the pending block: the tip moves up by one, and what was
    /// pending is committed. At the last height that the ledger can count to
    /// nothing changes.
    pub fn commit_block(&mut self) -> (r: Result<u64, AccumulatorError>)
        requires
            old(self).wf(),
        ensures
            final(self).wf(),
            old(self)@.tip + 1 < u64::MAX ==> r == Ok::<u64, AccumulatorError>(
                (old(self)@.tip + 1) as u64,
            ) && final(self)@ == old(self)@.committed(),
            old(self)@.tip + 1 >= u64::MAX ==> r == Err::<u64, AccumulatorError>(
                AccumulatorError::InvalidHeight,
            ) && final(self)@ == old(self)@,
    {
        if self.tip >= u64::MAX - 1 {
            return Err(AccumulatorError::InvalidHeight);
        }
        self.tip = self.tip + 1;
        Ok(self.tip)
    }

    /// The height and the horizon of a read.
    fn heights(&self, query: QueryHeight) -> (r: (u64, u64))
        requires
            self.wf(),
        ensures
            r.0 == self@.height_of(query),
            r.1 == self@.horizon_of(query),
    {
        match query {
            QueryHeight::Committed => (self.tip, self.tip),
            QueryHeight::Pending => (self.tip + 1, self.tip + 1),
            QueryHeight::Height(h) => (h, self.tip),
        }
    }

    /// The number of leaves of the accumulator at `address`, as `query` sees
    /// it.
    pub fn count(&self, address: Address, query: QueryHeight) -> (r: Result<u64, AccumulatorError>)
        requires
            self.wf(),
        ensures
            match self@.visible(address, query) {
                Err(e) => r == Err::<u64, AccumulatorError>(e),
                Ok(state) => r is Ok && r->Ok_0 == state.leaf_count,
            },
    {
        let machine = match self.attach(address) {
            Ok(machine) => machine,
            Err(e) => {
                return Err(e);
            },
        };
        let (height, horizon) = self.heights(query);
        machine.count_at(height, horizon)
    }

    /// The peaks of the accumulator at `address`, as `query` sees them,
    /// highest mountain first.
    pub fn peaks(&self, address: Address, query: QueryHeight) -> (r: Result<
        Vec<Peak>,
        AccumulatorError,
    >)
        requires
            self.wf(),
        ensures
            match self@.visible(address, query) {
                Err(e) => r == Err::<Vec<Peak>, AccumulatorError>(e),
                Ok(state) => r is Ok && peaks_view(r->Ok_0@) == state.peaks,
            },
    {
        let machine = match self.attach(address) {
            Ok(machine) => machine,
            Err(e) => {
                return Err(e);
            },
        };
        let (height, horizon) = self.heights(query);
        machine.peaks_at(height, horizon)
    }

    /// The root of the accumulator at `address`, as `query` sees it.
    pub fn root(&self, address: Address, query: QueryHeight) -> (r: Result<
        Commitment,
        AccumulatorError,
    >)
        requires
            self.wf(),
        ensures
            match self@.visible(address, query) {
                Err(e) => r == Err::<Commitment, AccumulatorError>(e),
                Ok(state) => r is Ok && r->Ok_0@ == bag_peaks(state.peaks),
            },
    {
        let machine = match self.attach(address) {
            Ok(machine) => machine,
            Err(e) => {
                return Err(e);
            },
        };
        let (height, horizon) = self.heights(query);
        machine.root_at(height, horizon)
    }

    /// The payload of the leaf at `index` of the accumulator at `address`, as
    /// `query` sees it.
    pub fn leaf(&self, address: Address, index: u64, query: QueryHeight) -> (r: Result<
        &Vec<u8>,
        AccumulatorError,
    >)
        requires
            self.wf(),
        ensures
            match self@.visible_leaf(address, index as nat, query) {
                Err(e) => r == Err::<&Vec<u8>, AccumulatorError>(e),
                Ok(payload) => r is Ok && r->Ok_0@ == payload,
            },
    {
        let machine = match self.attach(address) {
            Ok(machine) => machine,
            Err(e) => {
                return Err(e);
            },
        };
        let (height, horizon) = self.heights(query);
        machine.leaf_at(index, height, horizon)
    }
}

} // verus!
