//! Requests against a registry, and what they are answered with.

use vstd::prelude::*;
use vstd::slice::slice_to_vec;
use crate::access::{write_access_for, Identity, WriteAccess};
use crate::error::AccumulatorError;
use crate::hash::Commitment;
use crate::mmr::{bag_peaks, peaks_view, Peak, PeakModel};
use crate::registry::{Address, QueryHeight, Registry, RegistryModel};

verus! {

/// How long the sender of an append waits for it. The mode is a matter
/// between the sender and the ledger: it changes nothing of what the append
/// does to the accumulator.
#[derive(Clone, Copy, Debug, PartialEq, Eq, Structural)]
pub enum BroadcastMode {
    /// Do not wait at all.
    Async,
    /// Wait until the append is in the pending block.
    Sync,
    /// Wait until the block with the append is committed.
    Commit,
}

/// One request.
#[derive(Debug)]
pub enum AccumulatorCommands {
    /// Create a new accumulator.
    Create {
        /// Who creates it, and owns it from then on.
        owner: Identity,
        /// Whether everyone may append to it, or only the owner.
        public_write: bool,
    },
    /// Push a value.
    Push {
        /// Who appends.
        caller: Identity,
        /// The accumulator.
        address: Address,
        /// The value to push.
        payload: Vec<u8>,
        /// How long the sender waits.
        broadcast_mode: BroadcastMode,
    },
    /// Get the leaf at a given index and height.
    Leaf {
        /// The leaf's index.
        index: u64,
        /// The accumulator.
        address: Address,
        /// The height to read at.
        height: QueryHeight,
    },
    /// Get the leaf count at a given height.
    Count {
        /// The accumulator.
        address: Address,
        /// The height to read at.
        height: QueryHeight,
    },
    /// Get the peaks at a given height.
    Peaks {
        /// The accumulator.
        address: Address,
        /// The height to read at.
        height: QueryHeight,
    },
    /// Get the root at a given height.
    Root {
        /// The accumulator.
        address: Address,
        /// The height to read at.
        height: QueryHeight,
    },
}

/// The arguments of one call: the request to handle.
#[derive(Debug)]
pub struct AccumulatorArgs {
    command: AccumulatorCommands,
}

impl AccumulatorArgs {
    /// The arguments that carry `command`.
    pub fn new(command: AccumulatorCommands) -> (args: AccumulatorArgs)
        ensures
            args.command() == command,
    {
        AccumulatorArgs { command }
    }

    /// The request that the arguments carry.
    pub closed spec fn command(&self) -> AccumulatorCommands {
        self.command
    }

    /// The request that the arguments carry.
    pub fn get_command(&self) -> (command: &AccumulatorCommands)
        ensures
            *command == self.command(),
    {
        &self.command
    }
}

/// What a request is answered with, mathematically.
pub enum ReplyModel {
    Created { address: Address },
    Pushed { index: nat, root: Seq<u8> },
    Leaf { payload: Seq<u8> },
    Count { count: nat },
    Peaks { peaks: Seq<PeakModel> },
    Root { root: Seq<u8> },
}

/// What a request is answered with.
#[derive(Debug)]
pub enum Reply {
    /// The address of the accumulator that was created.
    Created { address: Address },
    /// The index of the leaf that was pushed, and the root with it.
    Pushed { index: u64, root: Commitment },
    /// The payload of the leaf.
    Leaf { payload: Vec<u8> },
    /// The number of leaves.
    Count { count: u64 },
    /// The peaks, highest mountain first.
    Peaks { peaks: Vec<Peak> },
    /// The root.
    Root { root: Commitment },
}

impl View for Reply {
    type V = ReplyModel;

    open spec fn view(&self) -> ReplyModel {
        match *self {
            Reply::Created { address } => ReplyModel::Created { address },
            Reply::Pushed { index, root } => ReplyModel::Pushed { index: index as nat, root: root@ },
            Reply::Leaf { payload } => ReplyModel::Leaf { payload: payload@ },
            Reply::Count { count } => ReplyModel::Count { count: count as nat },
            Reply::Peaks { peaks } => ReplyModel::Peaks { peaks: peaks_view(peaks@) },
            Reply::Root { root } => ReplyModel::Root { root: root@ },
        }
    }
}

/// The policy that a request to create an accumulator asks for.
pub open spec fn policy_for(public_write: bool) -> WriteAccess {
    if public_write {
        WriteAccess::Public
    } else {
        WriteAccess::OnlyOwner
    }
}

/// The registry after a request was handled. Only an accepted request to
/// create or to push changes it.
pub open spec fn effect(registry: RegistryModel, command: AccumulatorCommands) -> RegistryModel {
    match command {
        AccumulatorCommands::Create { owner, public_write } => registry.created(
            policy_for(public_write),
            owner,
        ),
        AccumulatorCommands::Push { caller, address, payload, broadcast_mode } => {
            if registry.refusal(address, caller, payload@) is None {
                registry.appended(address, payload@)
            } else {
                registry
            }
        },
        _ => registry,
    }
}

/// What a request is answered with, or why it is turned down.
pub open spec fn answer(registry: RegistryModel, command: AccumulatorCommands) -> Result<
    ReplyModel,
    AccumulatorError,
> {
    match command {
        AccumulatorCommands::Create { owner, public_write } => Ok(
            ReplyModel::Created { address: Address(registry.machines.len() as u64) },
        ),
        AccumulatorCommands::Push { caller, address, payload, broadcast_mode } => {
            match registry.refusal(address, caller, payload@) {
                Some(e) => Err(e),
                None => Ok(
                    ReplyModel::Pushed {
                        index: registry.machines[address.0 as int].leaves.len(),
                        root: bag_peaks(
                            registry.appended(address, payload@).machines[address.0 as int].live().peaks,
                        ),
                    },
                ),
            }
        },
        AccumulatorCommands::Leaf { index, address, height } => {
            match registry.visible_leaf(address, index as nat, height) {
                Err(e) => Err(e),
                Ok(payload) => Ok(ReplyModel::Leaf { payload }),
            }
        },
        AccumulatorCommands::Count { address, height } => {
            match registry.visible(address, height) {
                Err(e) => Err(e),
                Ok(state) => Ok(ReplyModel::Count { count: state.leaf_count }),
            }
        },
        AccumulatorCommands::Peaks { address, height } => {
            match registry.visible(address, height) {
                Err(e) => Err(e),
                Ok(state) => Ok(ReplyModel::Peaks { peaks: state.peaks }),
            }
        },
        AccumulatorCommands::Root { address, height } => {
            match registry.visible(address, height) {
                Err(e) => Err(e),
                Ok(state) => Ok(ReplyModel::Root { root: bag_peaks(state.peaks) }),
            }
        },
    }
}

/// Handles one request against the registry.
///
/// A request to create an accumulator makes one with the policy asked for and
/// answers with its address. A request to push appends the payload and
/// answers with the index of the new leaf and the new root. The four reads
/// answer with what is seen at the height asked for. A request that is turned
/// down changes nothing.
pub fn handle_accumulator(registry: &mut Registry, args: &AccumulatorArgs) -> (r: Result<
    Reply,
    AccumulatorError,
>)
    requires
        old(registry).wf(),
    ensures
        final(registry).wf(),
        final(registry)@ == effect(old(registry)@, args.command()),
        match answer(old(registry)@, args.command()) {
            Err(e) => r == Err::<Reply, AccumulatorError>(e),
            Ok(reply) => r is Ok && r->Ok_0@ == reply,
        },
{
    match &args.command {
        AccumulatorCommands::Create { owner, public_write } => {
            let address = registry.create(write_access_for(*public_write), *owner);
            Ok(Reply::Created { address })
        },
        AccumulatorCommands::Push { caller, address, payload, broadcast_mode } => {
            match registry.append(*address, *caller, payload.as_slice()) {
                Ok(receipt) => Ok(Reply::Pushed { index: receipt.index, root: receipt.root }),
                Err(e) => Err(e),
            }
        },
        AccumulatorCommands::Leaf { index, address, height } => {
            match registry.leaf(*address, *index, *height) {
                Ok(payload) => Ok(Reply::Leaf { payload: slice_to_vec(payload.as_slice()) }),
                Err(e) => Err(e),
            }
        },
        AccumulatorCommands::Count { address, height } => {
            match registry.count(*address, *height) {
                Ok(count) => Ok(Reply::Count { count }),
                Err(e) => Err(e),
            }
        },
        AccumulatorCommands::Peaks { address, height } => {
            match registry.peaks(*address, *height) {
                Ok(peaks) => Ok(Reply::Peaks { peaks }),
                Err(e) => Err(e),
            }
        },
        AccumulatorCommands::Root { address, height } => {
            match registry.root(*address, *height) {
                Ok(root) => Ok(Reply::Root { root }),
                Err(e) => Err(e),
            }
        },
    }
}

} // verus!
