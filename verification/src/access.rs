//! The write policy of an accumulator: who may append to it.

use vstd::prelude::*;

verus! {

/// Who stands behind a request: the ledger's number for an account.
#[derive(Clone, Copy, Debug, PartialEq, Eq, Structural)]
pub struct Identity(pub u64);

/// The write policy of an accumulator. It is chosen at creation and never
/// changes.
#[derive(Clone, Copy, Debug, PartialEq, Eq, Structural)]
pub enum WriteAccess {
    /// Only the identity that created the accumulator may append.
    OnlyOwner,
    /// Anyone may append.
    Public,
}

/// Whether `policy` lets `caller` append to an accumulator that `owner`
/// created.
pub open spec fn may_write(caller: Identity, policy: WriteAccess, owner: Identity) -> bool {
    policy == WriteAccess::Public || caller == owner
}

/// Decides whether `caller` may append to an accumulator with the given policy
/// and owner.
pub fn can_write(caller: Identity, policy: WriteAccess, owner: Identity) -> (allowed: bool)
    ensures
        allowed == may_write(caller, policy, owner),
{
    match policy {
        WriteAccess::Public => true,
        WriteAccess::OnlyOwner => caller.0 == owner.0,
    }
}

/// The policy that a request for public write access, or for none, asks for.
pub fn write_access_for(public_write: bool) -> (policy: WriteAccess)
    ensures
        policy == if public_write {
            WriteAccess::Public
        } else {
            WriteAccess::OnlyOwner
        },
{
    if public_write {
        WriteAccess::Public
    } else {
        WriteAccess::OnlyOwner
    }
}

/// Under `OnlyOwner` exactly the owner may write; under `Public` everyone may.
pub proof fn lemma_policy_meaning(caller: Identity, owner: Identity)
    ensures
        may_write(caller, WriteAccess::OnlyOwner, owner) <==> caller == owner,
        may_write(caller, WriteAccess::Public, owner),
{
}

} // verus!
