use vstd::prelude::*;
use crate::decode::DecodeError;
use crate::resource::{Decimal, ResourceContainer, ResourceManagerError};
use crate::types::{PackageAddress, RENodeId, ResourceAddress};

verus! {

/// The largest depth of nested call frames.
pub const MAX_CALL_DEPTH: usize = 8;

/// The kind of a node that could not be dropped at the end of a frame.
#[derive(Debug, Clone, Copy, PartialEq, Eq, Structural)]
pub enum DropFailure {
    System,
    Resource,
    Component,
    Bucket,
    Worktop,
    Vault,
    Package,
    KeyValueStore,
}

/// An accessor met a value of another kind than the one it reads.
#[derive(Debug, Clone, Copy, PartialEq, Eq, Structural)]
pub enum KindMismatch {
    Substate,
    Node,
    Address,
    Actor,
}

/// Represents an error raised by the kernel.
#[derive(Debug, Clone)]
pub enum RuntimeError {
    MaxCallDepthExceeded(usize),
    RENodeNotFound(RENodeId),
    RENodeCreateNodeNotFound(RENodeId),
    StoredNodeRemoved(RENodeId),
    CyclicInvocation,
    BorrowConflict,
    ValueNotAllowed,
    CantMoveLockedBucket,
    CantMoveRestrictedProof,
    DropFailure(DropFailure),
    DecodeError(DecodeError),
    ResourceManagerError(ResourceManagerError),
    CostUnitExhausted,
}

/// A transient resource container, scoped to one call frame.
#[derive(Debug)]
pub struct Bucket {
    pub container: ResourceContainer,
    /// How many proofs currently lock this bucket's contents.
    pub lock_count: u32,
}

impl Bucket {
    pub fn is_locked(&self) -> (r: bool)
        ensures
            r == (self.lock_count > 0),
    {
        self.lock_count > 0
    }
}

/// A witness over locked resources, used for authorization.
#[derive(Debug)]
pub struct Proof {
    pub resource_address: ResourceAddress,
    pub total_locked: Decimal,
    /// A restricted proof may not leave the frame it was made in.
    pub restricted: bool,
}

impl Proof {
    pub fn is_restricted(&self) -> (r: bool)
        ensures
            r == self.restricted,
    {
        self.restricted
    }
}

/// A persistent resource container.
#[derive(Debug)]
pub struct Vault {
    pub container: ResourceContainer,
}

/// The root frame's resource buffer between manifest instructions.
#[derive(Debug)]
pub struct Worktop {
    pub resources: Vec<ResourceContainer>,
}

impl Worktop {
    /// Every container on the worktop is empty.
    pub open spec fn is_spec_empty(&self) -> bool {
        forall|i: int| 0 <= i < self.resources@.len() ==> self.resources@[i].amount.0 == 0
    }

    /// Drops the worktop, which succeeds only when it holds nothing.
    pub fn drop(self) -> (r: Result<(), DropFailure>)
        ensures
            r == (if self.is_spec_empty() {
                Ok::<(), DropFailure>(())
            } else {
                Err::<(), DropFailure>(DropFailure::Worktop)
            }),
    {
        let mut i: usize = 0;
        while i < self.resources.len()
            invariant
                i <= self.resources@.len(),
                forall|j: int| 0 <= j < i ==> self.resources@[j].amount.0 == 0,
            decreases self.resources@.len() - i,
        {
            if !self.resources[i].is_empty() {
                return Err(DropFailure::Worktop);
            }
            i = i + 1;
        }
        Ok(())
    }
}

/// A key-value store not yet committed: encoded keys and encoded values.
#[derive(Debug)]
pub struct PreCommittedKeyValueStore {
    pub store: Vec<(Vec<u8>, Vec<u8>)>,
}

/// A stateful instance of a blueprint.
#[derive(Debug, Clone)]
pub struct Component {
    pub package_address: PackageAddress,
    pub blueprint_name: String,
    pub state: Vec<u8>,
}

impl Component {
    /// The encoded state of the component.
    pub fn state(&self) -> (r: &Vec<u8>)
        ensures
            r == &self.state,
    {
        &self.state
    }
}

/// A package whose code passed validation.
#[derive(Debug, Clone)]
pub struct ValidatedPackage {
    pub code: Vec<u8>,
}

/// The system node: the current epoch.
#[derive(Debug, Clone, Copy, PartialEq, Eq, Structural)]
pub struct System {
    pub epoch: u64,
}

/// The data of one non-fungible unit.
#[derive(Debug, Clone)]
pub struct NonFungible {
    pub immutable_data: Vec<u8>,
    pub mutable_data: Vec<u8>,
}

/// A stored non-fungible, or its absence.
#[derive(Debug, Clone)]
pub struct NonFungibleWrapper(pub Option<NonFungible>);

/// A stored key-value entry, or its absence.
#[derive(Debug, Clone)]
pub struct KeyValueStoreEntryWrapper(pub Option<Vec<u8>>);

} // verus!
