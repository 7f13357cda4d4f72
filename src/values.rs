use vstd::prelude::*;
use crate::model::{
    Bucket, Component, DropFailure, KeyValueStoreEntryWrapper, KindMismatch, NonFungible,
    NonFungibleWrapper, PreCommittedKeyValueStore, Proof, RuntimeError, System, ValidatedPackage,
    Vault, Worktop,
};
use crate::resource::{ResourceContainer, ResourceManager};
use crate::scrypto_value::{decoded_as, ScryptoValue};
use crate::types::{
    same_node, ComponentAddress, KeyValueStoreId, NonFungibleId, PackageAddress, ResourceAddress,
    ValueId, VaultId,
};

verus! {

/// A key of the engine's address space; each maps to one substate.
#[derive(Debug)]
pub enum Address {
    GlobalComponent(ComponentAddress),
    Package(PackageAddress),
    ResourceManager(ResourceAddress),
    NonFungibleSpace(ResourceAddress),
    NonFungible(ResourceAddress, Vec<u8>),
    KeyValueStoreSpace(KeyValueStoreId),
    KeyValueStoreEntry(KeyValueStoreId, Vec<u8>),
    Vault(VaultId),
    LocalComponent(ComponentAddress),
    System,
}

impl Address {
    pub fn package_address(self) -> (r: Result<PackageAddress, KindMismatch>)
        ensures
            r is Ok <==> self is Package,
            r is Ok ==> r->Ok_0 == self->Package_0,
            r is Err ==> r->Err_0 == KindMismatch::Address,
    {
        match self {
            Address::Package(a) => Ok(a),
            _ => Err(KindMismatch::Address),
        }
    }

    pub fn component_address(self) -> (r: Result<ComponentAddress, KindMismatch>)
        ensures
            r is Ok <==> self is GlobalComponent,
            r is Ok ==> r->Ok_0 == self->GlobalComponent_0,
            r is Err ==> r->Err_0 == KindMismatch::Address,
    {
        match self {
            Address::GlobalComponent(a) => Ok(a),
            _ => Err(KindMismatch::Address),
        }
    }

    pub fn resource_address(self) -> (r: Result<ResourceAddress, KindMismatch>)
        ensures
            r is Ok <==> self is ResourceManager,
            r is Ok ==> r->Ok_0 == self->ResourceManager_0,
            r is Err ==> r->Err_0 == KindMismatch::Address,
    {
        match self {
            Address::ResourceManager(a) => Ok(a),
            _ => Err(KindMismatch::Address),
        }
    }
}

/// A typed entry of the substate store.
#[derive(Debug)]
pub enum Substate {
    System(System),
    Resource(ResourceManager),
    Component(Component),
    Package(ValidatedPackage),
    /// The liquid part, and the locked part while proofs reference the vault.
    Vault(Vault, Option<ResourceContainer>),
    NonFungible(NonFungibleWrapper),
    KeyValueStoreEntry(KeyValueStoreEntryWrapper),
}

impl Substate {
    pub fn vault_mut(&mut self) -> (r: Result<&mut Vault, KindMismatch>)
        ensures
            r is Ok <==> *old(self) is Vault,
            r is Ok ==> *r->Ok_0 == (*old(self))->Vault_0 && *final(self) is Vault
                && (*final(self))->Vault_0 == *final(r->Ok_0) && (*final(self))->Vault_1 == (
            *old(self))->Vault_1,
            r is Err ==> r->Err_0 == KindMismatch::Substate && *final(self) == *old(self),
    {
        match self {
            Substate::Vault(liquid, _) => Ok(liquid),
            _ => Err(KindMismatch::Substate),
        }
    }

    pub fn vault(&self) -> (r: Result<(&Vault, &Option<ResourceContainer>), KindMismatch>)
        ensures
            r is Ok <==> self is Vault,
            r is Ok ==> *r->Ok_0.0 == self->Vault_0 && *r->Ok_0.1 == self->Vault_1,
            r is Err ==> r->Err_0 == KindMismatch::Substate,
    {
        match self {
            Substate::Vault(liquid, locked) => Ok((liquid, locked)),
            _ => Err(KindMismatch::Substate),
        }
    }

    pub fn resource_manager_mut(&mut self) -> (r: Result<&mut ResourceManager, KindMismatch>)
        ensures
            r is Ok <==> *old(self) is Resource,
            r is Ok ==> *r->Ok_0 == (*old(self))->Resource_0 && *final(self) == Substate::Resource(
                *final(r->Ok_0),
            ),
            r is Err ==> r->Err_0 == KindMismatch::Substate && *final(self) == *old(self),
    {
        match self {
            Substate::Resource(x) => Ok(x),
            _ => Err(KindMismatch::Substate),
        }
    }

    pub fn system(&self) -> (r: Result<&System, KindMismatch>)
        ensures
            r is Ok <==> self is System,
            r is Ok ==> *r->Ok_0 == self->System_0,
            r is Err ==> r->Err_0 == KindMismatch::Substate,
    {
        match self {
            Substate::System(x) => Ok(x),
            _ => Err(KindMismatch::Substate),
        }
    }

    pub fn system_mut(&mut self) -> (r: Result<&mut System, KindMismatch>)
        ensures
            r is Ok <==> *old(self) is System,
            r is Ok ==> *r->Ok_0 == (*old(self))->System_0 && *final(self) == Substate::System(
                *final(r->Ok_0),
            ),
            r is Err ==> r->Err_0 == KindMismatch::Substate && *final(self) == *old(self),
    {
        match self {
            Substate::System(x) => Ok(x),
            _ => Err(KindMismatch::Substate),
        }
    }

    pub fn resource_manager(&self) -> (r: Result<&ResourceManager, KindMismatch>)
        ensures
            r is Ok <==> self is Resource,
            r is Ok ==> *r->Ok_0 == self->Resource_0,
            r is Err ==> r->Err_0 == KindMismatch::Substate,
    {
        match self {
            Substate::Resource(x) => Ok(x),
            _ => Err(KindMismatch::Substate),
        }
    }

    pub fn component(&self) -> (r: Result<&Component, KindMismatch>)
        ensures
            r is Ok <==> self is Component,
            r is Ok ==> *r->Ok_0 == self->Component_0,
            r is Err ==> r->Err_0 == KindMismatch::Substate,
    {
        match self {
            Substate::Component(x) => Ok(x),
            _ => Err(KindMismatch::Substate),
        }
    }

    pub fn component_mut(&mut self) -> (r: Result<&mut Component, KindMismatch>)
        ensures
            r is Ok <==> *old(self) is Component,
            r is Ok ==> *r->Ok_0 == (*old(self))->Component_0 && *final(self) == Substate::Component(
                *final(r->Ok_0),
            ),
            r is Err ==> r->Err_0 == KindMismatch::Substate && *final(self) == *old(self),
    {
        match self {
            Substate::Component(x) => Ok(x),
            _ => Err(KindMismatch::Substate),
        }
    }

    pub fn package(&self) -> (r: Result<&ValidatedPackage, KindMismatch>)
        ensures
            r is Ok <==> self is Package,
            r is Ok ==> *r->Ok_0 == self->Package_0,
            r is Err ==> r->Err_0 == KindMismatch::Substate,
    {
        match self {
            Substate::Package(x) => Ok(x),
            _ => Err(KindMismatch::Substate),
        }
    }

    pub fn non_fungible(&self) -> (r: Result<&NonFungibleWrapper, KindMismatch>)
        ensures
            r is Ok <==> self is NonFungible,
            r is Ok ==> *r->Ok_0 == self->NonFungible_0,
            r is Err ==> r->Err_0 == KindMismatch::Substate,
    {
        match self {
            Substate::NonFungible(x) => Ok(x),
            _ => Err(KindMismatch::Substate),
        }
    }

    pub fn kv_entry(&self) -> (r: Result<&KeyValueStoreEntryWrapper, KindMismatch>)
        ensures
            r is Ok <==> self is KeyValueStoreEntry,
            r is Ok ==> *r->Ok_0 == self->KeyValueStoreEntry_0,
            r is Err ==> r->Err_0 == KindMismatch::Substate,
    {
        match self {
            Substate::KeyValueStoreEntry(x) => Ok(x),
            _ => Err(KindMismatch::Substate),
        }
    }
}

/// A live object of the engine, owned by exactly one call frame.
#[derive(Debug)]
pub enum RENode {
    Bucket(Bucket),
    Proof(Proof),
    Vault(Vault),
    KeyValueStore(PreCommittedKeyValueStore),
    Component(Component),
    Worktop(Worktop),
    Package(ValidatedPackage),
    Resource(ResourceManager),
    NonFungibles(Vec<(NonFungibleId, NonFungible)>),
    System(System),
}

/// Whether a node may be moved to another frame.
pub open spec fn can_move(n: RENode) -> bool {
    match n {
        RENode::Bucket(b) => b.lock_count == 0,
        RENode::Proof(p) => !p.restricted,
        _ => true,
    }
}

/// Whether a node may be stored inside a component or key-value store.
pub open spec fn can_persist(n: RENode) -> bool {
    n is KeyValueStore || n is Component || n is Vault
}

/// What dropping a node at the end of a frame yields.
pub open spec fn drop_outcome(n: RENode) -> Result<(), DropFailure> {
    match n {
        RENode::Package(..) => Err(DropFailure::Package),
        RENode::Vault(..) => Err(DropFailure::Vault),
        RENode::KeyValueStore(..) => Err(DropFailure::KeyValueStore),
        RENode::Component(..) => Err(DropFailure::Component),
        RENode::Bucket(b) => if b.container.amount.0 == 0 {
            Ok(())
        } else {
            Err(DropFailure::Bucket)
        },
        RENode::Resource(..) => Err(DropFailure::Resource),
        RENode::NonFungibles(..) => Err(DropFailure::Resource),
        RENode::System(..) => Err(DropFailure::System),
        RENode::Proof(..) => Ok(()),
        RENode::Worktop(w) => if w.is_spec_empty() {
            Ok(())
        } else {
            Err(DropFailure::Worktop)
        },
    }
}

impl RENode {
    pub fn system(&self) -> (r: Result<&System, KindMismatch>)
        ensures
            r is Ok <==> self is System,
            r is Ok ==> *r->Ok_0 == self->System_0,
            r is Err ==> r->Err_0 == KindMismatch::Node,
    {
        match self {
            RENode::System(x) => Ok(x),
            _ => Err(KindMismatch::Node),
        }
    }

    pub fn resource_manager(&self) -> (r: Result<&ResourceManager, KindMismatch>)
        ensures
            r is Ok <==> self is Resource,
            r is Ok ==> *r->Ok_0 == self->Resource_0,
            r is Err ==> r->Err_0 == KindMismatch::Node,
    {
        match self {
            RENode::Resource(x) => Ok(x),
            _ => Err(KindMismatch::Node),
        }
    }

    pub fn resource_manager_mut(&mut self) -> (r: Result<&mut ResourceManager, KindMismatch>)
        ensures
            r is Ok <==> *old(self) is Resource,
            r is Ok ==> *r->Ok_0 == (*old(self))->Resource_0 && *final(self) == RENode::Resource(
                *final(r->Ok_0),
            ),
            r is Err ==> r->Err_0 == KindMismatch::Node && *final(self) == *old(self),
    {
        match self {
            RENode::Resource(x) => Ok(x),
            _ => Err(KindMismatch::Node),
        }
    }

    pub fn non_fungibles(&self) -> (r: Result<&Vec<(NonFungibleId, NonFungible)>, KindMismatch>)
        ensures
            r is Ok <==> self is NonFungibles,
            r is Ok ==> *r->Ok_0 == self->NonFungibles_0,
            r is Err ==> r->Err_0 == KindMismatch::Node,
    {
        match self {
            RENode::NonFungibles(x) => Ok(x),
            _ => Err(KindMismatch::Node),
        }
    }

    pub fn non_fungibles_mut(&mut self) -> (r: Result<&mut Vec<(NonFungibleId, NonFungible)>, KindMismatch>)
        ensures
            r is Ok <==> *old(self) is NonFungibles,
            r is Ok ==> *r->Ok_0 == (*old(self))->NonFungibles_0 && *final(self) == RENode::NonFungibles(
                *final(r->Ok_0),
            ),
            r is Err ==> r->Err_0 == KindMismatch::Node && *final(self) == *old(self),
    {
        match self {
            RENode::NonFungibles(x) => Ok(x),
            _ => Err(KindMismatch::Node),
        }
    }

    pub fn package(&self) -> (r: Result<&ValidatedPackage, KindMismatch>)
        ensures
            r is Ok <==> self is Package,
            r is Ok ==> *r->Ok_0 == self->Package_0,
            r is Err ==> r->Err_0 == KindMismatch::Node,
    {
        match self {
            RENode::Package(x) => Ok(x),
            _ => Err(KindMismatch::Node),
        }
    }

    pub fn component(&self) -> (r: Result<&Component, KindMismatch>)
        ensures
            r is Ok <==> self is Component,
            r is Ok ==> *r->Ok_0 == self->Component_0,
            r is Err ==> r->Err_0 == KindMismatch::Node,
    {
        match self {
            RENode::Component(x) => Ok(x),
            _ => Err(KindMismatch::Node),
        }
    }

    pub fn component_mut(&mut self) -> (r: Result<&mut Component, KindMismatch>)
        ensures
            r is Ok <==> *old(self) is Component,
            r is Ok ==> *r->Ok_0 == (*old(self))->Component_0 && *final(self) == RENode::Component(
                *final(r->Ok_0),
            ),
            r is Err ==> r->Err_0 == KindMismatch::Node && *final(self) == *old(self),
    {
        match self {
            RENode::Component(x) => Ok(x),
            _ => Err(KindMismatch::Node),
        }
    }

    pub fn kv_store(&self) -> (r: Result<&PreCommittedKeyValueStore, KindMismatch>)
        ensures
            r is Ok <==> self is KeyValueStore,
            r is Ok ==> *r->Ok_0 == self->KeyValueStore_0,
            r is Err ==> r->Err_0 == KindMismatch::Node,
    {
        match self {
            RENode::KeyValueStore(x) => Ok(x),
            _ => Err(KindMismatch::Node),
        }
    }

    pub fn kv_store_mut(&mut self) -> (r: Result<&mut PreCommittedKeyValueStore, KindMismatch>)
        ensures
            r is Ok <==> *old(self) is KeyValueStore,
            r is Ok ==> *r->Ok_0 == (*old(self))->KeyValueStore_0 && *final(self) == RENode::KeyValueStore(
                *final(r->Ok_0),
            ),
            r is Err ==> r->Err_0 == KindMismatch::Node && *final(self) == *old(self),
    {
        match self {
            RENode::KeyValueStore(x) => Ok(x),
            _ => Err(KindMismatch::Node),
        }
    }

    pub fn vault(&self) -> (r: Result<&Vault, KindMismatch>)
        ensures
            r is Ok <==> self is Vault,
            r is Ok ==> *r->Ok_0 == self->Vault_0,
            r is Err ==> r->Err_0 == KindMismatch::Node,
    {
        match self {
            RENode::Vault(x) => Ok(x),
            _ => Err(KindMismatch::Node),
        }
    }

    pub fn vault_mut(&mut self) -> (r: Result<&mut Vault, KindMismatch>)
        ensures
            r is Ok <==> *old(self) is Vault,
            r is Ok ==> *r->Ok_0 == (*old(self))->Vault_0 && *final(self) == RENode::Vault(
                *final(r->Ok_0),
            ),
            r is Err ==> r->Err_0 == KindMismatch::Node && *final(self) == *old(self),
    {
        match self {
            RENode::Vault(x) => Ok(x),
            _ => Err(KindMismatch::Node),
        }
    }

    /// A locked bucket and a restricted proof cannot move; every other node can.
    pub fn verify_can_move(&self) -> (r: Result<(), RuntimeError>)
        ensures
            r is Ok <==> can_move(*self),
            self is Bucket && !can_move(*self) ==> r matches Err(RuntimeError::CantMoveLockedBucket),
            self is Proof && !can_move(*self) ==> r matches Err(
                RuntimeError::CantMoveRestrictedProof,
            ),
    {
        match self {
            RENode::Bucket(bucket) => {
                if bucket.is_locked() {
                    Err(RuntimeError::CantMoveLockedBucket)
                } else {
                    Ok(())
                }
            },
            RENode::Proof(proof) => {
                if proof.is_restricted() {
                    Err(RuntimeError::CantMoveRestrictedProof)
                } else {
                    Ok(())
                }
            },
            RENode::KeyValueStore(..) => Ok(()),
            RENode::Component(..) => Ok(()),
            RENode::Vault(..) => Ok(()),
            RENode::Resource(..) => Ok(()),
            RENode::NonFungibles(..) => Ok(()),
            RENode::Package(..) => Ok(()),
            RENode::Worktop(..) => Ok(()),
            RENode::System(..) => Ok(()),
        }
    }

    /// Only key-value stores, components and vaults may be persisted.
    pub fn verify_can_persist(&self) -> (r: Result<(), RuntimeError>)
        ensures
            r is Ok <==> can_persist(*self),
            r is Err ==> r matches Err(RuntimeError::ValueNotAllowed),
    {
        match self {
            RENode::KeyValueStore(..) => Ok(()),
            RENode::Component(..) => Ok(()),
            RENode::Vault(..) => Ok(()),
            RENode::Resource(..) => Err(RuntimeError::ValueNotAllowed),
            RENode::NonFungibles(..) => Err(RuntimeError::ValueNotAllowed),
            RENode::Package(..) => Err(RuntimeError::ValueNotAllowed),
            RENode::Bucket(..) => Err(RuntimeError::ValueNotAllowed),
            RENode::Proof(..) => Err(RuntimeError::ValueNotAllowed),
            RENode::Worktop(..) => Err(RuntimeError::ValueNotAllowed),
            RENode::System(..) => Err(RuntimeError::ValueNotAllowed),
        }
    }

    /// Drops a node at the end of a frame: proofs, an empty bucket and an empty worktop go;
    /// anything that holds resources or persists fails with its kind.
    pub fn try_drop(self) -> (r: Result<(), DropFailure>)
        ensures
            r == drop_outcome(self),
    {
        match self {
            RENode::Package(..) => Err(DropFailure::Package),
            RENode::Vault(..) => Err(DropFailure::Vault),
            RENode::KeyValueStore(..) => Err(DropFailure::KeyValueStore),
            RENode::Component(..) => Err(DropFailure::Component),
            RENode::Bucket(bucket) => {
                if bucket.container.is_empty() {
                    Ok(())
                } else {
                    Err(DropFailure::Bucket)
                }
            },
            RENode::Resource(..) => Err(DropFailure::Resource),
            RENode::NonFungibles(..) => Err(DropFailure::Resource),
            RENode::System(..) => Err(DropFailure::System),
            RENode::Proof(..) => Ok(()),
            RENode::Worktop(worktop) => worktop.drop(),
        }
    }

    /// Drops the roots of `values`. A failure of a node that is not a worktop is returned
    /// first; a worktop that still holds resources fails only once all others have dropped.
    pub fn drop_values(values: Vec<REValue>) -> (r: Result<(), DropFailure>)
        ensures
            r is Ok <==> forall|i: int|
                0 <= i < values@.len() ==> drop_outcome(#[trigger] values@[i].root) is Ok,
            r == Err::<(), DropFailure>(DropFailure::Worktop) ==> forall|i: int|
                0 <= i < values@.len() && !(values@[i].root is Worktop) ==> drop_outcome(
                    #[trigger] values@[i].root,
                ) is Ok,
    {
        let ghost all = values@;
        let n = values.len();
        let mut rest = values;
        let mut k: usize = 0;
        let mut worktop_failed = false;
        while rest.len() > 0
            invariant
                all == values@,
                all.len() == n,
                k + rest@.len() == n,
                rest@ == all.subrange(k as int, n as int),
                forall|j: int| 0 <= j < k && !(all[j].root is Worktop) ==> drop_outcome(
                    #[trigger] all[j].root,
                ) is Ok,
                worktop_failed <==> exists|j: int|
                    0 <= j < k && drop_outcome(#[trigger] all[j].root) is Err,
            decreases rest@.len(),
        {
            let value = rest.remove(0);
            proof {
                assert(value == all[k as int]);
            }
            let res = value.root.try_drop();
            if res.is_err() {
                if let Err(DropFailure::Worktop) = res {
                    worktop_failed = true;
                } else {
                    proof {
                        assert(drop_outcome(all[k as int].root) is Err);
                        assert(drop_outcome(all[k as int].root) is Err);
                    }
                    return res;
                }
            }
            k = k + 1;
            proof {
                assert(rest@ =~= all.subrange(k as int, n as int));
            }
        }
        if worktop_failed {
            return Err(DropFailure::Worktop);
        }
        Ok(())
    }
}

/// A node together with the nodes it owns, keyed by their ids.
#[derive(Debug)]
pub struct REValue {
    pub root: RENode,
    pub non_root_nodes: Vec<(ValueId, RENode)>,
}

/// `nodes` holds `node` under `id`.
pub open spec fn holds(nodes: Seq<(ValueId, RENode)>, id: ValueId, node: RENode) -> bool {
    exists|j: int| 0 <= j < nodes.len() && same_node(#[trigger] nodes[j].0, id) && nodes[j].1 == node
}

/// No entry after `j` in `vs` carries the id of entry `j`.
pub open spec fn last_of(vs: Seq<(ValueId, RENode)>, j: int) -> bool {
    forall|m: int| j < m < vs.len() ==> !same_node(#[trigger] vs[m].0, vs[j].0)
}

/// `now` is `old` after putting each entry of `vs` in turn, replacing a node with the same
/// id: each id of `vs` holds its last node, an old node whose id `vs` does not name stays,
/// and no other id appears.
#[verifier::opaque]
pub open spec fn inserted_all(
    old: Seq<(ValueId, RENode)>,
    vs: Seq<(ValueId, RENode)>,
    now: Seq<(ValueId, RENode)>,
) -> bool {
    &&& forall|i: int| 0 <= i < vs.len() && last_of(vs, i) ==> holds(now, #[trigger] vs[i].0, vs[i].1)
    &&& forall|i: int|
        0 <= i < old.len() && !has_node(vs, #[trigger] old[i].0) ==> holds(now, old[i].0, old[i].1)
    &&& forall|j: int| 0 <= j < now.len() ==> has_node(old, #[trigger] now[j].0) || has_node(vs, now[j].0)
}

proof fn lemma_inserted_none(o: Seq<(ValueId, RENode)>)
    ensures
        inserted_all(o, Seq::<(ValueId, RENode)>::empty(), o),
{
    reveal(inserted_all);
    assert forall|i: int| 0 <= i < o.len() implies holds(o, #[trigger] o[i].0, o[i].1) by {
        lemma_same_node_refl(o[i].0);
    }
    assert forall|j: int| 0 <= j < o.len() implies has_node(o, #[trigger] o[j].0) by {
        lemma_same_node_refl(o[j].0);
    }
}

proof fn lemma_insert_step(
    old: Seq<(ValueId, RENode)>,
    pre: Seq<(ValueId, RENode)>,
    before: Seq<(ValueId, RENode)>,
    now: Seq<(ValueId, RENode)>,
    at: int,
    id: ValueId,
    node: RENode,
)
    requires
        inserted_all(old, pre, before),
        0 <= at <= before.len(),
        at < before.len() ==> same_node(before[at].0, id) && now == before.update(at, (id, node)),
        at == before.len() ==> now == before.push((id, node)),
    ensures
        inserted_all(old, pre.push((id, node)), now),
{
    reveal(inserted_all);
    let pre1 = pre.push((id, node));
    let k = pre.len() as int;
    assert(pre1[k] == (id, node));
    assert forall|m: int| 0 <= m < k implies #[trigger] pre1[m] == pre[m] by {}
    assert forall|j: int| 0 <= j < before.len() && j != at implies #[trigger] now[j] == before[j] by {}
    assert(now[at] == (id, node));
    lemma_same_node_refl(id);
    assert forall|j: int| 0 <= j < pre1.len() && last_of(pre1, j) implies holds(
        now,
        #[trigger] pre1[j].0,
        pre1[j].1,
    ) by {
        if j == k {
            assert(same_node(now[at].0, id));
        } else {
            assert(!same_node(pre1[k].0, pre1[j].0));
            assert forall|m: int| j < m < pre.len() implies !same_node(#[trigger] pre[m].0, pre[j].0) by {
                assert(pre1[m] == pre[m]);
            }
            assert(last_of(pre, j));
            assert(holds(before, pre[j].0, pre[j].1));
            let jj = choose|jj: int|
                0 <= jj < before.len() && same_node(#[trigger] before[jj].0, pre[j].0) && before[jj].1
                    == pre[j].1;
            if jj == at {
                lemma_same_node_trans(before[at].0, id);
                lemma_same_node_trans(before[at].0, pre[j].0);
                lemma_same_node_trans(id, pre[j].0);
            }
            assert(jj != at);
            assert(now[jj] == before[jj]);
        }
    }
    assert forall|i: int| 0 <= i < old.len() && !has_node(pre1, #[trigger] old[i].0) implies holds(
        now,
        old[i].0,
        old[i].1,
    ) by {
        if has_node(pre, old[i].0) {
            let m = choose|m: int| 0 <= m < pre.len() && same_node(#[trigger] pre[m].0, old[i].0);
            assert(pre1[m] == pre[m]);
        }
        assert(holds(before, old[i].0, old[i].1));
        let jj = choose|jj: int|
            0 <= jj < before.len() && same_node(#[trigger] before[jj].0, old[i].0) && before[jj].1
                == old[i].1;
        if jj == at {
            lemma_same_node_trans(before[at].0, id);
            lemma_same_node_trans(before[at].0, old[i].0);
            lemma_same_node_trans(id, old[i].0);
            assert(same_node(pre1[k].0, old[i].0));
        }
        assert(now[jj] == before[jj]);
    }
    assert forall|j: int| 0 <= j < now.len() implies has_node(old, #[trigger] now[j].0) || has_node(
        pre1,
        now[j].0,
    ) by {
        if j == at {
            assert(same_node(pre1[k].0, now[j].0));
        } else {
            assert(now[j] == before[j]);
            if has_node(pre, before[j].0) && !has_node(old, before[j].0) {
                let m = choose|m: int| 0 <= m < pre.len() && same_node(#[trigger] pre[m].0, before[j].0);
                assert(pre1[m] == pre[m]);
            }
        }
    }
}

/// Whether `id` is among the keys of `nodes`.
pub open spec fn has_node(nodes: Seq<(ValueId, RENode)>, id: ValueId) -> bool {
    exists|i: int| 0 <= i < nodes.len() && same_node(#[trigger] nodes[i].0, id)
}

/// No two entries of `nodes` carry the same id.
pub open spec fn unique_ids(nodes: Seq<(ValueId, RENode)>) -> bool {
    forall|i: int, j: int|
        0 <= i < j < nodes.len() ==> !same_node(#[trigger] nodes[i].0, #[trigger] nodes[j].0)
}

/// Finds the position of `id` among the keys of `nodes`.
pub(crate) fn find_node(nodes: &Vec<(ValueId, RENode)>, id: &ValueId) -> (r: Option<usize>)
    ensures
        r is Some <==> has_node(nodes@, *id),
        r is Some ==> r->Some_0 < nodes@.len() && same_node(nodes@[r->Some_0 as int].0, *id),
{
    let mut i: usize = 0;
    while i < nodes.len()
        invariant
            i <= nodes@.len(),
            forall|j: int| 0 <= j < i ==> !same_node(#[trigger] nodes@[j].0, *id),
        decreases nodes@.len() - i,
    {
        if nodes[i].0 == *id {
            return Some(i);
        }
        i = i + 1;
    }
    None
}

impl REValue {
    /// The owned nodes carry distinct ids.
    pub open spec fn wf(&self) -> bool {
        unique_ids(self.non_root_nodes@)
    }

    pub fn root(&self) -> (r: &RENode)
        ensures
            *r == self.root,
    {
        &self.root
    }

    pub fn root_mut(&mut self) -> (r: &mut RENode)
        ensures
            *r == old(self).root,
            final(self).root == *final(r),
            final(self).non_root_nodes == old(self).non_root_nodes,
    {
        &mut self.root
    }

    pub fn non_root(&self, id: &ValueId) -> (r: &RENode)
        requires
            has_node(self.non_root_nodes@, *id),
        ensures
            exists|i: int|
                0 <= i < self.non_root_nodes@.len() && same_node(
                    #[trigger] self.non_root_nodes@[i].0,
                    *id,
                ) && *r == self.non_root_nodes@[i].1,
    {
        let i = find_node(&self.non_root_nodes, id).unwrap();
        &self.non_root_nodes[i].1
    }

    pub fn get_node(&self, id: Option<&ValueId>) -> (r: &RENode)
        requires
            id is Some ==> has_node(self.non_root_nodes@, *id->Some_0),
        ensures
            id is None ==> *r == self.root,
            id is Some ==> exists|i: int|
                0 <= i < self.non_root_nodes@.len() && same_node(
                    #[trigger] self.non_root_nodes@[i].0,
                    *id->Some_0,
                ) && *r == self.non_root_nodes@[i].1,
    {
        match id {
            Some(value_id) => self.non_root(value_id),
            None => &self.root,
        }
    }

    /// Adds each of `values` to the owned nodes, replacing a node with the same id.
    pub fn insert_non_root_nodes(&mut self, values: Vec<(ValueId, RENode)>)
        requires
            old(self).wf(),
        ensures
            final(self).wf(),
            final(self).root == old(self).root,
            forall|i: int|
                0 <= i < values@.len() ==> has_node(
                    final(self).non_root_nodes@,
                    #[trigger] values@[i].0,
                ),
            forall|i: int|
                0 <= i < old(self).non_root_nodes@.len() ==> has_node(
                    final(self).non_root_nodes@,
                    #[trigger] old(self).non_root_nodes@[i].0,
                ),
            inserted_all(old(self).non_root_nodes@, values@, final(self).non_root_nodes@),
    {
        let ghost input = values@;
        let n = values.len();
        let mut rest = values;
        let mut k: usize = 0;
        proof {
            assert(input.take(0) =~= Seq::<(ValueId, RENode)>::empty());
            lemma_inserted_none(old(self).non_root_nodes@);
        }
        while rest.len() > 0
            invariant
                input.len() == n,
                k + rest@.len() == input.len(),
                rest@ == input.subrange(k as int, input.len() as int),
                unique_ids(self.non_root_nodes@),
                self.root == old(self).root,
                forall|j: int| 0 <= j < k ==> has_node(self.non_root_nodes@, #[trigger] input[j].0),
                forall|i: int|
                    0 <= i < old(self).non_root_nodes@.len() ==> has_node(
                        self.non_root_nodes@,
                        #[trigger] old(self).non_root_nodes@[i].0,
                    ),
                inserted_all(old(self).non_root_nodes@, input.take(k as int), self.non_root_nodes@),
            decreases rest@.len(),
        {
            let ghost pre = input.take(k as int);
            let ghost pre1 = input.take(k + 1);
            let (id, node) = rest.remove(0);
            proof {
                assert((id, node) == input[k as int]);
            }
            let ghost before = self.non_root_nodes@;
            let ghost at: int;
            match find_node(&self.non_root_nodes, &id) {
                Some(i) => {
                    proof {
                        at = i as int;
                    }
                    self.non_root_nodes.set(i, (id, node));
                    proof {
                        assert forall|a: int, b: int|
                            0 <= a < b < self.non_root_nodes@.len() implies !same_node(
                            #[trigger] self.non_root_nodes@[a].0,
                            #[trigger] self.non_root_nodes@[b].0,
                        ) by {
                            lemma_same_node_trans(before[i as int].0, id);
                        }
                        assert forall|j: int| 0 <= j < before.len() && has_node(before, #[trigger] before[j].0) implies has_node(self.non_root_nodes@, before[j].0) by {
                            if j == i {
                                lemma_same_node_trans(before[i as int].0, id);
                                assert(same_node(self.non_root_nodes@[j].0, before[j].0));
                            } else {
                                lemma_same_node_refl(before[j].0);
                                assert(same_node(self.non_root_nodes@[j].0, before[j].0));
                            }
                        }
                    }
                },
                None => {
                    proof {
                        at = before.len() as int;
                    }
                    self.non_root_nodes.push((id, node));
                    proof {
                        lemma_same_node_refl(id);
                        assert(same_node(self.non_root_nodes@[before.len() as int].0, id));
                        assert forall|j: int| 0 <= j < before.len() && has_node(before, #[trigger] before[j].0) implies has_node(self.non_root_nodes@, before[j].0) by {
                            lemma_same_node_refl(before[j].0);
                            assert(same_node(self.non_root_nodes@[j].0, before[j].0));
                        }
                    }
                },
            }
            proof {
                lemma_same_node_refl(id);
                assert forall|j: int| 0 <= j < k + 1 implies has_node(self.non_root_nodes@, #[trigger] input[j].0) by {
                    if j < k {
                        assert(has_node(before, input[j].0));
                    }
                }
                assert forall|i: int|
                    0 <= i < old(self).non_root_nodes@.len() implies has_node(
                        self.non_root_nodes@,
                        #[trigger] old(self).non_root_nodes@[i].0,
                    ) by {
                    assert(has_node(before, old(self).non_root_nodes@[i].0));
                }
                let now = self.non_root_nodes@;
                assert(pre1 =~= pre.push((id, node)));
                if at < before.len() {
                    assert(now =~= before.update(at, (id, node)));
                } else {
                    assert(now =~= before.push((id, node)));
                }
                lemma_insert_step(old(self).non_root_nodes@, pre, before, now, at, id, node);
            }
            k = k + 1;
            proof {
                assert(rest@ =~= input.subrange(k as int, input.len() as int));
            }
        }
        proof {
            assert(input.take(input.len() as int) =~= input);
            assert(inserted_all(old(self).non_root_nodes@, input, self.non_root_nodes@));
        }
    }

    pub fn non_root_mut(&mut self, id: &ValueId) -> (r: &mut RENode)
        requires
            has_node(old(self).non_root_nodes@, *id),
        ensures
            exists|i: int|
                0 <= i < old(self).non_root_nodes@.len() && same_node(
                    #[trigger] old(self).non_root_nodes@[i].0,
                    *id,
                ) && *r == old(self).non_root_nodes@[i].1 && final(self).non_root_nodes@ == old(
                    self,
                ).non_root_nodes@.update(i, (old(self).non_root_nodes@[i].0, *final(r))),
            final(self).root == old(self).root,
    {
        let i = find_node(&self.non_root_nodes, id).unwrap();
        &mut self.non_root_nodes[i].1
    }

    pub fn get_node_mut(&mut self, id: Option<&ValueId>) -> (r: &mut RENode)
        requires
            id is Some ==> has_node(old(self).non_root_nodes@, *id->Some_0),
        ensures
            id is None ==> *r == old(self).root && final(self).root == *final(r)
                && final(self).non_root_nodes == old(self).non_root_nodes,
            id is Some ==> final(self).root == old(self).root,
    {
        match id {
            Some(value_id) => self.non_root_mut(value_id),
            None => &mut self.root,
        }
    }

    /// All nodes of the value, the root among them under `root_id`.
    pub fn to_nodes(self, root_id: ValueId) -> (r: Vec<(ValueId, RENode)>)
        ensures
            r@ == self.non_root_nodes@.push((root_id, self.root)),
    {
        let mut nodes = self.non_root_nodes;
        nodes.push((root_id, self.root));
        nodes
    }

    /// Drops the root node.
    pub fn try_drop(self) -> (r: Result<(), DropFailure>)
        ensures
            r == drop_outcome(self.root),
    {
        self.root.try_drop()
    }
}

proof fn lemma_same_node_refl(a: ValueId)
    ensures
        same_node(a, a),
{
}

proof fn lemma_same_node_trans(a: ValueId, b: ValueId)
    ensures
        same_node(a, b) ==> forall|c: ValueId| same_node(b, c) <==> same_node(a, c),
        same_node(a, b) <==> same_node(b, a),
{
}

/// A value whose root owns other nodes.
#[derive(Debug)]
pub enum REComplexValue {
    Component(Component),
}

impl REComplexValue {
    /// The nodes that the value's state owns, read from the encoded state.
    pub fn get_children(&self) -> (r: Result<Vec<ValueId>, RuntimeError>)
        ensures
            match r {
                Ok(ids) => exists|v: ScryptoValue|
                    #[trigger] decoded_as(Ok(v), self->Component_0.state@) && ids@
                        == v.spec_node_ids(),
                Err(RuntimeError::DecodeError(e)) => decoded_as(Err(e), self->Component_0.state@),
                Err(_) => false,
            },
    {
        match self {
            REComplexValue::Component(component) => {
                match ScryptoValue::from_slice(component.state().as_slice()) {
                    Ok(value) => Ok(value.node_ids()),
                    Err(e) => Err(RuntimeError::DecodeError(e)),
                }
            },
        }
    }

    /// Makes a value whose root is this one and whose owned nodes are all the nodes of
    /// the given values, each value's own nodes followed by its root under its id, taking
    /// the values from the last to the first.
    pub fn into_re_value(self, non_root_values: Vec<(ValueId, REValue)>) -> (r: REValue)
        ensures
            r.root == (match self {
                REComplexValue::Component(c) => RENode::Component(c),
            }),
            r.non_root_nodes@ == gathered(non_root_values@),
    {
        let ghost all = non_root_values@;
        let mut non_root_nodes: Vec<(ValueId, RENode)> = Vec::new();
        let mut rest = non_root_values;
        proof {
            assert(non_root_nodes@ + gathered(rest@) =~= gathered(all));
        }
        while rest.len() > 0
            invariant
                non_root_nodes@ + gathered(rest@) == gathered(all),
            decreases rest@.len(),
        {
            let ghost before = rest@;
            let ghost acc = non_root_nodes@;
            let (id, val) = rest.pop().unwrap();
            let mut nodes = val.non_root_nodes;
            nodes.push((id, val.root));
            non_root_nodes.append(&mut nodes);
            proof {
                assert(rest@ =~= before.drop_last());
                assert(gathered(before) == node_entries(before.last()) + gathered(rest@));
                assert(non_root_nodes@ =~= acc + node_entries(before.last()));
                assert(non_root_nodes@ + gathered(rest@) =~= acc + gathered(before));
            }
        }
        proof {
            assert(gathered(rest@) =~= Seq::<(ValueId, RENode)>::empty());
            assert(non_root_nodes@ =~= gathered(all));
        }
        match self {
            REComplexValue::Component(component) => REValue {
                root: RENode::Component(component),
                non_root_nodes,
            },
        }
    }
}

/// The nodes of one value: its owned nodes, then its root under its id.
pub open spec fn node_entries(v: (ValueId, REValue)) -> Seq<(ValueId, RENode)> {
    v.1.non_root_nodes@.push((v.0, v.1.root))
}

/// The nodes of all the values, taken from the last value to the first.
pub open spec fn gathered(s: Seq<(ValueId, REValue)>) -> Seq<(ValueId, RENode)>
    decreases s.len(),
{
    if s.len() == 0 {
        Seq::empty()
    } else {
        node_entries(s.last()) + gathered(s.drop_last())
    }
}

/// A value that owns no other node.
#[derive(Debug)]
pub enum REPrimitiveValue {
    Package(ValidatedPackage),
    Bucket(Bucket),
    Proof(Proof),
    KeyValue(PreCommittedKeyValueStore),
    Resource(ResourceManager),
    NonFungibles(ResourceAddress, Vec<(NonFungibleId, NonFungible)>),
    Vault(Vault),
    Worktop(Worktop),
}

/// A value to create, by whether it owns other nodes.
#[derive(Debug)]
pub enum REValueByComplexity {
    Primitive(REPrimitiveValue),
    Complex(REComplexValue),
}

} // verus!
