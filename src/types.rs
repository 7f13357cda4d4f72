use vstd::prelude::*;

verus! {

/// Whether two byte arrays of the same length hold the same bytes, compared one by one.
fn same_bytes<const N: usize>(a: &[u8; N], b: &[u8; N]) -> (r: bool)
    ensures
        r <==> a@ == b@,
{
    let mut i: usize = 0;
    while i < N
        invariant
            a@.len() == N,
            b@.len() == N,
            i <= N,
            forall|j: int| 0 <= j < i ==> a@[j] == b@[j],
        decreases N - i,
    {
        if a[i] != b[i] {
            return false;
        }
        i = i + 1;
    }
    assert(a@ =~= b@);
    true
}

/// A 32-byte digest.
#[derive(Debug, Clone, Copy)]
pub struct Hash(pub [u8; 32]);

impl PartialEq for Hash {
    fn eq(&self, o: &Hash) -> (r: bool) {
        same_bytes(&self.0, &o.0)
    }
}

impl vstd::std_specs::cmp::PartialEqSpecImpl for Hash {
    open spec fn obeys_eq_spec() -> bool {
        true
    }

    open spec fn eq_spec(&self, o: &Hash) -> bool {
        self.0@ == o.0@
    }
}

impl Eq for Hash {}

/// The 27-byte address of a package: an entity-type byte and a 26-byte body.
#[derive(Debug, Clone, Copy)]
pub struct PackageAddress(pub [u8; 27]);

impl PartialEq for PackageAddress {
    fn eq(&self, o: &PackageAddress) -> (r: bool) {
        same_bytes(&self.0, &o.0)
    }
}

impl vstd::std_specs::cmp::PartialEqSpecImpl for PackageAddress {
    open spec fn obeys_eq_spec() -> bool {
        true
    }

    open spec fn eq_spec(&self, o: &PackageAddress) -> bool {
        self.0@ == o.0@
    }
}

impl Eq for PackageAddress {}

/// The 27-byte address of a component.
#[derive(Debug, Clone, Copy)]
pub struct ComponentAddress(pub [u8; 27]);

impl PartialEq for ComponentAddress {
    fn eq(&self, o: &ComponentAddress) -> (r: bool) {
        same_bytes(&self.0, &o.0)
    }
}

impl vstd::std_specs::cmp::PartialEqSpecImpl for ComponentAddress {
    open spec fn obeys_eq_spec() -> bool {
        true
    }

    open spec fn eq_spec(&self, o: &ComponentAddress) -> bool {
        self.0@ == o.0@
    }
}

impl Eq for ComponentAddress {}

/// The 27-byte address of a resource.
#[derive(Debug, Clone, Copy)]
pub struct ResourceAddress(pub [u8; 27]);

impl PartialEq for ResourceAddress {
    fn eq(&self, o: &ResourceAddress) -> (r: bool) {
        same_bytes(&self.0, &o.0)
    }
}

impl vstd::std_specs::cmp::PartialEqSpecImpl for ResourceAddress {
    open spec fn obeys_eq_spec() -> bool {
        true
    }

    open spec fn eq_spec(&self, o: &ResourceAddress) -> bool {
        self.0@ == o.0@
    }
}

impl Eq for ResourceAddress {}

/// The id of one non-fungible unit within its resource.
#[derive(Debug, Clone, PartialEq, Eq)]
pub struct NonFungibleId(pub Vec<u8>);

/// A key-value store id: the hash of the creating transaction and a counter.
pub type KeyValueStoreId = (Hash, u32);

/// A vault id: the hash of the creating transaction and a counter.
pub type VaultId = (Hash, u32);

/// A bucket id, scoped to one call frame.
pub type BucketId = u32;

/// A proof id, scoped to one call frame.
pub type ProofId = u32;

/// The id of a live object of the engine.
#[derive(Debug, Clone, Copy)]
pub enum RENodeId {
    Bucket(BucketId),
    Proof(ProofId),
    KeyValueStore(KeyValueStoreId),
    Worktop,
    Component(ComponentAddress),
    Vault(VaultId),
    ResourceManager(ResourceAddress),
    Package(PackageAddress),
    System,
}

/// The id of the node that owns the value in an arena of nodes.
pub type ValueId = RENodeId;

/// Whether two node ids name the same node.
pub open spec fn same_node(a: RENodeId, b: RENodeId) -> bool {
    match (a, b) {
        (RENodeId::Bucket(x), RENodeId::Bucket(y)) => x == y,
        (RENodeId::Proof(x), RENodeId::Proof(y)) => x == y,
        (RENodeId::KeyValueStore(x), RENodeId::KeyValueStore(y)) => x.0.0@ == y.0.0@ && x.1 == y.1,
        (RENodeId::Worktop, RENodeId::Worktop) => true,
        (RENodeId::Component(x), RENodeId::Component(y)) => x.0@ == y.0@,
        (RENodeId::Vault(x), RENodeId::Vault(y)) => x.0.0@ == y.0.0@ && x.1 == y.1,
        (RENodeId::ResourceManager(x), RENodeId::ResourceManager(y)) => x.0@ == y.0@,
        (RENodeId::Package(x), RENodeId::Package(y)) => x.0@ == y.0@,
        (RENodeId::System, RENodeId::System) => true,
        _ => false,
    }
}

impl PartialEq for RENodeId {
    fn eq(&self, o: &RENodeId) -> (r: bool) {
        match (self, o) {
            (RENodeId::Bucket(x), RENodeId::Bucket(y)) => *x == *y,
            (RENodeId::Proof(x), RENodeId::Proof(y)) => *x == *y,
            (RENodeId::KeyValueStore(x), RENodeId::KeyValueStore(y)) => same_bytes(&x.0.0, &y.0.0)
                && x.1 == y.1,
            (RENodeId::Worktop, RENodeId::Worktop) => true,
            (RENodeId::Component(x), RENodeId::Component(y)) => same_bytes(&x.0, &y.0),
            (RENodeId::Vault(x), RENodeId::Vault(y)) => same_bytes(&x.0.0, &y.0.0) && x.1 == y.1,
            (RENodeId::ResourceManager(x), RENodeId::ResourceManager(y)) => same_bytes(&x.0, &y.0),
            (RENodeId::Package(x), RENodeId::Package(y)) => same_bytes(&x.0, &y.0),
            (RENodeId::System, RENodeId::System) => true,
            _ => false,
        }
    }
}

impl vstd::std_specs::cmp::PartialEqSpecImpl for RENodeId {
    open spec fn obeys_eq_spec() -> bool {
        true
    }

    open spec fn eq_spec(&self, o: &RENodeId) -> bool {
        same_node(*self, *o)
    }
}

impl Eq for RENodeId {}

impl RENodeId {
    /// The id of a vault or a key-value store.
    pub fn stored_id(self) -> (r: (Hash, u32))
        requires
            self is KeyValueStore || self is Vault,
        ensures
            self is KeyValueStore ==> r == self->KeyValueStore_0,
            self is Vault ==> r == self->Vault_0,
    {
        match self {
            RENodeId::KeyValueStore(id) => id,
            RENodeId::Vault(id) => id,
            _ => (Hash([0u8; 32]), 0),
        }
    }

    /// The id of a bucket or a proof.
    pub fn transient_id(self) -> (r: u32)
        requires
            self is Bucket || self is Proof,
        ensures
            self is Bucket ==> r == self->Bucket_0,
            self is Proof ==> r == self->Proof_0,
    {
        match self {
            RENodeId::Bucket(id) => id,
            RENodeId::Proof(id) => id,
            _ => 0,
        }
    }
}

/// The key space of the substate store.
#[derive(Debug)]
pub enum SubstateId {
    ComponentInfo(ComponentAddress),
    Package(PackageAddress),
    ResourceManager(ResourceAddress),
    NonFungibleSpace(ResourceAddress),
    NonFungible(ResourceAddress, NonFungibleId),
    KeyValueStoreSpace(KeyValueStoreId),
    KeyValueStoreEntry(KeyValueStoreId, Vec<u8>),
    Vault(VaultId),
    ComponentState(ComponentAddress),
    System,
    Bucket(BucketId),
    Proof(ProofId),
    Worktop,
}

impl SubstateId {
    /// The component that a component substate belongs to.
    pub fn component_address(&self) -> (r: ComponentAddress)
        requires
            self is ComponentInfo || self is ComponentState,
        ensures
            self is ComponentInfo ==> r == self->ComponentInfo_0,
            self is ComponentState ==> r == self->ComponentState_0,
    {
        match self {
            SubstateId::ComponentInfo(a) => *a,
            SubstateId::ComponentState(a) => *a,
            _ => ComponentAddress([0u8; 27]),
        }
    }

    /// The resource that a resource-manager substate belongs to.
    pub fn resource_address(&self) -> (r: ResourceAddress)
        requires
            self is ResourceManager,
        ensures
            r == self->ResourceManager_0,
    {
        match self {
            SubstateId::ResourceManager(a) => *a,
            _ => ResourceAddress([0u8; 27]),
        }
    }
}

} // verus!
