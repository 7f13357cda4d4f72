use radix_engine::actor::{Level, ScryptoActor};
use radix_engine::handles::{Bucket, KeyValueStore, ParseBucketError, ParseKeyValueStoreError};
use radix_engine::memory_db::{kv_entry_key, SerializedInMemorySubstateStore};
use radix_engine::model::{
    KindMismatch, Bucket as BucketNode, Component, DropFailure, Proof, RuntimeError, System, Worktop,
};
use radix_engine::resource::{
    Decimal, ResourceContainer, ResourceContainerError, ResourceManager, ResourceManagerError,
    ResourceType, ONE,
};
use radix_engine::types::{ComponentAddress, PackageAddress, RENodeId, ResourceAddress};
use radix_engine::values::{RENode, REValue, Substate};

fn xrd() -> ResourceAddress {
    ResourceAddress([3u8; 27])
}

#[test]
fn mint_with_bad_granularity_should_fail() {
    let mut manager = ResourceManager::new(ResourceType::Fungible { divisibility: 0 }).unwrap();
    let result = manager.mint_fungible(Decimal(ONE / 10));
    assert_eq!(
        Err(ResourceManagerError::InvalidAmount(Decimal(ONE / 10), 0)),
        result
    );
    assert_eq!(Decimal(0), manager.total_supply);
}

#[test]
fn mint_too_much_should_fail() {
    let mut manager = ResourceManager::new(ResourceType::Fungible { divisibility: 0 }).unwrap();
    let result = manager.mint_fungible(Decimal(1_000_000_000_000_000_001 * ONE));
    assert_eq!(Err(ResourceManagerError::MaxMintAmountExceeded), result);
    assert_eq!(Ok(()), manager.mint_fungible(Decimal(1_000_000_000_000_000_000 * ONE)));
    assert_eq!(
        Err(ResourceManagerError::MaxMintAmountExceeded),
        manager.mint_fungible(Decimal(ONE))
    );
}

#[test]
fn mint_respects_divisibility() {
    let mut manager = ResourceManager::new(ResourceType::Fungible { divisibility: 2 }).unwrap();
    assert_eq!(Ok(()), manager.mint_fungible(Decimal(ONE / 100 * 5)));
    assert_eq!(Decimal(ONE / 100 * 5), manager.total_supply);
    assert_eq!(
        Err(ResourceManagerError::InvalidAmount(Decimal(ONE / 1000), 2)),
        manager.mint_fungible(Decimal(ONE / 1000))
    );
    assert_eq!(
        Err(ResourceManagerError::InvalidDivisibility(19)),
        ResourceManager::new(ResourceType::Fungible { divisibility: 19 })
    );
    let mut nft = ResourceManager::new(ResourceType::NonFungible).unwrap();
    assert_eq!(
        Err(ResourceManagerError::ResourceTypeMismatch),
        nft.mint_fungible(Decimal(ONE))
    );
}

#[test]
fn moving_resources_between_containers_conserves_them() {
    let mut vault = ResourceContainer::new_empty(xrd(), 18);
    let mut faucet = ResourceContainer::new_empty(xrd(), 18);
    faucet.amount = Decimal(100 * ONE);
    let taken = faucet.take_by_amount(Decimal(1_000_000_000_000)).unwrap();
    assert_eq!(Decimal(100 * ONE - 1_000_000_000_000), faucet.amount());
    vault.put(taken).unwrap();
    assert_eq!(Decimal(1_000_000_000_000), vault.amount());
    assert_eq!(100 * ONE, faucet.amount().0 + vault.amount().0);
    assert_eq!(
        Err(ResourceContainerError::InsufficientBalance),
        vault.take_by_amount(Decimal(ONE)).map(|c| c.amount)
    );
    let other = ResourceContainer::new_empty(ResourceAddress([4u8; 27]), 18);
    assert_eq!(Err(ResourceContainerError::ResourceAddressNotMatching), vault.put(other));
    let mut whole = ResourceContainer::new_empty(xrd(), 0);
    whole.amount = Decimal(5 * ONE);
    assert_eq!(
        Err(ResourceContainerError::InvalidAmount(Decimal(ONE / 2), 0)),
        whole.take_by_amount(Decimal(ONE / 2)).map(|c| c.amount)
    );
}

#[test]
fn worktop_must_be_empty_to_drop() {
    let mut full = ResourceContainer::new_empty(xrd(), 18);
    full.amount = Decimal(ONE);
    let worktop = Worktop {
        resources: vec![ResourceContainer::new_empty(xrd(), 18), full],
    };
    assert_eq!(Err(DropFailure::Worktop), worktop.drop());
    let empty = Worktop {
        resources: vec![ResourceContainer::new_empty(xrd(), 18)],
    };
    assert_eq!(Ok(()), empty.drop());
}

#[test]
fn node_move_persist_and_drop_rules() {
    let locked = RENode::Bucket(BucketNode {
        container: ResourceContainer::new_empty(xrd(), 18),
        lock_count: 1,
    });
    assert!(matches!(
        locked.verify_can_move(),
        Err(RuntimeError::CantMoveLockedBucket)
    ));
    assert!(matches!(
        locked.verify_can_persist(),
        Err(RuntimeError::ValueNotAllowed)
    ));
    assert_eq!(Ok(()), locked.try_drop());
    let mut held = ResourceContainer::new_empty(xrd(), 18);
    held.amount = Decimal(ONE);
    let full = RENode::Bucket(BucketNode {
        container: held,
        lock_count: 0,
    });
    assert_eq!(Err(DropFailure::Bucket), full.try_drop());
    let restricted = RENode::Proof(Proof {
        resource_address: xrd(),
        total_locked: Decimal(ONE),
        restricted: true,
    });
    assert!(matches!(
        restricted.verify_can_move(),
        Err(RuntimeError::CantMoveRestrictedProof)
    ));
    assert_eq!(Ok(()), restricted.try_drop());
    let component = RENode::Component(Component {
        package_address: PackageAddress([1u8; 27]),
        blueprint_name: "Account".to_string(),
        state: vec![0],
    });
    assert!(component.verify_can_persist().is_ok());
    assert!(component.verify_can_move().is_ok());
    assert_eq!(Err(DropFailure::Component), component.try_drop());
    let system = RENode::System(System { epoch: 4 });
    assert_eq!(4, system.system().unwrap().epoch);
}

#[test]
fn drop_values_reports_worktop_last() {
    let mut full = ResourceContainer::new_empty(xrd(), 18);
    full.amount = Decimal(ONE);
    let values = vec![
        REValue {
            root: RENode::Worktop(Worktop {
                resources: vec![full],
            }),
            non_root_nodes: vec![],
        },
        REValue {
            root: RENode::System(System { epoch: 1 }),
            non_root_nodes: vec![],
        },
    ];
    assert_eq!(Err(DropFailure::System), RENode::drop_values(values));
    let values = vec![REValue {
        root: RENode::Worktop(Worktop { resources: vec![] }),
        non_root_nodes: vec![],
    }];
    assert_eq!(Ok(()), RENode::drop_values(values));
}

#[test]
fn re_value_keeps_one_node_per_id() {
    let mut value = REValue {
        root: RENode::System(System { epoch: 1 }),
        non_root_nodes: vec![],
    };
    value.insert_non_root_nodes(vec![
        (RENodeId::Bucket(1), RENode::System(System { epoch: 2 })),
        (RENodeId::Bucket(1), RENode::System(System { epoch: 3 })),
    ]);
    assert_eq!(1, value.non_root_nodes.len());
    assert_eq!(3, value.non_root(&RENodeId::Bucket(1)).system().unwrap().epoch);
    assert_eq!(1, value.get_node(None).system().unwrap().epoch);
    assert_eq!(3, value.get_node(Some(&RENodeId::Bucket(1))).system().unwrap().epoch);
}

#[test]
fn substate_accessors() {
    let mut substate = Substate::System(System { epoch: 9 });
    assert_eq!(9, substate.system().unwrap().epoch);
    substate.system_mut().unwrap().epoch = 10;
    assert_eq!(10, substate.system().unwrap().epoch);
    assert_eq!(Err(KindMismatch::Substate), substate.vault().map(|_| ()));
    assert_eq!(Err(KindMismatch::Node), RENode::System(System { epoch: 1 }).vault().map(|_| ()));
}

#[test]
fn store_keeps_latest_value_and_roots() {
    let mut store = SerializedInMemorySubstateStore::new();
    assert_eq!(None, store.get_substate(&[1, 2]));
    store.put_substate(vec![1, 2], vec![7]);
    store.put_substate(vec![1, 2], vec![8]);
    store.put_substate(vec![3], vec![9]);
    assert_eq!(Some(vec![8]), store.get_substate(&[1, 2]));
    assert_eq!(Some(vec![9]), store.get_substate(&[3]));
    assert!(!store.is_root(&[3]));
    store.set_root(vec![3]);
    assert!(store.is_root(&[3]));
}

#[test]
fn handles_round_trip_through_bytes_and_hex() {
    assert_eq!(vec![5u8, 1, 0, 0], Bucket(261).to_vec());
    assert_eq!(Ok(Bucket(261)), Bucket::try_from(&[5, 1, 0, 0]));
    assert_eq!(
        Err(ParseBucketError::InvalidLength(3)),
        Bucket::try_from(&[5, 1, 0])
    );
    let store = KeyValueStore::<u8, u8>::new((radix_engine::types::Hash([0xab; 32]), 2));
    let bytes = store.to_vec();
    assert_eq!(36, bytes.len());
    let hex = store.to_hex_string();
    assert_eq!(format!("{}02000000", "ab".repeat(32)), hex);
    let back = KeyValueStore::<u8, u8>::from_str(&hex.to_uppercase()).unwrap();
    assert_eq!(2, back.id.1);
    assert!(back.id.0 == radix_engine::types::Hash([0xab; 32]));
    assert!(matches!(
        KeyValueStore::<u8, u8>::from_str("zz"),
        Err(ParseKeyValueStoreError::InvalidHex(_))
    ));
    assert!(matches!(
        KeyValueStore::<u8, u8>::from_str("abab"),
        Err(ParseKeyValueStoreError::InvalidLength(2))
    ));
}

#[test]
fn actor_and_level() {
    let actor = ScryptoActor::component(
        ComponentAddress([2u8; 27]),
        PackageAddress([1u8; 27]),
        "Hello".to_string(),
    );
    assert_eq!("Hello", actor.blueprint_name());
    assert!(*actor.package_address() == PackageAddress([1u8; 27]));
    let (c, p, name) = actor.as_component().unwrap();
    assert_eq!(Err(KindMismatch::Actor), actor.as_blueprint().map(|_| ()));
    assert!(c == ComponentAddress([2u8; 27]) && p == PackageAddress([1u8; 27]));
    assert_eq!("Hello", name);
    let bp = ScryptoActor::blueprint(PackageAddress([1u8; 27]), "Hello".to_string());
    assert_eq!("Hello", bp.as_blueprint().unwrap().1);
    assert_eq!("WARN", Level::Warn.to_str());
    assert_eq!("TRACE", Level::Trace.to_str());
}

#[test]
fn kv_store_entries_are_scanned_by_store() {
    let a = (radix_engine::types::Hash([1u8; 32]), 1);
    let b = (radix_engine::types::Hash([1u8; 32]), 2);
    let mut store = SerializedInMemorySubstateStore::new();
    store.put_substate(kv_entry_key(a, &[10]), vec![100]);
    store.put_substate(kv_entry_key(b, &[10]), vec![200]);
    store.put_substate(kv_entry_key(a, &[11, 12]), vec![101]);
    store.put_substate(vec![1, 2, 3], vec![9]);
    let mut entries = store.get_kv_store_entries(a);
    entries.sort();
    assert_eq!(vec![(vec![10u8], vec![100u8]), (vec![11, 12], vec![101])], entries);
    assert_eq!(1, store.get_kv_store_entries(b).len());
    assert_eq!(37, kv_entry_key(a, &[]).len());
}
