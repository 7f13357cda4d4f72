use radix_engine::encode::Encoder;
use radix_engine::fee::{FeeReserve, FeeReserveError};
use radix_engine::handles::KeyValueStore;
use radix_engine::kernel::{check_call_depth, verify_stored_nodes_kept, OwnedNodes};
use radix_engine::model::{RuntimeError, Vault, Worktop, MAX_CALL_DEPTH};
use radix_engine::resource::{Decimal, ResourceContainer, ONE};
use radix_engine::scrypto_value::ScryptoValue;
use radix_engine::type_id::{SCRYPTO_TYPE_VAULT, TYPE_TUPLE};
use radix_engine::types::{RENodeId, ResourceAddress, VaultId};
use radix_engine::values::RENode;
use radix_engine::handles::package_address_from_hex;
use radix_engine::resource::{ResourceManager, ResourceManagerError, ResourceType};
use radix_engine::wasm_bridge::{
    host_function_index, read_value, return_pointer, send_value, validation_verdict, WasmError,
    WasmReturn, WasmValidationError,
};

fn vault_id(n: u32) -> VaultId {
    (radix_engine::types::Hash([9u8; 32]), n)
}

/// The encoded state of a component holding the given vaults.
fn state_with_vaults(ids: &[VaultId]) -> Vec<u8> {
    let mut enc = Encoder::with_type();
    enc.write_type(TYPE_TUPLE);
    enc.write_len(ids.len());
    for id in ids {
        let body = KeyValueStore::<(), ()>::new(*id).to_vec();
        enc.write_type(SCRYPTO_TYPE_VAULT);
        enc.write_len(body.len());
        enc.write_slice(&body);
    }
    enc.into_bytes()
}

fn xrd() -> ResourceAddress {
    ResourceAddress([3u8; 27])
}

fn vault_node() -> RENode {
    RENode::Vault(Vault {
        container: ResourceContainer::new_empty(xrd(), 18),
    })
}

#[test]
fn vault_orphan_at_creation_is_rejected() {
    let state = ScryptoValue::from_slice(&state_with_vaults(&[vault_id(1)])).unwrap();
    let ids = state.stored_node_ids();
    let mut frame = OwnedNodes::new();
    let result = frame.take_nodes(&ids);
    assert!(matches!(
        result,
        Err(RuntimeError::RENodeCreateNodeNotFound(RENodeId::Vault((_, 1))))
    ));
}

#[test]
fn double_ownership_of_vault_is_rejected() {
    let mut frame = OwnedNodes::new();
    frame.insert(RENodeId::Vault(vault_id(1)), vault_node()).unwrap();
    let first = ScryptoValue::from_slice(&state_with_vaults(&[vault_id(1)])).unwrap();
    let moved = frame.take_nodes(&first.stored_node_ids()).unwrap();
    assert_eq!(1, moved.len());
    assert_eq!(0, frame.nodes.len());
    let second = ScryptoValue::from_slice(&state_with_vaults(&[vault_id(1)])).unwrap();
    assert!(matches!(
        frame.take_nodes(&second.stored_node_ids()),
        Err(RuntimeError::RENodeCreateNodeNotFound(RENodeId::Vault(_)))
    ));
}

#[test]
fn same_vault_twice_in_one_value_is_rejected() {
    let bytes = state_with_vaults(&[vault_id(1), vault_id(1)]);
    assert!(ScryptoValue::from_slice(&bytes).is_err());
    let mut frame = OwnedNodes::new();
    frame.insert(RENodeId::Vault(vault_id(1)), vault_node()).unwrap();
    let ids = vec![RENodeId::Vault(vault_id(1)), RENodeId::Vault(vault_id(1))];
    assert!(frame.take_nodes(&ids).is_err());
    assert_eq!(1, frame.nodes.len());
}

#[test]
fn overwriting_a_stored_vault_is_rejected() {
    let old = ScryptoValue::from_slice(&state_with_vaults(&[vault_id(1)])).unwrap();
    let new = ScryptoValue::from_slice(&state_with_vaults(&[vault_id(2)])).unwrap();
    let result = verify_stored_nodes_kept(&old.stored_node_ids(), &new.stored_node_ids());
    assert!(matches!(
        result,
        Err(RuntimeError::StoredNodeRemoved(RENodeId::Vault((_, 1))))
    ));
    let cleared = ScryptoValue::from_slice(&state_with_vaults(&[])).unwrap();
    assert!(matches!(
        verify_stored_nodes_kept(&old.stored_node_ids(), &cleared.stored_node_ids()),
        Err(RuntimeError::StoredNodeRemoved(RENodeId::Vault(_)))
    ));
    let pushed =
        ScryptoValue::from_slice(&state_with_vaults(&[vault_id(1), vault_id(2)])).unwrap();
    assert!(verify_stored_nodes_kept(&old.stored_node_ids(), &pushed.stored_node_ids()).is_ok());
}

#[test]
fn vaults_cannot_be_dropped() {
    assert!(vault_node().try_drop().is_err());
}

#[test]
fn call_depth_is_bounded() {
    assert!(check_call_depth(MAX_CALL_DEPTH).is_ok());
    assert!(matches!(
        check_call_depth(MAX_CALL_DEPTH + 1),
        Err(RuntimeError::MaxCallDepthExceeded(9))
    ));
}

#[test]
fn fee_reserve_charges_fee_and_tip_and_refunds_the_rest() {
    let mut reserve = FeeReserve::new(ONE / 10_000_000, 5, 1_000_000);
    reserve.lock_fee(10 * ONE);
    assert_eq!(Ok(()), reserve.consume(1000));
    assert_eq!(Err(FeeReserveError::LimitExceeded), reserve.consume(1_000_000));
    let summary = reserve.settle();
    assert_eq!(1000 * (ONE / 10_000_000), summary.fee);
    assert_eq!(summary.fee * 5 / 100, summary.tip);
    assert_eq!(10 * ONE - summary.fee - summary.tip, summary.refund);
    let mut poor = FeeReserve::new(ONE, 0, 100);
    poor.lock_fee(ONE);
    assert_eq!(Ok(()), poor.consume(1));
    assert_eq!(Err(FeeReserveError::CostUnitExhausted), poor.consume(1));
    assert_eq!(1, poor.consumed);
}

#[test]
fn xrd_transfer() {
    // Account A holds 100 XRD; B holds none.
    let mut a = ResourceContainer::new_empty(xrd(), 18);
    a.amount = Decimal(100 * ONE);
    let mut b = ResourceContainer::new_empty(xrd(), 18);

    // LOCK_FEE(10, A)
    let mut reserve = FeeReserve::new(ONE / 10_000_000, 0, 10_000_000);
    let locked = a.take_by_amount(Decimal(10 * ONE)).unwrap();
    reserve.lock_fee(locked.amount.0);

    // WITHDRAW(0.000001, XRD, A) onto the worktop
    let withdrawn = a.take_by_amount(Decimal(ONE / 1_000_000)).unwrap();
    let mut worktop = Worktop {
        resources: vec![withdrawn],
    };
    reserve.consume(5000).unwrap();

    // DEPOSIT_BATCH(B): everything on the worktop goes to B
    let mut on_worktop = worktop.resources.remove(0);
    let all = on_worktop.amount;
    b.put(on_worktop.take_by_amount(all).unwrap()).unwrap();
    worktop.resources.push(on_worktop);

    // Commit: the worktop is empty, the refund goes back to A.
    assert_eq!(Ok(()), worktop.drop());
    let summary = reserve.settle();
    let mut refund = ResourceContainer::new_empty(xrd(), 18);
    refund.amount = Decimal(summary.refund);
    a.put(refund).unwrap();

    assert_eq!(Decimal(ONE / 1_000_000), b.amount());
    assert_eq!(
        Decimal(100 * ONE - ONE / 1_000_000 - summary.fee - summary.tip),
        a.amount()
    );
    assert_eq!(5000 * (ONE / 10_000_000), summary.fee);
}

#[test]
fn values_cross_linear_memory_within_bounds() {
    let value = ScryptoValue::from_slice(&state_with_vaults(&[vault_id(1)])).unwrap();
    let n = value.raw.len();
    let mut memory = vec![0u8; 8 + n];
    memory[2..6].copy_from_slice(&(n as u32).to_le_bytes());
    assert_eq!(Ok(2), send_value(&mut memory, 2, &value));
    assert_eq!(value.raw[..], memory[6..6 + n]);
    let back = read_value(&memory, 2).unwrap();
    assert_eq!(value.raw, back.raw);
    assert_eq!(1, back.vault_ids.len());

    let mut small = vec![0u8; 4 + n - 1];
    assert_eq!(Err(WasmError::MemoryAllocError), send_value(&mut small, 0, &value));
    assert!(matches!(read_value(&small, small.len() - 3), Err(WasmError::MemoryAccessError)));
    let mut lying = vec![0u8; 8];
    lying[0..4].copy_from_slice(&100u32.to_le_bytes());
    assert!(matches!(read_value(&lying, 0), Err(WasmError::MemoryAccessError)));
    lying[0..4].copy_from_slice(&1u32.to_le_bytes());
    lying[4] = 0xee;
    assert!(matches!(read_value(&lying, 0), Err(WasmError::InvalidScryptoValue(_))));
}

#[test]
fn validation_verdict_reports_first_failing_step() {
    assert_eq!(
        Err(WasmValidationError::InvalidModule),
        validation_verdict(false, true, true, false, true, Ok(()))
    );
    assert_eq!(
        Err(WasmValidationError::FloatingPointNotAllowed),
        validation_verdict(true, false, true, false, true, Ok(()))
    );
    assert_eq!(
        Err(WasmValidationError::StartFunctionNotAllowed),
        validation_verdict(true, true, true, true, true, Ok(()))
    );
    assert_eq!(
        Err(WasmValidationError::NoValidMemoryExport),
        validation_verdict(true, true, true, false, false, Ok(()))
    );
    assert_eq!(
        Err(WasmValidationError::NoPackageInitExport("trap".to_string())),
        validation_verdict(true, true, true, false, true, Err("trap".to_string()))
    );
    assert_eq!(Ok(()), validation_verdict(true, true, true, false, true, Ok(())));
    assert_eq!(Some(0), host_function_index(b"radix_engine"));
    assert_eq!(Some(1), host_function_index(b"consume_cost_units"));
    assert_eq!(None, host_function_index(b"print"));
    assert_eq!(Err(WasmError::MissingReturnData), return_pointer(&vec![]));
    assert_eq!(Err(WasmError::InvalidReturnData), return_pointer(&vec![WasmReturn::I64(3)]));
    assert_eq!(Ok(40), return_pointer(&vec![WasmReturn::I32(40)]));
}

#[test]
fn burning_more_than_supply_is_refused() {
    let mut m = ResourceManager::new(ResourceType::Fungible { divisibility: 18 }).unwrap();
    m.mint_fungible(Decimal(5 * ONE)).unwrap();
    assert_eq!(
        Err(ResourceManagerError::InvalidAmount(Decimal(6 * ONE), 18)),
        m.burn(Decimal(6 * ONE))
    );
    assert_eq!(Ok(()), m.burn(Decimal(2 * ONE)));
    assert_eq!(Decimal(3 * ONE), m.total_supply);
}

#[test]
fn package_address_reads_from_hex() {
    let text = "01".repeat(27);
    assert!(package_address_from_hex(&text).unwrap().0 == [1u8; 27]);
    assert!(package_address_from_hex("0102").is_none());
    assert!(package_address_from_hex("zz").is_none());
}
