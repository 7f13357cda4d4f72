// The decisions around running blueprint code: what validation concludes, which host
// function an import names, where a returned pointer points, and the bounds-checked copies
// through linear memory. Compiling, instantiating and invoking a module are the work of a
// Wasm engine, which is not part of this library.
use vstd::prelude::*;
use vstd::bytes::{spec_u32_from_le_bytes, u32_from_le_bytes};
use vstd::slice::slice_subrange;
use crate::decode::DecodeError;
use crate::scrypto_value::{decoded_as, ScryptoValue};

verus! {

/// Represents an error when moving data across the guest's linear memory.
#[derive(Debug, Clone, PartialEq, Eq)]
pub enum WasmError {
    MemoryAllocError,
    MemoryAccessError,
    InvalidScryptoValue(DecodeError),
    FunctionNotFound,
    MissingReturnData,
    InvalidReturnData,
}

/// Why a module was refused as blueprint code.
#[derive(Debug, Clone, PartialEq, Eq)]
pub enum WasmValidationError {
    InvalidModule,
    FloatingPointNotAllowed,
    StartFunctionNotAllowed,
    NoValidMemoryExport,
    NoPackageInitExport(String),
}

/// What validating a module decides from what each step found: it must parse, use no
/// floating point, instantiate against the engine's host functions, have no start
/// function, export its memory, and run `package_init`. The first failing step gives the
/// error.
pub fn validation_verdict(
    parsed: bool,
    float_free: bool,
    instantiated: bool,
    has_start: bool,
    exports_memory: bool,
    package_init: Result<(), String>,
) -> (r: Result<(), WasmValidationError>)
    ensures
        !parsed ==> r == Err::<(), WasmValidationError>(WasmValidationError::InvalidModule),
        parsed && !float_free ==> r == Err::<(), WasmValidationError>(
            WasmValidationError::FloatingPointNotAllowed,
        ),
        parsed && float_free && !instantiated ==> r == Err::<(), WasmValidationError>(
            WasmValidationError::InvalidModule,
        ),
        parsed && float_free && instantiated && has_start ==> r == Err::<(), WasmValidationError>(
            WasmValidationError::StartFunctionNotAllowed,
        ),
        parsed && float_free && instantiated && !has_start && !exports_memory ==> r == Err::<
            (),
            WasmValidationError,
        >(WasmValidationError::NoValidMemoryExport),
        parsed && float_free && instantiated && !has_start && exports_memory ==> r == match package_init {
            Ok(()) => Ok::<(), WasmValidationError>(()),
            Err(e) => Err::<(), WasmValidationError>(WasmValidationError::NoPackageInitExport(e)),
        },
{
    if !parsed {
        return Err(WasmValidationError::InvalidModule);
    }
    if !float_free {
        return Err(WasmValidationError::FloatingPointNotAllowed);
    }
    if !instantiated {
        return Err(WasmValidationError::InvalidModule);
    }
    if has_start {
        return Err(WasmValidationError::StartFunctionNotAllowed);
    }
    if !exports_memory {
        return Err(WasmValidationError::NoValidMemoryExport);
    }
    match package_init {
        Ok(()) => Ok(()),
        Err(e) => Err(WasmValidationError::NoPackageInitExport(e)),
    }
}

/// The name `radix_engine` of the host call that carries every engine request, as bytes.
pub open spec fn radix_engine_name() -> Seq<u8> {
    seq![114u8, 97, 100, 105, 120, 95, 101, 110, 103, 105, 110, 101]
}

/// The name `consume_cost_units` of the metering host call, as bytes.
pub open spec fn consume_cost_units_name() -> Seq<u8> {
    seq![99u8, 111, 110, 115, 117, 109, 101, 95, 99, 111, 115, 116, 95, 117, 110, 105, 116, 115]
}

fn same_name(a: &[u8], b: &Vec<u8>) -> (r: bool)
    ensures
        r <==> a@ == b@,
{
    if a.len() != b.len() {
        return false;
    }
    let mut i: usize = 0;
    while i < a.len()
        invariant
            a@.len() == b@.len(),
            i <= a@.len(),
            forall|j: int| 0 <= j < i ==> a@[j] == b@[j],
        decreases a@.len() - i,
    {
        if a[i] != b[i] {
            return false;
        }
        i = i + 1;
    }
    assert(a@ =~= b@);
    true
}

/// The index of the host function that a module imports from `env` under the name
/// `field`: 0 for the engine call, 1 for metering; no other import is resolved.
pub fn host_function_index(field: &[u8]) -> (r: Option<usize>)
    ensures
        r == Some(0usize) <==> field@ == radix_engine_name(),
        r == Some(1usize) <==> field@ == consume_cost_units_name(),
        r is Some ==> r == Some(0usize) || r == Some(1usize),
{
    let engine: Vec<u8> = vec![114u8, 97, 100, 105, 120, 95, 101, 110, 103, 105, 110, 101];
    let metering: Vec<u8> = vec![
        99u8, 111, 110, 115, 117, 109, 101, 95, 99, 111, 115, 116, 95, 117, 110, 105, 116, 115,
    ];
    assert(engine@ =~= radix_engine_name());
    assert(metering@ =~= consume_cost_units_name());
    if same_name(field, &engine) {
        Some(0)
    } else if same_name(field, &metering) {
        assert(field@ != radix_engine_name());
        Some(1)
    } else {
        None
    }
}

/// One value returned by a guest function.
#[derive(Debug, Clone, Copy, PartialEq, Eq, Structural)]
pub enum WasmReturn {
    I32(i32),
    I64(i64),
    F32Bits(u32),
    F64Bits(u64),
}

/// The pointer to the encoded output that a guest function returns: its first result, which
/// must be a 32-bit integer.
pub fn return_pointer(results: &Vec<WasmReturn>) -> (r: Result<usize, WasmError>)
    ensures
        results@.len() == 0 ==> r == Err::<usize, WasmError>(WasmError::MissingReturnData),
        results@.len() > 0 && !(results@[0] is I32) ==> r == Err::<usize, WasmError>(
            WasmError::InvalidReturnData,
        ),
        results@.len() > 0 && results@[0] is I32 ==> r == Ok::<usize, WasmError>(
            results@[0]->I32_0 as usize,
        ),
{
    if results.len() == 0 {
        return Err(WasmError::MissingReturnData);
    }
    match results[0] {
        WasmReturn::I32(p) => Ok(p as usize),
        _ => Err(WasmError::InvalidReturnData),
    }
}

/// Copies `value`'s encoding into the guest's linear memory, just after the four-byte
/// length that the guest's allocator wrote at `ptr`. The whole range `ptr + 4 + len` must
/// lie within the memory; otherwise nothing is written.
pub fn send_value(memory: &mut Vec<u8>, ptr: usize, value: &ScryptoValue) -> (r: Result<
    usize,
    WasmError,
>)
    ensures
        r is Ok <==> ptr + 4 + value.raw@.len() <= old(memory)@.len(),
        r is Ok ==> r == Ok::<usize, WasmError>(ptr) && final(memory)@ == old(memory)@.subrange(
            0,
            ptr + 4,
        ) + value.raw@ + old(memory)@.subrange(
            ptr + 4 + value.raw@.len(),
            old(memory)@.len() as int,
        ),
        r is Err ==> r == Err::<usize, WasmError>(WasmError::MemoryAllocError) && final(memory)@
            == old(memory)@,
{
    let n = value.raw.len();
    let size = memory.len();
    if size < 4 || size - 4 < ptr || size - 4 - ptr < n {
        return Err(WasmError::MemoryAllocError);
    }
    let start = ptr + 4;
    let mut i: usize = 0;
    while i < n
        invariant
            start == ptr + 4,
            start + n <= size,
            memory@.len() == size,
            n == value.raw@.len(),
            i <= n,
            size == old(memory)@.len(),
            forall|k: int| 0 <= k < start ==> memory@[k] == old(memory)@[k],
            forall|k: int| start + n <= k < size ==> memory@[k] == old(memory)@[k],
            forall|k: int| 0 <= k < i ==> memory@[start + k] == value.raw@[k],
            forall|k: int| start + i <= k < start + n ==> memory@[k] == old(memory)@[k],
        decreases n - i,
    {
        memory.set(start + i, value.raw[i]);
        i = i + 1;
    }
    proof {
        assert(memory@ =~= old(memory)@.subrange(0, ptr + 4) + value.raw@ + old(memory)@.subrange(
            ptr + 4 + value.raw@.len(),
            old(memory)@.len() as int,
        ));
    }
    Ok(ptr)
}

/// The length that the guest wrote at `ptr`: four little-endian bytes.
pub open spec fn length_at(memory: Seq<u8>, ptr: int) -> int {
    spec_u32_from_le_bytes(memory.subrange(ptr, ptr + 4)) as int
}

/// Reads the value that the guest left at `ptr`: a four-byte length, then that many bytes
/// of encoding. Every read is checked against the size of the memory first.
pub fn read_value(memory: &[u8], ptr: usize) -> (r: Result<ScryptoValue, WasmError>)
    ensures
        ptr + 4 > memory@.len() ==> r == Err::<ScryptoValue, WasmError>(
            WasmError::MemoryAccessError,
        ),
        ptr + 4 <= memory@.len() && ptr + 4 + length_at(memory@, ptr as int) > memory@.len() ==> r
            == Err::<ScryptoValue, WasmError>(WasmError::MemoryAccessError),
        ptr + 4 <= memory@.len() && ptr + 4 + length_at(memory@, ptr as int) <= memory@.len() ==> match r {
            Ok(v) => decoded_as(
                Ok(v),
                memory@.subrange(ptr + 4, ptr + 4 + length_at(memory@, ptr as int)),
            ),
            Err(WasmError::InvalidScryptoValue(e)) => decoded_as(
                Err(e),
                memory@.subrange(ptr + 4, ptr + 4 + length_at(memory@, ptr as int)),
            ),
            Err(_) => false,
        },
{
    let size = memory.len();
    if size < 4 || size - 4 < ptr {
        return Err(WasmError::MemoryAccessError);
    }
    let n = u32_from_le_bytes(slice_subrange(memory, ptr, ptr + 4)) as usize;
    if size - 4 - ptr < n {
        return Err(WasmError::MemoryAccessError);
    }
    let bytes = slice_subrange(memory, ptr + 4, ptr + 4 + n);
    match ScryptoValue::from_slice(bytes) {
        Ok(v) => Ok(v),
        Err(e) => Err(WasmError::InvalidScryptoValue(e)),
    }
}

} // verus!
