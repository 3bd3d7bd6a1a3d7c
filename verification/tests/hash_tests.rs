use fvm_core::hash::{HashAlgorithm, Identity, Sha256, HASHED_KEY_LEN};
use fvm_core::wasm_gas::{InstrCost, WasmCostError, WasmInstr};
use fvm_core::gas::Gas;
use fvm_core::prices::watermelon_prices;

#[test]
fn sha256_hashes_key_bytes() {
    // The sha2-256 digest of the empty string.
    let expected = [
        0xe3u8, 0xb0, 0xc4, 0x42, 0x98, 0xfc, 0x1c, 0x14, 0x9a, 0xfb, 0xf4, 0xc8, 0x99, 0x6f,
        0xb9, 0x24, 0x27, 0xae, 0x41, 0xe4, 0x64, 0x9b, 0x93, 0x4c, 0xa4, 0x95, 0x99, 0x1b, 0x78,
        0x52, 0xb8, 0x55,
    ];
    assert_eq!(Sha256::hash(b""), expected.to_vec());
    let h = Sha256::hash(b"hello");
    assert_eq!(h.len(), HASHED_KEY_LEN);
    assert_ne!(h, Sha256::hash(b"hellp"));
    assert_eq!(h, Sha256::hash(b"hello"));
}

#[test]
fn identity_hash_truncates_and_pads() {
    let h = Identity::hash(b"abc");
    let mut expected = vec![0u8; HASHED_KEY_LEN];
    expected[0] = b'a';
    expected[1] = b'b';
    expected[2] = b'c';
    assert_eq!(h, expected);
    let long: Vec<u8> = (0u8..100).collect();
    let h = Identity::hash(&long);
    assert_eq!(h, (0u8..32).collect::<Vec<u8>>());
}

#[test]
fn instruction_costs_follow_the_schedule() {
    let rules = watermelon_prices().wasm_rules;
    assert_eq!(rules.instruction_cost(WasmInstr::Free).unwrap(), InstrCost::Fixed(0));
    assert_eq!(
        rules.instruction_cost(WasmInstr::Basic).unwrap(),
        InstrCost::Fixed(Gas::new(4).as_milligas())
    );
    assert_eq!(
        rules.instruction_cost(WasmInstr::Math).unwrap(),
        InstrCost::Fixed(Gas::new(4).as_milligas())
    );
    assert_eq!(
        rules.instruction_cost(WasmInstr::BranchIndirect).unwrap(),
        InstrCost::Fixed(4000)
    );
    // A memory copy charges per byte: 400 milligas each.
    assert_eq!(
        rules.instruction_cost(WasmInstr::MemoryCopy).unwrap(),
        InstrCost::Linear(4000, 400)
    );
    // A table copy charges per element of eight bytes.
    assert_eq!(
        rules.instruction_cost(WasmInstr::TableCopy).unwrap(),
        InstrCost::Linear(4000, 3200)
    );
    // Growing memory charges per page.
    assert_eq!(
        rules.instruction_cost(WasmInstr::MemoryGrow).unwrap(),
        InstrCost::Linear(4000, 400 * 65536)
    );
    assert_eq!(
        rules.instruction_cost(WasmInstr::Unsupported).unwrap_err(),
        WasmCostError::UnsupportedOperation
    );
    assert_eq!(rules.gas_charge_cost(), 0);
    assert_eq!(rules.linear_calc_cost(), 0);
}

#[test]
fn memory_init_gas() {
    let rules = watermelon_prices().wasm_rules;
    // 0.4 gas per byte filled, no base fee.
    assert_eq!(rules.init_memory_gas(100), Gas::from_milligas(40_000));
    assert_eq!(rules.grow_memory_gas(10), Gas::from_milligas(4_000));
    assert_eq!(rules.init_table_gas(2), Gas::from_milligas(6_400));
}
