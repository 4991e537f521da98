use airl::jit_contract::{take_jit_contract_error, JitContractCell, CONTRACT_FAIL_SENTINEL};

#[test]
fn recorded_failure_is_taken_once() {
    let mut cell = JitContractCell::new();
    assert_eq!(take_jit_contract_error(&mut cell), None);
    assert_eq!(cell.record(1, 7, 2), CONTRACT_FAIL_SENTINEL);
    assert_eq!(take_jit_contract_error(&mut cell), Some((1, 7, 2)));
    assert_eq!(take_jit_contract_error(&mut cell), None);
}

#[test]
fn fields_are_truncated_to_their_width() {
    let mut cell = JitContractCell::new();
    cell.record(0x1_02, 0x1_0003, 0x2_0004);
    assert_eq!(take_jit_contract_error(&mut cell), Some((2, 3, 4)));
}
