use intcode::calculator::{calculate_operations, oracle};
use intcode::errors::VmError;

#[test]
fn day2_test1() {
    assert_eq!(2, calculate_operations(vec![1, 0, 0, 0, 99]).unwrap()[0]);
}

#[test]
fn day2_test2() {
    assert_eq!(6, calculate_operations(vec![2, 3, 0, 3, 99]).unwrap()[3]);
}

#[test]
fn day2_test3() {
    assert_eq!(9801, calculate_operations(vec![2, 4, 4, 5, 99, 0]).unwrap()[5]);
}

#[test]
fn day2_test4() {
    assert_eq!(
        30,
        calculate_operations(vec![1, 1, 1, 4, 99, 5, 6, 0, 99]).unwrap()[0]
    );
}

#[test]
fn day2_test5() {
    assert_eq!(506, oracle(35, vec![1, 0, 0, 0, 99, 15, 20, 0, 99]));
}

#[test]
fn calculator_rejects_unknown_opcode() {
    assert_eq!(
        Err(VmError::UnknownOpcode),
        calculate_operations(vec![5, 0, 0, 0, 99])
    );
    assert_eq!(
        Err(VmError::UnknownOpcode),
        calculate_operations(vec![7, 0, 0, 0, 99])
    );
}

#[test]
fn calculator_rejects_bad_addresses_and_overflow() {
    assert_eq!(
        Err(VmError::UndefinedAddress),
        calculate_operations(vec![1, 0, 0])
    );
    assert_eq!(
        Err(VmError::UndefinedAddress),
        calculate_operations(vec![1, 50, 0, 0, 99])
    );
    assert_eq!(
        Err(VmError::ArithmeticOverflow),
        calculate_operations(vec![2, 4, 5, 0, 99, 3000000000])
    );
}

#[test]
fn calculator_halts_off_the_end() {
    assert_eq!(
        vec![2, 0, 0, 0],
        calculate_operations(vec![1, 0, 0, 0]).unwrap()
    );
}
