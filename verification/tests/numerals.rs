use intcode::errors::VmError;
use intcode::numerals::{parse_i32, parse_u32, u32_to_string};

#[test]
fn signed_literals_parse_exactly() {
    assert_eq!(Ok(0), parse_i32("0"));
    assert_eq!(Ok(1002), parse_i32("1002"));
    assert_eq!(Ok(-8), parse_i32("-8"));
    assert_eq!(Ok(15), parse_i32("+15"));
    assert_eq!(Ok(2147483647), parse_i32("2147483647"));
    assert_eq!(Ok(-2147483648), parse_i32("-2147483648"));
    assert_eq!(Err(VmError::ParseError), parse_i32("2147483648"));
    assert_eq!(Err(VmError::ParseError), parse_i32("-2147483649"));
    assert_eq!(Err(VmError::ParseError), parse_i32(""));
    assert_eq!(Err(VmError::ParseError), parse_i32("-"));
    assert_eq!(Err(VmError::ParseError), parse_i32(" 5"));
    assert_eq!(Err(VmError::ParseError), parse_i32("5x"));
    assert_eq!(Err(VmError::ParseError), parse_i32("--5"));
}

#[test]
fn unsigned_literals_parse_exactly() {
    assert_eq!(Ok(0), parse_u32("0"));
    assert_eq!(Ok(99), parse_u32("099"));
    assert_eq!(Ok(4294967295), parse_u32("4294967295"));
    assert_eq!(Err(VmError::ParseError), parse_u32("4294967296"));
    assert_eq!(Err(VmError::ParseError), parse_u32("-1"));
    assert_eq!(Err(VmError::ParseError), parse_u32(""));
    assert_eq!(Ok(7), parse_u32("+7"));
}

#[test]
fn numerals_render_and_read_back() {
    assert_eq!("0", u32_to_string(0));
    assert_eq!("12345", u32_to_string(12345));
    assert_eq!("4294967295", u32_to_string(4294967295));
    for n in [0u32, 1, 9, 10, 99, 100, 65536] {
        assert_eq!(Ok(n), parse_u32(&u32_to_string(n)));
    }
}
