use intcode::errors::VmError;
use intcode::machine::Program;
use intcode::modes::ArgumentModes;

#[test]
fn day5_test() {
    let mut prog = Program::new("1002,4,3,4,33").unwrap();
    prog.execute("").unwrap();
    assert_eq!(99, prog.peek(4).unwrap());

    let mut prog = Program::new("2,4,2,0,4,0,99").unwrap();
    assert_eq!("8\n", prog.execute("").unwrap());
}

#[test]
fn test_input() {
    let mut prog = Program::new("3,0,4,0,99").unwrap();
    assert_eq!(String::from("15\n"), prog.execute("15").unwrap());
}

#[test]
fn test_program_day2() {
    let mut prog = Program::new("1,0,0,0,99").unwrap();
    prog.execute("").unwrap();
    assert_eq!(2, prog.peek(0).unwrap());

    let mut prog = Program::new("2,3,0,3,99").unwrap();
    prog.execute("").unwrap();
    assert_eq!(6, prog.peek(3).unwrap());

    let mut prog = Program::new("2,4,4,5,99,0").unwrap();
    prog.execute("").unwrap();
    assert_eq!(9801, prog.peek(5).unwrap());

    let mut prog = Program::new("1,1,1,4,99,5,6,0,99").unwrap();
    prog.execute("").unwrap();
    assert_eq!(30, prog.peek(0).unwrap());
}

#[test]
fn test_arguments() {
    assert_eq!(&vec![0, 1], ArgumentModes::new(1002).modes());
    assert_eq!(&vec![1, 1], ArgumentModes::new(01102).modes());

    let arg_modes = ArgumentModes::new(01102);
    assert_eq!(1, arg_modes.get_mode(0));
    assert_eq!(1, arg_modes.get_mode(1));
    assert_eq!(0, arg_modes.get_mode(2));

    let arg_modes = ArgumentModes::new(10102);
    assert_eq!(1, arg_modes.get_mode(0));
    assert_eq!(0, arg_modes.get_mode(1));
    assert_eq!(1, arg_modes.get_mode(2));
}

#[test]
fn test_day5_b_compare() {
    // positional mode, equals
    let mut prog = Program::new("3,9,8,9,10,9,4,9,99,-1,8").unwrap();
    assert_eq!("1\n", prog.execute("8").unwrap());

    let mut prog = Program::new("3,9,8,9,10,9,4,9,99,-1,8").unwrap();
    assert_eq!("0\n", prog.execute("1").unwrap());

    // immediate mode, equals
    let mut prog = Program::new("3,3,1108,-1,8,3,4,3,99").unwrap();
    assert_eq!("1\n", prog.execute("8").unwrap());

    let mut prog = Program::new("3,3,1108,-1,8,3,4,3,99").unwrap();
    assert_eq!("0\n", prog.execute("1").unwrap());

    // positional mode, less than
    let mut prog = Program::new("3,9,7,9,10,9,4,9,99,-1,8").unwrap();
    assert_eq!("1\n", prog.execute("7").unwrap());

    let mut prog = Program::new("3,9,7,9,10,9,4,9,99,-1,8").unwrap();
    assert_eq!("0\n", prog.execute("9").unwrap());

    // immediate mode, less than
    let mut prog = Program::new("3,3,1107,-1,8,3,4,3,99").unwrap();
    assert_eq!("1\n", prog.execute("7").unwrap());

    let mut prog = Program::new("3,3,1107,-1,8,3,4,3,99").unwrap();
    assert_eq!("0\n", prog.execute("9").unwrap());
}

#[test]
fn test_day5_b_jump() {
    let mut prog = Program::new("3,12,6,12,15,1,13,14,13,4,13,99,-1,0,1,9").unwrap();
    assert_eq!("0\n", prog.execute("0").unwrap());
    let mut prog = Program::new("3,12,6,12,15,1,13,14,13,4,13,99,-1,0,1,9").unwrap();
    assert_eq!("1\n", prog.execute("5").unwrap());
}

#[test]
fn test_day5_b() {
    let text = "3,21,1008,21,8,20,1005,20,22,107,8,21,20,1006,20,31,1106,0,36,98,0,0,1002,21,125,20,4,20,1105,1,46,104,999,1105,1,46,1101,1000,1,20,4,20,1105,1,46,98,99";
    let mut prog = Program::new(text).unwrap();
    assert_eq!("999\n", prog.execute("7").unwrap());

    let mut prog = Program::new(text).unwrap();
    assert_eq!("1000\n", prog.execute("8").unwrap());

    let mut prog = Program::new(text).unwrap();
    assert_eq!("1001\n", prog.execute("9").unwrap());
}

#[test]
fn construction_rejects_bad_tokens() {
    assert_eq!(Some(VmError::ParseError), Program::new("1,x,2").err());
    assert!(Program::new("").is_err());
    assert!(Program::new("1,,2").is_err());
    assert!(Program::new("1, 2").is_err());
    assert!(Program::new("99").is_ok());
    assert!(Program::new("-5").is_ok());
    assert!(Program::new("2147483647,-2147483648").is_ok());
    assert!(Program::new("2147483648").is_err());
}

#[test]
fn unknown_opcode_fails_and_never_halts_silently() {
    let mut prog = Program::new("98,0,0,0,99").unwrap();
    assert_eq!(Err(VmError::UnknownOpcode), prog.execute(""));

    let mut prog = Program::new("-1,99").unwrap();
    assert_eq!(Err(VmError::UnknownOpcode), prog.execute(""));

    let mut prog = Program::new("0,99").unwrap();
    assert_eq!(Err(VmError::UnknownOpcode), prog.execute(""));
}

#[test]
fn invalid_parameter_modes_fail() {
    // Mode digit two on a read parameter.
    let mut prog = Program::new("202,0,0,0,99").unwrap();
    assert_eq!(Err(VmError::InvalidParameterMode), prog.execute(""));

    // Immediate mode on a write target.
    let mut prog = Program::new("11101,1,1,0,99").unwrap();
    assert_eq!(Err(VmError::InvalidParameterMode), prog.execute(""));

    // Immediate mode on an input destination.
    let mut prog = Program::new("103,0,99").unwrap();
    assert_eq!(Err(VmError::InvalidParameterMode), prog.execute("4"));
}

#[test]
fn undefined_addresses_fail() {
    // A positional read outside the loaded range.
    let mut prog = Program::new("1,50,0,0,99").unwrap();
    assert_eq!(Err(VmError::UndefinedAddress), prog.execute(""));

    // A write outside the loaded range.
    let mut prog = Program::new("1101,1,1,50,99").unwrap();
    assert_eq!(Err(VmError::UndefinedAddress), prog.execute(""));

    // Running off the end of memory.
    let mut prog = Program::new("1101,1,1,0").unwrap();
    assert_eq!(Err(VmError::UndefinedAddress), prog.execute(""));

    // A jump to a negative target.
    let mut prog = Program::new("1105,1,-1").unwrap();
    assert_eq!(Err(VmError::UndefinedAddress), prog.execute(""));
}

#[test]
fn input_exhaustion_fails() {
    let mut prog = Program::new("3,0,4,0,99").unwrap();
    assert_eq!(Err(VmError::InputExhausted), prog.execute(""));
}

#[test]
fn arithmetic_overflow_fails() {
    let mut prog = Program::new("1102,2000000000,2,0,99").unwrap();
    assert_eq!(Err(VmError::ArithmeticOverflow), prog.execute(""));

    let mut prog = Program::new("1101,2000000000,2000000000,0,99").unwrap();
    assert_eq!(Err(VmError::ArithmeticOverflow), prog.execute(""));
}

#[test]
fn step_limit_reports_runaway_programs() {
    // An unconditional jump back to itself never halts.
    let mut prog = Program::new("1105,1,0").unwrap().with_step_limit(1000);
    assert_eq!(Err(VmError::StepLimitExceeded), prog.execute(""));

    // A halting program is untouched by a generous ceiling.
    let mut prog = Program::new("1101,2,3,0,99").unwrap().with_step_limit(1000);
    assert_eq!("", prog.execute("").unwrap());
    assert_eq!(5, prog.peek(0).unwrap());

    // The ceiling counts executed instructions exactly: this program
    // takes two steps (one add, one halt).
    let mut prog = Program::new("1101,2,3,0,99").unwrap().with_step_limit(2);
    assert!(prog.execute("").is_ok());
    let mut prog = Program::new("1101,2,3,0,99").unwrap().with_step_limit(1);
    assert_eq!(Err(VmError::StepLimitExceeded), prog.execute(""));
}

#[test]
fn run_returns_output_values() {
    let mut prog = Program::new("104,-7,4,0,99").unwrap();
    assert_eq!(vec![-7, 104], prog.run(Vec::new()).unwrap());
    assert_eq!(104, prog.peek(0).unwrap());
}

#[test]
fn run_consumes_inputs_in_order() {
    let mut prog = Program::new("3,0,3,1,4,0,4,1,99").unwrap();
    assert_eq!(vec![20, 30], prog.run(vec![20, 30]).unwrap());

    let mut prog = Program::new("3,0,3,1,4,0,4,1,99").unwrap();
    assert_eq!(Err(VmError::InputExhausted), prog.run(vec![20]));
}

#[test]
fn negative_outputs_render_with_sign() {
    let mut prog = Program::new("104,-42,99").unwrap();
    assert_eq!("-42\n", prog.execute("").unwrap());
}

#[test]
fn next_advances_and_fetches() {
    let mut prog = Program::new("5,6,7").unwrap();
    assert_eq!(Ok(6), prog.next());
    assert_eq!(Ok(7), prog.next());
    assert_eq!(Err(VmError::UndefinedAddress), prog.next());
}
