use vstd::prelude::*;

verus! {

/// Every way a virtual-machine run (or the construction of a machine from
/// program text) can fail. All failures are surfaced as values; nothing in
/// the library panics.
#[derive(Clone, Copy, Debug, PartialEq, Eq, Structural)]
pub enum VmError {
    /// A token of the program text is not a valid integer.
    ParseError,
    /// The decoded operation code matches no defined instruction.
    UnknownOpcode,
    /// A parameter mode digit is neither position nor immediate, or the
    /// immediate mode was used for a write target.
    InvalidParameterMode,
    /// A read or write addressed a memory cell that was never populated.
    UndefinedAddress,
    /// An input instruction executed with no remaining supplied value.
    InputExhausted,
    /// The configured step ceiling was reached before the program halted.
    StepLimitExceeded,
    /// An add or multiply produced a value outside the cell range.
    ArithmeticOverflow,
}

} // verus!
