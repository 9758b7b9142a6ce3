//! Parameter-mode decoding: an opcode word's last two digits select the
//! operation, and the digits above them give each parameter's addressing
//! mode, least significant digit first, defaulting to zero.

use vstd::prelude::*;
use crate::errors::VmError;
use crate::memory::{mem_read, Memory};

verus! {

pub open spec fn pow10(k: nat) -> nat
    decreases k,
{
    if k == 0 {
        1
    } else {
        10 * pow10((k - 1) as nat)
    }
}

/// The decimal digits of a number, least significant first; empty for
/// zero.
pub open spec fn digits_lsb(n: nat) -> Seq<u32>
    decreases n,
{
    if n == 0 {
        Seq::empty()
    } else {
        seq![(n % 10) as u32] + digits_lsb(n / 10)
    }
}

/// How many decimal digits a number has; zero for zero.
pub open spec fn digit_count(n: nat) -> nat
    decreases n,
{
    if n == 0 {
        0
    } else {
        1 + digit_count(n / 10)
    }
}

/// The mode digit for parameter `k`, defaulting to zero past the stored
/// digits.
pub open spec fn mode_at(modes: Seq<u32>, k: int) -> u32 {
    if 0 <= k < modes.len() {
        modes[k]
    } else {
        0
    }
}

/// The mode sequence of an opcode word: the digits of the word divided by
/// one hundred.
pub open spec fn modes_of(w: int) -> Seq<u32> {
    digits_lsb((w / 100) as nat)
}

/// A stored digit sequence has exactly one entry per decimal digit.
pub proof fn lemma_digits_lsb_len(n: nat)
    ensures
        digits_lsb(n).len() == digit_count(n),
    decreases n,
{
    if n > 0 {
        lemma_digits_lsb_len(n / 10);
    }
}

/// Digit `k` of a number, read through its digit sequence, is the number
/// divided by the k-th power of ten, modulo ten.
pub proof fn lemma_digits_lsb_index(n: nat, k: nat)
    ensures
        mode_at(digits_lsb(n), k as int) == (n / pow10(k)) % 10,
    decreases n,
{
    lemma_pow10_positive(k);
    if n == 0 {
        assert(0nat / pow10(k) == 0);
    } else {
        if k == 0 {
            assert(pow10(0) == 1);
        } else {
            lemma_digits_lsb_index(n / 10, (k - 1) as nat);
            assert(n / 10 / pow10((k - 1) as nat) == n / pow10(k)) by {
                lemma_pow10_positive((k - 1) as nat);
                vstd::arithmetic::div_mod::lemma_div_denominator(
                    n as int,
                    10,
                    pow10((k - 1) as nat) as int,
                );
            }
        }
    }
}

pub proof fn lemma_pow10_positive(k: nat)
    ensures
        pow10(k) >= 1,
    decreases k,
{
    if k > 0 {
        lemma_pow10_positive((k - 1) as nat);
    }
}

/// The addressing modes decoded from one opcode word.
#[derive(Debug)]
pub struct ArgumentModes {
    modes: Vec<u32>,
}

impl View for ArgumentModes {
    type V = Seq<u32>;

    closed spec fn view(&self) -> Seq<u32> {
        self.modes@
    }
}

impl ArgumentModes {
    /// Decode the mode digits of a non-negative opcode word.
    pub fn new(opcode: i32) -> (am: ArgumentModes)
        requires
            opcode >= 0,
        ensures
            am@ == modes_of(opcode as int),
    {
        let mut modes: Vec<u32> = Vec::new();
        let mut rest: i32 = opcode / 100;
        proof {
            assert(modes@ + digits_lsb(rest as nat) =~= digits_lsb(rest as nat));
        }
        while rest > 0
            invariant
                rest >= 0,
                modes@ + digits_lsb(rest as nat) == modes_of(opcode as int),
            decreases rest,
        {
            let ghost pre = modes@;
            let d = (rest % 10) as u32;
            modes.push(d);
            proof {
                assert(digits_lsb(rest as nat) == seq![((rest as nat) % 10) as u32] + digits_lsb(
                    (rest as nat) / 10,
                ));
                assert(modes@ + digits_lsb(((rest as nat) / 10)) =~= pre + digits_lsb(
                    rest as nat,
                ));
            }
            rest = rest / 10;
        }
        assert(modes@ + digits_lsb(0) =~= modes@);
        ArgumentModes { modes }
    }

    /// The stored mode digits, least significant first.
    pub fn modes(&self) -> (r: &Vec<u32>)
        ensures
            r@ == self@,
    {
        &self.modes
    }

    /// The mode for the parameter at `idx`, defaulting to position mode
    /// past the stored digits.
    pub fn get_mode(&self, idx: usize) -> (m: u32)
        ensures
            m == mode_at(self@, idx as int),
    {
        if idx < self.modes.len() {
            self.modes[idx]
        } else {
            0
        }
    }

    /// Resolve the parameter stored at address `idx` through the mode for
    /// parameter `arg`: position mode dereferences the stored value as an
    /// address, immediate mode takes it as the operand.
    pub fn get_value(&self, arg: usize, idx: usize, memory: &Memory) -> (r: Result<i32, VmError>)
        requires
            idx < memory@.len(),
        ensures
            r == resolve_value(memory@, memory@[idx as int], mode_at(self@, arg as int) as int),
    {
        let raw = match memory.read(idx) {
            Ok(v) => v,
            Err(e) => {
                return Err(e);
            },
        };
        match self.get_mode(arg) {
            0 => {
                if raw < 0 {
                    Err(VmError::UndefinedAddress)
                } else {
                    memory.read(raw as usize)
                }
            },
            1 => Ok(raw),
            _ => Err(VmError::InvalidParameterMode),
        }
    }
}

/// Resolving a read parameter: immediate mode yields the raw word,
/// position mode dereferences it, any other mode digit is invalid.
pub open spec fn resolve_value(mem: Seq<i32>, raw: i32, mode: int) -> Result<i32, VmError> {
    if mode == 0 {
        mem_read(mem, raw as int)
    } else if mode == 1 {
        Ok(raw)
    } else {
        Err(VmError::InvalidParameterMode)
    }
}

} // verus!
