//! The mathematical model of the machine: its state, the effect of one
//! instruction, and bounded runs, together with the laws the model obeys.

use vstd::prelude::*;
use crate::errors::VmError;
use crate::memory::mem_read;
use crate::modes::{
    digit_count, lemma_digits_lsb_index, lemma_digits_lsb_len, mode_at, modes_of, pow10,
    resolve_value,
};

verus! {

/// Everything an executing machine carries: memory, the instruction
/// pointer, the queue of unread inputs, and the output emitted so far.
pub ghost struct VmState {
    pub mem: Seq<i32>,
    pub ip: int,
    pub inputs: Seq<i32>,
    pub output: Seq<i32>,
}

/// The effect of one instruction.
pub ghost enum StepOutcome {
    Next(VmState),
    Halt,
    Fail(VmError),
}

/// The machine after some number of steps.
pub ghost enum RunOutcome {
    Running(VmState),
    Halted(VmState),
    Failed(VmError),
}

/// The operation code of a non-negative opcode word: its last two
/// digits.
pub open spec fn op_of(w: i32) -> int {
    (w as int) % 100
}

/// The mode digit for parameter `k` of opcode word `w`.
pub open spec fn param_mode(w: i32, k: int) -> int {
    mode_at(modes_of(w as int), k) as int
}

/// A word whose operation code selects a defined instruction.
pub open spec fn defined_opcode(w: i32) -> bool {
    w >= 0 && (1 <= op_of(w) <= 8 || op_of(w) == 99)
}

/// The opcode word under the instruction pointer.
pub open spec fn fetched(s: VmState) -> Result<i32, VmError> {
    mem_read(s.mem, s.ip)
}

/// Read parameter `k` of the instruction at the pointer: fetch the word
/// after the opcode and resolve it through its mode.
pub open spec fn read_param(s: VmState, w: i32, k: int) -> Result<i32, VmError> {
    match mem_read(s.mem, s.ip + 1 + k) {
        Ok(raw) => resolve_value(s.mem, raw, param_mode(w, k)),
        Err(e) => Err(e),
    }
}

/// The destination address for a write parameter: always position mode;
/// the immediate mode is invalid for a write target.
pub open spec fn write_target(s: VmState, w: i32, k: int) -> Result<int, VmError> {
    match mem_read(s.mem, s.ip + 1 + k) {
        Ok(raw) => {
            if param_mode(w, k) != 0 {
                Err(VmError::InvalidParameterMode)
            } else if 0 <= raw < s.mem.len() {
                Ok(raw as int)
            } else {
                Err(VmError::UndefinedAddress)
            }
        },
        Err(e) => Err(e),
    }
}

/// What a two-operand instruction stores: the sum or product (failing
/// when it leaves the cell range), or the comparison results.
pub open spec fn binary_result(op: int, a: i32, b: i32) -> Result<i32, VmError> {
    if op == 1 {
        if i32::MIN <= a + b <= i32::MAX {
            Ok((a + b) as i32)
        } else {
            Err(VmError::ArithmeticOverflow)
        }
    } else if op == 2 {
        if i32::MIN <= a * b <= i32::MAX {
            Ok((a * b) as i32)
        } else {
            Err(VmError::ArithmeticOverflow)
        }
    } else if op == 7 {
        Ok(
            if a < b {
                1
            } else {
                0
            },
        )
    } else {
        Ok(
            if a == b {
                1
            } else {
                0
            },
        )
    }
}

/// One add, multiply, less-than or equals instruction: two read
/// parameters, one write target, and an advance of four words.
pub open spec fn step_binary(s: VmState, w: i32, op: int) -> StepOutcome {
    match read_param(s, w, 0) {
        Err(e) => StepOutcome::Fail(e),
        Ok(a) => match read_param(s, w, 1) {
            Err(e) => StepOutcome::Fail(e),
            Ok(b) => match write_target(s, w, 2) {
                Err(e) => StepOutcome::Fail(e),
                Ok(dst) => match binary_result(op, a, b) {
                    Err(e) => StepOutcome::Fail(e),
                    Ok(v) => StepOutcome::Next(
                        VmState {
                            mem: s.mem.update(dst, v),
                            ip: s.ip + 4,
                            inputs: s.inputs,
                            output: s.output,
                        },
                    ),
                },
            },
        },
    }
}

/// One input instruction: store the next unread input value, consuming
/// it; fail when none remains.
pub open spec fn step_input(s: VmState, w: i32) -> StepOutcome {
    match write_target(s, w, 0) {
        Err(e) => StepOutcome::Fail(e),
        Ok(dst) => {
            if s.inputs.len() == 0 {
                StepOutcome::Fail(VmError::InputExhausted)
            } else {
                StepOutcome::Next(
                    VmState {
                        mem: s.mem.update(dst, s.inputs[0]),
                        ip: s.ip + 2,
                        inputs: s.inputs.skip(1),
                        output: s.output,
                    },
                )
            }
        },
    }
}

/// One output instruction: append the resolved operand to the output.
pub open spec fn step_output(s: VmState, w: i32) -> StepOutcome {
    match read_param(s, w, 0) {
        Err(e) => StepOutcome::Fail(e),
        Ok(v) => StepOutcome::Next(
            VmState { mem: s.mem, ip: s.ip + 2, inputs: s.inputs, output: s.output.push(v) },
        ),
    }
}

/// One conditional jump: when the condition matches, the pointer moves to
/// the resolved target; otherwise it advances past the instruction.
pub open spec fn step_jump(s: VmState, w: i32, when_nonzero: bool) -> StepOutcome {
    match read_param(s, w, 0) {
        Err(e) => StepOutcome::Fail(e),
        Ok(cond) => match read_param(s, w, 1) {
            Err(e) => StepOutcome::Fail(e),
            Ok(target) => {
                if (when_nonzero && cond != 0) || (!when_nonzero && cond == 0) {
                    if target < 0 {
                        StepOutcome::Fail(VmError::UndefinedAddress)
                    } else {
                        StepOutcome::Next(
                            VmState {
                                mem: s.mem,
                                ip: target as int,
                                inputs: s.inputs,
                                output: s.output,
                            },
                        )
                    }
                } else {
                    StepOutcome::Next(
                        VmState { mem: s.mem, ip: s.ip + 3, inputs: s.inputs, output: s.output },
                    )
                }
            },
        },
    }
}

/// The effect of the instruction under the pointer: fetch the opcode
/// word, decode its operation, and dispatch.
pub open spec fn step(s: VmState) -> StepOutcome {
    match fetched(s) {
        Err(e) => StepOutcome::Fail(e),
        Ok(w) => {
            if w < 0 {
                StepOutcome::Fail(VmError::UnknownOpcode)
            } else {
                let op = op_of(w);
                if op == 99 {
                    StepOutcome::Halt
                } else if op == 1 || op == 2 || op == 7 || op == 8 {
                    step_binary(s, w, op)
                } else if op == 3 {
                    step_input(s, w)
                } else if op == 4 {
                    step_output(s, w)
                } else if op == 5 {
                    step_jump(s, w, true)
                } else if op == 6 {
                    step_jump(s, w, false)
                } else {
                    StepOutcome::Fail(VmError::UnknownOpcode)
                }
            }
        },
    }
}

/// One transition of a run: a running machine steps, a finished one
/// stays put.
pub open spec fn advance(s: VmState) -> RunOutcome {
    match step(s) {
        StepOutcome::Next(u) => RunOutcome::Running(u),
        StepOutcome::Halt => RunOutcome::Halted(s),
        StepOutcome::Fail(e) => RunOutcome::Failed(e),
    }
}

/// The machine after exactly `n` transitions from `s`; halting and
/// failing are absorbing.
pub open spec fn run_to(s: VmState, n: nat) -> RunOutcome
    decreases n,
{
    if n == 0 {
        RunOutcome::Running(s)
    } else {
        match run_to(s, (n - 1) as nat) {
            RunOutcome::Running(t) => advance(t),
            done => done,
        }
    }
}

/// Once a run has halted or failed, more steps change nothing.
pub proof fn lemma_run_to_stable(s: VmState, n: nat, m: nat)
    requires
        n <= m,
        !(run_to(s, n) is Running),
    ensures
        run_to(s, m) == run_to(s, n),
    decreases m,
{
    if m > n {
        lemma_run_to_stable(s, n, (m - 1) as nat);
    }
}

/// A run reaches at most one final outcome, no matter after how many
/// steps it is observed.
pub proof fn lemma_run_outcome_unique(s: VmState, n1: nat, n2: nat)
    requires
        !(run_to(s, n1) is Running),
        !(run_to(s, n2) is Running),
    ensures
        run_to(s, n1) == run_to(s, n2),
{
    if n1 <= n2 {
        lemma_run_to_stable(s, n1, n2);
    } else {
        lemma_run_to_stable(s, n2, n1);
    }
}

/// Decode law: for any non-negative opcode word, the operation is the
/// word modulo one hundred; the stored mode digits are exactly the
/// decimal digits of the word divided by one hundred, one per digit, and
/// the mode consulted for parameter `k` is digit `k` of that quotient,
/// zero past its length.
pub proof fn lemma_decode(w: i32, k: nat)
    requires
        w >= 0,
    ensures
        op_of(w) == (w as int) % 100,
        modes_of(w as int).len() == digit_count(((w as int) / 100) as nat),
        param_mode(w, k as int) == (((w as int) / 100) as nat / pow10(k)) % 10,
{
    lemma_digits_lsb_len(((w as int) / 100) as nat);
    lemma_digits_lsb_index(((w as int) / 100) as nat, k);
}

/// A fetched opcode word outside the defined table makes the machine
/// fail with `UnknownOpcode`: it never halts silently and never no-ops.
pub proof fn lemma_unknown_opcode_fails(s: VmState)
    requires
        fetched(s) matches Ok(w) && !defined_opcode(w),
    ensures
        step(s) == StepOutcome::Fail(VmError::UnknownOpcode),
{
}

/// One step only ever appends to the output, and touches nothing already
/// emitted.
pub proof fn lemma_step_output_grows(s: VmState)
    ensures
        step(s) matches StepOutcome::Next(u) ==> s.output.is_prefix_of(u.output),
{
    match step(s) {
        StepOutcome::Next(u) => {
            if u.output =~= s.output {
                assert(s.output.is_prefix_of(u.output));
            } else {
                assert(u.output =~= s.output.push(u.output.last()));
                assert(s.output =~= u.output.subrange(0, s.output.len() as int));
            }
        },
        _ => {},
    }
}

/// Output accumulation is append-only: whatever a machine has emitted
/// stays, in order, however far the run goes on.
pub proof fn lemma_output_append_only(init: VmState, n: nat)
    ensures
        run_to(init, n) matches RunOutcome::Running(t) ==> init.output.is_prefix_of(t.output),
        run_to(init, n) matches RunOutcome::Halted(t) ==> init.output.is_prefix_of(t.output),
    decreases n,
{
    assert(init.output =~= init.output.subrange(0, init.output.len() as int));
    if n > 0 {
        lemma_output_append_only(init, (n - 1) as nat);
        match run_to(init, (n - 1) as nat) {
            RunOutcome::Running(t) => {
                lemma_step_output_grows(t);
                match step(t) {
                    StepOutcome::Next(u) => {
                        assert(init.output =~= u.output.subrange(0, init.output.len() as int));
                    },
                    _ => {},
                }
            },
            _ => {},
        }
    }
}

/// The plain four-word calculator semantics: each instruction is an
/// opcode followed by two source addresses and a destination address,
/// every parameter in position mode.
pub open spec fn plain_calc_step(s: VmState) -> StepOutcome {
    match fetched(s) {
        Err(e) => StepOutcome::Fail(e),
        Ok(w) => {
            if w == 99 {
                StepOutcome::Halt
            } else if w == 1 || w == 2 {
                match mem_read(s.mem, s.ip + 1) {
                    Err(e) => StepOutcome::Fail(e),
                    Ok(ra) => match mem_read(s.mem, ra as int) {
                        Err(e) => StepOutcome::Fail(e),
                        Ok(a) => match mem_read(s.mem, s.ip + 2) {
                            Err(e) => StepOutcome::Fail(e),
                            Ok(rb) => match mem_read(s.mem, rb as int) {
                                Err(e) => StepOutcome::Fail(e),
                                Ok(b) => match mem_read(s.mem, s.ip + 3) {
                                    Err(e) => StepOutcome::Fail(e),
                                    Ok(rd) => {
                                        if !(0 <= rd < s.mem.len()) {
                                            StepOutcome::Fail(VmError::UndefinedAddress)
                                        } else {
                                            match binary_result(w as int, a, b) {
                                                Err(e) => StepOutcome::Fail(e),
                                                Ok(v) => StepOutcome::Next(
                                                    VmState {
                                                        mem: s.mem.update(rd as int, v),
                                                        ip: s.ip + 4,
                                                        inputs: s.inputs,
                                                        output: s.output,
                                                    },
                                                ),
                                            }
                                        }
                                    },
                                },
                            },
                        },
                    },
                }
            } else {
                StepOutcome::Fail(VmError::UnknownOpcode)
            }
        },
    }
}

/// The plain calculator run, with the same absorbing final outcomes.
pub open spec fn plain_calc_run_to(s: VmState, n: nat) -> RunOutcome
    decreases n,
{
    if n == 0 {
        RunOutcome::Running(s)
    } else {
        match plain_calc_run_to(s, (n - 1) as nat) {
            RunOutcome::Running(t) => match plain_calc_step(t) {
                StepOutcome::Next(u) => RunOutcome::Running(u),
                StepOutcome::Halt => RunOutcome::Halted(t),
                StepOutcome::Fail(e) => RunOutcome::Failed(e),
            },
            done => done,
        }
    }
}

/// On a state whose fetched word is exactly an add, a multiply or a halt
/// -- so with no parameter-mode digits -- the machine's step is the plain
/// four-word calculator's step.
pub proof fn lemma_plain_calculator_step(s: VmState)
    requires
        fetched(s) matches Ok(w) && (w == 1 || w == 2 || w == 99),
    ensures
        step(s) == plain_calc_step(s),
{
    let w = fetched(s)->Ok_0;
    assert(modes_of(w as int) =~= Seq::<u32>::empty());
    assert(param_mode(w, 0) == 0);
    assert(param_mode(w, 1) == 0);
    assert(param_mode(w, 2) == 0);
}

/// Programs made solely of add, multiply and halt words reproduce the
/// plain four-word calculator semantics for as long as they run.
pub proof fn lemma_plain_calculator_run(s: VmState, n: nat)
    requires
        forall|k: nat|
            k < n ==> (#[trigger] plain_calc_run_to(s, k) matches RunOutcome::Running(t) ==> (
            fetched(t) matches Ok(w) && (w == 1 || w == 2 || w == 99))),
    ensures
        run_to(s, n) == plain_calc_run_to(s, n),
    decreases n,
{
    if n > 0 {
        lemma_plain_calculator_run(s, (n - 1) as nat);
        match plain_calc_run_to(s, (n - 1) as nat) {
            RunOutcome::Running(t) => {
                assert(plain_calc_run_to(s, (n - 1) as nat) matches RunOutcome::Running(u) ==> (
                fetched(u) matches Ok(w) && (w == 1 || w == 2 || w == 99)));
                lemma_plain_calculator_step(t);
            },
            _ => {},
        }
    }
}

} // verus!
