//! The execution engine: a loaded program, the fetch-decode-execute
//! loop, and one apply function per instruction, each proved to realise
//! the model's `step`.

use vstd::prelude::*;
use vstd::string::StrSliceExecFns;
use vstd::string::StringExecFns;
use crate::errors::VmError;
use crate::loader::{parse_program, parse_program_text};
use crate::memory::{mem_read, Memory};
use crate::modes::ArgumentModes;
use crate::numerals::{dec_int, int_literal_val, is_i32_literal, parse_i32, push_i32};
use crate::semantics::{
    fetched, lemma_run_to_stable, op_of, run_to, step, RunOutcome, StepOutcome, VmState,
};

verus! {

/// A loaded machine: memory, instruction pointer, the input queue, the
/// output gathered so far, and a ceiling on executed steps. The ceiling
/// makes a runaway program a reported condition instead of a hang; by
/// default it is `u64::MAX`, which no terminating caller ever reaches.
pub struct Program {
    memory: Memory,
    index: usize,
    inputs: Vec<i32>,
    output: Vec<i32>,
    step_limit: u64,
}

impl View for Program {
    type V = VmState;

    closed spec fn view(&self) -> VmState {
        VmState {
            mem: self.memory@,
            ip: self.index as int,
            inputs: self.inputs@,
            output: self.output@,
        }
    }
}

/// What one instruction's execution must amount to: on success the
/// machine moves to the model's next state; on failure it reports the
/// model's error and is left unchanged.
pub open spec fn apply_result(pre: VmState, post: VmState, r: Result<(), VmError>) -> bool {
    match step(pre) {
        StepOutcome::Next(u) => r is Ok && post == u,
        StepOutcome::Fail(e) => r == Err::<(), VmError>(e) && post == pre,
        StepOutcome::Halt => false,
    }
}

impl Program {
    /// The configured step ceiling.
    pub closed spec fn limit(&self) -> u64 {
        self.step_limit
    }

    /// Parse a comma-separated program text and load it into memory; no
    /// instruction is executed.
    pub fn new(text: &str) -> (r: Result<Program, VmError>)
        ensures
            parse_program(text@) matches Some(words) ==> (r matches Ok(p) && p@ == (VmState {
                mem: words,
                ip: 0,
                inputs: Seq::empty(),
                output: Seq::empty(),
            }) && p.limit() == u64::MAX),
            parse_program(text@) is None ==> (r matches Err(e) && e == VmError::ParseError),
    {
        let words = match parse_program_text(text) {
            Err(e) => {
                return Err(e);
            },
            Ok(w) => w,
        };
        let memory = Memory::load(words);
        Ok(
            Program {
                memory,
                index: 0,
                inputs: Vec::new(),
                output: Vec::new(),
                step_limit: u64::MAX,
            },
        )
    }

    /// Configure a ceiling on the number of executed instructions, so
    /// that a runaway program becomes a reported condition instead of a
    /// hang.
    pub fn with_step_limit(self, limit: u64) -> (p: Program)
        ensures
            p@ == self@,
            p.limit() == limit,
    {
        Program { step_limit: limit, ..self }
    }

    /// Look at one memory cell from outside the machine.
    pub fn peek(&self, addr: usize) -> (r: Result<i32, VmError>)
        ensures
            r == mem_read(self@.mem, addr as int),
    {
        self.memory.read(addr)
    }

    /// Advance the instruction pointer by one word and fetch the cell it
    /// then rests on.
    pub fn next(&mut self) -> (r: Result<i32, VmError>)
        requires
            old(self)@.ip + 1 <= usize::MAX,
        ensures
            final(self)@ == (VmState { ip: old(self)@.ip + 1, ..old(self)@ }),
            final(self).limit() == old(self).limit(),
            r == mem_read(old(self)@.mem, old(self)@.ip + 1),
    {
        self.index = self.index + 1;
        self.memory.read(self.index)
    }
}

/// The add instruction.
pub struct Addition {}

/// The multiply instruction.
pub struct Multiplication {}

/// The read-input instruction.
pub struct Input {}

/// The write-output instruction.
pub struct Output {}

/// The two conditional-jump instructions.
pub struct Jump {}

/// The less-than and equals instructions.
pub struct Compare {}

/// Execute one add, multiply, less-than or equals instruction at the
/// instruction pointer.
fn apply_binary(program: &mut Program) -> (r: Result<(), VmError>)
    requires
        fetched(old(program)@) matches Ok(w) && w >= 0 && (op_of(w) == 1 || op_of(w) == 2 || op_of(
            w,
        ) == 7 || op_of(w) == 8),
    ensures
        apply_result(old(program)@, final(program)@, r),
        final(program).limit() == old(program).limit(),
{
    proof {
        program.memory.lemma_len_fits();
    }
    let w = match program.memory.read(program.index) {
        Ok(w) => w,
        Err(_) => {
            return Err(VmError::UndefinedAddress);
        },
    };
    let am = ArgumentModes::new(w);
    let idx1 = program.index + 1;
    if let Err(e) = program.memory.read(idx1) {
        return Err(e);
    }
    let a = match am.get_value(0, idx1, &program.memory) {
        Err(e) => {
            return Err(e);
        },
        Ok(v) => v,
    };
    let idx2 = program.index + 2;
    if let Err(e) = program.memory.read(idx2) {
        return Err(e);
    }
    let b = match am.get_value(1, idx2, &program.memory) {
        Err(e) => {
            return Err(e);
        },
        Ok(v) => v,
    };
    let idx3 = program.index + 3;
    let rd = match program.memory.read(idx3) {
        Err(e) => {
            return Err(e);
        },
        Ok(v) => v,
    };
    if am.get_mode(2) != 0 {
        return Err(VmError::InvalidParameterMode);
    }
    if rd < 0 {
        return Err(VmError::UndefinedAddress);
    }
    let dst = rd as usize;
    if dst >= program.memory.len() {
        return Err(VmError::UndefinedAddress);
    }
    let op = w % 100;
    let value: i32 = if op == 1 {
        let sum = a as i64 + b as i64;
        if sum < i32::MIN as i64 || sum > i32::MAX as i64 {
            return Err(VmError::ArithmeticOverflow);
        }
        sum as i32
    } else if op == 2 {
        proof {
            assert(i64::MIN <= (a as int) * (b as int) <= i64::MAX) by (nonlinear_arith)
                requires
                    i32::MIN <= a <= i32::MAX,
                    i32::MIN <= b <= i32::MAX,
            ;
        }
        let product = a as i64 * b as i64;
        if product < i32::MIN as i64 || product > i32::MAX as i64 {
            return Err(VmError::ArithmeticOverflow);
        }
        product as i32
    } else if op == 7 {
        if a < b {
            1
        } else {
            0
        }
    } else {
        if a == b {
            1
        } else {
            0
        }
    };
    match program.memory.write(dst, value) {
        Ok(()) => {},
        Err(e) => {
            return Err(e);
        },
    }
    program.index = idx3 + 1;
    Ok(())
}

impl Addition {
    /// Execute an add instruction: store the sum of the two resolved
    /// operands at the destination and advance four words.
    pub fn apply(program: &mut Program) -> (r: Result<(), VmError>)
        requires
            fetched(old(program)@) matches Ok(w) && w >= 0 && op_of(w) == 1,
        ensures
            apply_result(old(program)@, final(program)@, r),
            final(program).limit() == old(program).limit(),
    {
        apply_binary(program)
    }
}

impl Multiplication {
    /// Execute a multiply instruction: store the product of the two
    /// resolved operands at the destination and advance four words.
    pub fn apply(program: &mut Program) -> (r: Result<(), VmError>)
        requires
            fetched(old(program)@) matches Ok(w) && w >= 0 && op_of(w) == 2,
        ensures
            apply_result(old(program)@, final(program)@, r),
            final(program).limit() == old(program).limit(),
    {
        apply_binary(program)
    }
}

impl Compare {
    /// Execute a less-than (`'<'`) or equals (`'='`) instruction: store
    /// one when the comparison holds, zero otherwise.
    pub fn apply(program: &mut Program, operator: char) -> (r: Result<(), VmError>)
        requires
            fetched(old(program)@) matches Ok(w) && w >= 0 && ((op_of(w) == 7 && operator == '<')
                || (op_of(w) == 8 && operator == '=')),
        ensures
            apply_result(old(program)@, final(program)@, r),
            final(program).limit() == old(program).limit(),
    {
        apply_binary(program)
    }
}

impl Input {
    /// Execute a read-input instruction: store the next unread input
    /// value at the destination; fail when none remains.
    pub fn apply(program: &mut Program) -> (r: Result<(), VmError>)
        requires
            fetched(old(program)@) matches Ok(w) && w >= 0 && op_of(w) == 3,
        ensures
            apply_result(old(program)@, final(program)@, r),
            final(program).limit() == old(program).limit(),
    {
        proof {
            program.memory.lemma_len_fits();
        }
        let w = match program.memory.read(program.index) {
            Ok(w) => w,
            Err(_) => {
                return Err(VmError::UndefinedAddress);
            },
        };
        let am = ArgumentModes::new(w);
        let idx1 = program.index + 1;
        let rd = match program.memory.read(idx1) {
            Err(e) => {
                return Err(e);
            },
            Ok(v) => v,
        };
        if am.get_mode(0) != 0 {
            return Err(VmError::InvalidParameterMode);
        }
        if rd < 0 {
            return Err(VmError::UndefinedAddress);
        }
        let dst = rd as usize;
        if dst >= program.memory.len() {
            return Err(VmError::UndefinedAddress);
        }
        if program.inputs.len() == 0 {
            return Err(VmError::InputExhausted);
        }
        let v = program.inputs.remove(0);
        match program.memory.write(dst, v) {
            Ok(()) => {},
            Err(e) => {
                return Err(e);
            },
        }
        program.index = idx1 + 1;
        proof {
            assert(old(program)@.inputs.remove(0) =~= old(program)@.inputs.skip(1));
        }
        Ok(())
    }
}

impl Output {
    /// Execute a write-output instruction: append the resolved operand to
    /// the output sequence and advance two words.
    pub fn apply(program: &mut Program) -> (r: Result<(), VmError>)
        requires
            fetched(old(program)@) matches Ok(w) && w >= 0 && op_of(w) == 4,
        ensures
            apply_result(old(program)@, final(program)@, r),
            final(program).limit() == old(program).limit(),
    {
        proof {
            program.memory.lemma_len_fits();
        }
        let w = match program.memory.read(program.index) {
            Ok(w) => w,
            Err(_) => {
                return Err(VmError::UndefinedAddress);
            },
        };
        let am = ArgumentModes::new(w);
        let idx1 = program.index + 1;
        if let Err(e) = program.memory.read(idx1) {
            return Err(e);
        }
        let v = match am.get_value(0, idx1, &program.memory) {
            Err(e) => {
                return Err(e);
            },
            Ok(v) => v,
        };
        program.output.push(v);
        program.index = idx1 + 1;
        Ok(())
    }
}

impl Jump {
    /// Execute a jump-if-true (`is_not_zero`) or jump-if-false
    /// instruction: when the condition matches, move the pointer to the
    /// resolved target, otherwise advance three words.
    pub fn apply(program: &mut Program, is_not_zero: bool) -> (r: Result<(), VmError>)
        requires
            fetched(old(program)@) matches Ok(w) && w >= 0 && op_of(w) == (if is_not_zero {
                5int
            } else {
                6int
            }),
        ensures
            apply_result(old(program)@, final(program)@, r),
            final(program).limit() == old(program).limit(),
    {
        proof {
            program.memory.lemma_len_fits();
        }
        let w = match program.memory.read(program.index) {
            Ok(w) => w,
            Err(_) => {
                return Err(VmError::UndefinedAddress);
            },
        };
        let am = ArgumentModes::new(w);
        let idx1 = program.index + 1;
        if let Err(e) = program.memory.read(idx1) {
            return Err(e);
        }
        let cond = match am.get_value(0, idx1, &program.memory) {
            Err(e) => {
                return Err(e);
            },
            Ok(v) => v,
        };
        let idx2 = program.index + 2;
        if let Err(e) = program.memory.read(idx2) {
            return Err(e);
        }
        let target = match am.get_value(1, idx2, &program.memory) {
            Err(e) => {
                return Err(e);
            },
            Ok(v) => v,
        };
        if (is_not_zero && cond != 0) || (!is_not_zero && cond == 0) {
            if target < 0 {
                return Err(VmError::UndefinedAddress);
            }
            program.index = target as usize;
        } else {
            program.index = idx2 + 1;
        }
        Ok(())
    }
}

/// The queue of input values an `execute` call supplies: the single
/// parsed value, or nothing when the text is not an integer literal.
pub open spec fn input_queue(s: Seq<char>) -> Seq<i32> {
    if is_i32_literal(s) {
        seq![int_literal_val(s) as i32]
    } else {
        Seq::empty()
    }
}

/// The rendering of an output sequence as text: each value's decimal
/// numeral followed by a newline, in emission order.
pub open spec fn render_output(out: Seq<i32>) -> Seq<char>
    decreases out.len(),
{
    if out.len() == 0 {
        Seq::empty()
    } else {
        dec_int(out[0] as int) + seq!['\n'] + render_output(out.skip(1))
    }
}

/// An output-returning result seen abstractly.
pub open spec fn output_view(r: Result<Vec<i32>, VmError>) -> Result<Seq<i32>, VmError> {
    match r {
        Ok(v) => Ok(v@),
        Err(e) => Err(e),
    }
}

/// A text-returning result seen abstractly.
pub open spec fn text_view(r: Result<String, VmError>) -> Result<Seq<char>, VmError> {
    match r {
        Ok(s) => Ok(s@),
        Err(e) => Err(e),
    }
}

/// What `run` must return: the verdict is read off the model after
/// exactly `limit` transitions. A machine still running then means
/// `StepLimitExceeded`; a halt within the ceiling returns the gathered
/// output and leaves the machine in the halt state; a failure within the
/// ceiling returns its error.
pub open spec fn run_verdict(
    init: VmState,
    limit: u64,
    r: Result<Seq<i32>, VmError>,
    fin: VmState,
) -> bool {
    match run_to(init, limit as nat) {
        RunOutcome::Running(_) => r == Err::<Seq<i32>, VmError>(VmError::StepLimitExceeded),
        RunOutcome::Halted(t) => r == Ok::<Seq<i32>, VmError>(t.output) && fin == t,
        RunOutcome::Failed(e) => r == Err::<Seq<i32>, VmError>(e),
    }
}

/// The same verdict for `execute`, whose successful result is the
/// rendered output text.
pub open spec fn execute_verdict(
    init: VmState,
    limit: u64,
    r: Result<Seq<char>, VmError>,
    fin: VmState,
) -> bool {
    match run_to(init, limit as nat) {
        RunOutcome::Running(_) => r == Err::<Seq<char>, VmError>(VmError::StepLimitExceeded),
        RunOutcome::Halted(t) => r == Ok::<Seq<char>, VmError>(render_output(t.output)) && fin
            == t,
        RunOutcome::Failed(e) => r == Err::<Seq<char>, VmError>(e),
    }
}

/// A machine seen running after `k` steps whose next step fails reaches
/// the failure verdict, whatever the ceiling still allows.
proof fn lemma_verdict_failure(
    init: VmState,
    k: nat,
    lim: u64,
    pre: VmState,
    e: VmError,
    fin: VmState,
)
    requires
        run_to(init, k) == RunOutcome::Running(pre),
        step(pre) == StepOutcome::Fail(e),
        k < lim,
    ensures
        run_verdict(init, lim, Err(e), fin),
        execute_verdict(init, lim, Err(e), fin),
{
    assert(run_to(init, k + 1) == RunOutcome::Failed(e));
    lemma_run_to_stable(init, k + 1, lim as nat);
}

/// A machine seen running after `k` steps whose next step halts reaches
/// the halt verdict, whatever the ceiling still allows.
proof fn lemma_verdict_halt(init: VmState, k: nat, lim: u64, pre: VmState)
    requires
        run_to(init, k) == RunOutcome::Running(pre),
        step(pre) == StepOutcome::Halt,
        k < lim,
    ensures
        run_verdict(init, lim, Ok(pre.output), pre),
        execute_verdict(init, lim, Ok(render_output(pre.output)), pre),
{
    assert(run_to(init, k + 1) == RunOutcome::Halted(pre));
    lemma_run_to_stable(init, k + 1, lim as nat);
}

/// Copy a vector of values.
fn copy_values(v: &Vec<i32>) -> (r: Vec<i32>)
    ensures
        r@ == v@,
{
    let mut r: Vec<i32> = Vec::new();
    let mut i: usize = 0;
    while i < v.len()
        invariant
            i <= v@.len(),
            r@ == v@.take(i as int),
        decreases v@.len() - i,
    {
        r.push(v[i]);
        proof {
            assert(v@.take(i as int).push(v@[i as int]) =~= v@.take(i + 1));
        }
        i = i + 1;
    }
    proof {
        assert(v@.take(v@.len() as int) =~= v@);
    }
    r
}

proof fn lemma_render_snoc(s: Seq<i32>, i: int)
    requires
        0 <= i < s.len(),
    ensures
        render_output(s.take(i + 1)) == render_output(s.take(i)) + dec_int(s[i] as int) + seq![
            '\n',
        ],
    decreases i,
{
    if i == 0 {
        assert(s.take(1)[0] == s[0]);
        assert(s.take(1).skip(1) =~= Seq::<i32>::empty());
        assert(s.take(0) =~= Seq::<i32>::empty());
        assert(dec_int(s[0] as int) + seq!['\n'] + Seq::<char>::empty() =~= Seq::<char>::empty()
            + dec_int(s[0] as int) + seq!['\n']);
    } else {
        lemma_render_snoc(s.skip(1), i - 1);
        assert(s.take(i + 1).skip(1) =~= s.skip(1).take(i));
        assert(s.take(i).skip(1) =~= s.skip(1).take(i - 1));
        assert(s.take(i + 1)[0] == s[0]);
        assert(s.take(i)[0] == s[0]);
        assert(s.skip(1)[i - 1] == s[i]);
        assert(dec_int(s[0] as int) + seq!['\n'] + (render_output(s.skip(1).take(i - 1)) + dec_int(
            s[i] as int,
        ) + seq!['\n']) =~= (dec_int(s[0] as int) + seq!['\n'] + render_output(
            s.skip(1).take(i - 1),
        )) + dec_int(s[i] as int) + seq!['\n']);
    }
}

/// Render gathered output values as the machine's output text.
fn render_output_text(out: &Vec<i32>) -> (r: String)
    ensures
        r@ == render_output(out@),
{
    let mut text = String::new();
    proof {
        assert(out@.take(0) =~= Seq::<i32>::empty());
    }
    let mut i: usize = 0;
    while i < out.len()
        invariant
            i <= out@.len(),
            text@ == render_output(out@.take(i as int)),
        decreases out@.len() - i,
    {
        push_i32(&mut text, out[i]);
        proof {
            reveal_strlit("\n");
        }
        text.append("\n");
        proof {
            lemma_render_snoc(out@, i as int);
            assert("\n"@ =~= seq!['\n']);
        }
        i = i + 1;
    }
    proof {
        assert(out@.take(out@.len() as int) =~= out@);
    }
    text
}

impl Program {
    /// Run the loaded program on a queue of input values until it halts,
    /// fails, or exceeds the configured step ceiling. A halt returns the
    /// output values in emission order and leaves memory in its final
    /// shape; every failure is reported as its error value.
    #[verifier::rlimit(60)]
    pub fn run(&mut self, inputs: Vec<i32>) -> (r: Result<Vec<i32>, VmError>)
        ensures
            run_verdict(
                (VmState {
                    mem: old(self)@.mem,
                    ip: old(self)@.ip,
                    inputs: inputs@,
                    output: old(self)@.output,
                }),
                old(self).limit(),
                output_view(r),
                final(self)@,
            ),
            final(self).limit() == old(self).limit(),
    {
        self.inputs = inputs;
        let ghost init = self@;
        let ghost lim = self.step_limit;
        let mut steps: u64 = 0;
        loop
            invariant
                run_to(init, steps as nat) == RunOutcome::Running(self@),
                self.limit() == lim,
                steps <= lim,
                lim == old(self).limit(),
                init == (VmState {
                    mem: old(self)@.mem,
                    ip: old(self)@.ip,
                    inputs: inputs@,
                    output: old(self)@.output,
                }),
            decreases lim - steps,
        {
            let ghost pre = self@;
            if steps >= self.step_limit {
                return Err(VmError::StepLimitExceeded);
            }
            let w = match self.memory.read(self.index) {
                Err(e) => {
                    proof {
                        lemma_verdict_failure(init, steps as nat, lim, pre, e, self@);
                    }
                    return Err(e);
                },
                Ok(w) => w,
            };
            if w < 0 {
                proof {
                    lemma_verdict_failure(init, steps as nat, lim, pre, VmError::UnknownOpcode, self@);
                }
                return Err(VmError::UnknownOpcode);
            }
            let op = w % 100;
            if op == 99 {
                let out = copy_values(&self.output);
                proof {
                    lemma_verdict_halt(init, steps as nat, lim, pre);
                }
                return Ok(out);
            }
            let outcome: Result<(), VmError> = if op == 1 {
                Addition::apply(self)
            } else if op == 2 {
                Multiplication::apply(self)
            } else if op == 3 {
                Input::apply(self)
            } else if op == 4 {
                Output::apply(self)
            } else if op == 5 {
                Jump::apply(self, true)
            } else if op == 6 {
                Jump::apply(self, false)
            } else if op == 7 {
                Compare::apply(self, '<')
            } else if op == 8 {
                Compare::apply(self, '=')
            } else {
                proof {
                    lemma_verdict_failure(init, steps as nat, lim, pre, VmError::UnknownOpcode, self@);
                }
                return Err(VmError::UnknownOpcode);
            };
            match outcome {
                Ok(()) => {
                    proof {
                        assert(step(pre) is Next);
                        assert(run_to(init, (steps + 1) as nat) == RunOutcome::Running(self@));
                    }
                    steps = steps + 1;
                },
                Err(e) => {
                    proof {
                        assert(step(pre) == StepOutcome::Fail(e));
                        lemma_verdict_failure(init, steps as nat, lim, pre, e, self@);
                    }
                    return Err(e);
                },
            }
        }
    }

    /// Run the program with the input text's value supplied once (text
    /// that is not an integer literal supplies nothing), and return the
    /// output rendered as text: one decimal numeral per line.
    pub fn execute(&mut self, input: &str) -> (r: Result<String, VmError>)
        ensures
            execute_verdict(
                (VmState {
                    mem: old(self)@.mem,
                    ip: old(self)@.ip,
                    inputs: input_queue(input@),
                    output: old(self)@.output,
                }),
                old(self).limit(),
                text_view(r),
                final(self)@,
            ),
            final(self).limit() == old(self).limit(),
    {
        let mut queue: Vec<i32> = Vec::new();
        match parse_i32(input) {
            Ok(v) => {
                queue.push(v);
            },
            Err(_) => {},
        }
        proof {
            assert(queue@ =~= input_queue(input@));
        }
        let out = match self.run(queue) {
            Err(e) => {
                return Err(e);
            },
            Ok(o) => o,
        };
        let text = render_output_text(&out);
        Ok(text)
    }
}

} // verus!
