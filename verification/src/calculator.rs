//! The early four-word calculator: a reduced instruction subset with
//! only add, multiply and halt, no parameter modes, and unsigned cells.

use vstd::prelude::*;
use crate::errors::VmError;

verus! {

/// The calculator run from `idx`: each instruction is four words
/// (opcode, two source addresses, a destination address); `99` or running
/// off the end halts, any other opcode is a failure, as is an address
/// outside the sequence or a result that does not fit a cell.
pub open spec fn calc_run(s: Seq<u32>, idx: nat) -> Result<Seq<u32>, VmError>
    decreases s.len() + 4 - idx,
{
    if idx >= s.len() {
        Ok(s)
    } else {
        let op = s[idx as int];
        if op == 99 {
            Ok(s)
        } else if op != 1 && op != 2 {
            Err(VmError::UnknownOpcode)
        } else if idx + 3 >= s.len() {
            Err(VmError::UndefinedAddress)
        } else {
            let a = s[idx + 1 as int] as int;
            let b = s[idx + 2 as int] as int;
            let p = s[idx + 3 as int] as int;
            if a >= s.len() || b >= s.len() || p >= s.len() {
                Err(VmError::UndefinedAddress)
            } else {
                let v = if op == 1 {
                    s[a] + s[b]
                } else {
                    s[a] * s[b]
                };
                if v > u32::MAX {
                    Err(VmError::ArithmeticOverflow)
                } else {
                    calc_run(s.update(p, v as u32), idx + 4)
                }
            }
        }
    }
}

/// Run a calculator program to completion, returning the final memory
/// image, exactly as `calc_run` describes it.
pub fn calculate_operations(sequence: Vec<u32>) -> (r: Result<Vec<u32>, VmError>)
    ensures
        calc_run(sequence@, 0) matches Ok(out) ==> (r matches Ok(v) && v@ == out),
        calc_run(sequence@, 0) matches Err(e) ==> r == Err::<Vec<u32>, VmError>(e),
{
    let ghost s0 = sequence@;
    let mut seq = sequence;
    let mut idx: usize = 0;
    loop
        invariant
            s0 == sequence@,
            calc_run(s0, 0) == calc_run(seq@, idx as nat),
            seq@.len() == s0.len(),
            idx <= seq@.len(),
        decreases seq@.len() + 4 - idx,
    {
        if idx >= seq.len() {
            return Ok(seq);
        }
        let op = seq[idx];
        if op == 99 {
            return Ok(seq);
        }
        if op != 1 && op != 2 {
            return Err(VmError::UnknownOpcode);
        }
        if seq.len() - idx <= 3 {
            return Err(VmError::UndefinedAddress);
        }
        let a = seq[idx + 1] as usize;
        let b = seq[idx + 2] as usize;
        let p = seq[idx + 3] as usize;
        if a >= seq.len() || b >= seq.len() || p >= seq.len() {
            return Err(VmError::UndefinedAddress);
        }
        let v: u64 = if op == 1 {
            seq[a] as u64 + seq[b] as u64
        } else {
            proof {
                assert((seq@[a as int] as int) * (seq@[b as int] as int) <= u64::MAX) by (
                nonlinear_arith)
                    requires
                        0 <= seq@[a as int] <= u32::MAX,
                        0 <= seq@[b as int] <= u32::MAX,
                ;
            }
            seq[a] as u64 * seq[b] as u64
        };
        if v > u32::MAX as u64 {
            return Err(VmError::ArithmeticOverflow);
        }
        seq.set(p, v as u32);
        idx = idx + 4;
    }
}

/// The pair the noun-and-verb search finds: scanning nouns outward and
/// verbs within each noun, the first setting whose run leaves the target
/// value in cell zero. Nothing when a tried run fails, when a run leaves
/// no cell, or when the search space is exhausted.
pub open spec fn oracle_from(target: u32, s: Seq<u32>, noun: nat, verb: nat, bound: nat) -> Option<
    (u32, u32),
>
    decreases bound - noun, bound - verb,
{
    if noun >= bound {
        None
    } else if verb >= bound {
        oracle_from(target, s, noun + 1, 0, bound)
    } else {
        let t = s.update(1, noun as u32).update(2, verb as u32);
        match calc_run(t, 0) {
            Err(_) => None,
            Ok(out) => {
                if out.len() == 0 {
                    None
                } else if out[0] == target {
                    Some((noun as u32, verb as u32))
                } else {
                    oracle_from(target, s, noun, verb + 1, bound)
                }
            },
        }
    }
}

/// The whole search over nouns and verbs below one hundred (or below the
/// program length when shorter); programs of fewer than three cells
/// cannot hold a noun and a verb.
pub open spec fn oracle_spec(target: u32, s: Seq<u32>) -> Option<(u32, u32)> {
    if s.len() < 3 {
        None
    } else {
        oracle_from(
            target,
            s,
            0,
            0,
            if s.len() >= 99 {
                99
            } else {
                s.len()
            },
        )
    }
}

fn copy_words(v: &Vec<u32>) -> (r: Vec<u32>)
    ensures
        r@ == v@,
{
    let mut r: Vec<u32> = Vec::new();
    let mut i: usize = 0;
    while i < v.len()
        invariant
            i <= v@.len(),
            r@ == v@.take(i as int),
        decreases v@.len() - i,
    {
        r.push(v[i]);
        proof {
            assert(v@.take(i as int).push(v@[i as int]) =~= v@.take(i + 1));
        }
        i = i + 1;
    }
    proof {
        assert(v@.take(v@.len() as int) =~= v@);
    }
    r
}

/// Search for the noun and verb that make the program leave `value` in
/// cell zero, packed as `noun * 100 + verb`; nothing when the search
/// fails or runs out of pairs.
pub fn oracle_checked(value: u32, sequence: &Vec<u32>) -> (r: Option<u32>)
    ensures
        match oracle_spec(value, sequence@) {
            Some(nv) => r == Some((nv.0 * 100 + nv.1) as u32),
            None => r is None,
        },
{
    if sequence.len() < 3 {
        return None;
    }
    let ghost s0 = sequence@;
    let bound: u32 = if sequence.len() >= 99 {
        99
    } else {
        sequence.len() as u32
    };
    let mut noun: u32 = 0;
    while noun < bound
        invariant
            noun <= bound,
            s0 == sequence@,
            sequence@.len() >= 3,
            bound == (if s0.len() >= 99 {
                99int
            } else {
                s0.len() as int
            }),
            oracle_from(value, s0, noun as nat, 0, bound as nat) == oracle_spec(value, s0),
        decreases bound - noun,
    {
        let mut verb: u32 = 0;
        while verb < bound
            invariant
                noun < bound,
                verb <= bound,
                s0 == sequence@,
                sequence@.len() >= 3,
                bound == (if s0.len() >= 99 {
                    99int
                } else {
                    s0.len() as int
                }),
                oracle_from(value, s0, noun as nat, verb as nat, bound as nat) == oracle_spec(
                    value,
                    s0,
                ),
            decreases bound - verb,
        {
            let mut trial = copy_words(sequence);
            trial.set(1, noun);
            trial.set(2, verb);
            proof {
                assert(trial@ =~= s0.update(1, noun as u32).update(2, verb as u32));
            }
            match calculate_operations(trial) {
                Err(_) => {
                    return None;
                },
                Ok(out) => {
                    if out.len() == 0 {
                        return None;
                    }
                    if out[0] == value {
                        return Some(noun * 100 + verb);
                    }
                },
            }
            verb = verb + 1;
        }
        noun = noun + 1;
    }
    None
}

/// A found pair lies within the searched bounds.
proof fn lemma_oracle_from_bounds(target: u32, s: Seq<u32>, noun: nat, verb: nat, bound: nat)
    requires
        oracle_from(target, s, noun, verb, bound) is Some,
    ensures
        oracle_from(target, s, noun, verb, bound) matches Some(nv) && nv.0 < bound && nv.1
            < bound,
    decreases bound - noun, bound - verb,
{
    if noun >= bound {
    } else if verb >= bound {
        lemma_oracle_from_bounds(target, s, noun + 1, 0, bound);
    } else {
        let t = s.update(1, noun as u32).update(2, verb as u32);
        match calc_run(t, 0) {
            Err(_) => {},
            Ok(out) => {
                if out.len() == 0 {
                } else if out[0] == target {
                } else {
                    lemma_oracle_from_bounds(target, s, noun, verb + 1, bound);
                }
            },
        }
    }
}

/// Search for the noun and verb that make the program leave `value` in
/// cell zero, and return them packed as `noun * 100 + verb`. The search
/// must succeed: a caller must know the pair exists and that no tried
/// run fails first.
pub fn oracle(value: u32, sequence: Vec<u32>) -> (r: u32)
    requires
        oracle_spec(value, sequence@) is Some,
    ensures
        oracle_spec(value, sequence@) matches Some(nv) && r == nv.0 * 100 + nv.1,
{
    proof {
        if sequence@.len() >= 3 {
            lemma_oracle_from_bounds(
                value,
                sequence@,
                0,
                0,
                if sequence@.len() >= 99 {
                    99nat
                } else {
                    sequence@.len()
                },
            );
        }
    }
    match oracle_checked(value, &sequence) {
        Some(r) => r,
        None => {
            proof {
                assert(false);
            }
            0
        },
    }
}

} // verus!
