//! Loading program text: a program is a comma-separated list of base-10
//! integer literals; construction fails when any token is not one.

use vstd::prelude::*;
use vstd::string::StrSliceExecFns;
use crate::errors::VmError;
use crate::numerals::{int_literal_val, is_i32_literal, parse_i32};

verus! {

/// Position of the first comma, or the length when there is none.
pub open spec fn first_comma(s: Seq<char>) -> nat
    decreases s.len(),
{
    if s.len() == 0 {
        0
    } else if s[0] == ',' {
        0
    } else {
        1 + first_comma(s.skip(1))
    }
}

pub proof fn lemma_first_comma(s: Seq<char>)
    ensures
        first_comma(s) <= s.len(),
        first_comma(s) < s.len() ==> s[first_comma(s) as int] == ',',
        forall|i: int| 0 <= i < first_comma(s) ==> s[i] != ',',
    decreases s.len(),
{
    if s.len() > 0 && s[0] != ',' {
        lemma_first_comma(s.skip(1));
        assert forall|i: int| 0 <= i < first_comma(s) implies s[i] != ',' by {
            if i > 0 {
                assert(s.skip(1)[i - 1] == s[i]);
            }
        }
    }
}

/// The words a program text denotes: each comma-separated token read as a
/// 32-bit integer literal; nothing when any token is malformed.
pub open spec fn parse_program(s: Seq<char>) -> Option<Seq<i32>>
    decreases s.len(),
{
    let k = first_comma(s) as int;
    if k >= s.len() {
        if is_i32_literal(s) {
            Some(seq![int_literal_val(s) as i32])
        } else {
            None
        }
    } else {
        if !is_i32_literal(s.take(k)) {
            None
        } else {
            match parse_program(s.skip(k + 1)) {
                None => None,
                Some(rest) => Some(seq![int_literal_val(s.take(k)) as i32] + rest),
            }
        }
    }
}

/// Parse a whole program text, exactly realising `parse_program`.
pub fn parse_program_text(s: &str) -> (r: Result<Vec<i32>, VmError>)
    ensures
        parse_program(s@) matches Some(words) ==> (r matches Ok(v) && v@ == words),
        parse_program(s@) is None ==> r == Err::<Vec<i32>, VmError>(VmError::ParseError),
{
    let len = s.unicode_len();
    let mut out: Vec<i32> = Vec::new();
    let mut start: usize = 0;
    proof {
        assert(s@.skip(0) =~= s@);
    }
    loop
        invariant
            start <= len,
            len == s@.len(),
            parse_program(s@.skip(start as int)) matches Some(rest) ==> parse_program(s@)
                == Some(out@ + rest),
            parse_program(s@.skip(start as int)) is None ==> parse_program(s@) is None,
        decreases len - start,
    {
        let ghost d = s@.skip(start as int);
        let mut end = start;
        while end < len && s.get_char(end) != ','
            invariant
                start <= end <= len,
                len == s@.len(),
                forall|j: int| start <= j < end ==> s@[j] != ',',
            decreases len - end,
        {
            end = end + 1;
        }
        proof {
            lemma_first_comma(d);
            let fc = first_comma(d) as int;
            assert forall|j: int| 0 <= j < end - start implies d[j] != ',' by {
                assert(d[j] == s@[start + j]);
            }
            if end < len {
                assert(d[end - start] == s@[end as int]);
                assert(fc == end - start);
            } else {
                if fc < d.len() {
                    assert(d[fc] != ',');
                    assert(false);
                }
                assert(fc == end - start);
            }
        }
        let token = s.substring_char(start, end);
        proof {
            assert(token@ =~= d.take(end - start));
        }
        let v = match parse_i32(token) {
            Err(_) => {
                proof {
                    if end == len {
                        assert(d.take(end - start) =~= d);
                    }
                    assert(parse_program(d) is None);
                }
                return Err(VmError::ParseError);
            },
            Ok(v) => v,
        };
        let ghost prefix = out@;
        out.push(v);
        if end == len {
            proof {
                assert(d.take(end - start) =~= d);
                assert(parse_program(d) == Some(seq![v]));
                assert(prefix + seq![v] =~= out@);
            }
            return Ok(out);
        }
        proof {
            let fc = first_comma(d) as int;
            assert(d.skip(fc + 1) =~= s@.skip(end + 1));
            match parse_program(s@.skip(end + 1)) {
                Some(rest) => {
                    assert(parse_program(d) == Some(seq![v] + rest));
                    assert(prefix + (seq![v] + rest) =~= out@ + rest);
                },
                None => {
                    assert(parse_program(d) is None);
                },
            }
        }
        start = end + 1;
    }
}

} // verus!
