//! Password rules: predicates over candidate passwords, and a generator
//! that collects every number in a range whose numeral satisfies them
//! all.

use vstd::prelude::*;
use vstd::string::StrSliceExecFns;
use crate::numerals::{all_digits, dec_digits, digit_val, is_digit_char, u32_to_string};

verus! {

/// A maximal run of one repeated character spanning `[i, j)`.
pub open spec fn maximal_run(s: Seq<char>, i: int, j: int) -> bool {
    &&& 0 <= i < j <= s.len()
    &&& (forall|k: int| i <= k < j ==> s[k] == s[i])
    &&& (i == 0 || s[i - 1] != s[i])
    &&& (j == s.len() || s[j] != s[i])
}

/// Two equal characters stand next to each other somewhere.
pub open spec fn has_adjacent_repeat(s: Seq<char>) -> bool {
    exists|i: int| 1 <= i < s.len() && #[trigger] s[i] == s[i - 1]
}

/// The digits never sink: each is at least the one before it.
pub open spec fn non_decreasing_digits(s: Seq<char>) -> bool {
    forall|i: int| 1 <= i < s.len() ==> digit_val(s[i - 1]) <= digit_val(#[trigger] s[i])
}

/// The password must have exactly this many characters.
#[derive(Clone, Copy, Debug)]
pub struct IsCertainLength {
    pub length: usize,
}

/// The password must repeat some character in adjacent positions.
#[derive(Clone, Copy, Debug)]
pub struct HasSequentialDigits {}

/// The password must contain a maximal run of exactly this size.
#[derive(Clone, Copy, Debug)]
pub struct HasSequentialDigitsOfSize {
    pub size: usize,
}

/// The password's digits must never decrease left to right.
#[derive(Clone, Copy, Debug)]
pub struct HasSequentiallyHigherNumbers {}

impl IsCertainLength {
    pub fn is_valid(&self, password: &str) -> (r: bool)
        ensures
            r == (password@.len() == self.length),
    {
        password.unicode_len() == self.length
    }
}

impl HasSequentialDigits {
    /// Whether two adjacent characters are equal. The scan starts from a
    /// blank sentinel, so a password whose first character is a blank
    /// also passes.
    pub fn is_valid(&self, password: &str) -> (r: bool)
        ensures
            r == (has_adjacent_repeat(password@) || (password@.len() > 0 && password@[0] == ' ')),
    {
        let len = password.unicode_len();
        let mut prev: char = ' ';
        let mut i: usize = 0;
        while i < len
            invariant
                i <= len,
                len == password@.len(),
                forall|j: int| 1 <= j < i ==> #[trigger] password@[j] != password@[j - 1],
                i > 0 ==> prev == password@[i - 1] && password@[0] != ' ',
                i == 0 ==> prev == ' ',
            decreases len - i,
        {
            let c = password.get_char(i);
            if c == prev {
                return true;
            }
            prev = c;
            i = i + 1;
        }
        false
    }
}

impl HasSequentiallyHigherNumbers {
    /// Whether the digits never decrease. Every character must be a
    /// digit.
    pub fn is_valid(&self, password: &str) -> (r: bool)
        requires
            all_digits(password@),
        ensures
            r == non_decreasing_digits(password@),
    {
        let len = password.unicode_len();
        let mut highest: u32 = 0;
        let mut i: usize = 0;
        while i < len
            invariant
                i <= len,
                len == password@.len(),
                all_digits(password@),
                forall|j: int| 1 <= j < i ==> digit_val(password@[j - 1]) <= digit_val(
                    #[trigger] password@[j],
                ),
                i > 0 ==> highest == digit_val(password@[i - 1]),
                i == 0 ==> highest == 0,
            decreases len - i,
        {
            let c = password.get_char(i);
            assert(is_digit_char(password@[i as int]));
            let digit = (c as u32) - ('0' as u32);
            if digit < highest {
                return false;
            }
            highest = digit;
            i = i + 1;
        }
        true
    }
}

impl HasSequentialDigitsOfSize {
    /// Whether some maximal run of equal characters has exactly the
    /// configured size; the empty password counts as one run of size
    /// one. The blank character is reserved as the scan's sentinel.
    pub fn is_valid(&self, password: &str) -> (r: bool)
        requires
            forall|i: int| 0 <= i < password@.len() ==> password@[i] != ' ',
        ensures
            password@.len() == 0 ==> r == (self.size == 1),
            password@.len() > 0 ==> r == exists|i: int, j: int|
                maximal_run(password@, i, j) && j - i == self.size,
    {
        let ghost s = password@;
        let len = password.unicode_len();
        if len == 0 {
            return self.size == 1;
        }
        let mut run_start: usize = 0;
        let mut found = false;
        let mut i: usize = 1;
        while i < len
            invariant
                1 <= i <= len,
                run_start < i,
                len == s.len(),
                s == password@,
                forall|k: int| run_start < k < i ==> s[k] == s[run_start as int],
                run_start == 0 || s[run_start - 1] != s[run_start as int],
                found <==> exists|a: int, b: int|
                    maximal_run(s, a, b) && b - a == self.size && b <= run_start,
            decreases len - i,
        {
            let c = password.get_char(i);
            let p = password.get_char(i - 1);
            if c != p {
                proof {
                    assert(s[i - 1] == s[run_start as int]);
                    assert(maximal_run(s, run_start as int, i as int));
                    lemma_runs_do_not_straddle(s, run_start as int, i as int);
                }
                if i - run_start == self.size {
                    found = true;
                }
                run_start = i;
            }
            i = i + 1;
        }
        proof {
            assert(s[len - 1] == s[run_start as int]);
            assert(maximal_run(s, run_start as int, len as int));
            lemma_runs_do_not_straddle(s, run_start as int, len as int);
        }
        if len - run_start == self.size {
            found = true;
        }
        found
    }
}

/// Maximal runs cannot overlap: a maximal run that ends inside another
/// maximal run's reach is that run.
proof fn lemma_runs_do_not_straddle(s: Seq<char>, i: int, j: int)
    requires
        maximal_run(s, i, j),
    ensures
        forall|a: int, b: int| maximal_run(s, a, b) && i < b <= j ==> a == i && b == j,
{
    assert forall|a: int, b: int| maximal_run(s, a, b) && i < b <= j implies a == i && b == j by {
        if maximal_run(s, a, b) && i < b <= j {
            if a < i {
                assert(s[i - 1] == s[a] && s[i] == s[a]);
                assert(false);
            }
            if a > i {
                assert(s[a - 1] == s[i] && s[a] == s[i]);
                assert(false);
            }
            assert(a == i);
            if b < j {
                assert(s[b] == s[i]);
                assert(s[b] != s[a]);
                assert(false);
            }
        }
    }
}

/// One password rule, ready to apply.
#[derive(Clone, Copy, Debug)]
pub enum Rule {
    Length(IsCertainLength),
    Repeat(HasSequentialDigits),
    RepeatOfSize(HasSequentialDigitsOfSize),
    NonDecreasing(HasSequentiallyHigherNumbers),
}

/// What each rule demands of a password.
pub open spec fn rule_holds(rule: Rule, s: Seq<char>) -> bool {
    match rule {
        Rule::Length(r) => s.len() == r.length,
        Rule::Repeat(_) => has_adjacent_repeat(s) || (s.len() > 0 && s[0] == ' '),
        Rule::RepeatOfSize(r) => if s.len() == 0 {
            r.size == 1
        } else {
            exists|i: int, j: int| maximal_run(s, i, j) && j - i == r.size
        },
        Rule::NonDecreasing(_) => non_decreasing_digits(s),
    }
}

/// What a rule needs of its input to be decidable: digit-only passwords
/// for the digit rules, blank-free ones for the run rule.
pub open spec fn rule_admissible(rule: Rule, s: Seq<char>) -> bool {
    match rule {
        Rule::Length(_) => true,
        Rule::Repeat(_) => true,
        Rule::RepeatOfSize(_) => forall|i: int| 0 <= i < s.len() ==> s[i] != ' ',
        Rule::NonDecreasing(_) => all_digits(s),
    }
}

/// All rules in a set hold of a password.
pub open spec fn all_rules_hold(rules: Seq<Rule>, s: Seq<char>) -> bool {
    forall|k: int| 0 <= k < rules.len() ==> rule_holds(rules[k], s)
}

impl Rule {
    pub fn is_valid(&self, password: &str) -> (r: bool)
        requires
            rule_admissible(*self, password@),
        ensures
            r == rule_holds(*self, password@),
    {
        match self {
            Rule::Length(rule) => rule.is_valid(password),
            Rule::Repeat(rule) => rule.is_valid(password),
            Rule::RepeatOfSize(rule) => rule.is_valid(password),
            Rule::NonDecreasing(rule) => rule.is_valid(password),
        }
    }
}

/// Whether a password passes every rule in the set.
pub fn apply_rules(pass: &str, rules: &Vec<Rule>) -> (r: bool)
    requires
        forall|k: int| 0 <= k < rules@.len() ==> rule_admissible(rules@[k], pass@),
    ensures
        r == all_rules_hold(rules@, pass@),
{
    let mut k: usize = 0;
    while k < rules.len()
        invariant
            k <= rules@.len(),
            forall|k2: int| 0 <= k2 < rules@.len() ==> rule_admissible(rules@[k2], pass@),
            forall|k2: int| 0 <= k2 < k ==> rule_holds(rules@[k2], pass@),
        decreases rules@.len() - k,
    {
        if !rules[k].is_valid(pass) {
            return false;
        }
        k = k + 1;
    }
    true
}

/// The numerals in `[lo, hi)` that satisfy every rule, in ascending
/// order.
pub open spec fn generated_passwords(lo: nat, hi: nat, rules: Seq<Rule>) -> Seq<Seq<char>>
    decreases hi - lo,
{
    if lo >= hi {
        Seq::empty()
    } else {
        let rest = generated_passwords(lo + 1, hi, rules);
        if all_rules_hold(rules, dec_digits(lo)) {
            seq![dec_digits(lo)] + rest
        } else {
            rest
        }
    }
}

/// A decimal numeral contains digits only, so it is admissible for every
/// rule.
proof fn lemma_numeral_admissible(n: nat, rules: Seq<Rule>)
    ensures
        forall|k: int| 0 <= k < rules.len() ==> rule_admissible(rules[k], dec_digits(n)),
{
    crate::numerals::lemma_dec_digits(n);
    assert forall|k: int| 0 <= k < rules.len() implies rule_admissible(
        rules[k],
        dec_digits(n),
    ) by {
        assert forall|i: int| 0 <= i < dec_digits(n).len() implies dec_digits(n)[i] != ' ' by {
            assert(is_digit_char(dec_digits(n)[i]));
        }
    }
}

/// Every number in `[min, max)` whose decimal numeral passes all the
/// rules, as text, in ascending order.
pub fn password_generator(min: u32, max: u32, rules: &Vec<Rule>) -> (r: Vec<String>)
    ensures
        r@.map_values(|p: String| p@) == generated_passwords(min as nat, max as nat, rules@),
{
    let mut r: Vec<String> = Vec::new();
    let mut pw = min;
    if min >= max {
        proof {
            assert(r@.map_values(|p: String| p@) =~= generated_passwords(
                min as nat,
                max as nat,
                rules@,
            ));
        }
        return r;
    }
    while pw < max
        invariant
            min <= pw <= max,
            generated_passwords(min as nat, max as nat, rules@) == r@.map_values(|p: String| p@)
                + generated_passwords(pw as nat, max as nat, rules@),
            forall|k: int| 0 <= k < rules@.len() ==> rules@[k] == rules@[k],
        decreases max - pw,
    {
        let ghost before = r@;
        let text = u32_to_string(pw);
        proof {
            lemma_numeral_admissible(pw as nat, rules@);
        }
        if apply_rules(text.as_str(), rules) {
            r.push(text);
            proof {
                assert(r@.map_values(|p: String| p@) =~= before.map_values(|p: String| p@) + seq![
                    dec_digits(pw as nat),
                ]);
            }
        }
        proof {
            assert(generated_passwords(pw as nat, max as nat, rules@) == (
            if all_rules_hold(rules@, dec_digits(pw as nat)) {
                seq![dec_digits(pw as nat)] + generated_passwords((pw + 1) as nat, max as nat, rules@)
            } else {
                generated_passwords((pw + 1) as nat, max as nat, rules@)
            }));
            assert(before.map_values(|p: String| p@) + (seq![dec_digits(pw as nat)]
                + generated_passwords((pw + 1) as nat, max as nat, rules@)) =~= (before.map_values(
                |p: String| p@,
            ) + seq![dec_digits(pw as nat)]) + generated_passwords(
                (pw + 1) as nat,
                max as nat,
                rules@,
            ));
        }
        pw = pw + 1;
    }
    proof {
        assert(r@.map_values(|p: String| p@) + generated_passwords(
            max as nat,
            max as nat,
            rules@,
        ) =~= r@.map_values(|p: String| p@));
    }
    r
}

} // verus!
