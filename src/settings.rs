//! Run settings given on the command line.
use vstd::prelude::*;

verus! {

/// Why a setting was refused.
#[derive(PartialEq, Eq, Structural, Clone, Copy, Debug)]
pub enum SettingsError {
    /// The thread count is not a whole number from 1 to `usize::MAX`.
    InvalidThreadCount,
}

pub open spec fn is_digit(c: char) -> bool {
    '0' <= c <= '9'
}

/// The number that a string of decimal digits writes.
pub open spec fn digits_value(s: Seq<char>) -> nat
    decreases s.len(),
{
    if s.len() == 0 {
        0
    } else {
        digits_value(s.drop_last()) * 10 + (s.last() as nat - '0' as nat) as nat
    }
}

/// The digits of a numeral, after its optional leading `+`.
pub open spec fn numeral_digits(s: Seq<char>) -> Seq<char> {
    if s.len() > 0 && s[0] == '+' {
        s.drop_first()
    } else {
        s
    }
}

/// Whether `s` is an unsigned decimal numeral: an optional `+`, then one or
/// more digits.
pub open spec fn is_numeral(s: Seq<char>) -> bool {
    let d = numeral_digits(s);
    d.len() > 0 && forall|i: int| 0 <= i < d.len() ==> is_digit(#[trigger] d[i])
}

/// Whether `s` gives a valid number of workers.
pub open spec fn valid_thread_count(s: Seq<char>) -> bool {
    is_numeral(s) && 1 <= digits_value(numeral_digits(s)) <= usize::MAX
}

proof fn lemma_digits_value_grows(s: Seq<char>, k: int)
    requires
        0 <= k <= s.len(),
        forall|i: int| 0 <= i < s.len() ==> is_digit(#[trigger] s[i]),
    ensures
        digits_value(s.take(k)) <= digits_value(s),
    decreases s.len() - k,
{
    if k < s.len() {
        lemma_digits_value_grows(s, k + 1);
        assert(s.take(k + 1).drop_last() =~= s.take(k));
        let x = digits_value(s.take(k));
        assert(x <= x * 10) by (nonlinear_arith);
    } else {
        assert(s.take(k) =~= s);
    }
}

/// The number of sending workers: one when none is given, else the given
/// numeral's value, which must be at least one and fit in a `usize`.
pub fn parse_thread_count(arg: Option<&str>) -> (r: Result<usize, SettingsError>)
    ensures
        arg.is_none() ==> r == Ok::<usize, SettingsError>(1),
        arg.is_some() && valid_thread_count(arg.unwrap()@) ==> r is Ok && r->Ok_0 == digits_value(
            numeral_digits(arg.unwrap()@),
        ),
        arg.is_some() && !valid_thread_count(arg.unwrap()@) ==> r == Err::<usize, SettingsError>(
            SettingsError::InvalidThreadCount,
        ),
{
    let s = match arg {
        None => {
            return Ok(1);
        },
        Some(s) => s,
    };
    let n = s.unicode_len();
    let start: usize = if n > 0 && s.get_char(0) == '+' { 1 } else { 0 };
    let ghost d = numeral_digits(s@);
    proof {
        assert(d =~= s@.subrange(start as int, n as int));
    }
    if start == n {
        return Err(SettingsError::InvalidThreadCount);
    }
    let mut value: usize = 0;
    let mut i: usize = start;
    while i < n
        invariant
            arg.is_some() && arg.unwrap()@ == s@,
            start <= i <= n,
            n == s@.len(),
            d == s@.subrange(start as int, n as int),
            d == numeral_digits(s@),
            forall|j: int| 0 <= j < i - start ==> is_digit(#[trigger] d[j]),
            value == digits_value(d.take(i - start)),
        decreases n - i,
    {
        let c = s.get_char(i);
        if !('0' <= c && c <= '9') {
            assert(d[i - start] == c);
            return Err(SettingsError::InvalidThreadCount);
        }
        let digit = (c as u32 - '0' as u32) as usize;
        proof {
            assert(d.take(i - start + 1).drop_last() =~= d.take(i - start));
        }
        let grown = match value.checked_mul(10) {
            Some(t) => t.checked_add(digit),
            None => None,
        };
        match grown {
            Some(v) => {
                value = v;
            },
            None => {
                proof {
                    if is_numeral(s@) {
                        assert(d == numeral_digits(s@));
                        assert(forall|j: int| 0 <= j < d.len() ==> is_digit(#[trigger] d[j]));
                        lemma_digits_value_grows(d, i - start + 1);
                    }
                }
                return Err(SettingsError::InvalidThreadCount);
            },
        }
        i = i + 1;
    }
    proof {
        assert(d.take(n - start) =~= d);
    }
    if value == 0 {
        return Err(SettingsError::InvalidThreadCount);
    }
    Ok(value)
}

} // verus!
