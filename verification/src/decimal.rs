//! Decimal numerals: what a run of digits denotes and how a number is written.

use vstd::prelude::*;
use crate::text::is_digit;

verus! {

/// The number that the digit `c` stands for.
pub open spec fn digit_of(c: char) -> nat {
    (c as int - '0' as int) as nat
}

/// The digit that stands for `d`, for `d` below ten.
pub open spec fn digit(d: nat) -> char {
    ((d + 48) as u8) as char
}

/// The number that a run of digits denotes, read in base ten.
pub open spec fn value(s: Seq<char>) -> nat
    decreases s.len(),
{
    if s.len() == 0 {
        0
    } else {
        value(s.drop_last()) * 10 + digit_of(s.last())
    }
}

/// The shortest numeral for `n`.
pub open spec fn decimal(n: nat) -> Seq<char>
    decreases n,
{
    if n < 10 {
        seq![digit(n)]
    } else {
        decimal(n / 10).push(digit(n % 10))
    }
}

/// Every character of `s` is a digit.
pub open spec fn all_digits(s: Seq<char>) -> bool {
    forall|i: int| 0 <= i < s.len() ==> is_digit(#[trigger] s[i])
}

/// A numeral: one or more digits, without a leading zero unless it is `0`.
pub open spec fn is_numeral(s: Seq<char>) -> bool {
    s.len() > 0 && all_digits(s) && (s.len() == 1 || s[0] != '0')
}

/// What a numeral denotes, where that fits in 64 bits.
pub open spec fn numeral_u64(s: Seq<char>) -> Option<u64> {
    if is_numeral(s) && value(s) <= u64::MAX {
        Some(value(s) as u64)
    } else {
        None
    }
}

/// What a numeral with an optional sign in front denotes, where that fits in
/// 64 bits with a sign.
pub open spec fn numeral_i64(s: Seq<char>) -> Option<i64> {
    if s.len() > 0 && s[0] == '-' {
        if is_numeral(s.skip(1)) && value(s.skip(1)) <= 0x8000_0000_0000_0000 {
            Some((-(value(s.skip(1)) as int)) as i64)
        } else {
            None
        }
    } else if s.len() > 0 && s[0] == '+' {
        if is_numeral(s.skip(1)) && value(s.skip(1)) <= i64::MAX {
            Some(value(s.skip(1)) as i64)
        } else {
            None
        }
    } else if is_numeral(s) && value(s) <= i64::MAX {
        Some(value(s) as i64)
    } else {
        None
    }
}

/// How a signed number is written: a `-` in front of what is below zero.
pub open spec fn decimal_i64(n: i64) -> Seq<char> {
    if n < 0 {
        seq!['-'] + decimal((-(n as int)) as nat)
    } else {
        decimal(n as nat)
    }
}

/// The digit for a number below ten is a digit and stands for that number.
pub proof fn lemma_digit(d: nat)
    requires
        d < 10,
    ensures
        is_digit(digit(d)),
        digit_of(digit(d)) == d,
{
}

/// The shortest numeral is a numeral and denotes its number.
pub proof fn lemma_decimal(n: nat)
    ensures
        is_numeral(decimal(n)),
        value(decimal(n)) == n,
        n > 0 ==> decimal(n)[0] != '0',
    decreases n,
{
    if n < 10 {
        lemma_digit(n);
        let s = decimal(n);
        assert(s.drop_last() =~= Seq::<char>::empty());
        assert(value(s.drop_last()) == 0);
    } else {
        lemma_decimal(n / 10);
        lemma_digit(n % 10);
        let p = decimal(n / 10);
        let s = decimal(n);
        assert(s.drop_last() =~= p);
        assert(s[0] == p[0]);
        assert forall|i: int| 0 <= i < s.len() implies is_digit(#[trigger] s[i]) by {
            if i < p.len() {
                assert(s[i] == p[i]);
            }
        }
    }
}

/// A shorter start of a run of digits denotes no more than the run.
pub proof fn lemma_value_grows(s: Seq<char>, k: int)
    requires
        0 <= k <= s.len(),
    ensures
        value(s.take(k)) <= value(s),
    decreases s.len() - k,
{
    if k < s.len() {
        lemma_value_grows(s, k + 1);
        assert(s.take(k + 1).drop_last() =~= s.take(k));
    } else {
        assert(s.take(k) =~= s);
    }
}

/// Reads a numeral.
pub fn read_u64(s: &[char]) -> (r: Option<u64>)
    ensures
        r == numeral_u64(s@),
{
    let n = s.len();
    if n == 0 {
        return None;
    }
    if n > 1 && s[0] == '0' {
        return None;
    }
    let mut acc: u64 = 0;
    let mut i: usize = 0;
    while i < n
        invariant
            n == s@.len(),
            i <= n,
            acc == value(s@.take(i as int)),
            forall|j: int| 0 <= j < i ==> is_digit(#[trigger] s@[j]),
        decreases n - i,
    {
        let c = s[i];
        if !('0' <= c && c <= '9') {
            return None;
        }
        let d: u64 = (c as u64) - 48;
        proof {
            assert(s@.take(i + 1).drop_last() =~= s@.take(i as int));
            assert(value(s@.take(i + 1)) == acc * 10 + d);
            lemma_value_grows(s@, i + 1);
        }
        if acc > (u64::MAX - d) / 10 {
            return None;
        }
        acc = acc * 10 + d;
        i = i + 1;
    }
    assert(s@.take(n as int) =~= s@);
    Some(acc)
}

/// Reads a numeral with an optional sign in front.
pub fn read_i64(s: &[char]) -> (r: Option<i64>)
    ensures
        r == numeral_i64(s@),
{
    let n = s.len();
    if n > 0 && s[0] == '-' {
        let rest = vstd::slice::slice_subrange(s, 1, n);
        assert(rest@ =~= s@.skip(1));
        match read_u64(rest) {
            Some(m) => {
                if m > 0x8000_0000_0000_0000 {
                    None
                } else if m == 0x8000_0000_0000_0000 {
                    Some(i64::MIN)
                } else {
                    Some(-(m as i64))
                }
            },
            None => None,
        }
    } else if n > 0 && s[0] == '+' {
        let rest = vstd::slice::slice_subrange(s, 1, n);
        assert(rest@ =~= s@.skip(1));
        match read_u64(rest) {
            Some(m) => {
                if m > 0x7fff_ffff_ffff_ffff {
                    None
                } else {
                    Some(m as i64)
                }
            },
            None => None,
        }
    } else {
        match read_u64(s) {
            Some(m) => {
                if m > 0x7fff_ffff_ffff_ffff {
                    None
                } else {
                    Some(m as i64)
                }
            },
            None => None,
        }
    }
}

/// Appends the shortest numeral for `n` to `out`.
pub fn push_decimal(out: &mut String, n: u64)
    ensures
        final(out)@ == old(out)@ + decimal(n as nat),
    decreases n,
{
    if n >= 10 {
        push_decimal(out, n / 10);
    }
    let d: u8 = (n % 10) as u8;
    let c: char = (d + 48) as char;
    out.push(c);
    assert(out@ =~= old(out)@ + decimal(n as nat));
}

/// Appends `n` as it is written to `out`.
pub fn push_decimal_i64(out: &mut String, n: i64)
    ensures
        final(out)@ == old(out)@ + decimal_i64(n),
{
    if n < 0 {
        out.push('-');
        let m: u64 = if n == i64::MIN {
            0x8000_0000_0000_0000
        } else {
            (-n) as u64
        };
        push_decimal(out, m);
        assert(out@ =~= old(out)@ + decimal_i64(n));
    } else {
        push_decimal(out, n as u64);
    }
}

/// Reading what was written gives the number back.
pub proof fn lemma_numeral_of_decimal(n: i64)
    ensures
        numeral_i64(decimal_i64(n)) == Some(n),
{
    let s = decimal_i64(n);
    if n < 0 {
        let m = (-(n as int)) as nat;
        lemma_decimal(m);
        assert(s.skip(1) =~= decimal(m));
        assert(s[0] == '-');
    } else {
        lemma_decimal(n as nat);
        assert(is_digit(s[0]));
    }
}

} // verus!
