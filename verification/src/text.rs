//! Building strings: decimal digits, runs of a character, leading-zero tests
//! and string equality.

use vstd::prelude::*;

verus! {

/// The ASCII digit for `d` (a value below ten).
pub open spec fn decimal_digit(d: int) -> char {
    if d == 0 {
        '0'
    } else if d == 1 {
        '1'
    } else if d == 2 {
        '2'
    } else if d == 3 {
        '3'
    } else if d == 4 {
        '4'
    } else if d == 5 {
        '5'
    } else if d == 6 {
        '6'
    } else if d == 7 {
        '7'
    } else if d == 8 {
        '8'
    } else {
        '9'
    }
}

/// The decimal representation of `n`, as `format!("{}", n)` writes it: no sign,
/// no leading zeros, and "0" for zero.
pub open spec fn spec_decimal(n: nat) -> Seq<char>
    decreases n,
{
    if n < 10 {
        seq![decimal_digit(n as int)]
    } else {
        spec_decimal(n / 10).push(decimal_digit((n % 10) as int))
    }
}

/// `n` copies of `c`.
pub open spec fn spec_repeat(c: char, n: nat) -> Seq<char> {
    Seq::new(n, |i: int| c)
}

/// True when `s` begins with at least `count` copies of `'0'`, which is what
/// `s.starts_with(&"0".repeat(count))` tests.
pub open spec fn spec_has_leading_zeros(s: Seq<char>, count: nat) -> bool {
    &&& count <= s.len()
    &&& forall|i: int| 0 <= i < count ==> s[i] == '0'
}

/// Appends one character to a string.
#[verifier::external_body]
pub(crate) fn push_char(s: &mut String, c: char)
    ensures
        final(s)@ == old(s)@.push(c),
{
    s.push(c)
}

/// The character of a decimal digit.
pub fn digit_char(d: u64) -> (c: char)
    requires
        d < 10,
    ensures
        c == decimal_digit(d as int),
{
    if d == 0 {
        '0'
    } else if d == 1 {
        '1'
    } else if d == 2 {
        '2'
    } else if d == 3 {
        '3'
    } else if d == 4 {
        '4'
    } else if d == 5 {
        '5'
    } else if d == 6 {
        '6'
    } else if d == 7 {
        '7'
    } else if d == 8 {
        '8'
    } else {
        '9'
    }
}

/// Appends the decimal representation of `n` to `s`.
pub fn push_decimal(s: &mut String, n: u64)
    ensures
        final(s)@ == old(s)@ + spec_decimal(n as nat),
    decreases n,
{
    if n >= 10 {
        push_decimal(s, n / 10);
    }
    push_char(s, digit_char(n % 10));
    assert(final(s)@ =~= old(s)@ + spec_decimal(n as nat)) by {
        if n >= 10 {
            assert(spec_decimal(n as nat) == spec_decimal((n / 10) as nat).push(
                decimal_digit((n % 10) as int),
            ));
        }
    }
}

/// The decimal representation of `n`.
pub fn decimal_string(n: u64) -> (res: String)
    ensures
        res@ == spec_decimal(n as nat),
{
    let mut s = String::new();
    push_decimal(&mut s, n);
    assert(s@ =~= spec_decimal(n as nat));
    s
}

/// A string of `n` copies of `c`, as `c.to_string().repeat(n)` builds it.
pub fn repeat_char(c: char, n: usize) -> (res: String)
    ensures
        res@ == spec_repeat(c, n as nat),
{
    let mut s = String::new();
    let mut i: usize = 0;
    while i < n
        invariant
            i <= n,
            s@ =~= spec_repeat(c, i as nat),
        decreases n - i,
    {
        push_char(&mut s, c);
        i = i + 1;
    }
    s
}

/// Whether `s` starts with `count` zeros.
pub fn has_leading_zeros(s: &str, count: usize) -> (res: bool)
    ensures
        res == spec_has_leading_zeros(s@, count as nat),
{
    let len = s.unicode_len();
    if count > len {
        return false;
    }
    let mut i: usize = 0;
    while i < count
        invariant
            i <= count <= len,
            len == s@.len(),
            forall|j: int| 0 <= j < i ==> s@[j] == '0',
        decreases count - i,
    {
        if s.get_char(i) != '0' {
            return false;
        }
        i = i + 1;
    }
    true
}

/// Whether two strings hold the same characters.
pub fn str_equal(a: &str, b: &str) -> (res: bool)
    ensures
        res == (a@ == b@),
{
    let a_owned: String = a.to_owned();
    let b_owned: String = b.to_owned();
    a_owned == b_owned
}

} // verus!
