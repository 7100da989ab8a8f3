//! Small string helpers: decimal rendering, zero padding and text equality.

use vstd::prelude::*;

verus! {

/// The character of a decimal digit `d` (`0 <= d < 10`).
pub open spec fn digit_char(d: nat) -> char {
    (d + 48) as char
}

/// The decimal digits of `n`, most significant first, without leading zeros.
pub open spec fn decimal_chars(n: nat) -> Seq<char>
    decreases n,
{
    if n < 10 {
        seq![digit_char(n)]
    } else {
        decimal_chars(n / 10).push(digit_char(n % 10))
    }
}

/// A run of `n` zero characters.
pub open spec fn zero_chars(n: nat) -> Seq<char> {
    Seq::new(n, |i: int| '0')
}

/// `u32`'s `Display` (through `to_string`): the decimal digits of `n`,
/// without sign and without leading zeros.
#[verifier::external_body]
pub(crate) fn decimal_string(n: u32) -> (s: String)
    ensures
        s@ == decimal_chars(n as nat),
{
    n.to_string()
}

/// Whether two strings hold the same characters.
pub fn str_eq(a: &str, b: &str) -> (r: bool)
    ensures
        r == (a@ == b@),
{
    a.to_owned() == b.to_owned()
}

/// A string of `zero_num` zeros.
pub fn zeros(zero_num: u32) -> (output: String)
    ensures
        output@ == zero_chars(zero_num as nat),
{
    let mut output = String::new();
    let mut k: u32 = 0;
    while k < zero_num
        invariant
            k <= zero_num,
            output@ == zero_chars(k as nat),
        decreases zero_num - k,
    {
        proof {
            reveal_strlit("0");
        }
        output.append("0");
        k = k + 1;
        assert(output@ =~= zero_chars(k as nat));
    }
    output
}

/// Whether `num_to_seqstr(num, digit)` is defined: the padding rule finds a
/// width class for `num` that `digit` can hold.
pub open spec fn seqstr_defined(num: u32, digit: u32) -> bool {
    ||| num < 10 && digit > 0
    ||| num < 100 && digit > 1
    ||| num < 1000 && digit > 2
    ||| num < 10000 && digit > 3
    ||| digit > 4
}

/// How many zeros `num_to_seqstr` puts in front of `num`.
pub open spec fn seqstr_padding(num: u32, digit: u32) -> nat {
    if num < 10 && digit > 0 {
        (digit - 1) as nat
    } else if num < 100 && digit > 1 {
        (digit - 2) as nat
    } else if num < 1000 && digit > 2 {
        (digit - 3) as nat
    } else if num < 10000 && digit > 3 {
        (digit - 4) as nat
    } else {
        (digit - 5) as nat
    }
}

/// `num` in decimal, zero padded on the left according to its width class
/// (below 10, 100, 1000, 10000, or wider) and the requested `digit` count.
pub fn num_to_seqstr(num: u32, digit: u32) -> (s: String)
    requires
        seqstr_defined(num, digit),
    ensures
        s@ == zero_chars(seqstr_padding(num, digit)) + decimal_chars(num as nat),
{
    let mut s = if num < 10 && digit > 0 {
        zeros(digit - 1)
    } else if num < 100 && digit > 1 {
        zeros(digit - 2)
    } else if num < 1000 && digit > 2 {
        zeros(digit - 3)
    } else if num < 10000 && digit > 3 {
        zeros(digit - 4)
    } else {
        zeros(digit - 5)
    };
    let n = decimal_string(num);
    s.append(n.as_str());
    s
}

/// Number of decimal digits of `n`.
pub open spec fn decimal_len(n: nat) -> nat {
    decimal_chars(n).len()
}

/// Below `10^k` (k = 1..=5) a number has at most `k` digits.
pub proof fn lemma_decimal_len_bounds(n: nat)
    ensures
        n < 10 ==> decimal_len(n) == 1,
        10 <= n < 100 ==> decimal_len(n) == 2,
        100 <= n < 1000 ==> decimal_len(n) == 3,
        1000 <= n < 10000 ==> decimal_len(n) == 4,
        10000 <= n < 100000 ==> decimal_len(n) == 5,
{
    reveal_with_fuel(decimal_chars, 6);
}

/// For numbers below 100000, `num_to_seqstr` pads to exactly `digit`
/// characters whenever `digit` can hold the number.
pub proof fn lemma_seqstr_width(num: u32, digit: u32)
    requires
        num < 100000,
        digit >= decimal_len(num as nat),
    ensures
        seqstr_defined(num, digit),
        seqstr_padding(num, digit) + decimal_len(num as nat) == digit,
{
    lemma_decimal_len_bounds(num as nat);
}

} // verus!
