//! Building text: sequences of characters, decimal numerals, and the
//! conversions between `String` and character vectors.

use vstd::prelude::*;

verus! {

/// The decimal digit character for `d` (which must be below ten).
pub open spec fn digit_char(d: nat) -> char {
    if d == 0 { '0' } else if d == 1 { '1' } else if d == 2 { '2' } else if d == 3 { '3' }
    else if d == 4 { '4' } else if d == 5 { '5' } else if d == 6 { '6' } else if d == 7 { '7' }
    else if d == 8 { '8' } else { '9' }
}

/// The decimal numeral of a natural number, most significant digit first.
pub open spec fn dec_nat(n: nat) -> Seq<char>
    decreases n,
{
    if n < 10 {
        seq![digit_char(n)]
    } else {
        dec_nat(n / 10).push(digit_char(n % 10))
    }
}

/// The decimal numeral of an integer, with a leading '-' when negative.
pub open spec fn dec_int(n: int) -> Seq<char> {
    if n < 0 {
        seq!['-'] + dec_nat((-n) as nat)
    } else {
        dec_nat(n as nat)
    }
}

fn digit(d: u64) -> (c: char)
    requires d < 10,
    ensures c == digit_char(d as nat),
{
    if d == 0 { '0' } else if d == 1 { '1' } else if d == 2 { '2' } else if d == 3 { '3' }
    else if d == 4 { '4' } else if d == 5 { '5' } else if d == 6 { '6' } else if d == 7 { '7' }
    else if d == 8 { '8' } else { '9' }
}

/// Appends the decimal numeral of `n`.
pub fn push_nat(out: &mut Vec<char>, n: u64)
    ensures final(out)@ == old(out)@ + dec_nat(n as nat),
    decreases n,
{
    if n < 10 {
        out.push(digit(n));
    } else {
        push_nat(out, n / 10);
        out.push(digit(n % 10));
    }
}

/// Appends the decimal numeral of `n`, with a '-' when negative.
pub fn push_int(out: &mut Vec<char>, n: i64)
    ensures final(out)@ == old(out)@ + dec_int(n as int),
{
    if n < 0 {
        out.push('-');
        let m: u64 = if n == i64::MIN { 9223372036854775808u64 } else { (0 - n) as u64 };
        push_nat(out, m);
    } else {
        push_nat(out, n as u64);
    }
}

/// Appends every character of `s`.
pub fn push_chars(out: &mut Vec<char>, s: &Vec<char>)
    ensures final(out)@ == old(out)@ + s@,
{
    let mut i: usize = 0;
    while i < s.len()
        invariant
            i <= s.len(),
            out@ == old(out)@ + s@.subrange(0, i as int),
        decreases s.len() - i,
    {
        out.push(s[i]);
        i = i + 1;
        assert(s@.subrange(0, i as int) == s@.subrange(0, i - 1) .push(s@[i - 1]));
    }
    assert(s@.subrange(0, s.len() as int) == s@);
}

/// Appends every character of the string slice `s`.
pub fn push_str(out: &mut Vec<char>, s: &str)
    ensures final(out)@ == old(out)@ + s@,
{
    let cs = chars_of(s);
    push_chars(out, &cs);
}

/// Appends every character of the string `s`.
pub fn push_string(out: &mut Vec<char>, s: &String)
    ensures final(out)@ == old(out)@ + s@,
{
    push_str(out, s.as_str());
}

/// A string with the characters of a string slice.
pub fn string_of(s: &str) -> (r: String)
    ensures r@ == s@,
{
    let cs = chars_of(s);
    string_from_chars(&cs)
}

/// The characters of a string slice: `str::chars` collected into a vector.
#[verifier::external_body]
pub fn chars_of(s: &str) -> (v: Vec<char>)
    ensures v@ == s@,
{
    s.chars().collect()
}

/// A string made of the given characters: `FromIterator<char>` for `String`.
#[verifier::external_body]
pub fn string_from_chars(cs: &Vec<char>) -> (s: String)
    ensures s@ == cs@,
{
    cs.iter().collect()
}

} // verus!
