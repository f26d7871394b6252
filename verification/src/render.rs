//! Canonical textual rendering of scalar values.
//!
//! Integers render to decimal ASCII with no leading zeros and a leading `-`
//! for negative numbers. The forms are deterministic and round-trippable:
//! [`lemma_dec_chars_parse`] and [`lemma_int_chars_parse`] prove that parsing
//! the rendered text recovers the number exactly.

use vstd::prelude::*;
use vstd::string::StringExecFns;

verus! {

/// The decimal digit character for `d`.
pub open spec fn dec_digit(d: int) -> char {
    if d == 0 {
        '0'
    } else if d == 1 {
        '1'
    } else if d == 2 {
        '2'
    } else if d == 3 {
        '3'
    } else if d == 4 {
        '4'
    } else if d == 5 {
        '5'
    } else if d == 6 {
        '6'
    } else if d == 7 {
        '7'
    } else if d == 8 {
        '8'
    } else {
        '9'
    }
}

/// The numeric value of a decimal digit character.
pub open spec fn digit_val(c: char) -> int {
    if c == '0' {
        0
    } else if c == '1' {
        1
    } else if c == '2' {
        2
    } else if c == '3' {
        3
    } else if c == '4' {
        4
    } else if c == '5' {
        5
    } else if c == '6' {
        6
    } else if c == '7' {
        7
    } else if c == '8' {
        8
    } else {
        9
    }
}

/// The decimal rendering of a non-negative integer: most significant digit
/// first, no leading zeros.
pub open spec fn dec_chars(n: int) -> Seq<char>
    recommends
        n >= 0,
    decreases n,
{
    if n < 10 {
        seq![dec_digit(n)]
    } else {
        dec_chars(n / 10).push(dec_digit(n % 10))
    }
}

/// The decimal rendering of a signed integer: a leading `-` when negative.
pub open spec fn int_chars(n: int) -> Seq<char> {
    if n < 0 {
        seq!['-'] + dec_chars(-n)
    } else {
        dec_chars(n)
    }
}

/// Reads a digit string back as a number, most significant digit first.
pub open spec fn parse_dec(s: Seq<char>) -> int
    decreases s.len(),
{
    if s.len() == 0 {
        0
    } else {
        parse_dec(s.drop_last()) * 10 + digit_val(s.last())
    }
}

/// Reads rendered text back as a signed number.
pub open spec fn parse_int(s: Seq<char>) -> int {
    if s.len() > 0 && s[0] == '-' {
        -parse_dec(s.subrange(1, s.len() as int))
    } else {
        parse_dec(s)
    }
}

/// The decimal rendering is round-trippable: parsing it recovers the number.
pub proof fn lemma_dec_chars_parse(n: int)
    requires
        n >= 0,
    ensures
        parse_dec(dec_chars(n)) == n,
    decreases n,
{
    if n < 10 {
        let s = dec_chars(n);
        assert(s =~= seq![dec_digit(n)]);
        assert(s.drop_last() =~= Seq::<char>::empty());
        assert(parse_dec(s.drop_last()) == 0);
        assert(s.last() == dec_digit(n));
        assert(digit_val(dec_digit(n)) == n);
    } else {
        lemma_dec_chars_parse(n / 10);
        let s = dec_chars(n / 10);
        assert(s.push(dec_digit(n % 10)).drop_last() =~= s);
        assert(digit_val(dec_digit(n % 10)) == n % 10);
    }
}

/// The rendering never starts with `-` when the number is non-negative.
pub proof fn lemma_dec_chars_head(n: int)
    requires
        n >= 0,
    ensures
        dec_chars(n).len() >= 1,
        dec_chars(n)[0] != '-',
    decreases n,
{
    if n >= 10 {
        lemma_dec_chars_head(n / 10);
        assert(dec_chars(n)[0] == dec_chars(n / 10)[0]);
    }
}

/// The signed rendering is round-trippable: parsing it recovers the number.
pub proof fn lemma_int_chars_parse(n: int)
    ensures
        parse_int(int_chars(n)) == n,
{
    if n < 0 {
        let s = seq!['-'] + dec_chars(-n);
        assert(s[0] == '-');
        assert(s.subrange(1, s.len() as int) =~= dec_chars(-n));
        lemma_dec_chars_parse(-n);
    } else {
        lemma_dec_chars_head(n);
        lemma_dec_chars_parse(n);
    }
}

/// The one-character string for a decimal digit.
fn digit_str(d: u64) -> (r: &'static str)
    requires
        d < 10,
    ensures
        r@ =~= seq![dec_digit(d as int)],
{
    proof {
        reveal_strlit("0");
        reveal_strlit("1");
        reveal_strlit("2");
        reveal_strlit("3");
        reveal_strlit("4");
        reveal_strlit("5");
        reveal_strlit("6");
        reveal_strlit("7");
        reveal_strlit("8");
        reveal_strlit("9");
    }
    if d == 0 {
        "0"
    } else if d == 1 {
        "1"
    } else if d == 2 {
        "2"
    } else if d == 3 {
        "3"
    } else if d == 4 {
        "4"
    } else if d == 5 {
        "5"
    } else if d == 6 {
        "6"
    } else if d == 7 {
        "7"
    } else if d == 8 {
        "8"
    } else {
        "9"
    }
}

/// Renders an unsigned integer as decimal text.
pub fn u64_to_string(n: u64) -> (s: String)
    ensures
        s@ == dec_chars(n as int),
    decreases n,
{
    if n < 10 {
        String::from_str(digit_str(n))
    } else {
        let mut s = u64_to_string(n / 10);
        s.append(digit_str(n % 10));
        proof {
            assert(s@ =~= dec_chars(n as int / 10).push(dec_digit(n as int % 10)));
        }
        s
    }
}

/// Renders a machine-word index as decimal text.
pub fn usize_to_string(n: usize) -> (s: String)
    ensures
        s@ == dec_chars(n as int),
{
    u64_to_string(n as u64)
}

/// Renders a signed integer as decimal text, `-`-prefixed when negative.
pub fn i64_to_string(n: i64) -> (s: String)
    ensures
        s@ == int_chars(n as int),
{
    if n >= 0 {
        u64_to_string(n as u64)
    } else {
        let wide: i128 = n as i128;
        let mag: u64 = (-wide) as u64;
        assert(mag as int == -(n as int));
        let mut s = String::from_str("-");
        s.append(u64_to_string(mag).as_str());
        proof {
            reveal_strlit("-");
            assert(s@ =~= seq!['-'] + dec_chars(-(n as int)));
        }
        s
    }
}

/// Relies on std's `String::from(char)`: the one-character string holding
/// exactly the given character.
#[verifier::external_body]
pub fn char_to_string(c: char) -> (s: String)
    ensures
        s@ =~= seq![c],
{
    String::from(c)
}

/// Relies on std's `str::from_utf8`: succeeds exactly on valid UTF-8 input
/// and returns the string whose UTF-8 encoding is that input.
#[verifier::external_body]
pub fn bytes_to_string(v: &Vec<u8>) -> (r: Option<String>)
    ensures
        match r {
            Some(s) => vstd::utf8::valid_utf8(v@) && s@ == vstd::utf8::decode_utf8(v@),
            None => !vstd::utf8::valid_utf8(v@),
        },
{
    match std::str::from_utf8(v.as_slice()) {
        Ok(s) => Some(s.to_string()),
        Err(_) => None,
    }
}

} // verus!
