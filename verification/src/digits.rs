//! Decimal rendering of integers as character sequences.
//!
//! The ledger renders integers in decimal in two places: the proof-of-work
//! predicate hashes the concatenated decimal strings of two proofs, and the
//! canonical snapshot encoding writes every numeric field in decimal.

use vstd::prelude::*;

verus! {

/// The decimal digit character for a value below ten.
pub open spec fn digit_char(d: int) -> char {
    if d == 0 {
        '0'
    } else if d == 1 {
        '1'
    } else if d == 2 {
        '2'
    } else if d == 3 {
        '3'
    } else if d == 4 {
        '4'
    } else if d == 5 {
        '5'
    } else if d == 6 {
        '6'
    } else if d == 7 {
        '7'
    } else if d == 8 {
        '8'
    } else {
        '9'
    }
}

/// The decimal rendering of a natural number, most significant digit first,
/// with no leading zeros (zero itself renders as "0").
pub open spec fn dec_str(n: nat) -> Seq<char>
    decreases n,
{
    if n < 10 {
        seq![digit_char(n as int)]
    } else {
        dec_str(n / 10) + seq![digit_char((n % 10) as int)]
    }
}

/// The decimal rendering of a (possibly negative) integer: a leading '-'
/// before the magnitude when the value is below zero.
pub open spec fn dec_str_int(n: int) -> Seq<char> {
    if n < 0 {
        seq!['-'] + dec_str((-n) as nat)
    } else {
        dec_str(n as nat)
    }
}

/// Whether a character is a decimal digit.
pub open spec fn is_digit(c: char) -> bool {
    '0' <= c && c <= '9'
}

/// The numeric value of a decimal digit character.
pub open spec fn digit_val(c: char) -> int {
    c as int - '0' as int
}

fn digit_exec(d: u64) -> (c: char)
    requires
        d < 10,
    ensures
        c == digit_char(d as int),
{
    if d == 0 {
        '0'
    } else if d == 1 {
        '1'
    } else if d == 2 {
        '2'
    } else if d == 3 {
        '3'
    } else if d == 4 {
        '4'
    } else if d == 5 {
        '5'
    } else if d == 6 {
        '6'
    } else if d == 7 {
        '7'
    } else if d == 8 {
        '8'
    } else {
        '9'
    }
}

/// Renders an unsigned integer in decimal.
pub fn dec_u64(n: u64) -> (r: Vec<char>)
    ensures
        r@ == dec_str(n as nat),
    decreases n,
{
    if n < 10 {
        let mut r: Vec<char> = Vec::new();
        r.push(digit_exec(n));
        assert(r@ =~= dec_str(n as nat));
        r
    } else {
        let mut r = dec_u64(n / 10);
        r.push(digit_exec(n % 10));
        assert(r@ =~= dec_str(n as nat));
        r
    }
}

/// Renders a signed integer in decimal.
pub fn dec_i64(n: i64) -> (r: Vec<char>)
    ensures
        r@ == dec_str_int(n as int),
{
    if n >= 0 {
        dec_u64(n as u64)
    } else {
        let m: u64 = if n == i64::MIN {
            0x8000_0000_0000_0000
        } else {
            (-n) as u64
        };
        assert(m as nat == (-(n as int)) as nat);
        let mut r: Vec<char> = Vec::new();
        r.push('-');
        let mut digits = dec_u64(m);
        r.append(&mut digits);
        assert(r@ =~= dec_str_int(n as int));
        r
    }
}

/// Every character of a decimal rendering is a digit.
pub proof fn lemma_dec_str_digits(n: nat)
    ensures
        dec_str(n).len() >= 1,
        forall|i: int| 0 <= i < dec_str(n).len() ==> is_digit(#[trigger] dec_str(n)[i]),
    decreases n,
{
    if n >= 10 {
        lemma_dec_str_digits(n / 10);
    }
}

/// The numeric value of a digit sequence, most significant digit first.
pub open spec fn digits_val(s: Seq<char>) -> int
    decreases s.len(),
{
    if s.len() == 0 {
        0
    } else {
        digits_val(s.drop_last()) * 10 + digit_val(s.last())
    }
}

/// Reading the decimal rendering of a number back yields the number.
pub proof fn lemma_digits_val_dec_str(n: nat)
    ensures
        digits_val(dec_str(n)) == n,
    decreases n,
{
    if n < 10 {
        assert(dec_str(n) =~= seq![digit_char(n as int)]);
        assert(digits_val(seq![digit_char(n as int)].drop_last()) == 0);
    } else {
        lemma_digits_val_dec_str(n / 10);
        assert(dec_str(n).drop_last() =~= dec_str(n / 10));
        assert(dec_str(n).last() == digit_char((n % 10) as int));
    }
}

} // verus!
