//! Lowercase hexadecimal encoding of bytes, and its inverse.
//!
//! The binary address travels as a hexadecimal string of byte pairs; the
//! snapshot encoding escapes control characters with two hexadecimal digits.

use vstd::prelude::*;
use crate::digest::{hex_lower, is_hex_lower_char};

verus! {

/// The lowercase hexadecimal digit character for a value below sixteen.
pub open spec fn hex_char(d: int) -> char {
    if d == 0 {
        '0'
    } else if d == 1 {
        '1'
    } else if d == 2 {
        '2'
    } else if d == 3 {
        '3'
    } else if d == 4 {
        '4'
    } else if d == 5 {
        '5'
    } else if d == 6 {
        '6'
    } else if d == 7 {
        '7'
    } else if d == 8 {
        '8'
    } else if d == 9 {
        '9'
    } else if d == 10 {
        'a'
    } else if d == 11 {
        'b'
    } else if d == 12 {
        'c'
    } else if d == 13 {
        'd'
    } else if d == 14 {
        'e'
    } else {
        'f'
    }
}

/// The numeric value of a lowercase hexadecimal digit character.
pub open spec fn hex_val(c: char) -> int {
    if '0' <= c && c <= '9' {
        c as int - '0' as int
    } else {
        c as int - 'a' as int + 10
    }
}

pub proof fn lemma_hex_char_val(d: int)
    requires
        0 <= d < 16,
    ensures
        hex_val(hex_char(d)) == d,
        is_hex_lower_char(hex_char(d)),
{
}

pub proof fn lemma_hex_val_char(c: char)
    requires
        is_hex_lower_char(c),
    ensures
        hex_char(hex_val(c)) == c,
        0 <= hex_val(c) < 16,
{
}

/// The hexadecimal rendering of a byte sequence: two lowercase digits per
/// byte, high digit first.
pub open spec fn bytes_hex(s: Seq<u8>) -> Seq<char> {
    Seq::new(
        s.len() * 2,
        |i: int|
            if i % 2 == 0 {
                hex_char(s[i / 2] as int / 16)
            } else {
                hex_char(s[i / 2] as int % 16)
            },
    )
}

/// The bytes read from a sequence of hexadecimal digit pairs.
pub open spec fn hex_pairs_to_bytes(h: Seq<char>) -> Seq<u8> {
    Seq::new(h.len() / 2, |i: int| (hex_val(h[2 * i]) * 16 + hex_val(h[2 * i + 1])) as u8)
}

/// Rendering the bytes read from hexadecimal digit pairs yields the pairs.
pub proof fn lemma_hex_round_trip_rev(h: Seq<char>)
    requires
        h.len() % 2 == 0,
        hex_lower(h),
    ensures
        bytes_hex(hex_pairs_to_bytes(h)) == h,
{
    let s = hex_pairs_to_bytes(h);
    assert forall|i: int| 0 <= i < bytes_hex(s).len() implies bytes_hex(s)[i] == h[i] by {
        let j = i / 2;
        lemma_hex_val_char(h[2 * j]);
        lemma_hex_val_char(h[2 * j + 1]);
        assert(s[j] == (hex_val(h[2 * j]) * 16 + hex_val(h[2 * j + 1])) as u8);
        if i % 2 == 0 {
            assert(2 * j == i);
            assert(s[j] as int / 16 == hex_val(h[i]));
        } else {
            assert(2 * j + 1 == i);
            assert(s[j] as int % 16 == hex_val(h[i]));
        }
    }
    assert(bytes_hex(s) =~= h);
}

pub fn hex_char_exec(d: u8) -> (c: char)
    requires
        d < 16,
    ensures
        c == hex_char(d as int),
{
    if d == 0 {
        '0'
    } else if d == 1 {
        '1'
    } else if d == 2 {
        '2'
    } else if d == 3 {
        '3'
    } else if d == 4 {
        '4'
    } else if d == 5 {
        '5'
    } else if d == 6 {
        '6'
    } else if d == 7 {
        '7'
    } else if d == 8 {
        '8'
    } else if d == 9 {
        '9'
    } else if d == 10 {
        'a'
    } else if d == 11 {
        'b'
    } else if d == 12 {
        'c'
    } else if d == 13 {
        'd'
    } else if d == 14 {
        'e'
    } else {
        'f'
    }
}

/// Renders a byte vector in lowercase hexadecimal.
pub fn bytes_to_hex(v: &Vec<u8>) -> (r: Vec<char>)
    ensures
        r@ == bytes_hex(v@),
{
    let mut r: Vec<char> = Vec::new();
    let mut i: usize = 0;
    while i < v.len()
        invariant
            i <= v@.len(),
            r@ =~= bytes_hex(v@.take(i as int)),
        decreases v@.len() - i,
    {
        let b = v[i];
        r.push(hex_char_exec(b / 16));
        r.push(hex_char_exec(b % 16));
        assert(r@ =~= bytes_hex(v@.take(i as int + 1)));
        i = i + 1;
    }
    assert(r@ =~= bytes_hex(v@));
    r
}

pub fn hex_val_exec(c: char) -> (d: u8)
    requires
        is_hex_lower_char(c),
    ensures
        d == hex_val(c),
        d < 16,
{
    proof {
        lemma_hex_val_char(c);
    }
    if c <= '9' {
        (c as u8) - ('0' as u8)
    } else {
        (c as u8) - ('a' as u8) + 10
    }
}

/// Whether a character is a lowercase hexadecimal digit.
pub fn is_hex_lower_exec(c: char) -> (r: bool)
    ensures
        r == is_hex_lower_char(c),
{
    ('0' <= c && c <= '9') || ('a' <= c && c <= 'f')
}

/// Reads a vector of hexadecimal digit pairs back into bytes.
pub fn hex_to_bytes(h: &Vec<char>) -> (r: Vec<u8>)
    requires
        h@.len() % 2 == 0,
        hex_lower(h@),
    ensures
        r@ == hex_pairs_to_bytes(h@),
{
    let mut r: Vec<u8> = Vec::new();
    let mut i: usize = 0;
    while i + 1 < h.len()
        invariant
            i <= h@.len(),
            i % 2 == 0,
            h@.len() % 2 == 0,
            hex_lower(h@),
            r@ =~= hex_pairs_to_bytes(h@.take(i as int)),
        decreases h@.len() - i,
    {
        let hi = hex_val_exec(h[i]);
        let lo = hex_val_exec(h[i + 1]);
        r.push(hi * 16 + lo);
        assert(r@ =~= hex_pairs_to_bytes(h@.take(i as int + 2)));
        i = i + 2;
    }
    assert(r@ =~= hex_pairs_to_bytes(h@));
    r
}

} // verus!
