//! The canonical snapshot decoding: the exact inverse of the encoding.
//!
//! Each value of the snapshot shape has one rendering; these parsers read
//! that rendering back, and reading the rendering of any value yields the
//! value and leaves the rest of the input untouched.

use vstd::prelude::*;
use crate::digest::is_hex_lower_char;
use crate::digits::{
    dec_str, dec_str_int, digit_val, digits_val, is_digit, lemma_dec_str_digits,
    lemma_digits_val_dec_str,
};
use crate::hex::{hex_char, hex_val, lemma_hex_char_val};
use crate::json::{
    lit_amount_vec, lit_current_transactions_vec, lit_nodes_key_vec, lit_obj_chain_vec,
    lit_obj_index_vec, lit_obj_sender_vec, lit_previous_hash_vec, lit_proof_key_vec,
    lit_recipient_vec, lit_timestamp_vec, lit_transactions_vec,
    block_json, block_list_json, esc_char, join_comma, json_escape, json_string, ledger_json,
    lit_amount, lit_current_transactions, lit_nodes_key, lit_obj_chain,
    lit_obj_index, lit_obj_sender, lit_previous_hash, lit_proof_key, lit_recipient,
    lit_timestamp, lit_transactions, nodes_json, tx_json, tx_list_json,
};
use crate::ledger::{Block, BlockView, Blockchain, BlockchainView, Transaction, TransactionView, genesis_block, view_blocks, view_strings, view_txs};
use crate::text::{chars_to_string, str_to_chars};

verus! {

/// The longest run of decimal digits at the head of the input.
pub open spec fn leading_digits(s: Seq<char>) -> Seq<char>
    decreases s.len(),
{
    if s.len() > 0 && is_digit(s[0]) {
        seq![s[0]] + leading_digits(s.drop_first())
    } else {
        Seq::empty()
    }
}

/// The digit run is a prefix of the input, and the input's next character,
/// if any, is no digit.
pub proof fn lemma_leading_digits_shape(s: Seq<char>)
    ensures
        leading_digits(s).len() <= s.len(),
        leading_digits(s) == s.take(leading_digits(s).len() as int),
        forall|i: int| 0 <= i < leading_digits(s).len() ==> is_digit(#[trigger] s[i]),
        leading_digits(s).len() < s.len() ==> !is_digit(s[leading_digits(s).len() as int]),
    decreases s.len(),
{
    if s.len() > 0 && is_digit(s[0]) {
        lemma_leading_digits_shape(s.drop_first());
        let ds = leading_digits(s);
        assert forall|i: int| 0 <= i < ds.len() implies is_digit(#[trigger] s[i]) by {
            if i > 0 {
                assert(s[i] == s.drop_first()[i - 1]);
                assert(is_digit(leading_digits(s.drop_first())[i - 1]));
                assert(leading_digits(s.drop_first())[i - 1] == s.drop_first().take(
                    leading_digits(s.drop_first()).len() as int,
                )[i - 1]);
            }
        }
        assert(ds =~= s.take(ds.len() as int));
        if ds.len() < s.len() {
            assert(s[ds.len() as int] == s.drop_first()[ds.len() as int - 1]);
        }
    }
}

/// Reading a run of digits followed by anything that starts with no digit
/// finds exactly that run.
pub proof fn lemma_leading_digits_concat(d: Seq<char>, rest: Seq<char>)
    requires
        forall|i: int| 0 <= i < d.len() ==> is_digit(#[trigger] d[i]),
        rest.len() == 0 || !is_digit(rest[0]),
    ensures
        leading_digits(d + rest) == d,
    decreases d.len(),
{
    if d.len() == 0 {
        assert(d + rest =~= rest);
        if rest.len() > 0 {
            assert(leading_digits(rest) =~= Seq::<char>::empty());
        }
        assert(leading_digits(d + rest) =~= d);
    } else {
        assert((d + rest)[0] == d[0]);
        assert((d + rest).drop_first() =~= d.drop_first() + rest);
        lemma_leading_digits_concat(d.drop_first(), rest);
        assert(leading_digits(d + rest) =~= seq![d[0]] + d.drop_first());
        assert(seq![d[0]] + d.drop_first() =~= d);
    }
}

/// The value of a digit run never goes down as the run extends.
pub proof fn lemma_digits_val_bounds(d: Seq<char>, k: int)
    requires
        forall|i: int| 0 <= i < d.len() ==> is_digit(#[trigger] d[i]),
        0 <= k <= d.len(),
    ensures
        digits_val(d.take(k)) >= 0,
        digits_val(d) >= digits_val(d.take(k)),
    decreases d.len() - k, d.len(), 1int,
{
    lemma_digits_val_nonneg(d.take(k));
    if k < d.len() {
        lemma_digits_val_bounds(d, k + 1);
        assert(d.take(k + 1).drop_last() =~= d.take(k));
        lemma_digits_val_nonneg(d.take(k));
    } else {
        assert(d.take(k) =~= d);
    }
}

pub proof fn lemma_digits_val_nonneg(d: Seq<char>)
    requires
        forall|i: int| 0 <= i < d.len() ==> is_digit(#[trigger] d[i]),
    ensures
        digits_val(d) >= 0,
    decreases d.len(),
{
    if d.len() > 0 {
        assert(is_digit(d.last()));
        lemma_digits_val_nonneg(d.drop_last());
    }
}

/// What reading an unsigned decimal number yields: the value of the leading
/// digit run and the rest of the input, when there is a run and its value
/// fits the word.
pub open spec fn spec_parse_u64(s: Seq<char>) -> Option<(u64, Seq<char>)> {
    let ds = leading_digits(s);
    if ds.len() == 0 {
        None
    } else if digits_val(ds) > u64::MAX {
        None
    } else {
        Some((digits_val(ds) as u64, s.skip(ds.len() as int)))
    }
}

/// Reading the rendering of an unsigned number back yields the number.
pub proof fn lemma_parse_u64_complete(n: u64, rest: Seq<char>)
    requires
        rest.len() == 0 || !is_digit(rest[0]),
    ensures
        spec_parse_u64(dec_str(n as nat) + rest) == Some((n, rest)),
{
    lemma_dec_str_digits(n as nat);
    lemma_leading_digits_concat(dec_str(n as nat), rest);
    lemma_digits_val_dec_str(n as nat);
    assert((dec_str(n as nat) + rest).skip(dec_str(n as nat).len() as int) =~= rest);
}

/// What reading a signed decimal number yields: a minus sign, if any, then
/// an unsigned run, when the signed value fits the word.
pub open spec fn spec_parse_i64(s: Seq<char>) -> Option<(i64, Seq<char>)> {
    if s.len() > 0 && s[0] == '-' {
        match spec_parse_u64(s.drop_first()) {
            Some((v, r)) => if v <= 0x8000_0000_0000_0000u64 {
                Some(((-(v as int)) as i64, r))
            } else {
                None
            },
            None => None,
        }
    } else {
        match spec_parse_u64(s) {
            Some((v, r)) => if v <= i64::MAX as u64 {
                Some((v as i64, r))
            } else {
                None
            },
            None => None,
        }
    }
}

/// Reading the rendering of a signed number back yields the number.
pub proof fn lemma_parse_i64_complete(n: i64, rest: Seq<char>)
    requires
        rest.len() == 0 || !is_digit(rest[0]),
    ensures
        spec_parse_i64(dec_str_int(n as int) + rest) == Some((n, rest)),
{
    if n >= 0 {
        lemma_parse_u64_complete(n as u64, rest);
        assert(dec_str_int(n as int) =~= dec_str(n as u64 as nat));
        lemma_dec_str_digits(n as u64 as nat);
        assert((dec_str(n as u64 as nat) + rest)[0] == dec_str(n as u64 as nat)[0]);
    } else {
        let m = (-(n as int)) as nat;
        let mw = m as u64;
        assert(m <= 0x8000_0000_0000_0000nat);
        lemma_parse_u64_complete(mw, rest);
        let s = dec_str_int(n as int) + rest;
        assert(s[0] == '-');
        assert(s.drop_first() =~= dec_str(m) + rest);
        assert(dec_str(mw as nat) =~= dec_str(m));
    }
}

/// What expecting a fixed literal yields: the rest of the input after the
/// literal, when the input starts with it.
pub open spec fn expect(s: Seq<char>, lit: Seq<char>) -> Option<Seq<char>> {
    if lit.len() <= s.len() && s.take(lit.len() as int) == lit {
        Some(s.skip(lit.len() as int))
    } else {
        None
    }
}

/// Expecting a literal at the head of the input finds it.
pub proof fn lemma_expect_complete(lit: Seq<char>, rest: Seq<char>)
    ensures
        expect(lit + rest, lit) == Some(rest),
{
    assert((lit + rest).take(lit.len() as int) =~= lit);
    assert((lit + rest).skip(lit.len() as int) =~= rest);
}

/// The character a short escape stands for.
pub open spec fn unescape_short(e: char) -> char {
    if e == '"' {
        '"'
    } else if e == '\\' {
        '\\'
    } else if e == 'b' {
        '\u{8}'
    } else if e == 't' {
        '\t'
    } else if e == 'n' {
        '\n'
    } else if e == 'f' {
        '\u{c}'
    } else {
        '\r'
    }
}

/// Whether a character is one of the short escape markers.
pub open spec fn is_short_escape(e: char) -> bool {
    e == '"' || e == '\\' || e == 'b' || e == 't' || e == 'n' || e == 'f' || e == 'r'
}

/// What reading a string body yields: the characters up to the closing
/// quote, with every escape resolved, and the rest of the input after the
/// quote.
pub open spec fn spec_parse_str_body(s: Seq<char>) -> Option<(Seq<char>, Seq<char>)>
    decreases s.len(),
{
    if s.len() == 0 {
        None
    } else if s[0] == '"' {
        Some((Seq::empty(), s.drop_first()))
    } else if s[0] == '\\' {
        if s.len() < 2 {
            None
        } else if is_short_escape(s[1]) {
            match spec_parse_str_body(s.skip(2)) {
                Some((t, r)) => Some((seq![unescape_short(s[1])] + t, r)),
                None => None,
            }
        } else if s[1] == 'u' {
            if s.len() >= 6 && s[2] == '0' && s[3] == '0' && is_hex_lower_char(s[4])
                && is_hex_lower_char(s[5]) && 16 * hex_val(s[4]) + hex_val(s[5]) < 0x20 {
                match spec_parse_str_body(s.skip(6)) {
                    Some(
                        (t, r),
                    ) => Some((seq![((16 * hex_val(s[4]) + hex_val(s[5])) as u8) as char] + t, r)),
                    None => None,
                }
            } else {
                None
            }
        } else {
            None
        }
    } else {
        match spec_parse_str_body(s.drop_first()) {
            Some((t, r)) => Some((seq![s[0]] + t, r)),
            None => None,
        }
    }
}

/// What reading a quoted string yields.
pub open spec fn spec_parse_string(s: Seq<char>) -> Option<(Seq<char>, Seq<char>)> {
    if s.len() >= 1 && s[0] == '"' {
        spec_parse_str_body(s.drop_first())
    } else {
        None
    }
}

/// Reading the rendering of a string's characters, plus the closing quote,
/// yields the characters.
pub proof fn lemma_parse_str_body_complete(t: Seq<char>, rest: Seq<char>)
    ensures
        spec_parse_str_body(json_escape(t) + seq!['"'] + rest) == Some((t, rest)),
    decreases t.len(),
{
    let s = json_escape(t) + seq!['"'] + rest;
    if t.len() == 0 {
        assert(json_escape(t) =~= Seq::<char>::empty());
        assert(s =~= seq!['"'] + rest);
        assert(s[0] == '"');
        assert(s.drop_first() =~= rest);
    } else {
        let c = t[0];
        let e = esc_char(c);
        assert(json_escape(t) == e + json_escape(t.drop_first()));
        lemma_parse_str_body_complete(t.drop_first(), rest);
        let inner = json_escape(t.drop_first()) + seq!['"'] + rest;
        assert(s =~= e + inner);
        if c == '"' || c == '\\' || c == '\u{8}' || c == '\t' || c == '\n' || c == '\u{c}'
            || c == '\r' {
            assert(e.len() == 2);
            assert(s[0] == '\\');
            assert(is_short_escape(s[1]));
            assert(unescape_short(s[1]) == c);
            assert(s.skip(2) =~= inner);
            assert(seq![c] + t.drop_first() =~= t);
        } else if 0 <= c as int && (c as int) < 0x20 {
            assert(e.len() == 6);
            assert(s[0] == '\\' && s[1] == 'u' && s[2] == '0' && s[3] == '0');
            assert(s[4] == hex_char(c as int / 16) && s[5] == hex_char(c as int % 16));
            lemma_hex_char_val(c as int / 16);
            lemma_hex_char_val(c as int % 16);
            assert(16 * hex_val(s[4]) + hex_val(s[5]) == c as int);
            assert(!is_short_escape(s[1]));
            assert(s.skip(6) =~= inner);
            assert((((c as int) as u8) as char) == c);
            assert(seq![c] + t.drop_first() =~= t);
        } else {
            assert(e =~= seq![c]);
            assert(s[0] == c);
            assert(c != '"' && c != '\\');
            assert(s.drop_first() =~= inner);
            assert(seq![c] + t.drop_first() =~= t);
        }
    }
}

/// Reading the rendering of a string value yields the string.
pub proof fn lemma_parse_string_complete(t: Seq<char>, rest: Seq<char>)
    ensures
        spec_parse_string(json_string(t) + rest) == Some((t, rest)),
{
    let s = json_string(t) + rest;
    assert(s[0] == '"');
    assert(s.drop_first() =~= json_escape(t) + seq!['"'] + rest);
    lemma_parse_str_body_complete(t, rest);
}

/// A string body always consumes at least its closing quote.
pub proof fn lemma_parse_str_body_consumes(s: Seq<char>)
    ensures
        spec_parse_str_body(s) matches Some((t, r)) ==> r.len() < s.len(),
    decreases s.len(),
{
    if s.len() == 0 {
    } else if s[0] == '"' {
    } else if s[0] == '\\' {
        if s.len() >= 2 {
            if is_short_escape(s[1]) {
                lemma_parse_str_body_consumes(s.skip(2));
            } else if s[1] == 'u' {
                if s.len() >= 6 {
                    lemma_parse_str_body_consumes(s.skip(6));
                }
            }
        }
    } else {
        lemma_parse_str_body_consumes(s.drop_first());
    }
}

/// Any winning read of a string body consumes at least its closing quote.
pub proof fn lemma_parse_string_consumes(s: Seq<char>)
    ensures
        spec_parse_string(s) matches Some((t, r)) ==> r.len() < s.len(),
{
    if s.len() >= 1 && s[0] == '"' {
        lemma_parse_str_body_consumes(s.drop_first());
    }
}

/// Any winning read of an unsigned number consumes at least one digit.
pub proof fn lemma_parse_u64_consumes(s: Seq<char>)
    ensures
        spec_parse_u64(s) matches Some((n, r)) ==> r.len() < s.len(),
{
    lemma_leading_digits_shape(s);
}

/// Any winning read of a signed number consumes at least one character.
pub proof fn lemma_parse_i64_consumes(s: Seq<char>)
    ensures
        spec_parse_i64(s) matches Some((n, r)) ==> r.len() < s.len(),
{
    if s.len() > 0 && s[0] == '-' {
        lemma_parse_u64_consumes(s.drop_first());
    } else {
        lemma_parse_u64_consumes(s);
    }
}

/// What reading a transaction yields: its three fields between the fixed
/// keys, in the canonical field order.
pub open spec fn spec_parse_tx(s: Seq<char>) -> Option<(TransactionView, Seq<char>)> {
    match expect(s, lit_obj_sender()) {
        None => None,
        Some(s1) => match spec_parse_string(s1) {
            None => None,
            Some((sender, s2)) => match expect(s2, lit_recipient()) {
                None => None,
                Some(s3) => match spec_parse_string(s3) {
                    None => None,
                    Some((recipient, s4)) => match expect(s4, lit_amount()) {
                        None => None,
                        Some(s5) => match spec_parse_i64(s5) {
                            None => None,
                            Some((amount, s6)) => match expect(s6, seq!['}']) {
                                None => None,
                                Some(
                                    s7,
                                ) => Some((TransactionView { sender, recipient, amount }, s7)),
                            },
                        },
                    },
                },
            },
        },
    }
}

/// Reading the rendering of a transaction back yields the transaction.
pub proof fn lemma_parse_tx_complete(t: TransactionView, rest: Seq<char>)
    ensures
        spec_parse_tx(tx_json(t) + rest) == Some((t, rest)),
{
    let s = tx_json(t) + rest;
    let p6 = seq!['}'] + rest;
    let p5 = dec_str_int(t.amount as int) + p6;
    let p4 = lit_amount() + p5;
    let p3 = json_string(t.recipient) + p4;
    let p2 = lit_recipient() + p3;
    let p1 = json_string(t.sender) + p2;
    assert(s =~= lit_obj_sender() + p1);
    lemma_expect_complete(lit_obj_sender(), p1);
    lemma_parse_string_complete(t.sender, p2);
    lemma_expect_complete(lit_recipient(), p3);
    lemma_parse_string_complete(t.recipient, p4);
    lemma_expect_complete(lit_amount(), p5);
    assert(p6[0] == '}');
    lemma_parse_i64_complete(t.amount, p6);
    lemma_expect_complete(seq!['}'], rest);
}

/// Any winning read of a transaction consumes at least its opening brace.
pub proof fn lemma_parse_tx_consumes(s: Seq<char>)
    ensures
        spec_parse_tx(s) matches Some((t, r)) ==> r.len() < s.len(),
{
    match expect(s, lit_obj_sender()) {
        None => {},
        Some(s1) => {
            lemma_parse_string_consumes(s1);
            match spec_parse_string(s1) {
                None => {},
                Some((sender, s2)) => match expect(s2, lit_recipient()) {
                    None => {},
                    Some(s3) => {
                        lemma_parse_string_consumes(s3);
                        match spec_parse_string(s3) {
                            None => {},
                            Some((recipient, s4)) => match expect(s4, lit_amount()) {
                                None => {},
                                Some(s5) => {
                                    lemma_parse_i64_consumes(s5);
                                },
                            },
                        }
                    },
                },
            }
        },
    }
}

/// What reading a transaction list yields: the transactions between the
/// brackets, in order.
pub open spec fn spec_parse_tx_items(s: Seq<char>) -> Option<(Seq<TransactionView>, Seq<char>)>
    decreases s.len(),
    via spec_parse_tx_items_dec
{
    match spec_parse_tx(s) {
        None => None,
        Some((t, r)) => if r.len() == 0 {
            None
        } else if r[0] == ',' {
            match spec_parse_tx_items(r.drop_first()) {
                None => None,
                Some((ts, r2)) => Some((seq![t] + ts, r2)),
            }
        } else if r[0] == ']' {
            Some((seq![t], r.drop_first()))
        } else {
            None
        },
    }
}

#[via_fn]
proof fn spec_parse_tx_items_dec(s: Seq<char>) {
    lemma_parse_tx_consumes(s);
}

pub open spec fn spec_parse_tx_list(s: Seq<char>) -> Option<(Seq<TransactionView>, Seq<char>)> {
    match expect(s, seq!['[']) {
        None => None,
        Some(s1) => if s1.len() > 0 && s1[0] == ']' {
            Some((Seq::empty(), s1.drop_first()))
        } else {
            spec_parse_tx_items(s1)
        },
    }
}

/// Reading comma-joined transaction renderings up to the closing bracket
/// yields the transactions.
#[verifier::rlimit(100)]
pub proof fn lemma_parse_tx_items_complete(ts: Seq<TransactionView>, rest: Seq<char>)
    requires
        ts.len() >= 1,
    ensures
        spec_parse_tx_items(
            join_comma(ts.map_values(|t: TransactionView| tx_json(t))) + seq![']'] + rest,
        ) == Some((ts, rest)),
    decreases ts.len(),
{
    let f = |t: TransactionView| tx_json(t);
    let s = join_comma(ts.map_values(f)) + seq![']'] + rest;
    if ts.len() == 1 {
        assert(join_comma(ts.map_values(f)) == ts.map_values(f)[0]);
        assert(s =~= tx_json(ts[0]) + (seq![']'] + rest));
        lemma_parse_tx_complete(ts[0], seq![']'] + rest);
        let r = seq![']'] + rest;
        assert(r[0] == ']');
        assert(r.drop_first() =~= rest);
        assert(seq![ts[0]] =~= ts);
    } else {
        assert(ts.map_values(f).drop_first() =~= ts.drop_first().map_values(f));
        assert(join_comma(ts.map_values(f)) == tx_json(ts[0]) + seq![','] + join_comma(
            ts.drop_first().map_values(f),
        ));
        let inner = join_comma(ts.drop_first().map_values(f)) + seq![']'] + rest;
        let r = seq![','] + inner;
        assert(s =~= tx_json(ts[0]) + r);
        lemma_parse_tx_complete(ts[0], r);
        assert(r[0] == ',');
        assert(r.drop_first() =~= inner);
        lemma_parse_tx_items_complete(ts.drop_first(), rest);
        assert(seq![ts[0]] + ts.drop_first() =~= ts);
    }
}

/// Reading the rendering of a transaction list yields the list.
pub proof fn lemma_parse_tx_list_complete(ts: Seq<TransactionView>, rest: Seq<char>)
    ensures
        spec_parse_tx_list(tx_list_json(ts) + rest) == Some((ts, rest)),
{
    let f = |t: TransactionView| tx_json(t);
    let s = tx_list_json(ts) + rest;
    if ts.len() == 0 {
        assert(ts.map_values(f).len() == 0);
        assert(join_comma(ts.map_values(f)) == Seq::<char>::empty());
        assert(s =~= seq!['['] + (seq![']'] + rest));
        lemma_expect_complete(seq!['['], seq![']'] + rest);
        assert((seq![']'] + rest)[0] == ']');
        assert((seq![']'] + rest).drop_first() =~= rest);
        assert(Seq::<TransactionView>::empty() =~= ts);
    } else {
        let inner = join_comma(ts.map_values(f)) + seq![']'] + rest;
        assert(s =~= seq!['['] + inner);
        lemma_expect_complete(seq!['['], inner);
        lemma_parse_tx_items_complete(ts, rest);
        assert(inner[0] == '{') by {
            assert(join_comma(ts.map_values(f))[0] == tx_json(ts[0])[0]);
            assert(tx_json(ts[0])[0] == lit_obj_sender()[0]);
        }
    }
}

/// What reading a block yields: its five fields between the fixed keys, in
/// the canonical field order.
pub open spec fn spec_parse_block(s: Seq<char>) -> Option<(BlockView, Seq<char>)> {
    match expect(s, lit_obj_index()) {
        None => None,
        Some(s1) => match spec_parse_u64(s1) {
            None => None,
            Some((index, s2)) => match expect(s2, lit_timestamp()) {
                None => None,
                Some(s3) => match spec_parse_u64(s3) {
                    None => None,
                    Some((timestamp, s4)) => match expect(s4, lit_transactions()) {
                        None => None,
                        Some(s5) => match spec_parse_tx_list(s5) {
                            None => None,
                            Some((transactions, s6)) => match expect(s6, lit_proof_key()) {
                                None => None,
                                Some(s7) => match spec_parse_u64(s7) {
                                    None => None,
                                    Some((proof, s8)) => match expect(s8, lit_previous_hash()) {
                                        None => None,
                                        Some(s9) => match spec_parse_string(s9) {
                                            None => None,
                                            Some(
                                                (previous_hash, s10),
                                            ) => match expect(s10, seq!['}']) {
                                                None => None,
                                                Some(s11) => Some(
                                                    (
                                                        BlockView {
                                                            index,
                                                            timestamp,
                                                            transactions,
                                                            proof,
                                                            previous_hash,
                                                        },
                                                        s11,
                                                    ),
                                                ),
                                            },
                                        },
                                    },
                                },
                            },
                        },
                    },
                },
            },
        },
    }
}

/// Reading the rendering of a block back yields the block.
#[verifier::rlimit(100)]
pub proof fn lemma_parse_block_complete(b: BlockView, rest: Seq<char>)
    ensures
        spec_parse_block(block_json(b) + rest) == Some((b, rest)),
{
    let s = block_json(b) + rest;
    let p10 = seq!['}'] + rest;
    let p9 = json_string(b.previous_hash) + p10;
    let p8 = lit_previous_hash() + p9;
    let p7 = dec_str(b.proof as nat) + p8;
    let p6 = lit_proof_key() + p7;
    let p5 = tx_list_json(b.transactions) + p6;
    let p4 = lit_transactions() + p5;
    let p3 = dec_str(b.timestamp as nat) + p4;
    let p2 = lit_timestamp() + p3;
    let p1 = dec_str(b.index as nat) + p2;
    assert(s =~= lit_obj_index() + p1);
    lemma_expect_complete(lit_obj_index(), p1);
    assert(p2[0] == ',');
    lemma_parse_u64_complete(b.index, p2);
    lemma_expect_complete(lit_timestamp(), p3);
    assert(p4[0] == ',');
    lemma_parse_u64_complete(b.timestamp, p4);
    lemma_expect_complete(lit_transactions(), p5);
    lemma_parse_tx_list_complete(b.transactions, p6);
    lemma_expect_complete(lit_proof_key(), p7);
    assert(p8[0] == ',');
    lemma_parse_u64_complete(b.proof, p8);
    lemma_expect_complete(lit_previous_hash(), p9);
    lemma_parse_string_complete(b.previous_hash, p10);
    lemma_expect_complete(seq!['}'], rest);
}

/// A winning read of a transaction list consumes at least its brackets.
pub proof fn lemma_parse_tx_items_consumes(s: Seq<char>)
    ensures
        spec_parse_tx_items(s) matches Some((ts, r)) ==> r.len() < s.len(),
    decreases s.len(),
{
    lemma_parse_tx_consumes(s);
    match spec_parse_tx(s) {
        None => {},
        Some((t, r)) => {
            if r.len() > 0 && r[0] == ',' {
                lemma_parse_tx_items_consumes(r.drop_first());
            }
        },
    }
}

pub proof fn lemma_parse_tx_list_consumes(s: Seq<char>)
    ensures
        spec_parse_tx_list(s) matches Some((ts, r)) ==> r.len() < s.len(),
{
    match expect(s, seq!['[']) {
        None => {},
        Some(s1) => {
            lemma_parse_tx_items_consumes(s1);
        },
    }
}

/// Any winning read of a block consumes at least its braces.
pub proof fn lemma_parse_block_consumes(s: Seq<char>)
    ensures
        spec_parse_block(s) matches Some((b, r)) ==> r.len() < s.len(),
{
    match expect(s, lit_obj_index()) {
        None => {},
        Some(s1) => {
            lemma_parse_u64_consumes(s1);
            match spec_parse_u64(s1) {
                None => {},
                Some((index, s2)) => match expect(s2, lit_timestamp()) {
                    None => {},
                    Some(s3) => {
                        lemma_parse_u64_consumes(s3);
                        match spec_parse_u64(s3) {
                            None => {},
                            Some((timestamp, s4)) => match expect(s4, lit_transactions()) {
                                None => {},
                                Some(s5) => {
                                    lemma_parse_tx_list_consumes(s5);
                                    match spec_parse_tx_list(s5) {
                                        None => {},
                                        Some((transactions, s6)) => match expect(
                                            s6,
                                            lit_proof_key(),
                                        ) {
                                            None => {},
                                            Some(s7) => {
                                                lemma_parse_u64_consumes(s7);
                                                match spec_parse_u64(s7) {
                                                    None => {},
                                                    Some((proof, s8)) => match expect(
                                                        s8,
                                                        lit_previous_hash(),
                                                    ) {
                                                        None => {},
                                                        Some(s9) => {
                                                            lemma_parse_string_consumes(s9);
                                                        },
                                                    },
                                                }
                                            },
                                        },
                                    }
                                },
                            },
                        }
                    },
                },
            }
        },
    }
}

/// What reading a block list yields: the blocks between the brackets.
pub open spec fn spec_parse_block_items(s: Seq<char>) -> Option<(Seq<BlockView>, Seq<char>)>
    decreases s.len(),
    via spec_parse_block_items_dec
{
    match spec_parse_block(s) {
        None => None,
        Some((b, r)) => if r.len() == 0 {
            None
        } else if r[0] == ',' {
            match spec_parse_block_items(r.drop_first()) {
                None => None,
                Some((bs, r2)) => Some((seq![b] + bs, r2)),
            }
        } else if r[0] == ']' {
            Some((seq![b], r.drop_first()))
        } else {
            None
        },
    }
}

#[via_fn]
proof fn spec_parse_block_items_dec(s: Seq<char>) {
    lemma_parse_block_consumes(s);
}

pub open spec fn spec_parse_block_list(s: Seq<char>) -> Option<(Seq<BlockView>, Seq<char>)> {
    match expect(s, seq!['[']) {
        None => None,
        Some(s1) => if s1.len() > 0 && s1[0] == ']' {
            Some((Seq::empty(), s1.drop_first()))
        } else {
            spec_parse_block_items(s1)
        },
    }
}

#[verifier::rlimit(100)]
pub proof fn lemma_parse_block_items_complete(bs: Seq<BlockView>, rest: Seq<char>)
    requires
        bs.len() >= 1,
    ensures
        spec_parse_block_items(
            join_comma(bs.map_values(|b: BlockView| block_json(b))) + seq![']'] + rest,
        ) == Some((bs, rest)),
    decreases bs.len(),
{
    let f = |b: BlockView| block_json(b);
    let s = join_comma(bs.map_values(f)) + seq![']'] + rest;
    if bs.len() == 1 {
        assert(join_comma(bs.map_values(f)) == bs.map_values(f)[0]);
        assert(s =~= block_json(bs[0]) + (seq![']'] + rest));
        lemma_parse_block_complete(bs[0], seq![']'] + rest);
        let r = seq![']'] + rest;
        assert(r[0] == ']');
        assert(r.drop_first() =~= rest);
        assert(seq![bs[0]] =~= bs);
    } else {
        assert(bs.map_values(f).drop_first() =~= bs.drop_first().map_values(f));
        assert(join_comma(bs.map_values(f)) == block_json(bs[0]) + seq![','] + join_comma(
            bs.drop_first().map_values(f),
        ));
        let inner = join_comma(bs.drop_first().map_values(f)) + seq![']'] + rest;
        let r = seq![','] + inner;
        assert(s =~= block_json(bs[0]) + r);
        lemma_parse_block_complete(bs[0], r);
        assert(r[0] == ',');
        assert(r.drop_first() =~= inner);
        lemma_parse_block_items_complete(bs.drop_first(), rest);
        assert(seq![bs[0]] + bs.drop_first() =~= bs);
    }
}

/// Reading the rendering of a chain yields the chain.
pub proof fn lemma_parse_block_list_complete(bs: Seq<BlockView>, rest: Seq<char>)
    ensures
        spec_parse_block_list(block_list_json(bs) + rest) == Some((bs, rest)),
{
    let f = |b: BlockView| block_json(b);
    let s = block_list_json(bs) + rest;
    if bs.len() == 0 {
        assert(bs.map_values(f).len() == 0);
        assert(join_comma(bs.map_values(f)) == Seq::<char>::empty());
        assert(s =~= seq!['['] + (seq![']'] + rest));
        lemma_expect_complete(seq!['['], seq![']'] + rest);
        assert((seq![']'] + rest)[0] == ']');
        assert((seq![']'] + rest).drop_first() =~= rest);
        assert(Seq::<BlockView>::empty() =~= bs);
    } else {
        let inner = join_comma(bs.map_values(f)) + seq![']'] + rest;
        assert(s =~= seq!['['] + inner);
        lemma_expect_complete(seq!['['], inner);
        lemma_parse_block_items_complete(bs, rest);
        assert(inner[0] == '{') by {
            assert(join_comma(bs.map_values(f))[0] == block_json(bs[0])[0]);
            assert(block_json(bs[0])[0] == lit_obj_index()[0]);
        }
    }
}

/// What reading the peer list yields: the strings between the brackets.
pub open spec fn spec_parse_node_items(s: Seq<char>) -> Option<(Seq<Seq<char>>, Seq<char>)>
    decreases s.len(),
    via spec_parse_node_items_dec
{
    match spec_parse_string(s) {
        None => None,
        Some((n, r)) => if r.len() == 0 {
            None
        } else if r[0] == ',' {
            match spec_parse_node_items(r.drop_first()) {
                None => None,
                Some((ns, r2)) => Some((seq![n] + ns, r2)),
            }
        } else if r[0] == ']' {
            Some((seq![n], r.drop_first()))
        } else {
            None
        },
    }
}

#[via_fn]
proof fn spec_parse_node_items_dec(s: Seq<char>) {
    lemma_parse_string_consumes(s);
}

pub open spec fn spec_parse_node_list(s: Seq<char>) -> Option<(Seq<Seq<char>>, Seq<char>)> {
    match expect(s, seq!['[']) {
        None => None,
        Some(s1) => if s1.len() > 0 && s1[0] == ']' {
            Some((Seq::empty(), s1.drop_first()))
        } else {
            spec_parse_node_items(s1)
        },
    }
}

pub proof fn lemma_parse_node_items_complete(ns: Seq<Seq<char>>, rest: Seq<char>)
    requires
        ns.len() >= 1,
    ensures
        spec_parse_node_items(
            join_comma(ns.map_values(|n: Seq<char>| json_string(n))) + seq![']'] + rest,
        ) == Some((ns, rest)),
    decreases ns.len(),
{
    let f = |n: Seq<char>| json_string(n);
    let s = join_comma(ns.map_values(f)) + seq![']'] + rest;
    if ns.len() == 1 {
        assert(join_comma(ns.map_values(f)) == ns.map_values(f)[0]);
        assert(s =~= json_string(ns[0]) + (seq![']'] + rest));
        lemma_parse_string_complete(ns[0], seq![']'] + rest);
        let r = seq![']'] + rest;
        assert(r[0] == ']');
        assert(r.drop_first() =~= rest);
        assert(seq![ns[0]] =~= ns);
    } else {
        assert(ns.map_values(f).drop_first() =~= ns.drop_first().map_values(f));
        assert(join_comma(ns.map_values(f)) == json_string(ns[0]) + seq![','] + join_comma(
            ns.drop_first().map_values(f),
        ));
        let inner = join_comma(ns.drop_first().map_values(f)) + seq![']'] + rest;
        let r = seq![','] + inner;
        assert(s =~= json_string(ns[0]) + r);
        lemma_parse_string_complete(ns[0], r);
        assert(r[0] == ',');
        assert(r.drop_first() =~= inner);
        lemma_parse_node_items_complete(ns.drop_first(), rest);
        assert(seq![ns[0]] + ns.drop_first() =~= ns);
    }
}

/// Reading the rendering of the peer list yields the peers.
pub proof fn lemma_parse_node_list_complete(ns: Seq<Seq<char>>, rest: Seq<char>)
    ensures
        spec_parse_node_list(nodes_json(ns) + rest) == Some((ns, rest)),
{
    let f = |n: Seq<char>| json_string(n);
    let s = nodes_json(ns) + rest;
    if ns.len() == 0 {
        assert(ns.map_values(f).len() == 0);
        assert(join_comma(ns.map_values(f)) == Seq::<char>::empty());
        assert(s =~= seq!['['] + (seq![']'] + rest));
        lemma_expect_complete(seq!['['], seq![']'] + rest);
        assert((seq![']'] + rest)[0] == ']');
        assert((seq![']'] + rest).drop_first() =~= rest);
        assert(Seq::<Seq<char>>::empty() =~= ns);
    } else {
        let inner = join_comma(ns.map_values(f)) + seq![']'] + rest;
        assert(s =~= seq!['['] + inner);
        lemma_expect_complete(seq!['['], inner);
        lemma_parse_node_items_complete(ns, rest);
        assert(inner[0] == '"') by {
            assert(join_comma(ns.map_values(f))[0] == json_string(ns[0])[0]);
        }
    }
}

/// What reading a whole ledger snapshot yields: its three parts between the
/// fixed keys, in the canonical field order.
pub open spec fn spec_parse_ledger(s: Seq<char>) -> Option<(BlockchainView, Seq<char>)> {
    match expect(s, lit_obj_chain()) {
        None => None,
        Some(s1) => match spec_parse_block_list(s1) {
            None => None,
            Some((chain, s2)) => match expect(s2, lit_current_transactions()) {
                None => None,
                Some(s3) => match spec_parse_tx_list(s3) {
                    None => None,
                    Some((current_transactions, s4)) => match expect(s4, lit_nodes_key()) {
                        None => None,
                        Some(s5) => match spec_parse_node_list(s5) {
                            None => None,
                            Some((nodes, s6)) => match expect(s6, seq!['}']) {
                                None => None,
                                Some(
                                    s7,
                                ) => Some(
                                    (BlockchainView { chain, current_transactions, nodes }, s7),
                                ),
                            },
                        },
                    },
                },
            },
        },
    }
}

/// The snapshot round trip: reading the rendering of any ledger yields that
/// ledger, with nothing left over, so re-rendering what was read is
/// byte-identical to what was written.
pub proof fn lemma_snapshot_round_trip(l: BlockchainView)
    ensures
        spec_parse_ledger(ledger_json(l)) == Some((l, Seq::<char>::empty())),
{
    let s = ledger_json(l);
    let empty = Seq::<char>::empty();
    let p6 = seq!['}'] + empty;
    let p5 = nodes_json(l.nodes) + p6;
    let p4 = lit_nodes_key() + p5;
    let p3 = tx_list_json(l.current_transactions) + p4;
    let p2 = lit_current_transactions() + p3;
    let p1 = block_list_json(l.chain) + p2;
    assert(s =~= lit_obj_chain() + p1);
    lemma_expect_complete(lit_obj_chain(), p1);
    lemma_parse_block_list_complete(l.chain, p2);
    lemma_expect_complete(lit_current_transactions(), p3);
    lemma_parse_tx_list_complete(l.current_transactions, p4);
    lemma_expect_complete(lit_nodes_key(), p5);
    lemma_parse_node_list_complete(l.nodes, p6);
    lemma_expect_complete(seq!['}'], empty);
    assert(BlockchainView {
        chain: l.chain,
        current_transactions: l.current_transactions,
        nodes: l.nodes,
    } == l);
}

fn digit_at(v: &Vec<char>, i: usize) -> (r: bool)
    requires
        i < v@.len(),
    ensures
        r == is_digit(v@[i as int]),
{
    let c = v[i];
    '0' <= c && c <= '9'
}

fn digit_val_exec(c: char) -> (d: u64)
    requires
        is_digit(c),
    ensures
        d == digit_val(c),
        d < 10,
{
    ((c as u8) - ('0' as u8)) as u64
}

fn unescape_short_exec(e: char) -> (c: char)
    requires
        is_short_escape(e),
    ensures
        c == unescape_short(e),
{
    if e == '"' {
        '"'
    } else if e == '\\' {
        '\\'
    } else if e == 'b' {
        '\u{8}'
    } else if e == 't' {
        '\t'
    } else if e == 'n' {
        '\n'
    } else if e == 'f' {
        '\u{c}'
    } else {
        '\r'
    }
}

#[verifier::loop_isolation(false)]
fn eat_lit(v: &Vec<char>, pos: usize, lit: &Vec<char>) -> (r: Option<usize>)
    requires
        pos <= v@.len(),
    ensures
        r matches Some(end) ==> pos <= end <= v@.len() && expect(v@.skip(pos as int), lit@)
            == Some(v@.skip(end as int)) && end == pos + lit@.len(),
        r is None ==> expect(v@.skip(pos as int), lit@) is None,
{
    let ghost s = v@.skip(pos as int);
    if v.len() - pos < lit.len() {
        assert(s.len() < lit@.len());
        return None;
    }
    let mut k: usize = 0;
    while k < lit.len()
        invariant
            pos + lit@.len() <= v@.len(),
            pos <= v@.len(),
            k <= lit@.len(),
            forall|j: int| 0 <= j < k ==> v@[pos + j] == lit@[j],
        decreases lit@.len() - k,
    {
        if v[pos + k] != lit[k] {
            assert(v@.skip(pos as int).take(lit@.len() as int)[k as int] == v@[pos + k as int]);
            return None;
        }
        k = k + 1;
    }
    assert(v@.skip(pos as int).take(lit@.len() as int) =~= lit@);
    assert(v@.skip(pos as int).skip(lit@.len() as int) =~= v@.skip(pos as int + lit@.len() as int));
    Some(pos + lit.len())
}

fn eat_char(v: &Vec<char>, pos: usize, c: char) -> (r: Option<usize>)
    requires
        pos <= v@.len(),
    ensures
        r matches Some(end) ==> pos < end <= v@.len() && expect(v@.skip(pos as int), seq![c])
            == Some(v@.skip(end as int)) && end == pos + 1,
        r is None ==> expect(v@.skip(pos as int), seq![c]) is None,
{
    let ghost s = v@.skip(pos as int);
    if pos < v.len() && v[pos] == c {
        assert(s.take(1) =~= seq![c]);
        assert(s.skip(1) =~= v@.skip(pos as int + 1));
        Some(pos + 1)
    } else {
        if pos < v.len() {
            assert(s.take(1)[0] == v@[pos as int]);
        }
        None
    }
}

#[verifier::loop_isolation(false)]
fn parse_u64_at(v: &Vec<char>, pos: usize) -> (r: Option<(u64, usize)>)
    requires
        pos <= v@.len(),
    ensures
        r matches Some((n, end)) ==> pos < end <= v@.len() && (spec_parse_u64(
            v@.skip(pos as int),
        ) matches Some((nv, rem)) && n == nv && v@.skip(end as int) == rem),
        r is None ==> spec_parse_u64(v@.skip(pos as int)) is None,
{
    let ghost s = v@.skip(pos as int);
    let mut end = pos;
    while end < v.len() && digit_at(v, end)
        invariant
            pos <= end <= v@.len(),
            forall|j: int| pos <= j < end ==> is_digit(#[trigger] v@[j]),
        decreases v@.len() - end,
    {
        end = end + 1;
    }
    let ghost run = v@.subrange(pos as int, end as int);
    proof {
        assert(s =~= run + v@.skip(end as int));
        assert(forall|i: int| 0 <= i < run.len() ==> is_digit(#[trigger] run[i]));
        if end < v.len() {
            assert(v@.skip(end as int)[0] == v@[end as int]);
            assert(!is_digit(v@[end as int]));
        } else {
            assert(v@.skip(end as int).len() == 0);
        }
        lemma_leading_digits_concat(run, v@.skip(end as int));
        assert(leading_digits(s) == run);
    }
    if end == pos {
        assert(leading_digits(s).len() == 0);
        return None;
    }
    let mut acc: u64 = 0;
    let mut k = pos;
    while k < end
        invariant
            pos <= k <= end,
            end <= v@.len(),
            run == v@.subrange(pos as int, end as int),
            leading_digits(s) == run,
            forall|j: int| pos <= j < end ==> is_digit(#[trigger] v@[j]),
            acc == digits_val(v@.subrange(pos as int, k as int)),
        decreases end - k,
    {
        proof {
            assert(is_digit(v@[k as int]));
            assert(v@.subrange(pos as int, k as int + 1).drop_last() =~= v@.subrange(
                pos as int,
                k as int,
            ));
            assert(v@.subrange(pos as int, k as int + 1).last() == v@[k as int]);
        }
        let d = digit_val_exec(v[k]);
        if acc > 1844674407370955161u64 || (acc == 1844674407370955161u64 && d > 5) {
            proof {
                assert(digits_val(v@.subrange(pos as int, k as int + 1)) > u64::MAX);
                assert(v@.subrange(pos as int, k as int + 1) =~= run.take(k as int + 1 - pos));
                lemma_digits_val_bounds(run, k as int + 1 - pos);
                assert(digits_val(run) > u64::MAX);
            }
            return None;
        }
        acc = acc * 10 + d;
        k = k + 1;
    }
    proof {
        assert(v@.subrange(pos as int, end as int) =~= run);
        assert(acc == digits_val(run));
        assert(digits_val(run) <= u64::MAX);
        assert(s.skip(run.len() as int) =~= v@.skip(end as int));
    }
    Some((acc, end))
}

fn parse_i64_at(v: &Vec<char>, pos: usize) -> (r: Option<(i64, usize)>)
    requires
        pos <= v@.len(),
    ensures
        r matches Some((n, end)) ==> pos < end <= v@.len() && (spec_parse_i64(
            v@.skip(pos as int),
        ) matches Some((nv, rem)) && n == nv && v@.skip(end as int) == rem),
        r is None ==> spec_parse_i64(v@.skip(pos as int)) is None,
{
    let ghost s = v@.skip(pos as int);
    if pos < v.len() && v[pos] == '-' {
        assert(s[0] == '-');
        assert(s.drop_first() =~= v@.skip(pos as int + 1));
        match parse_u64_at(v, pos + 1) {
            None => None,
            Some((m, end)) => {
                if m <= 0x8000_0000_0000_0000u64 {
                    let n: i64 = if m == 0x8000_0000_0000_0000u64 {
                        i64::MIN
                    } else {
                        -(m as i64)
                    };
                    assert(n as int == -(m as int));
                    Some((n, end))
                } else {
                    None
                }
            },
        }
    } else {
        if pos < v.len() {
            assert(s[0] == v@[pos as int]);
        }
        match parse_u64_at(v, pos) {
            None => None,
            Some((m, end)) => {
                if m <= 0x7fff_ffff_ffff_ffffu64 {
                    Some((m as i64, end))
                } else {
                    None
                }
            },
        }
    }
}

#[verifier::loop_isolation(false)]
fn parse_string_at(v: &Vec<char>, pos: usize) -> (r: Option<(String, usize)>)
    requires
        pos <= v@.len(),
    ensures
        r matches Some((t, end)) ==> pos < end <= v@.len() && (spec_parse_string(
            v@.skip(pos as int),
        ) matches Some((tv, rem)) && t@ == tv && v@.skip(end as int) == rem),
        r is None ==> spec_parse_string(v@.skip(pos as int)) is None,
{
    let ghost s = v@.skip(pos as int);
    if pos == v.len() {
        return None;
    }
    if v[pos] != '"' {
        assert(s[0] == v@[pos as int]);
        return None;
    }
    assert(s[0] == '"');
    assert(s.drop_first() =~= v@.skip(pos as int + 1));
    let mut acc: Vec<char> = Vec::new();
    let mut cur: usize = pos + 1;
    proof {
        if let Some((t2, r2)) = spec_parse_str_body(v@.skip(pos as int + 1)) {
            assert(acc@ + t2 =~= t2);
        }
    }
    loop
        invariant
            pos + 1 <= cur <= v@.len(),
            pos < v@.len(),
            v@[pos as int] == '"',
            spec_parse_str_body(v@.skip(pos as int + 1)) == (match spec_parse_str_body(
                v@.skip(cur as int),
            ) {
                Some((t2, r2)) => Some((acc@ + t2, r2)),
                None => None::<(Seq<char>, Seq<char>)>,
            }),
        decreases v@.len() - cur,
    {
        if cur == v.len() {
            assert(v@.skip(cur as int).len() == 0);
            return None;
        }
        let ghost sc = v@.skip(cur as int);
        assert(sc[0] == v@[cur as int]);
        let c = v[cur];
        if c == '"' {
            assert(sc.drop_first() =~= v@.skip(cur as int + 1));
            assert(acc@ + Seq::<char>::empty() =~= acc@);
            let t = chars_to_string(&acc);
            return Some((t, cur + 1));
        } else if c == '\\' {
            if cur + 1 == v.len() {
                assert(sc.len() < 2);
                return None;
            }
            assert(sc[1] == v@[cur as int + 1]);
            let e = v[cur + 1];
            if e == '"' || e == '\\' || e == 'b' || e == 't' || e == 'n' || e == 'f' || e == 'r' {
                let u = unescape_short_exec(e);
                let ghost acc_old = acc@;
                acc.push(u);
                proof {
                    assert(sc.skip(2) =~= v@.skip(cur as int + 2));
                    if let Some((t2, r2)) = spec_parse_str_body(v@.skip(cur as int + 2)) {
                        assert(acc_old + (seq![unescape_short(sc[1])] + t2) =~= acc@ + t2);
                    }
                }
                cur = cur + 2;
            } else if e == 'u' {
                if v.len() - cur < 6 {
                    assert(sc.len() < 6);
                    return None;
                }
                assert(sc[2] == v@[cur as int + 2]);
                assert(sc[3] == v@[cur as int + 3]);
                assert(sc[4] == v@[cur as int + 4]);
                assert(sc[5] == v@[cur as int + 5]);
                if v[cur + 2] != '0' || v[cur + 3] != '0' {
                    return None;
                }
                let h1 = v[cur + 4];
                let h2 = v[cur + 5];
                if !crate::hex::is_hex_lower_exec(h1) || !crate::hex::is_hex_lower_exec(h2) {
                    return None;
                }
                let hv1 = crate::hex::hex_val_exec(h1);
                let hv2 = crate::hex::hex_val_exec(h2);
                let code: u8 = 16 * hv1 + hv2;
                if code >= 0x20 {
                    return None;
                }
                let u = code as char;
                let ghost acc_old = acc@;
                acc.push(u);
                proof {
                    assert(sc.skip(6) =~= v@.skip(cur as int + 6));
                    if let Some((t2, r2)) = spec_parse_str_body(v@.skip(cur as int + 6)) {
                        assert(acc_old + (seq![((16 * hex_val(sc[4]) + hex_val(sc[5])) as u8)
                            as char] + t2) =~= acc@ + t2);
                    }
                }
                cur = cur + 6;
            } else {
                return None;
            }
        } else {
            let ghost acc_old = acc@;
            acc.push(c);
            proof {
                assert(sc.drop_first() =~= v@.skip(cur as int + 1));
                if let Some((t2, r2)) = spec_parse_str_body(v@.skip(cur as int + 1)) {
                    assert(acc_old + (seq![sc[0]] + t2) =~= acc@ + t2);
                }
            }
            cur = cur + 1;
        }
    }
}

fn parse_tx_at(v: &Vec<char>, pos: usize) -> (r: Option<(Transaction, usize)>)
    requires
        pos <= v@.len(),
    ensures
        r matches Some((t, end)) ==> pos <= end <= v@.len() && (spec_parse_tx(
            v@.skip(pos as int),
        ) matches Some((tv, rem)) && t@ == tv && v@.skip(end as int) == rem),
        r is None ==> spec_parse_tx(v@.skip(pos as int)) is None,
{
    let lit1 = lit_obj_sender_vec();
    let e1 = match eat_lit(v, pos, &lit1) {
        Some(e) => e,
        None => {
            return None;
        },
    };
    let (sender, e2) = match parse_string_at(v, e1) {
        Some(x) => x,
        None => {
            return None;
        },
    };
    let lit2 = lit_recipient_vec();
    let e3 = match eat_lit(v, e2, &lit2) {
        Some(e) => e,
        None => {
            return None;
        },
    };
    let (recipient, e4) = match parse_string_at(v, e3) {
        Some(x) => x,
        None => {
            return None;
        },
    };
    let lit3 = lit_amount_vec();
    let e5 = match eat_lit(v, e4, &lit3) {
        Some(e) => e,
        None => {
            return None;
        },
    };
    let (amount, e6) = match parse_i64_at(v, e5) {
        Some(x) => x,
        None => {
            return None;
        },
    };
    let e7 = match eat_char(v, e6, '}') {
        Some(e) => e,
        None => {
            return None;
        },
    };
    Some((Transaction { sender, recipient, amount }, e7))
}

#[verifier::loop_isolation(false)]
fn parse_tx_list_at(v: &Vec<char>, pos: usize) -> (r: Option<(Vec<Transaction>, usize)>)
    requires
        pos <= v@.len(),
    ensures
        r matches Some((ts, end)) ==> pos <= end <= v@.len() && (spec_parse_tx_list(
            v@.skip(pos as int),
        ) matches Some((tsv, rem)) && view_txs(ts@) == tsv && v@.skip(end as int) == rem),
        r is None ==> spec_parse_tx_list(v@.skip(pos as int)) is None,
{
    let ghost s = v@.skip(pos as int);
    let e1 = match eat_char(v, pos, '[') {
        Some(e) => e,
        None => {
            return None;
        },
    };
    assert(v@.skip(e1 as int) =~= s.skip(1));
    if e1 < v.len() && v[e1] == ']' {
        assert(s.skip(1)[0] == v@[e1 as int]);
        let out: Vec<Transaction> = Vec::new();
        assert(view_txs(out@) =~= Seq::<TransactionView>::empty());
        assert(s.skip(1).drop_first() =~= v@.skip(e1 as int + 1));
        return Some((out, e1 + 1));
    }
    if e1 < v.len() {
        assert(s.skip(1)[0] == v@[e1 as int]);
    }
    let mut acc: Vec<Transaction> = Vec::new();
    let mut cur = e1;
    proof {
        if let Some((ts2, r2)) = spec_parse_tx_items(v@.skip(e1 as int)) {
            assert(view_txs(acc@) + ts2 =~= ts2);
        }
    }
    loop
        invariant
            e1 <= cur <= v@.len(),
            spec_parse_tx_items(v@.skip(e1 as int)) == (match spec_parse_tx_items(
                v@.skip(cur as int),
            ) {
                Some((ts2, r2)) => Some((view_txs(acc@) + ts2, r2)),
                None => None::<(Seq<TransactionView>, Seq<char>)>,
            }),
        decreases v@.len() - cur,
    {
        let ghost sc = v@.skip(cur as int);
        match parse_tx_at(v, cur) {
            None => {
                return None;
            },
            Some((t, end)) => {
                proof {
                    lemma_parse_tx_consumes(sc);
                }
                let ghost tv = t@;
                let ghost acc_old = acc@;
                acc.push(t);
                proof {
                    assert(view_txs(acc@) =~= view_txs(acc_old).push(tv));
                }
                if end < v.len() && v[end] == ',' {
                    assert(v@.skip(end as int)[0] == v@[end as int]);
                    proof {
                        assert(v@.skip(end as int).drop_first() =~= v@.skip(end as int + 1));
                        if let Some((ts2, r2)) = spec_parse_tx_items(v@.skip(end as int + 1)) {
                            assert(view_txs(acc_old) + (seq![tv] + ts2) =~= view_txs(acc@) + ts2);
                        }
                    }
                    cur = end + 1;
                } else if end < v.len() && v[end] == ']' {
                    assert(v@.skip(end as int)[0] == v@[end as int]);
                    proof {
                        assert(v@.skip(end as int).drop_first() =~= v@.skip(end as int + 1));
                        assert(spec_parse_tx_items(sc) == Some(
                            (seq![tv], v@.skip(end as int + 1)),
                        ));
                        assert(view_txs(acc_old) + seq![tv] =~= view_txs(acc@));
                    }
                    return Some((acc, end + 1));
                } else {
                    proof {
                        if end < v.len() {
                            assert(v@.skip(end as int)[0] == v@[end as int]);
                        } else {
                            assert(v@.skip(end as int).len() == 0);
                        }
                    }
                    return None;
                }
            },
        }
    }
}

fn parse_block_at(v: &Vec<char>, pos: usize) -> (r: Option<(Block, usize)>)
    requires
        pos <= v@.len(),
    ensures
        r matches Some((b, end)) ==> pos <= end <= v@.len() && (spec_parse_block(
            v@.skip(pos as int),
        ) matches Some((bv, rem)) && b@ == bv && v@.skip(end as int) == rem),
        r is None ==> spec_parse_block(v@.skip(pos as int)) is None,
{
    let lit1 = lit_obj_index_vec();
    let e1 = match eat_lit(v, pos, &lit1) {
        Some(e) => e,
        None => {
            return None;
        },
    };
    let (index, e2) = match parse_u64_at(v, e1) {
        Some(x) => x,
        None => {
            return None;
        },
    };
    let lit2 = lit_timestamp_vec();
    let e3 = match eat_lit(v, e2, &lit2) {
        Some(e) => e,
        None => {
            return None;
        },
    };
    let (timestamp, e4) = match parse_u64_at(v, e3) {
        Some(x) => x,
        None => {
            return None;
        },
    };
    let lit3 = lit_transactions_vec();
    let e5 = match eat_lit(v, e4, &lit3) {
        Some(e) => e,
        None => {
            return None;
        },
    };
    let (transactions, e6) = match parse_tx_list_at(v, e5) {
        Some(x) => x,
        None => {
            return None;
        },
    };
    let lit4 = lit_proof_key_vec();
    let e7 = match eat_lit(v, e6, &lit4) {
        Some(e) => e,
        None => {
            return None;
        },
    };
    let (proof_scalar, e8) = match parse_u64_at(v, e7) {
        Some(x) => x,
        None => {
            return None;
        },
    };
    let lit5 = lit_previous_hash_vec();
    let e9 = match eat_lit(v, e8, &lit5) {
        Some(e) => e,
        None => {
            return None;
        },
    };
    let (previous_hash, e10) = match parse_string_at(v, e9) {
        Some(x) => x,
        None => {
            return None;
        },
    };
    let e11 = match eat_char(v, e10, '}') {
        Some(e) => e,
        None => {
            return None;
        },
    };
    let b = Block { index, timestamp, transactions, proof: proof_scalar, previous_hash };
    Some((b, e11))
}

#[verifier::loop_isolation(false)]
#[verifier::rlimit(100)]
fn parse_block_list_at(v: &Vec<char>, pos: usize) -> (r: Option<(Vec<Block>, usize)>)
    requires
        pos <= v@.len(),
    ensures
        r matches Some((bs, end)) ==> pos <= end <= v@.len() && (spec_parse_block_list(
            v@.skip(pos as int),
        ) matches Some((bsv, rem)) && view_blocks(bs@) == bsv && v@.skip(end as int) == rem),
        r is None ==> spec_parse_block_list(v@.skip(pos as int)) is None,
{
    let ghost s = v@.skip(pos as int);
    let e1 = match eat_char(v, pos, '[') {
        Some(e) => e,
        None => {
            return None;
        },
    };
    assert(v@.skip(e1 as int) =~= s.skip(1));
    if e1 < v.len() && v[e1] == ']' {
        assert(s.skip(1)[0] == v@[e1 as int]);
        let out: Vec<Block> = Vec::new();
        assert(view_blocks(out@) =~= Seq::<BlockView>::empty());
        assert(s.skip(1).drop_first() =~= v@.skip(e1 as int + 1));
        return Some((out, e1 + 1));
    }
    if e1 < v.len() {
        assert(s.skip(1)[0] == v@[e1 as int]);
    }
    let mut acc: Vec<Block> = Vec::new();
    let mut cur = e1;
    proof {
        if let Some((bs2, r2)) = spec_parse_block_items(v@.skip(e1 as int)) {
            assert(view_blocks(acc@) + bs2 =~= bs2);
        }
    }
    loop
        invariant
            e1 <= cur <= v@.len(),
            spec_parse_block_items(v@.skip(e1 as int)) == (match spec_parse_block_items(
                v@.skip(cur as int),
            ) {
                Some((bs2, r2)) => Some((view_blocks(acc@) + bs2, r2)),
                None => None::<(Seq<BlockView>, Seq<char>)>,
            }),
        decreases v@.len() - cur,
    {
        let ghost sc = v@.skip(cur as int);
        match parse_block_at(v, cur) {
            None => {
                return None;
            },
            Some((b, end)) => {
                proof {
                    lemma_parse_block_consumes(sc);
                }
                let ghost bv = b@;
                let ghost acc_old = acc@;
                acc.push(b);
                proof {
                    assert(view_blocks(acc@) =~= view_blocks(acc_old).push(bv));
                }
                if end < v.len() && v[end] == ',' {
                    assert(v@.skip(end as int)[0] == v@[end as int]);
                    proof {
                        assert(v@.skip(end as int).drop_first() =~= v@.skip(end as int + 1));
                        if let Some((bs2, r2)) = spec_parse_block_items(v@.skip(end as int + 1)) {
                            assert(view_blocks(acc_old) + (seq![bv] + bs2) =~= view_blocks(acc@)
                                + bs2);
                        }
                    }
                    cur = end + 1;
                } else if end < v.len() && v[end] == ']' {
                    assert(v@.skip(end as int)[0] == v@[end as int]);
                    proof {
                        assert(v@.skip(end as int).drop_first() =~= v@.skip(end as int + 1));
                        assert(spec_parse_block_items(sc) == Some(
                            (seq![bv], v@.skip(end as int + 1)),
                        ));
                        assert(view_blocks(acc_old) + seq![bv] =~= view_blocks(acc@));
                    }
                    return Some((acc, end + 1));
                } else {
                    proof {
                        if end < v.len() {
                            assert(v@.skip(end as int)[0] == v@[end as int]);
                        } else {
                            assert(v@.skip(end as int).len() == 0);
                        }
                    }
                    return None;
                }
            },
        }
    }
}

#[verifier::loop_isolation(false)]
fn parse_nodes_at(v: &Vec<char>, pos: usize) -> (r: Option<(Vec<String>, usize)>)
    requires
        pos <= v@.len(),
    ensures
        r matches Some((ns, end)) ==> pos <= end <= v@.len() && (spec_parse_node_list(
            v@.skip(pos as int),
        ) matches Some((nsv, rem)) && view_strings(ns@) == nsv && v@.skip(end as int) == rem),
        r is None ==> spec_parse_node_list(v@.skip(pos as int)) is None,
{
    let ghost s = v@.skip(pos as int);
    let e1 = match eat_char(v, pos, '[') {
        Some(e) => e,
        None => {
            return None;
        },
    };
    assert(v@.skip(e1 as int) =~= s.skip(1));
    if e1 < v.len() && v[e1] == ']' {
        assert(s.skip(1)[0] == v@[e1 as int]);
        let out: Vec<String> = Vec::new();
        assert(view_strings(out@) =~= Seq::<Seq<char>>::empty());
        assert(s.skip(1).drop_first() =~= v@.skip(e1 as int + 1));
        return Some((out, e1 + 1));
    }
    if e1 < v.len() {
        assert(s.skip(1)[0] == v@[e1 as int]);
    }
    let mut acc: Vec<String> = Vec::new();
    let mut cur = e1;
    proof {
        if let Some((ns2, r2)) = spec_parse_node_items(v@.skip(e1 as int)) {
            assert(view_strings(acc@) + ns2 =~= ns2);
        }
    }
    loop
        invariant
            e1 <= cur <= v@.len(),
            spec_parse_node_items(v@.skip(e1 as int)) == (match spec_parse_node_items(
                v@.skip(cur as int),
            ) {
                Some((ns2, r2)) => Some((view_strings(acc@) + ns2, r2)),
                None => None::<(Seq<Seq<char>>, Seq<char>)>,
            }),
        decreases v@.len() - cur,
    {
        let ghost sc = v@.skip(cur as int);
        match parse_string_at(v, cur) {
            None => {
                return None;
            },
            Some((n, end)) => {
                proof {
                    lemma_parse_string_consumes(sc);
                }
                let ghost nv = n@;
                let ghost acc_old = acc@;
                acc.push(n);
                proof {
                    assert(view_strings(acc@) =~= view_strings(acc_old).push(nv));
                }
                if end < v.len() && v[end] == ',' {
                    assert(v@.skip(end as int)[0] == v@[end as int]);
                    proof {
                        assert(v@.skip(end as int).drop_first() =~= v@.skip(end as int + 1));
                        if let Some((ns2, r2)) = spec_parse_node_items(v@.skip(end as int + 1)) {
                            assert(view_strings(acc_old) + (seq![nv] + ns2) =~= view_strings(acc@)
                                + ns2);
                        }
                    }
                    cur = end + 1;
                } else if end < v.len() && v[end] == ']' {
                    assert(v@.skip(end as int)[0] == v@[end as int]);
                    proof {
                        assert(v@.skip(end as int).drop_first() =~= v@.skip(end as int + 1));
                        assert(spec_parse_node_items(sc) == Some(
                            (seq![nv], v@.skip(end as int + 1)),
                        ));
                        assert(view_strings(acc_old) + seq![nv] =~= view_strings(acc@));
                    }
                    return Some((acc, end + 1));
                } else {
                    proof {
                        if end < v.len() {
                            assert(v@.skip(end as int)[0] == v@[end as int]);
                        } else {
                            assert(v@.skip(end as int).len() == 0);
                        }
                    }
                    return None;
                }
            },
        }
    }
}

fn parse_ledger_at(v: &Vec<char>, pos: usize) -> (r: Option<(Blockchain, usize)>)
    requires
        pos <= v@.len(),
    ensures
        r matches Some((l, end)) ==> pos <= end <= v@.len() && (spec_parse_ledger(
            v@.skip(pos as int),
        ) matches Some((lv, rem)) && l@ == lv && v@.skip(end as int) == rem),
        r is None ==> spec_parse_ledger(v@.skip(pos as int)) is None,
{
    let lit1 = lit_obj_chain_vec();
    let e1 = match eat_lit(v, pos, &lit1) {
        Some(e) => e,
        None => {
            return None;
        },
    };
    let (chain, e2) = match parse_block_list_at(v, e1) {
        Some(x) => x,
        None => {
            return None;
        },
    };
    let lit2 = lit_current_transactions_vec();
    let e3 = match eat_lit(v, e2, &lit2) {
        Some(e) => e,
        None => {
            return None;
        },
    };
    let (current_transactions, e4) = match parse_tx_list_at(v, e3) {
        Some(x) => x,
        None => {
            return None;
        },
    };
    let lit3 = lit_nodes_key_vec();
    let e5 = match eat_lit(v, e4, &lit3) {
        Some(e) => e,
        None => {
            return None;
        },
    };
    let (nodes, e6) = match parse_nodes_at(v, e5) {
        Some(x) => x,
        None => {
            return None;
        },
    };
    let e7 = match eat_char(v, e6, '}') {
        Some(e) => e,
        None => {
            return None;
        },
    };
    Some((Blockchain { chain, current_transactions, nodes }, e7))
}

/// The ledger a snapshot text holds: the parsed ledger when the whole text
/// is one canonical rendering, and nothing otherwise.
pub open spec fn snapshot_value(s: Seq<char>) -> Option<BlockchainView> {
    match spec_parse_ledger(s) {
        Some((l, rem)) => if rem.len() == 0 {
            Some(l)
        } else {
            None
        },
        None => None,
    }
}

/// The chain a peer-response text holds: the parsed chain when the whole
/// text is one canonical chain rendering, and nothing otherwise.
pub open spec fn chain_value(s: Seq<char>) -> Option<Seq<BlockView>> {
    match spec_parse_block_list(s) {
        Some((bs, rem)) => if rem.len() == 0 {
            Some(bs)
        } else {
            None
        },
        None => None,
    }
}

impl Blockchain {
    /// Loads a ledger from its rendered snapshot; a text that is not one
    /// canonical snapshot yields a freshly constructed ledger instead.
    pub fn from_str(string: &String) -> (r: Blockchain)
        ensures
            match snapshot_value(string@) {
                Some(lv) => r@ == lv,
                None => r@.chain =~= seq![r@.chain[0]] && genesis_block(r@.chain[0])
                    && r@.current_transactions.len() == 0 && r@.nodes.len() == 0 && r.wf(),
            },
    {
        let chars = str_to_chars(string.as_str());
        proof {
            assert(chars@.skip(0) =~= string@);
        }
        match parse_ledger_at(&chars, 0) {
            Some((ledger, end)) => {
                if end == chars.len() {
                    assert(chars@.skip(end as int).len() == 0);
                    ledger
                } else {
                    assert(chars@.skip(end as int).len() > 0);
                    Blockchain::new()
                }
            },
            None => Blockchain::new(),
        }
    }

    /// Reads a peer's chain response; `None` when the text is not one
    /// canonical chain rendering.
    pub fn parse_chain(string: &String) -> (r: Option<Vec<Block>>)
        ensures
            match chain_value(string@) {
                Some(bs) => r matches Some(bv) && view_blocks(bv@) == bs,
                None => r is None,
            },
    {
        let chars = str_to_chars(string.as_str());
        proof {
            assert(chars@.skip(0) =~= string@);
        }
        match parse_block_list_at(&chars, 0) {
            Some((blocks, end)) => {
                if end == chars.len() {
                    assert(chars@.skip(end as int).len() == 0);
                    Some(blocks)
                } else {
                    assert(chars@.skip(end as int).len() > 0);
                    None
                }
            },
            None => None,
        }
    }

    /// The snapshot round trip, executed: loading the ledger's own rendering
    /// yields an equal ledger, so re-rendering it is byte-identical.
    pub fn reload(&self) -> (r: Blockchain)
        ensures
            r@ == self@,
    {
        let text = chars_to_string(&self.serialize());
        proof {
            lemma_snapshot_round_trip(self@);
        }
        Blockchain::from_str(&text)
    }
}

} // verus!
