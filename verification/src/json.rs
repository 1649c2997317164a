//! The canonical snapshot encoding.
//!
//! A ledger, a chain, a block and a transaction each have exactly one
//! rendering, a compact JSON text with a fixed field order; the block digest
//! is taken over the block's rendering, so the encoding is part of the chain
//! contract. Number fields render in decimal; strings escape the quote, the
//! backslash and the control characters and carry every other character
//! verbatim.

use vstd::prelude::*;
use crate::digits::{dec_str, dec_str_int, dec_u64, dec_i64};
use crate::hex::hex_char;
use crate::ledger::{
    Transaction, TransactionView, Block, BlockView, Blockchain, BlockchainView, view_txs,
    view_blocks, view_strings,
};
use crate::text::str_to_chars;

verus! {

/// The rendering of one character inside a string literal.
pub open spec fn esc_char(c: char) -> Seq<char> {
    if c == '"' {
        seq!['\\', '"']
    } else if c == '\\' {
        seq!['\\', '\\']
    } else if c == '\u{8}' {
        seq!['\\', 'b']
    } else if c == '\t' {
        seq!['\\', 't']
    } else if c == '\n' {
        seq!['\\', 'n']
    } else if c == '\u{c}' {
        seq!['\\', 'f']
    } else if c == '\r' {
        seq!['\\', 'r']
    } else if 0 <= c as int && (c as int) < 0x20 {
        seq!['\\', 'u', '0', '0', hex_char(c as int / 16), hex_char(c as int % 16)]
    } else {
        seq![c]
    }
}

/// The rendering of a string's characters, in order.
pub open spec fn json_escape(s: Seq<char>) -> Seq<char>
    decreases s.len(),
{
    if s.len() == 0 {
        Seq::empty()
    } else {
        esc_char(s[0]) + json_escape(s.drop_first())
    }
}

pub proof fn lemma_json_escape_push(s: Seq<char>, c: char)
    ensures
        json_escape(s.push(c)) == json_escape(s) + esc_char(c),
    decreases s.len(),
{
    if s.len() == 0 {
        assert(s.push(c)[0] == c);
        assert(s.push(c).drop_first() =~= Seq::<char>::empty());
        assert(json_escape(Seq::<char>::empty()) =~= Seq::<char>::empty());
        assert(json_escape(s.push(c)) =~= esc_char(c) + json_escape(Seq::<char>::empty()));
        assert(json_escape(s.push(c)) =~= json_escape(s) + esc_char(c));
    } else {
        assert(s.push(c).drop_first() =~= s.drop_first().push(c));
        lemma_json_escape_push(s.drop_first(), c);
        assert(json_escape(s.push(c)) =~= json_escape(s) + esc_char(c));
    }
}

/// The rendering of a string value: its escaped characters in quotes.
pub open spec fn json_string(s: Seq<char>) -> Seq<char> {
    seq!['"'] + json_escape(s) + seq!['"']
}

/// Pieces joined by single commas.
pub open spec fn join_comma(xs: Seq<Seq<char>>) -> Seq<char>
    decreases xs.len(),
{
    if xs.len() == 0 {
        Seq::empty()
    } else if xs.len() == 1 {
        xs[0]
    } else {
        xs[0] + seq![','] + join_comma(xs.drop_first())
    }
}

pub proof fn lemma_join_comma_push(xs: Seq<Seq<char>>, x: Seq<char>)
    ensures
        xs.len() == 0 ==> join_comma(xs.push(x)) == x,
        xs.len() > 0 ==> join_comma(xs.push(x)) == join_comma(xs) + seq![','] + x,
    decreases xs.len(),
{
    if xs.len() == 0 {
        assert(join_comma(xs.push(x)) =~= x);
    } else if xs.len() == 1 {
        assert(xs.push(x)[0] == xs[0]);
        assert(xs.push(x).drop_first() =~= seq![x]);
        assert(join_comma(seq![x]) == x);
        assert(join_comma(xs.push(x)) =~= xs[0] + seq![','] + join_comma(seq![x]));
        assert(join_comma(xs.push(x)) =~= join_comma(xs) + seq![','] + x);
    } else {
        assert(xs.push(x).drop_first() =~= xs.drop_first().push(x));
        lemma_join_comma_push(xs.drop_first(), x);
        assert(join_comma(xs.push(x)) =~= join_comma(xs) + seq![','] + x);
    }
}

/// The characters `{"sender":` of the canonical encoding.
pub open spec fn lit_obj_sender() -> Seq<char> {
    seq!['{', '\"', 's', 'e', 'n', 'd', 'e', 'r', '\"', ':']
}

/// The characters `,"recipient":` of the canonical encoding.
pub open spec fn lit_recipient() -> Seq<char> {
    seq![',', '\"', 'r', 'e', 'c', 'i', 'p', 'i', 'e', 'n', 't', '\"', ':']
}

/// The characters `,"amount":` of the canonical encoding.
pub open spec fn lit_amount() -> Seq<char> {
    seq![',', '\"', 'a', 'm', 'o', 'u', 'n', 't', '\"', ':']
}

/// The characters `{"index":` of the canonical encoding.
pub open spec fn lit_obj_index() -> Seq<char> {
    seq!['{', '\"', 'i', 'n', 'd', 'e', 'x', '\"', ':']
}

/// The characters `,"timestamp":` of the canonical encoding.
pub open spec fn lit_timestamp() -> Seq<char> {
    seq![',', '\"', 't', 'i', 'm', 'e', 's', 't', 'a', 'm', 'p', '\"', ':']
}

/// The characters `,"transactions":` of the canonical encoding.
pub open spec fn lit_transactions() -> Seq<char> {
    seq![',', '\"', 't', 'r', 'a', 'n', 's', 'a', 'c', 't', 'i', 'o', 'n', 's', '\"', ':']
}

/// The characters `,"proof":` of the canonical encoding.
pub open spec fn lit_proof_key() -> Seq<char> {
    seq![',', '\"', 'p', 'r', 'o', 'o', 'f', '\"', ':']
}

/// The characters `,"previous_hash":` of the canonical encoding.
pub open spec fn lit_previous_hash() -> Seq<char> {
    seq![',', '\"', 'p', 'r', 'e', 'v', 'i', 'o', 'u', 's', '_', 'h', 'a', 's', 'h', '\"', ':']
}

/// The characters `{"chain":` of the canonical encoding.
pub open spec fn lit_obj_chain() -> Seq<char> {
    seq!['{', '\"', 'c', 'h', 'a', 'i', 'n', '\"', ':']
}

/// The characters `,"current_transactions":` of the canonical encoding.
pub open spec fn lit_current_transactions() -> Seq<char> {
    seq![',', '\"', 'c', 'u', 'r', 'r', 'e', 'n', 't', '_', 't', 'r', 'a', 'n', 's', 'a', 'c', 't', 'i', 'o', 'n', 's', '\"', ':']
}

/// The characters `,"nodes":` of the canonical encoding.
pub open spec fn lit_nodes_key() -> Seq<char> {
    seq![',', '\"', 'n', 'o', 'd', 'e', 's', '\"', ':']
}

fn push_lit_obj_sender(out: &mut Vec<char>)
    ensures
        final(out)@ == old(out)@ + lit_obj_sender(),
{
    out.push('{');
    out.push('"');
    out.push('s');
    out.push('e');
    out.push('n');
    out.push('d');
    out.push('e');
    out.push('r');
    out.push('"');
    out.push(':');
    assert(final(out)@ =~= old(out)@ + lit_obj_sender());
}

fn push_lit_recipient(out: &mut Vec<char>)
    ensures
        final(out)@ == old(out)@ + lit_recipient(),
{
    out.push(',');
    out.push('"');
    out.push('r');
    out.push('e');
    out.push('c');
    out.push('i');
    out.push('p');
    out.push('i');
    out.push('e');
    out.push('n');
    out.push('t');
    out.push('"');
    out.push(':');
    assert(final(out)@ =~= old(out)@ + lit_recipient());
}

fn push_lit_amount(out: &mut Vec<char>)
    ensures
        final(out)@ == old(out)@ + lit_amount(),
{
    out.push(',');
    out.push('"');
    out.push('a');
    out.push('m');
    out.push('o');
    out.push('u');
    out.push('n');
    out.push('t');
    out.push('"');
    out.push(':');
    assert(final(out)@ =~= old(out)@ + lit_amount());
}

fn push_lit_obj_index(out: &mut Vec<char>)
    ensures
        final(out)@ == old(out)@ + lit_obj_index(),
{
    out.push('{');
    out.push('"');
    out.push('i');
    out.push('n');
    out.push('d');
    out.push('e');
    out.push('x');
    out.push('"');
    out.push(':');
    assert(final(out)@ =~= old(out)@ + lit_obj_index());
}

fn push_lit_timestamp(out: &mut Vec<char>)
    ensures
        final(out)@ == old(out)@ + lit_timestamp(),
{
    out.push(',');
    out.push('"');
    out.push('t');
    out.push('i');
    out.push('m');
    out.push('e');
    out.push('s');
    out.push('t');
    out.push('a');
    out.push('m');
    out.push('p');
    out.push('"');
    out.push(':');
    assert(final(out)@ =~= old(out)@ + lit_timestamp());
}

fn push_lit_transactions(out: &mut Vec<char>)
    ensures
        final(out)@ == old(out)@ + lit_transactions(),
{
    out.push(',');
    out.push('"');
    out.push('t');
    out.push('r');
    out.push('a');
    out.push('n');
    out.push('s');
    out.push('a');
    out.push('c');
    out.push('t');
    out.push('i');
    out.push('o');
    out.push('n');
    out.push('s');
    out.push('"');
    out.push(':');
    assert(final(out)@ =~= old(out)@ + lit_transactions());
}

fn push_lit_proof_key(out: &mut Vec<char>)
    ensures
        final(out)@ == old(out)@ + lit_proof_key(),
{
    out.push(',');
    out.push('"');
    out.push('p');
    out.push('r');
    out.push('o');
    out.push('o');
    out.push('f');
    out.push('"');
    out.push(':');
    assert(final(out)@ =~= old(out)@ + lit_proof_key());
}

fn push_lit_previous_hash(out: &mut Vec<char>)
    ensures
        final(out)@ == old(out)@ + lit_previous_hash(),
{
    out.push(',');
    out.push('"');
    out.push('p');
    out.push('r');
    out.push('e');
    out.push('v');
    out.push('i');
    out.push('o');
    out.push('u');
    out.push('s');
    out.push('_');
    out.push('h');
    out.push('a');
    out.push('s');
    out.push('h');
    out.push('"');
    out.push(':');
    assert(final(out)@ =~= old(out)@ + lit_previous_hash());
}

fn push_lit_obj_chain(out: &mut Vec<char>)
    ensures
        final(out)@ == old(out)@ + lit_obj_chain(),
{
    out.push('{');
    out.push('"');
    out.push('c');
    out.push('h');
    out.push('a');
    out.push('i');
    out.push('n');
    out.push('"');
    out.push(':');
    assert(final(out)@ =~= old(out)@ + lit_obj_chain());
}

fn push_lit_current_transactions(out: &mut Vec<char>)
    ensures
        final(out)@ == old(out)@ + lit_current_transactions(),
{
    out.push(',');
    out.push('"');
    out.push('c');
    out.push('u');
    out.push('r');
    out.push('r');
    out.push('e');
    out.push('n');
    out.push('t');
    out.push('_');
    out.push('t');
    out.push('r');
    out.push('a');
    out.push('n');
    out.push('s');
    out.push('a');
    out.push('c');
    out.push('t');
    out.push('i');
    out.push('o');
    out.push('n');
    out.push('s');
    out.push('"');
    out.push(':');
    assert(final(out)@ =~= old(out)@ + lit_current_transactions());
}

fn push_lit_nodes_key(out: &mut Vec<char>)
    ensures
        final(out)@ == old(out)@ + lit_nodes_key(),
{
    out.push(',');
    out.push('"');
    out.push('n');
    out.push('o');
    out.push('d');
    out.push('e');
    out.push('s');
    out.push('"');
    out.push(':');
    assert(final(out)@ =~= old(out)@ + lit_nodes_key());
}

/// The rendering of a transaction.
pub open spec fn tx_json(t: TransactionView) -> Seq<char> {
    lit_obj_sender() + json_string(t.sender) + lit_recipient() + json_string(t.recipient)
        + lit_amount() + dec_str_int(t.amount as int) + seq!['}']
}

/// The rendering of a transaction list.
pub open spec fn tx_list_json(ts: Seq<TransactionView>) -> Seq<char> {
    seq!['['] + join_comma(ts.map_values(|t: TransactionView| tx_json(t))) + seq![']']
}

/// The rendering of a block; the block digest is taken over this text.
pub open spec fn block_json(b: BlockView) -> Seq<char> {
    lit_obj_index() + dec_str(b.index as nat) + lit_timestamp() + dec_str(b.timestamp as nat)
        + lit_transactions() + tx_list_json(b.transactions) + lit_proof_key() + dec_str(
        b.proof as nat,
    ) + lit_previous_hash() + json_string(b.previous_hash) + seq!['}']
}

/// The rendering of a chain, the shape a peer serves on request.
pub open spec fn block_list_json(bs: Seq<BlockView>) -> Seq<char> {
    seq!['['] + join_comma(bs.map_values(|b: BlockView| block_json(b))) + seq![']']
}

/// The rendering of the peer list.
pub open spec fn nodes_json(ns: Seq<Seq<char>>) -> Seq<char> {
    seq!['['] + join_comma(ns.map_values(|n: Seq<char>| json_string(n))) + seq![']']
}

/// The rendering of a whole ledger snapshot.
pub open spec fn ledger_json(l: BlockchainView) -> Seq<char> {
    lit_obj_chain() + block_list_json(l.chain) + lit_current_transactions() + tx_list_json(
        l.current_transactions,
    ) + lit_nodes_key() + nodes_json(l.nodes) + seq!['}']
}

fn push_escaped_char(out: &mut Vec<char>, c: char)
    ensures
        final(out)@ == old(out)@ + esc_char(c),
{
    if c == '"' {
        out.push('\\');
        out.push('"');
    } else if c == '\\' {
        out.push('\\');
        out.push('\\');
    } else if c == '\u{8}' {
        out.push('\\');
        out.push('b');
    } else if c == '\t' {
        out.push('\\');
        out.push('t');
    } else if c == '\n' {
        out.push('\\');
        out.push('n');
    } else if c == '\u{c}' {
        out.push('\\');
        out.push('f');
    } else if c == '\r' {
        out.push('\\');
        out.push('r');
    } else if (c as u32) < 0x20 {
        let v = (c as u32) as u8;
        out.push('\\');
        out.push('u');
        out.push('0');
        out.push('0');
        out.push(crate::hex::hex_char_exec(v / 16));
        out.push(crate::hex::hex_char_exec(v % 16));
    } else {
        out.push(c);
    }
    assert(final(out)@ =~= old(out)@ + esc_char(c));
}

/// Appends the rendering of a string value.
pub fn push_json_string(out: &mut Vec<char>, s: &String)
    ensures
        final(out)@ == old(out)@ + json_string(s@),
{
    let cs = str_to_chars(s.as_str());
    out.push('"');
    let mut i: usize = 0;
    while i < cs.len()
        invariant
            i <= cs@.len(),
            cs@ == s@,
            out@ =~= old(out)@ + seq!['"'] + json_escape(s@.take(i as int)),
        decreases cs@.len() - i,
    {
        proof {
            lemma_json_escape_push(s@.take(i as int), s@[i as int]);
            assert(s@.take(i as int).push(s@[i as int]) =~= s@.take(i as int + 1));
        }
        push_escaped_char(out, cs[i]);
        i = i + 1;
    }
    out.push('"');
    proof {
        assert(s@.take(s@.len() as int) =~= s@);
        assert(final(out)@ =~= old(out)@ + json_string(s@));
    }
}

fn push_open_bracket(out: &mut Vec<char>)
    ensures
        final(out)@ == old(out)@ + seq!['['],
{
    out.push('[');
    assert(final(out)@ =~= old(out)@ + seq!['[']);
}

fn push_close_bracket(out: &mut Vec<char>)
    ensures
        final(out)@ == old(out)@ + seq![']'],
{
    out.push(']');
    assert(final(out)@ =~= old(out)@ + seq![']']);
}

fn push_close_brace(out: &mut Vec<char>)
    ensures
        final(out)@ == old(out)@ + seq!['}'],
{
    out.push('}');
    assert(final(out)@ =~= old(out)@ + seq!['}']);
}

/// Appends the rendering of a transaction.
pub fn push_tx(out: &mut Vec<char>, t: &Transaction)
    ensures
        final(out)@ == old(out)@ + tx_json(t@),
{
    push_lit_obj_sender(out);
    push_json_string(out, &t.sender);
    push_lit_recipient(out);
    push_json_string(out, &t.recipient);
    push_lit_amount(out);
    let mut amount = dec_i64(t.amount);
    out.append(&mut amount);
    push_close_brace(out);
}

/// Appends the rendering of a transaction list.
pub fn push_tx_list(out: &mut Vec<char>, v: &Vec<Transaction>)
    ensures
        final(out)@ == old(out)@ + tx_list_json(view_txs(v@)),
{
    push_open_bracket(out);
    let mut i: usize = 0;
    while i < v.len()
        invariant
            i <= v@.len(),
            out@ =~= old(out)@ + seq!['['] + join_comma(
                view_txs(v@).take(i as int).map_values(|t: TransactionView| tx_json(t)),
            ),
        decreases v@.len() - i,
    {
        if i > 0 {
            out.push(',');
        }
        push_tx(out, &v[i]);
        proof {
            let f = |t: TransactionView| tx_json(t);
            let xs = view_txs(v@).take(i as int).map_values(f);
            lemma_join_comma_push(xs, tx_json(v@[i as int]@));
            assert(view_txs(v@).take(i as int + 1).map_values(f) =~= xs.push(
                tx_json(v@[i as int]@),
            ));
        }
        i = i + 1;
    }
    push_close_bracket(out);
    proof {
        assert(view_txs(v@).take(v@.len() as int) =~= view_txs(v@));
        assert(final(out)@ =~= old(out)@ + tx_list_json(view_txs(v@)));
    }
}

/// Appends the rendering of a block.
pub fn push_block(out: &mut Vec<char>, b: &Block)
    ensures
        final(out)@ == old(out)@ + block_json(b@),
{
    push_lit_obj_index(out);
    let mut index = dec_u64(b.index);
    out.append(&mut index);
    push_lit_timestamp(out);
    let mut timestamp = dec_u64(b.timestamp);
    out.append(&mut timestamp);
    push_lit_transactions(out);
    push_tx_list(out, &b.transactions);
    push_lit_proof_key(out);
    let mut proof_digits = dec_u64(b.proof);
    out.append(&mut proof_digits);
    push_lit_previous_hash(out);
    push_json_string(out, &b.previous_hash);
    push_close_brace(out);
}

/// Appends the rendering of a chain.
pub fn push_block_list(out: &mut Vec<char>, v: &Vec<Block>)
    ensures
        final(out)@ == old(out)@ + block_list_json(view_blocks(v@)),
{
    push_open_bracket(out);
    let mut i: usize = 0;
    while i < v.len()
        invariant
            i <= v@.len(),
            out@ =~= old(out)@ + seq!['['] + join_comma(
                view_blocks(v@).take(i as int).map_values(|b: BlockView| block_json(b)),
            ),
        decreases v@.len() - i,
    {
        if i > 0 {
            out.push(',');
        }
        push_block(out, &v[i]);
        proof {
            let f = |b: BlockView| block_json(b);
            let xs = view_blocks(v@).take(i as int).map_values(f);
            lemma_join_comma_push(xs, block_json(v@[i as int]@));
            assert(view_blocks(v@).take(i as int + 1).map_values(f) =~= xs.push(
                block_json(v@[i as int]@),
            ));
        }
        i = i + 1;
    }
    push_close_bracket(out);
    proof {
        assert(view_blocks(v@).take(v@.len() as int) =~= view_blocks(v@));
        assert(final(out)@ =~= old(out)@ + block_list_json(view_blocks(v@)));
    }
}

/// Appends the rendering of the peer list.
pub fn push_nodes(out: &mut Vec<char>, v: &Vec<String>)
    ensures
        final(out)@ == old(out)@ + nodes_json(view_strings(v@)),
{
    push_open_bracket(out);
    let mut i: usize = 0;
    while i < v.len()
        invariant
            i <= v@.len(),
            out@ =~= old(out)@ + seq!['['] + join_comma(
                view_strings(v@).take(i as int).map_values(|n: Seq<char>| json_string(n)),
            ),
        decreases v@.len() - i,
    {
        if i > 0 {
            out.push(',');
        }
        push_json_string(out, &v[i]);
        proof {
            let f = |n: Seq<char>| json_string(n);
            let xs = view_strings(v@).take(i as int).map_values(f);
            lemma_join_comma_push(xs, json_string(v@[i as int]@));
            assert(view_strings(v@).take(i as int + 1).map_values(f) =~= xs.push(
                json_string(v@[i as int]@),
            ));
        }
        i = i + 1;
    }
    push_close_bracket(out);
    proof {
        assert(view_strings(v@).take(v@.len() as int) =~= view_strings(v@));
        assert(final(out)@ =~= old(out)@ + nodes_json(view_strings(v@)));
    }
}

/// The rendering of a block, as characters.
pub fn block_chars(b: &Block) -> (r: Vec<char>)
    ensures
        r@ == block_json(b@),
{
    let mut out: Vec<char> = Vec::new();
    push_block(&mut out, b);
    assert(out@ =~= block_json(b@));
    out
}

impl Blockchain {
    /// Renders the whole ledger in its canonical encoding.
    pub fn serialize(&self) -> (r: Vec<char>)
        ensures
            r@ == ledger_json(self@),
    {
        let mut out: Vec<char> = Vec::new();
        push_lit_obj_chain(&mut out);
        push_block_list(&mut out, &self.chain);
        push_lit_current_transactions(&mut out);
        push_tx_list(&mut out, &self.current_transactions);
        push_lit_nodes_key(&mut out);
        push_nodes(&mut out, &self.nodes);
        push_close_brace(&mut out);
        assert(out@ =~= ledger_json(self@));
        out
    }

    /// Renders the chain alone, the shape a peer serves on request.
    pub fn serialize_chain(&self) -> (r: Vec<char>)
        ensures
            r@ == block_list_json(view_blocks(self.chain@)),
    {
        let mut out: Vec<char> = Vec::new();
        push_block_list(&mut out, &self.chain);
        assert(out@ =~= block_list_json(view_blocks(self.chain@)));
        out
    }
}


pub(crate) fn lit_obj_sender_vec() -> (r: Vec<char>)
    ensures
        r@ == lit_obj_sender(),
{
    let mut r: Vec<char> = Vec::new();
    push_lit_obj_sender(&mut r);
    assert(r@ =~= lit_obj_sender());
    r
}

pub(crate) fn lit_recipient_vec() -> (r: Vec<char>)
    ensures
        r@ == lit_recipient(),
{
    let mut r: Vec<char> = Vec::new();
    push_lit_recipient(&mut r);
    assert(r@ =~= lit_recipient());
    r
}

pub(crate) fn lit_amount_vec() -> (r: Vec<char>)
    ensures
        r@ == lit_amount(),
{
    let mut r: Vec<char> = Vec::new();
    push_lit_amount(&mut r);
    assert(r@ =~= lit_amount());
    r
}

pub(crate) fn lit_obj_index_vec() -> (r: Vec<char>)
    ensures
        r@ == lit_obj_index(),
{
    let mut r: Vec<char> = Vec::new();
    push_lit_obj_index(&mut r);
    assert(r@ =~= lit_obj_index());
    r
}

pub(crate) fn lit_timestamp_vec() -> (r: Vec<char>)
    ensures
        r@ == lit_timestamp(),
{
    let mut r: Vec<char> = Vec::new();
    push_lit_timestamp(&mut r);
    assert(r@ =~= lit_timestamp());
    r
}

pub(crate) fn lit_transactions_vec() -> (r: Vec<char>)
    ensures
        r@ == lit_transactions(),
{
    let mut r: Vec<char> = Vec::new();
    push_lit_transactions(&mut r);
    assert(r@ =~= lit_transactions());
    r
}

pub(crate) fn lit_proof_key_vec() -> (r: Vec<char>)
    ensures
        r@ == lit_proof_key(),
{
    let mut r: Vec<char> = Vec::new();
    push_lit_proof_key(&mut r);
    assert(r@ =~= lit_proof_key());
    r
}

pub(crate) fn lit_previous_hash_vec() -> (r: Vec<char>)
    ensures
        r@ == lit_previous_hash(),
{
    let mut r: Vec<char> = Vec::new();
    push_lit_previous_hash(&mut r);
    assert(r@ =~= lit_previous_hash());
    r
}

pub(crate) fn lit_obj_chain_vec() -> (r: Vec<char>)
    ensures
        r@ == lit_obj_chain(),
{
    let mut r: Vec<char> = Vec::new();
    push_lit_obj_chain(&mut r);
    assert(r@ =~= lit_obj_chain());
    r
}

pub(crate) fn lit_current_transactions_vec() -> (r: Vec<char>)
    ensures
        r@ == lit_current_transactions(),
{
    let mut r: Vec<char> = Vec::new();
    push_lit_current_transactions(&mut r);
    assert(r@ =~= lit_current_transactions());
    r
}

pub(crate) fn lit_nodes_key_vec() -> (r: Vec<char>)
    ensures
        r@ == lit_nodes_key(),
{
    let mut r: Vec<char> = Vec::new();
    push_lit_nodes_key(&mut r);
    assert(r@ =~= lit_nodes_key());
    r
}

} // verus!
