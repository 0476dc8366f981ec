//! The canonical snapshot text: a chain is written as one structured-text
//! document (compact JSON with a fixed key order), and read back by a parser
//! that is proved against the same spec-level grammar, so the round trip is
//! a theorem.
use vstd::prelude::*;

use crate::block::{txs_view, Block, BlockView, Transaction, TxView};
use crate::chain::{blocks_view, Blockchain, ChainView};
use crate::text::{
    chars_to_string, dec_nat, digit_char, digit_val, esc_seq, is_digit_char, push_escaped,
    push_lit, push_u64, string_to_chars,
};

verus! {

/// A string in its quoted, escaped form.
pub open spec fn quoted(s: Seq<char>) -> Seq<char> {
    seq!['"'] + esc_seq(s) + seq!['"']
}

/// One transaction as an object with fixed key order.
pub open spec fn tx_enc(t: TxView) -> Seq<char> {
    "{\"sender\":"@ + quoted(t.sender) + ",\"receiver\":"@ + quoted(t.receiver) + ",\"amount\":"@
        + dec_nat(t.amount as nat) + "}"@
}

/// A transaction list body: elements separated by commas, closed by `]`.
/// The opening `[` belongs to the surrounding text.
pub open spec fn txs_enc(ts: Seq<TxView>) -> Seq<char>
    decreases ts.len(),
{
    if ts.len() == 0 {
        seq![']']
    } else if ts.len() == 1 {
        tx_enc(ts[0]) + seq![']']
    } else {
        tx_enc(ts[0]) + seq![','] + txs_enc(ts.drop_first())
    }
}

/// A full transaction list, brackets included.
pub open spec fn tx_list_enc(ts: Seq<TxView>) -> Seq<char> {
    seq!['['] + txs_enc(ts)
}

/// One block as an object with fixed key order.
pub open spec fn block_enc(b: BlockView) -> Seq<char> {
    "{\"hash\":"@ + quoted(b.hash) + ",\"transactions\":["@ + txs_enc(b.transactions)
        + ",\"time_stamp\":"@ + dec_nat(b.time_stamp as nat) + ",\"prev_hash\":"@ + quoted(
        b.prev_hash,
    ) + ",\"nonce\":"@ + dec_nat(b.nonce as nat) + "}"@
}

/// A block list body, closed by `]`.
pub open spec fn blocks_enc(bs: Seq<BlockView>) -> Seq<char>
    decreases bs.len(),
{
    if bs.len() == 0 {
        seq![']']
    } else if bs.len() == 1 {
        block_enc(bs[0]) + seq![']']
    } else {
        block_enc(bs[0]) + seq![','] + blocks_enc(bs.drop_first())
    }
}

/// The whole chain as one document: the block list, then the difficulty.
pub open spec fn chain_enc(c: ChainView) -> Seq<char> {
    "{\"chain\":["@ + blocks_enc(c.chain) + ",\"difficulty\":"@ + dec_nat(c.difficulty as nat)
        + "}"@
}

/// Appends `s` in quoted, escaped form.
pub fn push_quoted(out: &mut Vec<char>, s: &str)
    ensures
        final(out)@ == old(out)@ + quoted(s@),
{
    out.push('"');
    push_escaped(out, s);
    out.push('"');
    proof {
        assert(out@ =~= old(out)@ + quoted(s@));
    }
}

/// Appends the canonical form of one transaction.
pub fn push_tx(out: &mut Vec<char>, t: &Transaction)
    ensures
        final(out)@ == old(out)@ + tx_enc(t@),
{
    push_lit(out, "{\"sender\":");
    push_quoted(out, t.sender.as_str());
    push_lit(out, ",\"receiver\":");
    push_quoted(out, t.receiver.as_str());
    push_lit(out, ",\"amount\":");
    push_u64(out, t.amount);
    push_lit(out, "}");
    proof {
        assert(out@ =~= old(out)@ + tx_enc(t@));
    }
}

/// Appends the transaction list body from index `i` on, closing it with `]`.
pub fn push_txs_from(out: &mut Vec<char>, txs: &Vec<Transaction>, i: usize)
    requires
        i <= txs@.len(),
    ensures
        final(out)@ == old(out)@ + txs_enc(txs_view(txs@).skip(i as int)),
    decreases txs@.len() - i,
{
    proof {
        assert(txs_view(txs@).len() == txs@.len());
    }
    if i == txs.len() {
        out.push(']');
        proof {
            assert(txs_view(txs@).skip(i as int) =~= Seq::<TxView>::empty());
            assert(out@ =~= old(out)@ + txs_enc(txs_view(txs@).skip(i as int)));
        }
    } else {
        push_tx(out, &txs[i]);
        if i + 1 == txs.len() {
            out.push(']');
        } else {
            out.push(',');
            push_txs_from(out, txs, i + 1);
        }
        proof {
            let tv = txs_view(txs@);
            assert(tv.skip(i as int)[0] == txs@[i as int]@);
            assert(tv.skip(i as int).drop_first() =~= tv.skip(i + 1));
            assert(out@ =~= old(out)@ + txs_enc(tv.skip(i as int)));
        }
    }
}

/// Appends a full transaction list, brackets included.
pub fn push_tx_list(out: &mut Vec<char>, txs: &Vec<Transaction>)
    ensures
        final(out)@ == old(out)@ + tx_list_enc(txs_view(txs@)),
{
    out.push('[');
    push_txs_from(out, txs, 0);
    proof {
        assert(txs_view(txs@).skip(0) =~= txs_view(txs@));
        assert(out@ =~= old(out)@ + tx_list_enc(txs_view(txs@)));
    }
}

/// Appends the canonical form of one block.
pub fn push_block(out: &mut Vec<char>, b: &Block)
    ensures
        final(out)@ == old(out)@ + block_enc(b@),
{
    push_lit(out, "{\"hash\":");
    push_quoted(out, b.hash.as_str());
    push_lit(out, ",\"transactions\":[");
    push_txs_from(out, &b.transactions, 0);
    push_lit(out, ",\"time_stamp\":");
    push_u64(out, b.time_stamp);
    push_lit(out, ",\"prev_hash\":");
    push_quoted(out, b.prev_hash.as_str());
    push_lit(out, ",\"nonce\":");
    push_u64(out, b.nonce);
    push_lit(out, "}");
    proof {
        assert(txs_view(b.transactions@).skip(0) =~= txs_view(b.transactions@));
        assert(out@ =~= old(out)@ + block_enc(b@));
    }
}

/// Appends the block list body from index `i` on, closing it with `]`.
pub fn push_blocks_from(out: &mut Vec<char>, bs: &Vec<Block>, i: usize)
    requires
        i <= bs@.len(),
    ensures
        final(out)@ == old(out)@ + blocks_enc(blocks_view(bs@).skip(i as int)),
    decreases bs@.len() - i,
{
    proof {
        assert(blocks_view(bs@).len() == bs@.len());
    }
    if i == bs.len() {
        out.push(']');
        proof {
            assert(blocks_view(bs@).skip(i as int) =~= Seq::<BlockView>::empty());
            assert(out@ =~= old(out)@ + blocks_enc(blocks_view(bs@).skip(i as int)));
        }
    } else {
        push_block(out, &bs[i]);
        if i + 1 == bs.len() {
            out.push(']');
        } else {
            out.push(',');
            push_blocks_from(out, bs, i + 1);
        }
        proof {
            let bv = blocks_view(bs@);
            assert(bv.skip(i as int)[0] == bs@[i as int]@);
            assert(bv.skip(i as int).drop_first() =~= bv.skip(i + 1));
            assert(out@ =~= old(out)@ + blocks_enc(bv.skip(i as int)));
        }
    }
}

// ---------------------------------------------------------------------------
// The spec-level grammar: one deterministic parse function per form. Each
// takes the text still to be read and yields the parsed value and the rest.
// ---------------------------------------------------------------------------
/// The rest of `s` after the literal `l`, if `s` starts with `l`.
pub open spec fn sp_expect(s: Seq<char>, l: Seq<char>) -> Option<Seq<char>> {
    if l.len() <= s.len() && s.subrange(0, l.len() as int) == l {
        Some(s.skip(l.len() as int))
    } else {
        None
    }
}

/// The content of a quoted string after its opening quote: characters up to
/// the first unescaped `"` (which is consumed), with `\"` and `\\` unescaped.
pub open spec fn sp_str_body(s: Seq<char>) -> Option<(Seq<char>, Seq<char>)>
    decreases s.len(),
{
    if s.len() == 0 {
        None
    } else if s[0] == '"' {
        Some((Seq::empty(), s.skip(1)))
    } else if s[0] == '\\' {
        if s.len() >= 2 && (s[1] == '"' || s[1] == '\\') {
            match sp_str_body(s.skip(2)) {
                None => None,
                Some((t, r)) => Some((seq![s[1]] + t, r)),
            }
        } else {
            None
        }
    } else {
        match sp_str_body(s.skip(1)) {
            None => None,
            Some((t, r)) => Some((seq![s[0]] + t, r)),
        }
    }
}

/// A whole quoted string, both quotes included.
pub open spec fn sp_string(s: Seq<char>) -> Option<(Seq<char>, Seq<char>)> {
    if s.len() >= 1 && s[0] == '"' {
        sp_str_body(s.skip(1))
    } else {
        None
    }
}

/// Folds decimal digits into `acc` until a non-digit (or the end); fails on
/// a value beyond `u64`.
pub open spec fn sp_digits(s: Seq<char>, acc: u64) -> Option<(u64, Seq<char>)>
    decreases s.len(),
{
    if s.len() == 0 || !is_digit_char(s[0]) {
        Some((acc, s))
    } else if acc * 10 + digit_val(s[0]) <= u64::MAX {
        sp_digits(s.skip(1), (acc * 10 + digit_val(s[0])) as u64)
    } else {
        None
    }
}

/// A canonical decimal numeral: at least one digit, no leading zero.
pub open spec fn sp_u64(s: Seq<char>) -> Option<(u64, Seq<char>)> {
    if s.len() == 0 || !is_digit_char(s[0]) {
        None
    } else if s[0] == '0' {
        if s.len() >= 2 && is_digit_char(s[1]) {
            None
        } else {
            Some((0u64, s.skip(1)))
        }
    } else {
        sp_digits(s, 0)
    }
}

/// One transaction object.
pub open spec fn sp_tx(s: Seq<char>) -> Option<(TxView, Seq<char>)> {
    match sp_expect(s, "{\"sender\":"@) {
        None => None,
        Some(r1) => match sp_string(r1) {
            None => None,
            Some((sender, r2)) => match sp_expect(r2, ",\"receiver\":"@) {
                None => None,
                Some(r3) => match sp_string(r3) {
                    None => None,
                    Some((receiver, r4)) => match sp_expect(r4, ",\"amount\":"@) {
                        None => None,
                        Some(r5) => match sp_u64(r5) {
                            None => None,
                            Some((amount, r6)) => match sp_expect(r6, "}"@) {
                                None => None,
                                Some(r7) => Some((TxView { sender, receiver, amount }, r7)),
                            },
                        },
                    },
                },
            },
        },
    }
}

pub proof fn lemma_sp_str_body_len(s: Seq<char>)
    ensures
        sp_str_body(s) matches Some(p) ==> p.1.len() < s.len(),
    decreases s.len(),
{
    if s.len() == 0 {
    } else if s[0] == '"' {
    } else if s[0] == '\\' {
        if s.len() >= 2 && (s[1] == '"' || s[1] == '\\') {
            lemma_sp_str_body_len(s.skip(2));
        }
    } else {
        lemma_sp_str_body_len(s.skip(1));
    }
}

pub proof fn lemma_sp_digits_len(s: Seq<char>, acc: u64)
    ensures
        sp_digits(s, acc) matches Some(p) ==> p.1.len() <= s.len(),
    decreases s.len(),
{
    if s.len() == 0 || !is_digit_char(s[0]) {
    } else if acc * 10 + digit_val(s[0]) <= u64::MAX {
        lemma_sp_digits_len(s.skip(1), (acc * 10 + digit_val(s[0])) as u64);
    }
}

pub proof fn lemma_sp_u64_len(s: Seq<char>)
    ensures
        sp_u64(s) matches Some(p) ==> p.1.len() < s.len(),
{
    if s.len() >= 1 && is_digit_char(s[0]) && s[0] != '0' {
        if 0 * 10 + digit_val(s[0]) <= u64::MAX {
            lemma_sp_digits_len(s.skip(1), (0 * 10 + digit_val(s[0])) as u64);
        }
    }
}

pub proof fn lemma_sp_tx_len(s: Seq<char>)
    ensures
        sp_tx(s) matches Some(p) ==> p.1.len() < s.len(),
{
    match sp_expect(s, "{\"sender\":"@) {
        None => {},
        Some(r1) => {
            lemma_sp_str_body_len(r1.skip(1));
            match sp_string(r1) {
                None => {},
                Some((sender, r2)) => {
                    match sp_expect(r2, ",\"receiver\":"@) {
                        None => {},
                        Some(r3) => {
                            lemma_sp_str_body_len(r3.skip(1));
                            match sp_string(r3) {
                                None => {},
                                Some((receiver, r4)) => {
                                    match sp_expect(r4, ",\"amount\":"@) {
                                        None => {},
                                        Some(r5) => {
                                            lemma_sp_u64_len(r5);
                                        },
                                    }
                                },
                            }
                        },
                    }
                },
            }
        },
    }
}

/// A transaction list body, closed by `]`.
pub open spec fn sp_txs(s: Seq<char>) -> Option<(Seq<TxView>, Seq<char>)>
    decreases s.len(),
{
    if s.len() >= 1 && s[0] == ']' {
        Some((Seq::empty(), s.skip(1)))
    } else {
        match sp_tx(s) {
            None => None,
            Some((t, r)) => {
                if r.len() >= 1 && r[0] == ',' {
                    proof {
                        lemma_sp_tx_len(s);
                    }
                    match sp_txs(r.skip(1)) {
                        None => None,
                        Some((ts, r2)) => Some((seq![t] + ts, r2)),
                    }
                } else if r.len() >= 1 && r[0] == ']' {
                    Some((seq![t], r.skip(1)))
                } else {
                    None
                }
            },
        }
    }
}

pub proof fn lemma_sp_txs_len(s: Seq<char>)
    ensures
        sp_txs(s) matches Some(p) ==> p.1.len() < s.len(),
    decreases s.len(),
{
    if s.len() >= 1 && s[0] == ']' {
    } else {
        match sp_tx(s) {
            None => {},
            Some((t, r)) => {
                lemma_sp_tx_len(s);
                if r.len() >= 1 && r[0] == ',' {
                    lemma_sp_txs_len(r.skip(1));
                }
            },
        }
    }
}

/// One block object.
pub open spec fn sp_block(s: Seq<char>) -> Option<(BlockView, Seq<char>)> {
    match sp_expect(s, "{\"hash\":"@) {
        None => None,
        Some(r1) => match sp_string(r1) {
            None => None,
            Some((hash, r2)) => match sp_expect(r2, ",\"transactions\":["@) {
                None => None,
                Some(r3) => match sp_txs(r3) {
                    None => None,
                    Some((transactions, r4)) => match sp_expect(r4, ",\"time_stamp\":"@) {
                        None => None,
                        Some(r5) => match sp_u64(r5) {
                            None => None,
                            Some((time_stamp, r6)) => match sp_expect(r6, ",\"prev_hash\":"@) {
                                None => None,
                                Some(r7) => match sp_string(r7) {
                                    None => None,
                                    Some((ph, r8)) => match sp_expect(r8, ",\"nonce\":"@) {
                                        None => None,
                                        Some(r9) => match sp_u64(r9) {
                                            None => None,
                                            Some((nonce, r10)) => match sp_expect(r10, "}"@) {
                                                None => None,
                                                Some(r11) => Some(
                                                    (
                                                        BlockView {
                                                            hash,
                                                            transactions,
                                                            time_stamp,
                                                            prev_hash: ph,
                                                            nonce,
                                                        },
                                                        r11,
                                                    ),
                                                ),
                                            },
                                        },
                                    },
                                },
                            },
                        },
                    },
                },
            },
        },
    }
}

pub proof fn lemma_sp_block_len(s: Seq<char>)
    ensures
        sp_block(s) matches Some(p) ==> p.1.len() < s.len(),
{
    match sp_expect(s, "{\"hash\":"@) {
        None => {},
        Some(r1) => {
            lemma_sp_str_body_len(r1.skip(1));
            match sp_string(r1) {
                None => {},
                Some((hash, r2)) => match sp_expect(r2, ",\"transactions\":["@) {
                    None => {},
                    Some(r3) => {
                        lemma_sp_txs_len(r3);
                        match sp_txs(r3) {
                            None => {},
                            Some((transactions, r4)) => match sp_expect(r4, ",\"time_stamp\":"@) {
                                None => {},
                                Some(r5) => {
                                    lemma_sp_u64_len(r5);
                                    match sp_u64(r5) {
                                        None => {},
                                        Some((time_stamp, r6)) => match sp_expect(
                                            r6,
                                            ",\"prev_hash\":"@,
                                        ) {
                                            None => {},
                                            Some(r7) => {
                                                lemma_sp_str_body_len(r7.skip(1));
                                                match sp_string(r7) {
                                                    None => {},
                                                    Some((ph, r8)) => match sp_expect(
                                                        r8,
                                                        ",\"nonce\":"@,
                                                    ) {
                                                        None => {},
                                                        Some(r9) => {
                                                            lemma_sp_u64_len(r9);
                                                        },
                                                    },
                                                }
                                            },
                                        },
                                    }
                                },
                            },
                        }
                    },
                },
            }
        },
    }
}

/// A block list body, closed by `]`.
pub open spec fn sp_blocks(s: Seq<char>) -> Option<(Seq<BlockView>, Seq<char>)>
    decreases s.len(),
{
    if s.len() >= 1 && s[0] == ']' {
        Some((Seq::empty(), s.skip(1)))
    } else {
        match sp_block(s) {
            None => None,
            Some((b, r)) => {
                if r.len() >= 1 && r[0] == ',' {
                    proof {
                        lemma_sp_block_len(s);
                    }
                    match sp_blocks(r.skip(1)) {
                        None => None,
                        Some((bs, r2)) => Some((seq![b] + bs, r2)),
                    }
                } else if r.len() >= 1 && r[0] == ']' {
                    Some((seq![b], r.skip(1)))
                } else {
                    None
                }
            },
        }
    }
}

/// A whole snapshot document.
pub open spec fn sp_chain(s: Seq<char>) -> Option<(ChainView, Seq<char>)> {
    match sp_expect(s, "{\"chain\":["@) {
        None => None,
        Some(r1) => match sp_blocks(r1) {
            None => None,
            Some((bs, r2)) => match sp_expect(r2, ",\"difficulty\":"@) {
                None => None,
                Some(r3) => match sp_u64(r3) {
                    None => None,
                    Some((d, r4)) => match sp_expect(r4, "}"@) {
                        None => None,
                        Some(r5) => Some((ChainView { chain: bs, difficulty: d }, r5)),
                    },
                },
            },
        },
    }
}

/// What a snapshot text denotes: the chain it parses to, if the whole text
/// is one well-formed snapshot of a non-empty chain, and nothing otherwise.
pub open spec fn sp_restore(s: Seq<char>) -> Option<ChainView> {
    match sp_chain(s) {
        None => None,
        Some((c, r)) => if r.len() == 0 && c.chain.len() >= 1 {
            Some(c)
        } else {
            None
        },
    }
}

// ---------------------------------------------------------------------------
// The round trip: parsing a printed form yields the value it was printed
// from, one lemma per grammar form.
// ---------------------------------------------------------------------------
pub proof fn lemma_expect_rt(l: Seq<char>, rest: Seq<char>)
    ensures
        sp_expect(l + rest, l) == Some(rest),
{
    let s = l + rest;
    assert(s.subrange(0, l.len() as int) =~= l);
    assert(s.skip(l.len() as int) =~= rest);
}

pub proof fn lemma_str_body_rt(x: Seq<char>, rest: Seq<char>)
    ensures
        sp_str_body(esc_seq(x) + seq!['"'] + rest) == Some((x, rest)),
    decreases x.len(),
{
    let s = esc_seq(x) + seq!['"'] + rest;
    if x.len() == 0 {
        assert(s =~= seq!['"'] + rest);
        assert(s[0] == '"');
        assert(s.skip(1) =~= rest);
        assert(x =~= Seq::<char>::empty());
    } else {
        let c = x[0];
        let tail = x.drop_first();
        if c == '"' || c == '\\' {
            assert(s =~= seq!['\\', c] + (esc_seq(tail) + seq!['"'] + rest));
            assert(s[0] == '\\' && s[1] == c && s.len() >= 2);
            assert(s.skip(2) =~= esc_seq(tail) + seq!['"'] + rest);
            lemma_str_body_rt(tail, rest);
            assert(seq![s[1]] + tail =~= x);
        } else {
            assert(s =~= seq![c] + (esc_seq(tail) + seq!['"'] + rest));
            assert(s[0] == c && c != '"' && c != '\\');
            assert(s.skip(1) =~= esc_seq(tail) + seq!['"'] + rest);
            lemma_str_body_rt(tail, rest);
            assert(seq![s[0]] + tail =~= x);
        }
    }
}

pub proof fn lemma_string_rt(x: Seq<char>, rest: Seq<char>)
    ensures
        sp_string(quoted(x) + rest) == Some((x, rest)),
{
    let s = quoted(x) + rest;
    assert(s =~= seq!['"'] + (esc_seq(x) + seq!['"'] + rest));
    assert(s[0] == '"');
    assert(s.skip(1) =~= esc_seq(x) + seq!['"'] + rest);
    lemma_str_body_rt(x, rest);
}

/// The value of a digit string folded onto an accumulator, leftmost first.
pub open spec fn val_acc(ds: Seq<char>, acc: int) -> int
    decreases ds.len(),
{
    if ds.len() == 0 {
        acc
    } else {
        val_acc(ds.drop_first(), acc * 10 + digit_val(ds[0]))
    }
}

pub proof fn lemma_val_acc_single(c: char, acc: int)
    ensures
        val_acc(seq![c], acc) == acc * 10 + digit_val(c),
{
    let ds = seq![c];
    assert(ds.drop_first().len() == 0);
    assert(val_acc(ds.drop_first(), acc * 10 + digit_val(c)) == acc * 10 + digit_val(c));
}

pub proof fn lemma_val_acc_mono(ds: Seq<char>, acc: int)
    requires
        acc >= 0,
    ensures
        val_acc(ds, acc) >= acc,
    decreases ds.len(),
{
    if ds.len() > 0 {
        lemma_val_acc_mono(ds.drop_first(), acc * 10 + digit_val(ds[0]));
    }
}

pub proof fn lemma_val_acc_concat(a: Seq<char>, b: Seq<char>, acc: int)
    ensures
        val_acc(a + b, acc) == val_acc(b, val_acc(a, acc)),
    decreases a.len(),
{
    if a.len() == 0 {
        assert(a + b =~= b);
    } else {
        assert((a + b).drop_first() =~= a.drop_first() + b);
        lemma_val_acc_concat(a.drop_first(), b, acc * 10 + digit_val(a[0]));
    }
}

pub proof fn lemma_dec_digits(n: nat)
    ensures
        dec_nat(n).len() >= 1,
        forall|i: int| 0 <= i < dec_nat(n).len() ==> is_digit_char(#[trigger] dec_nat(n)[i]),
        n > 0 ==> dec_nat(n)[0] != '0',
    decreases n,
{
    if n < 10 {
        assert(is_digit_char(digit_char(n)));
        if n > 0 {
            assert(digit_char(n) as u32 == n + 48);
        }
    } else {
        lemma_dec_digits(n / 10);
        assert(dec_nat(n) == dec_nat(n / 10) + seq![digit_char(n % 10)]);
        assert(is_digit_char(digit_char(n % 10)));
        assert(dec_nat(n)[0] == dec_nat(n / 10)[0]);
    }
}

pub proof fn lemma_val_dec(n: nat)
    ensures
        val_acc(dec_nat(n), 0) == n,
    decreases n,
{
    if n < 10 {
        lemma_val_acc_single(digit_char(n), 0);
        assert(digit_val(digit_char(n)) == n);
    } else {
        lemma_val_dec(n / 10);
        lemma_val_acc_concat(dec_nat(n / 10), seq![digit_char(n % 10)], 0);
        lemma_val_acc_single(digit_char(n % 10), (n / 10) as int);
        assert(digit_val(digit_char(n % 10)) == n % 10);
        vstd::arithmetic::div_mod::lemma_fundamental_div_mod(n as int, 10);
    }
}

pub proof fn lemma_digits_rt(ds: Seq<char>, rest: Seq<char>, acc: u64)
    requires
        forall|i: int| 0 <= i < ds.len() ==> is_digit_char(#[trigger] ds[i]),
        rest.len() == 0 || !is_digit_char(rest[0]),
    ensures
        sp_digits(ds + rest, acc) == (if val_acc(ds, acc as int) <= u64::MAX {
            Some((val_acc(ds, acc as int) as u64, rest))
        } else {
            Option::<(u64, Seq<char>)>::None
        }),
    decreases ds.len(),
{
    let s = ds + rest;
    if ds.len() == 0 {
        assert(s =~= rest);
    } else {
        assert(s[0] == ds[0]);
        let d = digit_val(ds[0]);
        assert(s.skip(1) =~= ds.drop_first() + rest);
        if acc * 10 + d <= u64::MAX {
            lemma_digits_rt(ds.drop_first(), rest, (acc * 10 + d) as u64);
        } else {
            lemma_val_acc_mono(ds.drop_first(), acc * 10 + d);
        }
    }
}

pub proof fn lemma_u64_rt(n: u64, rest: Seq<char>)
    requires
        rest.len() == 0 || !is_digit_char(rest[0]),
    ensures
        sp_u64(dec_nat(n as nat) + rest) == Some((n, rest)),
{
    let ds = dec_nat(n as nat);
    let s = ds + rest;
    lemma_dec_digits(n as nat);
    assert(s[0] == ds[0]);
    if n == 0 {
        assert(ds == seq![digit_char(0)]);
        assert(digit_char(0) == '0');
        if rest.len() >= 1 {
            assert(s[1] == rest[0]);
        }
        assert(s.skip(1) =~= rest);
    } else {
        assert(ds[0] != '0');
        lemma_digits_rt(ds, rest, 0);
        lemma_val_dec(n as nat);
    }
}

pub proof fn lemma_tx_rt(t: TxView, rest: Seq<char>)
    ensures
        sp_tx(tx_enc(t) + rest) == Some((t, rest)),
{
    let l1 = "{\"sender\":"@;
    let l2 = ",\"receiver\":"@;
    let l3 = ",\"amount\":"@;
    let l4 = "}"@;
    let x6 = l4 + rest;
    let x5 = dec_nat(t.amount as nat) + x6;
    let x4 = l3 + x5;
    let x3 = quoted(t.receiver) + x4;
    let x2 = l2 + x3;
    let x1 = quoted(t.sender) + x2;
    let s = tx_enc(t) + rest;
    assert(s =~= l1 + x1);
    lemma_expect_rt(l1, x1);
    lemma_string_rt(t.sender, x2);
    lemma_expect_rt(l2, x3);
    lemma_string_rt(t.receiver, x4);
    lemma_expect_rt(l3, x5);
    reveal_strlit("}");
    assert(x6[0] == '}');
    assert(!is_digit_char('}'));
    lemma_u64_rt(t.amount, x6);
    lemma_expect_rt(l4, rest);
    assert(TxView { sender: t.sender, receiver: t.receiver, amount: t.amount } =~= t);
}

pub proof fn lemma_txs_rt(ts: Seq<TxView>, rest: Seq<char>)
    ensures
        sp_txs(txs_enc(ts) + rest) == Some((ts, rest)),
    decreases ts.len(),
{
    let s = txs_enc(ts) + rest;
    reveal_strlit("{\"sender\":");
    if ts.len() == 0 {
        assert(s =~= seq![']'] + rest);
        assert(s[0] == ']');
        assert(s.skip(1) =~= rest);
        assert(ts =~= Seq::<TxView>::empty());
    } else if ts.len() == 1 {
        let x1 = seq![']'] + rest;
        assert(s =~= tx_enc(ts[0]) + x1);
        assert(tx_enc(ts[0])[0] == '{');
        assert(s[0] == '{');
        lemma_tx_rt(ts[0], x1);
        assert(x1[0] == ']');
        assert(x1.skip(1) =~= rest);
        assert(seq![ts[0]] =~= ts);
    } else {
        let x1 = seq![','] + (txs_enc(ts.drop_first()) + rest);
        assert(s =~= tx_enc(ts[0]) + x1);
        assert(tx_enc(ts[0])[0] == '{');
        assert(s[0] == '{');
        lemma_tx_rt(ts[0], x1);
        assert(x1[0] == ',');
        assert(x1.skip(1) =~= txs_enc(ts.drop_first()) + rest);
        lemma_txs_rt(ts.drop_first(), rest);
        assert(seq![ts[0]] + ts.drop_first() =~= ts);
    }
}

#[verifier::rlimit(100)]
pub proof fn lemma_block_rt(b: BlockView, rest: Seq<char>)
    ensures
        sp_block(block_enc(b) + rest) == Some((b, rest)),
{
    let l1 = "{\"hash\":"@;
    let l2 = ",\"transactions\":["@;
    let l3 = ",\"time_stamp\":"@;
    let l4 = ",\"prev_hash\":"@;
    let l5 = ",\"nonce\":"@;
    let l6 = "}"@;
    let x10 = l6 + rest;
    let x9 = dec_nat(b.nonce as nat) + x10;
    let x8 = l5 + x9;
    let x7 = quoted(b.prev_hash) + x8;
    let x6 = l4 + x7;
    let x5 = dec_nat(b.time_stamp as nat) + x6;
    let x4 = l3 + x5;
    let x3 = txs_enc(b.transactions) + x4;
    let x2 = l2 + x3;
    let x1 = quoted(b.hash) + x2;
    let s = block_enc(b) + rest;
    assert(s =~= l1 + x1);
    lemma_expect_rt(l1, x1);
    lemma_string_rt(b.hash, x2);
    lemma_expect_rt(l2, x3);
    lemma_txs_rt(b.transactions, x4);
    lemma_expect_rt(l3, x5);
    reveal_strlit(",\"prev_hash\":");
    reveal_strlit("}");
    assert(x6[0] == ',');
    assert(!is_digit_char(','));
    lemma_u64_rt(b.time_stamp, x6);
    lemma_expect_rt(l4, x7);
    lemma_string_rt(b.prev_hash, x8);
    lemma_expect_rt(l5, x9);
    assert(x10[0] == '}');
    assert(!is_digit_char('}'));
    lemma_u64_rt(b.nonce, x10);
    lemma_expect_rt(l6, rest);
    assert(BlockView {
        hash: b.hash,
        transactions: b.transactions,
        time_stamp: b.time_stamp,
        prev_hash: b.prev_hash,
        nonce: b.nonce,
    } =~= b);
}

#[verifier::rlimit(100)]
pub proof fn lemma_blocks_rt(bs: Seq<BlockView>, rest: Seq<char>)
    ensures
        sp_blocks(blocks_enc(bs) + rest) == Some((bs, rest)),
    decreases bs.len(),
{
    let s = blocks_enc(bs) + rest;
    reveal_strlit("{\"hash\":");
    if bs.len() == 0 {
        assert(s =~= seq![']'] + rest);
        assert(s[0] == ']');
        assert(s.skip(1) =~= rest);
        assert(bs =~= Seq::<BlockView>::empty());
    } else if bs.len() == 1 {
        let x1 = seq![']'] + rest;
        assert(s =~= block_enc(bs[0]) + x1);
        assert(block_enc(bs[0])[0] == '{');
        assert(s[0] == '{');
        lemma_block_rt(bs[0], x1);
        assert(x1[0] == ']');
        assert(x1.skip(1) =~= rest);
        assert(seq![bs[0]] =~= bs);
    } else {
        let x1 = seq![','] + (blocks_enc(bs.drop_first()) + rest);
        assert(s =~= block_enc(bs[0]) + x1);
        assert(block_enc(bs[0])[0] == '{');
        assert(s[0] == '{');
        lemma_block_rt(bs[0], x1);
        assert(x1[0] == ',');
        assert(x1.skip(1) =~= blocks_enc(bs.drop_first()) + rest);
        lemma_blocks_rt(bs.drop_first(), rest);
        assert(seq![bs[0]] + bs.drop_first() =~= bs);
    }
}

pub proof fn lemma_chain_rt(c: ChainView, rest: Seq<char>)
    ensures
        sp_chain(chain_enc(c) + rest) == Some((c, rest)),
{
    let l1 = "{\"chain\":["@;
    let l2 = ",\"difficulty\":"@;
    let l3 = "}"@;
    let x4 = l3 + rest;
    let x3 = dec_nat(c.difficulty as nat) + x4;
    let x2 = l2 + x3;
    let x1 = blocks_enc(c.chain) + x2;
    let s = chain_enc(c) + rest;
    assert(s =~= l1 + x1);
    lemma_expect_rt(l1, x1);
    lemma_blocks_rt(c.chain, x2);
    lemma_expect_rt(l2, x3);
    reveal_strlit("}");
    assert(x4[0] == '}');
    assert(!is_digit_char('}'));
    lemma_u64_rt(c.difficulty, x4);
    lemma_expect_rt(l3, rest);
    assert(ChainView { chain: c.chain, difficulty: c.difficulty } =~= c);
}

// ---------------------------------------------------------------------------
// The executable parser, one function per grammar form, each proved to
// return exactly what the spec-level parse function says.
// ---------------------------------------------------------------------------
fn expect_at(s: &Vec<char>, i: usize, lit: &str) -> (r: Option<usize>)
    requires
        i <= s@.len(),
    ensures
        match r {
            Some(j) => i <= j <= s@.len() && j - i == lit@.len() && sp_expect(
                s@.skip(i as int),
                lit@,
            ) == Some(s@.skip(j as int)),
            None => sp_expect(s@.skip(i as int), lit@) is None,
        },
{
    let n = lit.unicode_len();
    if n > s.len() - i {
        return None;
    }
    let slen = s.len();
    let mut k: usize = 0;
    while k < n
        invariant
            slen == s@.len(),
            i + n <= s@.len(),
            k <= n,
            n == lit@.len(),
            forall|m: int| 0 <= m < k ==> s@[i + m] == lit@[m],
        decreases n - k,
    {
        if s[i + k] != lit.get_char(k) {
            proof {
                let sub = s@.skip(i as int);
                assert(sub.subrange(0, n as int)[k as int] != lit@[k as int]);
            }
            return None;
        }
        k = k + 1;
    }
    proof {
        let sub = s@.skip(i as int);
        assert(sub.subrange(0, n as int) =~= lit@);
        assert(sub.skip(n as int) =~= s@.skip(i + n));
    }
    Some(i + n)
}

fn parse_str_body_at(s: &Vec<char>, i: usize) -> (r: Option<(Vec<char>, usize)>)
    requires
        i <= s@.len(),
    ensures
        match r {
            Some(p) => i <= p.1 <= s@.len() && sp_str_body(s@.skip(i as int)) == Some(
                (p.0@, s@.skip(p.1 as int)),
            ),
            None => sp_str_body(s@.skip(i as int)) is None,
        },
    decreases s@.len() - i,
{
    if i == s.len() {
        return None;
    }
    let c = s[i];
    if c == '"' {
        proof {
            assert(s@.skip(i as int).skip(1) =~= s@.skip(i + 1));
        }
        let v: Vec<char> = Vec::new();
        Some((v, i + 1))
    } else if c == '\\' {
        if i + 1 < s.len() && (s[i + 1] == '"' || s[i + 1] == '\\') {
            proof {
                assert(s@.skip(i as int).skip(2) =~= s@.skip(i + 2));
            }
            match parse_str_body_at(s, i + 2) {
                None => None,
                Some((v, j)) => {
                    let mut v2 = v;
                    v2.insert(0, s[i + 1]);
                    proof {
                        assert(v2@ =~= seq![s@.skip(i as int)[1]] + v@);
                    }
                    Some((v2, j))
                },
            }
        } else {
            None
        }
    } else {
        proof {
            assert(s@.skip(i as int).skip(1) =~= s@.skip(i + 1));
        }
        match parse_str_body_at(s, i + 1) {
            None => None,
            Some((v, j)) => {
                let mut v2 = v;
                v2.insert(0, c);
                proof {
                    assert(v2@ =~= seq![s@.skip(i as int)[0]] + v@);
                }
                Some((v2, j))
            },
        }
    }
}

fn parse_string_at(s: &Vec<char>, i: usize) -> (r: Option<(Vec<char>, usize)>)
    requires
        i <= s@.len(),
    ensures
        match r {
            Some(p) => i <= p.1 <= s@.len() && sp_string(s@.skip(i as int)) == Some(
                (p.0@, s@.skip(p.1 as int)),
            ),
            None => sp_string(s@.skip(i as int)) is None,
        },
{
    if i < s.len() && s[i] == '"' {
        proof {
            assert(s@.skip(i as int).skip(1) =~= s@.skip(i + 1));
        }
        parse_str_body_at(s, i + 1)
    } else {
        None
    }
}

fn parse_digits_at(s: &Vec<char>, i: usize, acc: u64) -> (r: Option<(u64, usize)>)
    requires
        i <= s@.len(),
    ensures
        match r {
            Some(p) => i <= p.1 <= s@.len() && sp_digits(s@.skip(i as int), acc) == Some(
                (p.0, s@.skip(p.1 as int)),
            ),
            None => sp_digits(s@.skip(i as int), acc) is None,
        },
    decreases s@.len() - i,
{
    if i == s.len() {
        return Some((acc, i));
    }
    let c = s[i];
    let u = c as u32;
    if u < 48 || u > 57 {
        return Some((acc, i));
    }
    let d = (u - 48) as u64;
    match acc.checked_mul(10) {
        None => None,
        Some(m) => match m.checked_add(d) {
            None => None,
            Some(acc2) => {
                proof {
                    assert(s@.skip(i as int).skip(1) =~= s@.skip(i + 1));
                }
                parse_digits_at(s, i + 1, acc2)
            },
        },
    }
}

fn parse_u64_at(s: &Vec<char>, i: usize) -> (r: Option<(u64, usize)>)
    requires
        i <= s@.len(),
    ensures
        match r {
            Some(p) => i < p.1 <= s@.len() && sp_u64(s@.skip(i as int)) == Some(
                (p.0, s@.skip(p.1 as int)),
            ),
            None => sp_u64(s@.skip(i as int)) is None,
        },
{
    if i == s.len() {
        return None;
    }
    let c = s[i];
    let u = c as u32;
    if u < 48 || u > 57 {
        return None;
    }
    if c == '0' {
        if i + 1 < s.len() {
            let u2 = s[i + 1] as u32;
            if 48 <= u2 && u2 <= 57 {
                return None;
            }
        }
        proof {
            assert(s@.skip(i as int).skip(1) =~= s@.skip(i + 1));
        }
        return Some((0u64, i + 1));
    }
    let r = parse_digits_at(s, i, 0);
    proof {
        if r is Some {
            lemma_sp_u64_len(s@.skip(i as int));
        }
    }
    r
}

fn parse_tx_at(s: &Vec<char>, i: usize) -> (r: Option<(Transaction, usize)>)
    requires
        i <= s@.len(),
    ensures
        match r {
            Some(p) => i < p.1 <= s@.len() && sp_tx(s@.skip(i as int)) == Some(
                (p.0@, s@.skip(p.1 as int)),
            ),
            None => sp_tx(s@.skip(i as int)) is None,
        },
{
    proof {
        reveal_strlit("{\"sender\":");
    }
    let j1 = match expect_at(s, i, "{\"sender\":") {
        None => {
            return None;
        },
        Some(j) => j,
    };
    let (sv, j2) = match parse_string_at(s, j1) {
        None => {
            return None;
        },
        Some(p) => p,
    };
    let j3 = match expect_at(s, j2, ",\"receiver\":") {
        None => {
            return None;
        },
        Some(j) => j,
    };
    let (rv, j4) = match parse_string_at(s, j3) {
        None => {
            return None;
        },
        Some(p) => p,
    };
    let j5 = match expect_at(s, j4, ",\"amount\":") {
        None => {
            return None;
        },
        Some(j) => j,
    };
    let (amount, j6) = match parse_u64_at(s, j5) {
        None => {
            return None;
        },
        Some(p) => p,
    };
    let j7 = match expect_at(s, j6, "}") {
        None => {
            return None;
        },
        Some(j) => j,
    };
    let t = Transaction { sender: chars_to_string(&sv), receiver: chars_to_string(&rv), amount };
    Some((t, j7))
}

fn parse_txs_at(s: &Vec<char>, i: usize) -> (r: Option<(Vec<Transaction>, usize)>)
    requires
        i <= s@.len(),
    ensures
        match r {
            Some(p) => i <= p.1 <= s@.len() && sp_txs(s@.skip(i as int)) == Some(
                (txs_view(p.0@), s@.skip(p.1 as int)),
            ),
            None => sp_txs(s@.skip(i as int)) is None,
        },
    decreases s@.len() - i,
{
    if i < s.len() && s[i] == ']' {
        proof {
            assert(s@.skip(i as int).skip(1) =~= s@.skip(i + 1));
            assert(txs_view(Seq::<Transaction>::empty()) =~= Seq::<TxView>::empty());
        }
        let v: Vec<Transaction> = Vec::new();
        return Some((v, i + 1));
    }
    let (t, j) = match parse_tx_at(s, i) {
        None => {
            return None;
        },
        Some(p) => p,
    };
    if j < s.len() && s[j] == ',' {
        proof {
            assert(s@.skip(j as int).skip(1) =~= s@.skip(j + 1));
        }
        match parse_txs_at(s, j + 1) {
            None => None,
            Some((ts, j2)) => {
                let mut v = ts;
                v.insert(0, t);
                proof {
                    assert(txs_view(v@) =~= seq![t@] + txs_view(v@.drop_first()));
                    assert(v@.drop_first() =~= ts@);
                }
                Some((v, j2))
            },
        }
    } else if j < s.len() && s[j] == ']' {
        proof {
            assert(s@.skip(j as int).skip(1) =~= s@.skip(j + 1));
        }
        let mut v: Vec<Transaction> = Vec::new();
        v.push(t);
        proof {
            assert(txs_view(v@) =~= seq![t@]);
        }
        Some((v, j + 1))
    } else {
        None
    }
}

fn parse_block_at(s: &Vec<char>, i: usize) -> (r: Option<(Block, usize)>)
    requires
        i <= s@.len(),
    ensures
        match r {
            Some(p) => i < p.1 <= s@.len() && sp_block(s@.skip(i as int)) == Some(
                (p.0@, s@.skip(p.1 as int)),
            ),
            None => sp_block(s@.skip(i as int)) is None,
        },
{
    proof {
        reveal_strlit("{\"hash\":");
    }
    let j1 = match expect_at(s, i, "{\"hash\":") {
        None => {
            return None;
        },
        Some(j) => j,
    };
    let (hv, j2) = match parse_string_at(s, j1) {
        None => {
            return None;
        },
        Some(p) => p,
    };
    let j3 = match expect_at(s, j2, ",\"transactions\":[") {
        None => {
            return None;
        },
        Some(j) => j,
    };
    let (txs, j4) = match parse_txs_at(s, j3) {
        None => {
            return None;
        },
        Some(p) => p,
    };
    let j5 = match expect_at(s, j4, ",\"time_stamp\":") {
        None => {
            return None;
        },
        Some(j) => j,
    };
    let (time_stamp, j6) = match parse_u64_at(s, j5) {
        None => {
            return None;
        },
        Some(p) => p,
    };
    let j7 = match expect_at(s, j6, ",\"prev_hash\":") {
        None => {
            return None;
        },
        Some(j) => j,
    };
    let (pv, j8) = match parse_string_at(s, j7) {
        None => {
            return None;
        },
        Some(p) => p,
    };
    let j9 = match expect_at(s, j8, ",\"nonce\":") {
        None => {
            return None;
        },
        Some(j) => j,
    };
    let (nonce, j10) = match parse_u64_at(s, j9) {
        None => {
            return None;
        },
        Some(p) => p,
    };
    let j11 = match expect_at(s, j10, "}") {
        None => {
            return None;
        },
        Some(j) => j,
    };
    let b = Block {
        hash: chars_to_string(&hv),
        transactions: txs,
        time_stamp,
        prev_hash: chars_to_string(&pv),
        nonce,
    };
    Some((b, j11))
}

fn parse_blocks_at(s: &Vec<char>, i: usize) -> (r: Option<(Vec<Block>, usize)>)
    requires
        i <= s@.len(),
    ensures
        match r {
            Some(p) => i <= p.1 <= s@.len() && sp_blocks(s@.skip(i as int)) == Some(
                (blocks_view(p.0@), s@.skip(p.1 as int)),
            ),
            None => sp_blocks(s@.skip(i as int)) is None,
        },
    decreases s@.len() - i,
{
    if i < s.len() && s[i] == ']' {
        proof {
            assert(s@.skip(i as int).skip(1) =~= s@.skip(i + 1));
            assert(blocks_view(Seq::<Block>::empty()) =~= Seq::<BlockView>::empty());
        }
        let v: Vec<Block> = Vec::new();
        return Some((v, i + 1));
    }
    let (b, j) = match parse_block_at(s, i) {
        None => {
            return None;
        },
        Some(p) => p,
    };
    if j < s.len() && s[j] == ',' {
        proof {
            assert(s@.skip(j as int).skip(1) =~= s@.skip(j + 1));
        }
        match parse_blocks_at(s, j + 1) {
            None => None,
            Some((bs, j2)) => {
                let mut v = bs;
                v.insert(0, b);
                proof {
                    assert(blocks_view(v@) =~= seq![b@] + blocks_view(v@.drop_first()));
                    assert(v@.drop_first() =~= bs@);
                }
                Some((v, j2))
            },
        }
    } else if j < s.len() && s[j] == ']' {
        proof {
            assert(s@.skip(j as int).skip(1) =~= s@.skip(j + 1));
        }
        let mut v: Vec<Block> = Vec::new();
        v.push(b);
        proof {
            assert(blocks_view(v@) =~= seq![b@]);
        }
        Some((v, j + 1))
    } else {
        None
    }
}

/// The round-trip law: the snapshot text of a well-formed chain denotes
/// exactly that chain. With the contracts of `to_snapshot` and
/// `from_snapshot`, restoring a persisted chain yields the chain it was
/// persisted from, block for block, difficulty included.
pub proof fn lemma_snapshot_round_trip(c: ChainView)
    requires
        c.wf(),
    ensures
        sp_restore(chain_enc(c)) == Some(c),
{
    lemma_chain_rt(c, Seq::empty());
    assert(chain_enc(c) + Seq::<char>::empty() =~= chain_enc(c));
}

impl Blockchain {
    /// The canonical snapshot text of this chain.
    pub fn to_snapshot(&self) -> (r: String)
        ensures
            r@ == chain_enc(self@),
    {
        let mut out: Vec<char> = Vec::new();
        push_lit(&mut out, "{\"chain\":[");
        push_blocks_from(&mut out, &self.chain, 0);
        push_lit(&mut out, ",\"difficulty\":");
        push_u64(&mut out, self.difficulty);
        push_lit(&mut out, "}");
        proof {
            assert(blocks_view(self.chain@).skip(0) =~= blocks_view(self.chain@));
            assert(out@ =~= chain_enc(self@));
        }
        chars_to_string(&out)
    }

    /// Reads a chain back from snapshot text: the chain the text denotes,
    /// or nothing if the text is not the snapshot of some non-empty chain.
    pub fn from_snapshot(s: &str) -> (r: Option<Blockchain>)
        ensures
            match r {
                Some(bc) => sp_restore(s@) == Some(bc@) && bc@.wf(),
                None => sp_restore(s@) is None,
            },
    {
        let chars = string_to_chars(s);
        proof {
            assert(chars@.skip(0) =~= s@);
        }
        let j1 = match expect_at(&chars, 0, "{\"chain\":[") {
            None => {
                return None;
            },
            Some(j) => j,
        };
        let (blocks, j2) = match parse_blocks_at(&chars, j1) {
            None => {
                return None;
            },
            Some(p) => p,
        };
        let j3 = match expect_at(&chars, j2, ",\"difficulty\":") {
            None => {
                return None;
            },
            Some(j) => j,
        };
        let (difficulty, j4) = match parse_u64_at(&chars, j3) {
            None => {
                return None;
            },
            Some(p) => p,
        };
        let j5 = match expect_at(&chars, j4, "}") {
            None => {
                return None;
            },
            Some(j) => j,
        };
        if j5 != chars.len() {
            return None;
        }
        if blocks.len() == 0 {
            return None;
        }
        Some(Blockchain { chain: blocks, difficulty })
    }
}

} // verus!
