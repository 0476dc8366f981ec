//! Transactions and blocks. A block's hash is the SHA-256 digest of a
//! canonical text over its timestamp, transactions, previous hash and nonce;
//! mining searches nonce values until the hash has the required run of
//! leading zero characters.
use vstd::prelude::*;

use crate::codec::{push_tx_list, tx_list_enc};
use crate::digest::{digest_chars, sha256_hex};
use crate::text::{chars_to_string, dec_nat, push_lit, push_u64};

verus! {

/// A transfer of some amount from a sender to a receiver. Pure data: a
/// transaction has no identity beyond its field values.
#[derive(Clone, Debug, PartialEq)]
pub struct Transaction {
    pub sender: String,
    pub receiver: String,
    pub amount: u64,
}

#[verifier::ext_equal]
pub ghost struct TxView {
    pub sender: Seq<char>,
    pub receiver: Seq<char>,
    pub amount: u64,
}

impl View for Transaction {
    type V = TxView;

    open spec fn view(&self) -> TxView {
        TxView { sender: self.sender@, receiver: self.receiver@, amount: self.amount }
    }
}

pub open spec fn txs_view(ts: Seq<Transaction>) -> Seq<TxView> {
    ts.map_values(|t: Transaction| t@)
}

/// A block: an ordered list of transactions plus a header. At rest the
/// `hash` field holds the digest of the block's own contents.
#[derive(Clone, Debug, PartialEq)]
pub struct Block {
    pub hash: String,
    pub transactions: Vec<Transaction>,
    pub time_stamp: u64,
    pub prev_hash: String,
    pub nonce: u64,
}

#[verifier::ext_equal]
pub ghost struct BlockView {
    pub hash: Seq<char>,
    pub transactions: Seq<TxView>,
    pub time_stamp: u64,
    pub prev_hash: Seq<char>,
    pub nonce: u64,
}

impl View for Block {
    type V = BlockView;

    open spec fn view(&self) -> BlockView {
        BlockView {
            hash: self.hash@,
            transactions: txs_view(self.transactions@),
            time_stamp: self.time_stamp,
            prev_hash: self.prev_hash@,
            nonce: self.nonce,
        }
    }
}

/// The canonical text a block's hash is taken over: the timestamp, the
/// transaction list, the previous hash and the nonce, in that order.
/// The stored hash itself is not part of the input.
pub open spec fn hash_input(b: BlockView) -> Seq<char> {
    dec_nat(b.time_stamp as nat) + tx_list_enc(b.transactions) + b.prev_hash + dec_nat(
        b.nonce as nat,
    )
}

/// A block's content digest: SHA-256 of its canonical text, in hexadecimal.
pub open spec fn block_digest(b: BlockView) -> Seq<char> {
    digest_chars(hash_input(b))
}

/// The first `d` characters of `h` are all `'0'` (in particular, `h` has at
/// least `d` characters).
pub open spec fn meets_difficulty(h: Seq<char>, d: u64) -> bool {
    d <= h.len() && forall|i: int| 0 <= i < d ==> h[i] == '0'
}

/// The same block contents with the nonce replaced. The digest of a block is
/// a function of `with_nonce(b, m)` for the mined nonce `m`, whatever hash
/// field `b` carries, because the stored hash is not part of the digest input.
pub open spec fn with_nonce(b: BlockView, m: u64) -> BlockView {
    BlockView { nonce: m, ..b }
}

/// Decides `meets_difficulty` on a hash string.
pub fn has_leading_zeros(h: &str, d: u64) -> (r: bool)
    ensures
        r == meets_difficulty(h@, d),
{
    let n = h.unicode_len();
    if d > (n as u64) {
        return false;
    }
    let dd: usize = d as usize;
    let mut i: usize = 0;
    while i < dd
        invariant
            dd == d,
            dd <= n,
            n == h@.len(),
            i <= dd,
            forall|j: int| 0 <= j < i ==> h@[j] == '0',
        decreases dd - i,
    {
        if h.get_char(i) != '0' {
            return false;
        }
        i = i + 1;
    }
    true
}

/// Relies on chrono's `Utc::now`: the number of non-leap seconds since the
/// Unix epoch at the moment of the call. The value depends on the wall
/// clock, so nothing is promised of it.
#[verifier::external_body]
fn now_timestamp() -> u64 {
    chrono::Utc::now().timestamp() as u64
}

impl Block {
    /// The digest of this block's current contents (timestamp, transactions,
    /// previous hash, nonce), as 64 hexadecimal characters.
    pub fn calculate_hash(&self) -> (r: String)
        ensures
            r@ == block_digest(self@),
            r@.len() == 64,
    {
        let mut input: Vec<char> = Vec::new();
        push_u64(&mut input, self.time_stamp);
        push_tx_list(&mut input, &self.transactions);
        push_lit(&mut input, self.prev_hash.as_str());
        push_u64(&mut input, self.nonce);
        proof {
            assert(input@ =~= hash_input(self@));
        }
        let s = chars_to_string(&input);
        sha256_hex(s.as_str())
    }

    /// Builds a block over the given transactions, referencing `previous`,
    /// with the current wall-clock time, nonce `0`, and its digest as hash.
    pub fn new(transations: Vec<Transaction>, previous: String) -> (r: Block)
        ensures
            r@.transactions == txs_view(transations@),
            r@.prev_hash == previous@,
            r@.nonce == 0,
            r@.hash == block_digest(r@),
            r@.hash.len() == 64,
    {
        let time_stamp = now_timestamp();
        let mut block = Block {
            time_stamp,
            transactions: transations,
            prev_hash: previous,
            nonce: 0,
            hash: String::new(),
        };
        let h = block.calculate_hash();
        let ghost before = block@;
        block.hash = h;
        proof {
            assert(hash_input(block@) =~= hash_input(before));
        }
        block
    }

    /// Searches nonce values, from `0` up, until the block's hash starts
    /// with `difficulty` zero characters. Returns whether such a nonce was
    /// found; on `false`, no nonce at all yields a conforming hash (for the
    /// small difficulties of practice the search succeeds long before that).
    /// Either way the hash is left as the digest of the block's contents,
    /// and no field but `nonce` and `hash` changes.
    pub fn mine_block(&mut self, difficulty: u64) -> (found: bool)
        ensures
            final(self)@.transactions == old(self)@.transactions,
            final(self)@.time_stamp == old(self)@.time_stamp,
            final(self)@.prev_hash == old(self)@.prev_hash,
            final(self)@.hash == block_digest(final(self)@),
            found == meets_difficulty(final(self)@.hash, difficulty),
            !found ==> forall|m: u64|
                !meets_difficulty(block_digest(with_nonce(final(self)@, m)), difficulty),
    {
        self.nonce = 0;
        let mut h = self.calculate_hash();
        self.hash = h;
        let mut mined = has_leading_zeros(self.hash.as_str(), difficulty);
        proof {
            assert(hash_input(self@) =~= hash_input(with_nonce(old(self)@, self.nonce)));
        }
        while !mined && self.nonce < u64::MAX
            invariant
                self@.hash == block_digest(self@),
                self@.transactions == old(self)@.transactions,
                self@.time_stamp == old(self)@.time_stamp,
                self@.prev_hash == old(self)@.prev_hash,
                mined == meets_difficulty(self@.hash, difficulty),
                self@.hash == block_digest(with_nonce(old(self)@, self@.nonce)),
                forall|m: u64|
                    m < self@.nonce ==> !meets_difficulty(
                        block_digest(with_nonce(old(self)@, m)),
                        difficulty,
                    ),
            decreases u64::MAX - self.nonce,
        {
            self.nonce = self.nonce + 1;
            h = self.calculate_hash();
            self.hash = h;
            mined = has_leading_zeros(self.hash.as_str(), difficulty);
            proof {
                assert(hash_input(self@) =~= hash_input(with_nonce(old(self)@, self@.nonce)));
            }
        }
        proof {
            if !mined {
                assert forall|m: u64|
                    !meets_difficulty(
                        block_digest(with_nonce(self@, m)),
                        difficulty,
                    ) by {
                    assert(hash_input(with_nonce(self@, m)) =~= hash_input(
                        with_nonce(old(self)@, m),
                    ));
                    if m < u64::MAX {
                        assert(!meets_difficulty(block_digest(with_nonce(old(self)@, m)), difficulty));
                    } else {
                        assert(self@.hash == block_digest(with_nonce(old(self)@, u64::MAX)));
                    }
                }
            }
        }
        mined
    }
}

} // verus!
