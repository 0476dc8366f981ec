//! The chain: an append-only sequence of blocks anchored by a genesis block.
//! Appending mines a new block over the current tip; validation re-checks
//! every non-genesis block's digest and its link to the block before it.
use vstd::prelude::*;

use crate::block::{
    block_digest, meets_difficulty, txs_view, with_nonce, Block, BlockView, Transaction, TxView,
};

verus! {

/// The required count of leading zero hexadecimal characters in a freshly
/// mined block's hash.
pub const DEFAULT_DIFFICULTY: u64 = 2;

/// An ordered sequence of blocks (index 0 is the genesis block) and the
/// fixed difficulty new blocks are mined under.
#[derive(Clone, Debug, PartialEq)]
pub struct Blockchain {
    pub chain: Vec<Block>,
    pub difficulty: u64,
}

#[verifier::ext_equal]
pub ghost struct ChainView {
    pub chain: Seq<BlockView>,
    pub difficulty: u64,
}

pub open spec fn blocks_view(bs: Seq<Block>) -> Seq<BlockView> {
    bs.map_values(|b: Block| b@)
}

impl View for Blockchain {
    type V = ChainView;

    open spec fn view(&self) -> ChainView {
        ChainView { chain: blocks_view(self.chain@), difficulty: self.difficulty }
    }
}

/// Block `i` stores the digest of its own contents and references the hash
/// of the block before it.
pub open spec fn linked_at(c: ChainView, i: int) -> bool {
    c.chain[i].hash == block_digest(c.chain[i]) && c.chain[i].prev_hash == c.chain[i - 1].hash
}

impl ChainView {
    /// Chain integrity: every block after the genesis block passes the
    /// digest check and the linkage check. The genesis block is the trusted
    /// anchor and is never digest-checked.
    pub open spec fn valid(self) -> bool {
        forall|i: int| 1 <= i < self.chain.len() ==> #[trigger] linked_at(self, i)
    }

    /// Structural well-formedness: the chain is never empty.
    pub open spec fn wf(self) -> bool {
        self.chain.len() >= 1
    }
}

/// Appending a block whose stored hash is its own digest and whose
/// previous-hash reference is the old tip's hash keeps a valid chain valid.
/// A fresh chain is valid, so a chain built by `new` followed by any number
/// of such appends — which is what `add_block` performs — always validates.
pub proof fn lemma_append_preserves_validity(c: ChainView, b: BlockView)
    requires
        c.valid(),
        c.wf(),
        b.hash == block_digest(b),
        b.prev_hash == c.chain.last().hash,
    ensures
        (ChainView { chain: c.chain.push(b), difficulty: c.difficulty }).valid(),
{
    let c2 = ChainView { chain: c.chain.push(b), difficulty: c.difficulty };
    assert forall|i: int| 1 <= i < c2.chain.len() implies #[trigger] linked_at(c2, i) by {
        if i < c.chain.len() {
            assert(linked_at(c, i));
        }
    }
}

impl Blockchain {
    /// A fresh chain: one genesis block with no transactions and the
    /// sentinel previous hash `"0"`, under the default difficulty.
    pub fn new() -> (r: Blockchain)
        ensures
            r@.wf(),
            r@.valid(),
            r@.difficulty == DEFAULT_DIFFICULTY,
            r@.chain.len() == 1,
            r@.chain[0].prev_hash == "0"@,
            r@.chain[0].transactions.len() == 0,
            r@.chain[0].nonce == 0,
            r@.chain[0].hash == block_digest(r@.chain[0]),
    {
        let start_block = Block::new(Vec::new(), "0".to_owned());
        let mut chain: Vec<Block> = Vec::new();
        chain.push(start_block);
        let r = Blockchain { chain, difficulty: DEFAULT_DIFFICULTY };
        proof {
            assert(txs_view(Seq::<Transaction>::empty()) =~= Seq::<TxView>::empty());
        }
        r
    }

    /// Mines a block over the given transactions, referencing the current
    /// tip's hash, and appends it. The blocks already in the chain do not
    /// change, and a valid chain stays valid.
    pub fn add_block(&mut self, transactions: Vec<Transaction>)
        requires
            old(self)@.wf(),
        ensures
            final(self)@.wf(),
            final(self)@.difficulty == old(self)@.difficulty,
            final(self)@.chain.len() == old(self)@.chain.len() + 1,
            final(self)@.chain.subrange(0, old(self)@.chain.len() as int) == old(self)@.chain,
            final(self)@.chain.last().transactions == txs_view(transactions@),
            final(self)@.chain.last().prev_hash == old(self)@.chain.last().hash,
            final(self)@.chain.last().hash == block_digest(final(self)@.chain.last()),
            meets_difficulty(final(self)@.chain.last().hash, old(self)@.difficulty)
                || forall|m: u64|
                !meets_difficulty(
                    block_digest(with_nonce(final(self)@.chain.last(), m)),
                    old(self)@.difficulty,
                ),
            old(self)@.valid() ==> final(self)@.valid(),
    {
        let prev_hash = self.chain[self.chain.len() - 1].hash.clone();
        let mut new_block = Block::new(transactions, prev_hash);
        let _found = new_block.mine_block(self.difficulty);
        self.chain.push(new_block);
        proof {
            let o = old(self)@;
            let f = self@;
            assert(f.chain.subrange(0, o.chain.len() as int) =~= o.chain);
            assert(f.chain.last() == f.chain[o.chain.len() as int]);
            if o.valid() {
                lemma_append_preserves_validity(o, f.chain.last());
                assert(f =~= ChainView { chain: o.chain.push(f.chain.last()), difficulty: o.difficulty });
            }
        }
    }

    /// Decides chain integrity: recomputes every non-genesis block's digest
    /// and checks its link to the block before it. Never mutates the chain.
    pub fn is_chain_valid(&self) -> (r: bool)
        ensures
            r == self@.valid(),
    {
        let n = self.chain.len();
        let mut i: usize = 1;
        while i < n
            invariant
                n == self.chain.len(),
                1 <= i,
                i <= n || n == 0,
                forall|j: int| 1 <= j < i ==> #[trigger] linked_at(self@, j),
            decreases n - i,
        {
            let block = &self.chain[i];
            let computed = block.calculate_hash();
            if block.hash != computed {
                proof {
                    assert(!linked_at(self@, i as int));
                }
                return false;
            }
            if block.prev_hash != self.chain[i - 1].hash {
                proof {
                    assert(!linked_at(self@, i as int));
                }
                return false;
            }
            i = i + 1;
        }
        true
    }
}

/// Tampering with the stored hash of any non-genesis block of a valid chain
/// breaks validity: the stored hash no longer matches the block's digest,
/// which does not depend on the stored hash.
pub proof fn lemma_tampered_hash_invalidates(c: ChainView, c2: ChainView, i: int)
    requires
        c.valid(),
        1 <= i < c.chain.len(),
        c2.chain.len() == c.chain.len(),
        c2.chain[i].hash != c.chain[i].hash,
        c2.chain[i].transactions == c.chain[i].transactions,
        c2.chain[i].time_stamp == c.chain[i].time_stamp,
        c2.chain[i].prev_hash == c.chain[i].prev_hash,
        c2.chain[i].nonce == c.chain[i].nonce,
        forall|j: int| 0 <= j < c.chain.len() && j != i ==> c2.chain[j] == c.chain[j],
    ensures
        !c2.valid(),
{
    assert(linked_at(c, i));
    assert(crate::block::hash_input(c2.chain[i]) =~= crate::block::hash_input(c.chain[i]));
    assert(block_digest(c2.chain[i]) == block_digest(c.chain[i]));
    assert(!linked_at(c2, i));
}

/// Tampering with the contents of any non-genesis block of a valid chain —
/// its transactions, timestamp or nonce — while keeping the stored hash is
/// caught whenever the digest of the altered contents differs from that
/// stored hash. The digest here is uninterpreted, so that inequality is a
/// premise: it cannot be derived without the collision resistance of the
/// real hash function, though for SHA-256 it holds in practice.
pub proof fn lemma_tampered_contents_invalidates(c: ChainView, c2: ChainView, i: int)
    requires
        c.valid(),
        1 <= i < c.chain.len(),
        c2.chain.len() == c.chain.len(),
        c2.chain[i].hash == c.chain[i].hash,
        block_digest(c2.chain[i]) != block_digest(c.chain[i]),
    ensures
        !c2.valid(),
{
    assert(linked_at(c, i));
    assert(!linked_at(c2, i));
}

/// Tampering with the previous-hash reference of any non-genesis block of a
/// valid chain breaks validity: the link to the block before it no longer
/// holds.
pub proof fn lemma_tampered_prev_hash_invalidates(c: ChainView, c2: ChainView, i: int)
    requires
        c.valid(),
        1 <= i < c.chain.len(),
        c2.chain.len() == c.chain.len(),
        c2.chain[i].prev_hash != c.chain[i].prev_hash,
        c2.chain[i].hash == c.chain[i].hash,
        forall|j: int| 0 <= j < c.chain.len() && j != i ==> c2.chain[j] == c.chain[j],
    ensures
        !c2.valid(),
{
    assert(linked_at(c, i));
    assert(!linked_at(c2, i));
}

} // verus!
