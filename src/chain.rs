//! Blocks group transactions under a content hash; the chain is the ordered
//! sequence of blocks.
use vstd::prelude::*;

use crate::crypto::{blake3_hash, blake3_of};
use crate::encoding::{enc_len, lemma_le_bytes_len, push_le};
use crate::transactions::{
    enc_transaction, lemma_transaction_span, push_transaction, transaction_fits, Transaction,
};

verus! {

/// The transactions one after another, without a count.
pub open spec fn enc_transaction_items(txs: Seq<Transaction>) -> Seq<u8>
    decreases txs.len(),
{
    if txs.len() == 0 {
        Seq::empty()
    } else {
        enc_transaction_items(txs.drop_last()) + enc_transaction(txs.last())
    }
}

/// The canonical bytes of a sequence of transactions: the count, then each.
pub open spec fn enc_transactions(txs: Seq<Transaction>) -> Seq<u8> {
    enc_len(txs.len()) + enc_transaction_items(txs)
}

/// The content hash of a block holding `txs`.
pub open spec fn block_hash(txs: Seq<Transaction>) -> Seq<u8> {
    blake3_of(enc_transactions(txs))
}

/// The canonical bytes of a sequence of transactions.
pub fn encode_transactions(txs: &Vec<Transaction>) -> (r: Vec<u8>)
    ensures
        r@ == enc_transactions(txs@),
{
    let mut out: Vec<u8> = Vec::new();
    push_le(&mut out, txs.len() as u64, 8);
    let ghost start = out@;
    let mut i: usize = 0;
    while i < txs.len()
        invariant
            i <= txs@.len(),
            out@ == start + enc_transaction_items(txs@.subrange(0, i as int)),
        decreases txs@.len() - i,
    {
        push_transaction(&mut out, &txs[i]);
        assert(txs@.subrange(0, i + 1).drop_last() =~= txs@.subrange(0, i as int));
        i = i + 1;
        assert(out@ =~= start + enc_transaction_items(txs@.subrange(0, i as int)));
    }
    assert(txs@.subrange(0, i as int) =~= txs@);
    assert(out@ =~= enc_transactions(txs@));
    out
}

/// The content hash of a block holding `txs`, in their order.
pub fn hash_block(txs: &Vec<Transaction>) -> (r: [u8; 32])
    ensures
        r@ == block_hash(txs@),
{
    let bytes = encode_transactions(txs);
    blake3_hash(bytes.as_slice())
}

/// The block hash is a function of the transaction sequence: equal sequences
/// hash alike.
pub proof fn lemma_block_hash_deterministic(a: Seq<Transaction>, b: Seq<Transaction>)
    requires
        a == b,
    ensures
        block_hash(a) == block_hash(b),
{
}

/// The item encoding taken from the front: the first transaction, then the others.
proof fn lemma_transaction_items_front(txs: Seq<Transaction>)
    requires
        txs.len() > 0,
    ensures
        enc_transaction_items(txs) =~= enc_transaction(txs[0]) + enc_transaction_items(
            txs.drop_first(),
        ),
    decreases txs.len(),
{
    if txs.len() > 1 {
        lemma_transaction_items_front(txs.drop_last());
        assert(txs.drop_last().drop_first() =~= txs.drop_first().drop_last());
    } else {
        assert(txs.drop_first() =~= Seq::<Transaction>::empty());
        assert(txs.drop_last() =~= Seq::<Transaction>::empty());
    }
}

/// Every transaction of the sequence fits its counts.
pub open spec fn transactions_fit(txs: Seq<Transaction>) -> bool {
    forall|i: int| 0 <= i < txs.len() ==> transaction_fits(#[trigger] txs[i])
}

/// Two splits of one byte string whose first parts have the same length agree.
proof fn lemma_split_agree(fs: Seq<u8>, os: Seq<u8>, ft: Seq<u8>, ot: Seq<u8>)
    requires
        fs + os == ft + ot,
        fs.len() == ft.len(),
    ensures
        fs == ft,
        os == ot,
{
    assert(fs =~= (fs + os).take(fs.len() as int));
    assert(ft =~= (ft + ot).take(ft.len() as int));
    assert(os =~= (fs + os).skip(fs.len() as int));
    assert(ot =~= (ft + ot).skip(ft.len() as int));
}

/// Equal item encodings of equally long sequences agree position by position.
proof fn lemma_items_agree(s: Seq<Transaction>, t: Seq<Transaction>)
    requires
        s.len() == t.len(),
        transactions_fit(s),
        transactions_fit(t),
        enc_transaction_items(s) == enc_transaction_items(t),
    ensures
        forall|i: int| 0 <= i < s.len() ==> enc_transaction(s[i]) == enc_transaction(t[i]),
    decreases s.len(),
{
    if s.len() > 0 {
        lemma_transaction_items_front(s);
        lemma_transaction_items_front(t);
        let fs = enc_transaction(s[0]);
        let ft = enc_transaction(t[0]);
        let os = enc_transaction_items(s.drop_first());
        let ot = enc_transaction_items(t.drop_first());
        lemma_transaction_span(s[0], os);
        lemma_transaction_span(t[0], ot);
        lemma_split_agree(fs, os, ft, ot);
        assert(transactions_fit(s.drop_first())) by {
            assert forall|i: int| 0 <= i < s.drop_first().len() implies transaction_fits(
                #[trigger] s.drop_first()[i],
            ) by {
                assert(s.drop_first()[i] == s[i + 1]);
            }
        }
        assert(transactions_fit(t.drop_first())) by {
            assert forall|i: int| 0 <= i < t.drop_first().len() implies transaction_fits(
                #[trigger] t.drop_first()[i],
            ) by {
                assert(t.drop_first()[i] == t[i + 1]);
            }
        }
        lemma_items_agree(s.drop_first(), t.drop_first());
        assert forall|i: int| 0 <= i < s.len() implies enc_transaction(s[i]) == enc_transaction(
            t[i],
        ) by {
            if i > 0 {
                assert(s.drop_first()[i - 1] == s[i]);
                assert(t.drop_first()[i - 1] == t[i]);
            }
        }
    }
}

/// Block contents are order-sensitive: two equally long transaction sequences
/// that hold differently encoded transactions at some position, as reordering
/// distinct transactions makes them, have different canonical bytes, so their
/// block hashes differ unless BLAKE3 collides.
pub proof fn lemma_block_bytes_order_sensitive(s: Seq<Transaction>, t: Seq<Transaction>, i: int)
    requires
        s.len() == t.len(),
        transactions_fit(s),
        transactions_fit(t),
        0 <= i < s.len(),
        enc_transaction(s[i]) != enc_transaction(t[i]),
    ensures
        enc_transactions(s) != enc_transactions(t),
{
    if enc_transactions(s) == enc_transactions(t) {
        lemma_le_bytes_len(s.len(), 8);
        assert(enc_transaction_items(s) =~= enc_transactions(s).skip(8));
        assert(enc_transaction_items(t) =~= enc_transactions(t).skip(8));
        lemma_items_agree(s, t);
    }
}

/// Transactions under the hash computed over them.
#[derive(Debug, Clone)]
pub struct Block {
    pub transactions: Vec<Transaction>,
    pub hash: [u8; 32],
}

impl Block {
    /// A block of `transactions`, with their hash.
    pub fn new(transactions: Vec<Transaction>) -> (r: Block)
        ensures
            r.transactions@ == transactions@,
            r.hash@ == block_hash(transactions@),
    {
        let hash = hash_block(&transactions);
        Block { transactions, hash }
    }

    /// Whether the stored hash is the hash of the stored transactions; a block
    /// for which it is not is corrupt.
    pub fn is_intact(&self) -> (r: bool)
        ensures
            r == (self.hash@ == block_hash(self.transactions@)),
    {
        let h = hash_block(&self.transactions);
        let mut k: usize = 0;
        while k < 32
            invariant
                k <= 32,
                h@ == block_hash(self.transactions@),
                forall|m: int| 0 <= m < k ==> h@[m] == self.hash@[m],
            decreases 32 - k,
        {
            if h[k] != self.hash[k] {
                assert(h@[k as int] != self.hash@[k as int]);
                return false;
            }
            k = k + 1;
        }
        assert(h@ =~= self.hash@);
        true
    }
}

/// The ordered, append-only sequence of blocks.
#[derive(Debug, Clone)]
pub struct Chain {
    pub blocks: Vec<Block>,
}

impl Chain {
    /// The chain without blocks.
    pub fn new() -> (r: Chain)
        ensures
            r.blocks@ == Seq::<Block>::empty(),
    {
        Chain { blocks: Vec::new() }
    }

    /// Puts `block` at the end of the chain.
    pub fn append(&mut self, block: Block)
        ensures
            final(self).blocks@ == old(self).blocks@.push(block),
    {
        self.blocks.push(block);
    }

    /// The number of blocks.
    pub fn len(&self) -> (r: usize)
        ensures
            r == self.blocks@.len(),
    {
        self.blocks.len()
    }
}

} // verus!
