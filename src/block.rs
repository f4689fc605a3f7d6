use crate::encoding::{be_bytes, u64_be_bytes};
use crate::hash::{blake2s256_of, HashBuilder};
use crate::transaction::{transaction_digest, Transaction};
use vstd::prelude::*;

verus! {

/// A block: header fields, its transactions in order, and the hash of each.
/// Blocks are only built by the ledger, which derives their hashes.
#[derive(Clone, Debug)]
#[non_exhaustive]
pub struct Block {
    pub hash: crate::hash::Hash,
    pub parent_hash: crate::hash::Hash,
    pub number: u64,
    pub timestamp: u64,
    pub transactions: Vec<Transaction>,
    pub transaction_hashes: Vec<crate::hash::Hash>,
}

/// The header bytes: the parent hash, then number and timestamp big-endian.
pub open spec fn header_input(parent: Seq<u8>, number: u64, timestamp: u64) -> Seq<u8> {
    parent + be_bytes(number) + be_bytes(timestamp)
}

/// The provisional identity of a block, over its header alone; each of its
/// transactions is hashed against it.
pub open spec fn provisional_digest(parent: Seq<u8>, number: u64, timestamp: u64) -> Seq<u8> {
    blake2s256_of(header_input(parent, number, timestamp))
}

/// The transaction hashes laid end to end, in order.
pub open spec fn concat_hashes(hs: Seq<crate::hash::Hash>) -> Seq<u8>
    decreases hs.len(),
{
    if hs.len() == 0 {
        Seq::empty()
    } else {
        concat_hashes(hs.drop_last()) + hs.last()@
    }
}

/// The published hash of a block: the header followed by its transaction hashes.
pub open spec fn block_digest(
    parent: Seq<u8>,
    number: u64,
    timestamp: u64,
    hs: Seq<crate::hash::Hash>,
) -> Seq<u8> {
    blake2s256_of(header_input(parent, number, timestamp) + concat_hashes(hs))
}

impl Block {
    /// Every hash the block carries is the one its contents determine.
    pub open spec fn is_sealed(&self) -> bool {
        &&& self.transaction_hashes@.len() == self.transactions@.len()
        &&& forall|i: int|
            0 <= i < self.transactions@.len() ==> #[trigger] self.transaction_hashes@[i]@
                == transaction_digest(
                provisional_digest(self.parent_hash@, self.number, self.timestamp),
                self.transactions@[i],
            )
        &&& self.hash@ == block_digest(
            self.parent_hash@,
            self.number,
            self.timestamp,
            self.transaction_hashes@,
        )
    }

    /// Builds the block with the given header and transactions: first the
    /// provisional hash of the header, then each transaction's hash against
    /// it, then the block hash over the header and those hashes.
    pub(crate) fn seal(
        parent_hash: crate::hash::Hash,
        number: u64,
        timestamp: u64,
        transactions: Vec<Transaction>,
    ) -> (r: Block)
        ensures
            r.is_sealed(),
            r.parent_hash@ == parent_hash@,
            r.number == number,
            r.timestamp == timestamp,
            r.transactions@ == transactions@,
    {
        let number_bytes = u64_be_bytes(number);
        let timestamp_bytes = u64_be_bytes(timestamp);
        let mut header = HashBuilder::new();
        header.update(parent_hash.0.as_slice());
        header.update(number_bytes.as_slice());
        header.update(timestamp_bytes.as_slice());
        let provisional = header.finalize();
        assert(provisional@ == provisional_digest(parent_hash@, number, timestamp));

        let mut builder = HashBuilder::new();
        builder.update(parent_hash.0.as_slice());
        builder.update(number_bytes.as_slice());
        builder.update(timestamp_bytes.as_slice());
        let mut transaction_hashes: Vec<crate::hash::Hash> = Vec::new();
        let mut i: usize = 0;
        while i < transactions.len()
            invariant
                0 <= i <= transactions@.len(),
                transaction_hashes@.len() == i,
                forall|k: int|
                    0 <= k < i ==> #[trigger] transaction_hashes@[k]@ == transaction_digest(
                        provisional@,
                        transactions@[k],
                    ),
                builder@ == header_input(parent_hash@, number, timestamp) + concat_hashes(
                    transaction_hashes@,
                ),
            decreases transactions@.len() - i,
        {
            let h = transactions[i].compute_hash(provisional);
            builder.update(h.0.as_slice());
            let ghost before = transaction_hashes@;
            transaction_hashes.push(h);
            assert(transaction_hashes@.drop_last() =~= before);
            i = i + 1;
        }
        let hash = builder.finalize();
        Block { hash, parent_hash, number, timestamp, transactions, transaction_hashes }
    }

    pub fn hash(&self) -> (r: crate::hash::Hash)
        ensures
            r == self.hash,
    {
        self.hash
    }

    pub fn parent_hash(&self) -> (r: crate::hash::Hash)
        ensures
            r == self.parent_hash,
    {
        self.parent_hash
    }

    pub fn number(&self) -> (r: u64)
        ensures
            r == self.number,
    {
        self.number
    }

    pub fn timestamp(&self) -> (r: u64)
        ensures
            r == self.timestamp,
    {
        self.timestamp
    }

    pub fn transaction_count(&self) -> (r: usize)
        ensures
            r == self.transactions@.len(),
    {
        self.transactions.len()
    }
}

} // verus!
