use crate::address::Address;
use crate::encoding::{be_bytes, u64_be_bytes};
use crate::hash::{blake2s256_of, HashBuilder};
use vstd::prelude::*;

verus! {

/// A transfer of `value` from one account to another, with an opaque payload.
#[derive(Clone, Debug)]
pub struct Transaction {
    pub from_address: Address,
    pub to_address: Address,
    pub value: u64,
    pub data: Vec<u8>,
}

/// The bytes hashed to identify `tx` inside the block whose provisional hash
/// is `parent`: that hash, the two addresses, the value big-endian, the payload.
pub open spec fn transaction_input(parent: Seq<u8>, tx: Transaction) -> Seq<u8> {
    parent + tx.from_address@ + tx.to_address@ + be_bytes(tx.value) + tx.data@
}

/// The hash of `tx` inside the block whose provisional hash is `parent`.
pub open spec fn transaction_digest(parent: Seq<u8>, tx: Transaction) -> Seq<u8> {
    blake2s256_of(transaction_input(parent, tx))
}

/// Two transactions with the same fields.
pub open spec fn same_transaction(a: Transaction, b: Transaction) -> bool {
    &&& a.from_address@ == b.from_address@
    &&& a.to_address@ == b.to_address@
    &&& a.value == b.value
    &&& a.data@ == b.data@
}

impl Transaction {
    /// The hash of this transaction inside the block whose provisional hash is
    /// `hash`.
    pub fn compute_hash(&self, hash: crate::hash::Hash) -> (r: crate::hash::Hash)
        ensures
            r@ == transaction_digest(hash@, *self),
    {
        let mut hasher = HashBuilder::new();
        hasher.update(hash.0.as_slice());
        hasher.update(self.from_address.0.as_slice());
        hasher.update(self.to_address.0.as_slice());
        let value = u64_be_bytes(self.value);
        hasher.update(value.as_slice());
        hasher.update(self.data.as_slice());
        let r = hasher.finalize();
        assert(transaction_input(hash@, *self) =~= hash@ + self.from_address@ + self.to_address@
            + be_bytes(self.value) + self.data@);
        r
    }
}

/// Equal fields and an equal block hash give an equal transaction hash.
pub proof fn lemma_transaction_hash_deterministic(
    p1: crate::hash::Hash,
    t1: Transaction,
    p2: crate::hash::Hash,
    t2: Transaction,
)
    requires
        p1@ == p2@,
        same_transaction(t1, t2),
    ensures
        transaction_digest(p1@, t1) == transaction_digest(p2@, t2),
{
}

} // verus!
