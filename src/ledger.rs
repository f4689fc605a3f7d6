use crate::account::{
    addresses_unique, apply_transfer, apply_transfers_to, apply_transfers, balance_in, copy_entries,
    advance_nonce, credit, has_entry, lemma_balance_within_supply, lemma_two_balances_within_supply, find_account, lemma_state_at, nonce_in, saturating_inc, state_of, total_supply, Account, AccountState,
};
use crate::address::Address;
use crate::block::Block;
use crate::transaction::Transaction;
use vstd::prelude::*;

verus! {

/// Why the ledger refused an operation.
#[derive(Clone, Copy, Debug, PartialEq, Eq, Structural)]
pub enum LedgerError {
    /// A transfer's sender holds less than its value; the block was rejected.
    InsufficientBalance,
    /// No genesis block has been committed yet.
    EmptyChain,
    /// A genesis block has already been committed.
    GenesisExists,
    /// The genesis allocations add up to more than a `u64` holds.
    SupplyOverflow,
}

/// The chain identifier this ledger reports.
pub const CHAIN_ID: u64 = 1;

/// The gas price this ledger reports.
pub const GAS_PRICE: u64 = 20_000_000_000;

pub open spec fn is_zero_hash(h: Seq<u8>) -> bool {
    h == Seq::new(32, |i: int| 0u8)
}

/// Each block carries its own number and the hashes its contents determine;
/// the first has the zero parent, every later one the hash of the one before
/// and a timestamp no earlier than it.
pub open spec fn chain_linked(blocks: Seq<Block>) -> bool {
    &&& forall|i: int|
        0 <= i < blocks.len() ==> (#[trigger] blocks[i]).number == i && blocks[i].is_sealed()
    &&& blocks.len() > 0 ==> is_zero_hash(blocks[0].parent_hash@)
    &&& forall|i: int|
        0 < i < blocks.len() ==> (#[trigger] blocks[i]).parent_hash@ == blocks[i - 1].hash@
            && blocks[i - 1].timestamp <= blocks[i].timestamp
}

/// The sum of the allocated amounts.
pub open spec fn allocation_total(allocations: Seq<(Address, u64)>) -> int
    decreases allocations.len(),
{
    if allocations.len() == 0 {
        0
    } else {
        allocation_total(allocations.drop_last()) + allocations.last().1
    }
}

/// The state after each allocation in order: the zero address, which sends
/// it, advances its nonce, and the allocated address is credited.
pub open spec fn allocate(m: AccountState, allocations: Seq<(Address, u64)>) -> AccountState
    decreases allocations.len(),
{
    if allocations.len() == 0 {
        m
    } else {
        let m0 = allocate(m, allocations.drop_last());
        let z = Seq::new(32, |i: int| 0u8);
        let m1 = m0.insert(z, (balance_in(m0, z), saturating_inc(nonce_in(m0, z))));
        let a = allocations.last().0@;
        m1.insert(a, ((balance_in(m1, a) + allocations.last().1) as u64, nonce_in(m1, a)))
    }
}

/// The state after the genesis transactions in order: genesis transactions
/// create value rather than move it, so each advances its sender's nonce and
/// credits its receiver, and debits nobody.
pub open spec fn mint(m: AccountState, txs: Seq<Transaction>) -> AccountState
    decreases txs.len(),
{
    if txs.len() == 0 {
        m
    } else {
        let m0 = mint(m, txs.drop_last());
        let from = txs.last().from_address@;
        let m1 = m0.insert(from, (balance_in(m0, from), saturating_inc(nonce_in(m0, from))));
        let a = txs.last().to_address@;
        m1.insert(a, ((balance_in(m1, a) + txs.last().value) as u64, nonce_in(m1, a)))
    }
}

/// The genesis transaction of `allocation`: the zero address sends the
/// amount to the allocated address.
pub open spec fn is_allocation_of(tx: Transaction, allocation: (Address, u64)) -> bool {
    &&& is_zero_hash(tx.from_address@)
    &&& tx.to_address@ == allocation.0@
    &&& tx.value == allocation.1
    &&& tx.data@.len() == 0
}

/// The account state that replaying the chain yields: the genesis block's
/// transactions minted, then every later block's transfers applied in order.
pub open spec fn replay(blocks: Seq<Block>) -> Option<AccountState>
    decreases blocks.len(),
{
    if blocks.len() == 0 {
        Some(AccountState::empty())
    } else if blocks.len() == 1 {
        Some(mint(AccountState::empty(), blocks[0].transactions@))
    } else {
        match replay(blocks.drop_last()) {
            Some(m) => apply_transfers(m, blocks.last().transactions@),
            None => None,
        }
    }
}

proof fn lemma_mint_matches_allocations(
    m: AccountState,
    allocations: Seq<(Address, u64)>,
    txs: Seq<Transaction>,
)
    requires
        txs.len() == allocations.len(),
        forall|k: int| 0 <= k < txs.len() ==> is_allocation_of(#[trigger] txs[k], allocations[k]),
    ensures
        mint(m, txs) == allocate(m, allocations),
    decreases txs.len(),
{
    if txs.len() > 0 {
        lemma_mint_matches_allocations(m, allocations.drop_last(), txs.drop_last());
        assert(is_allocation_of(txs[txs.len() - 1], allocations[allocations.len() - 1]));
    }
}

/// The genesis transactions of the allocations, in order.
fn allocation_transactions(allocations: &Vec<(Address, u64)>) -> (r: Vec<Transaction>)
    ensures
        r@.len() == allocations@.len(),
        forall|k: int| 0 <= k < r@.len() ==> is_allocation_of(#[trigger] r@[k], allocations@[k]),
{
    let mut r: Vec<Transaction> = Vec::new();
    let mut i: usize = 0;
    while i < allocations.len()
        invariant
            0 <= i <= allocations@.len(),
            r@.len() == i,
            forall|k: int| 0 <= k < i ==> is_allocation_of(#[trigger] r@[k], allocations@[k]),
        decreases allocations@.len() - i,
    {
        let tx = Transaction {
            from_address: Address([0u8; 32]),
            to_address: allocations[i].0,
            value: allocations[i].1,
            data: Vec::new(),
        };
        assert(tx.from_address@ =~= Seq::new(32, |j: int| 0u8));
        r.push(tx);
        i = i + 1;
    }
    r
}

/// `b` is the earliest block of the chain with hash `h`.
pub open spec fn is_first_block_with_hash(blocks: Seq<Block>, h: Seq<u8>, b: Block) -> bool {
    exists|i: int|
        0 <= i < blocks.len() && #[trigger] blocks[i] == b && b.hash@ == h && forall|k: int|
            0 <= k < i ==> (#[trigger] blocks[k]).hash@ != h
}

pub open spec fn has_transaction_hash(b: Block, h: Seq<u8>) -> bool {
    exists|j: int| 0 <= j < b.transaction_hashes@.len() && #[trigger] b.transaction_hashes@[j]@ == h
}

/// `t` is the earliest transaction of the chain with hash `h`: in the first
/// block that has one, the first of its transactions.
pub open spec fn is_first_transaction_with_hash(blocks: Seq<Block>, h: Seq<u8>, t: Transaction) -> bool {
    exists|i: int, j: int|
        0 <= i < blocks.len() && 0 <= j < blocks[i].transaction_hashes@.len() && #[trigger] blocks[i].transaction_hashes@[j]@ == h
            && blocks[i].transactions@[j] == t
            && (forall|k: int| 0 <= k < i ==> !has_transaction_hash(#[trigger] blocks[k], h))
            && (forall|l: int| 0 <= l < j ==> #[trigger] blocks[i].transaction_hashes@[l]@ != h)
}

proof fn lemma_allocation_prefix(allocations: Seq<(Address, u64)>, i: int)
    requires
        0 <= i <= allocations.len(),
    ensures
        allocation_total(allocations.take(i)) <= allocation_total(allocations),
        allocation_total(allocations.take(i)) >= 0,
    decreases allocations.len(),
{
    if i == allocations.len() {
        assert(allocations.take(i) =~= allocations);
        lemma_allocation_nonnegative(allocations);
    } else {
        assert(allocations.take(i) =~= allocations.drop_last().take(i));
        lemma_allocation_prefix(allocations.drop_last(), i);
    }
}

proof fn lemma_allocation_nonnegative(allocations: Seq<(Address, u64)>)
    ensures
        allocation_total(allocations) >= 0,
    decreases allocations.len(),
{
    if allocations.len() > 0 {
        lemma_allocation_nonnegative(allocations.drop_last());
    }
}

proof fn lemma_chain_extend(blocks: Seq<Block>, b: Block)
    requires
        chain_linked(blocks),
        blocks.len() > 0,
        b.is_sealed(),
        b.number == blocks.len(),
        b.parent_hash@ == blocks.last().hash@,
        blocks.last().timestamp <= b.timestamp,
    ensures
        chain_linked(blocks.push(b)),
{
    let t = blocks.push(b);
    assert forall|k: int| 0 <= k < t.len() implies (#[trigger] t[k]).number == k
        && t[k].is_sealed() by {
        if k < blocks.len() {
            assert(t[k] == blocks[k]);
        }
    }
    assert forall|k: int| 0 < k < t.len() implies (#[trigger] t[k]).parent_hash@ == t[k - 1].hash@
        && t[k - 1].timestamp <= t[k].timestamp by {
        assert(t[k - 1] == blocks[k - 1]);
        if k < blocks.len() {
            assert(t[k] == blocks[k]);
        }
    }
}

/// The account entries that the genesis allocations give, or `None` where
/// they add up to more than a `u64` holds.
fn genesis_entries(allocations: &Vec<(Address, u64)>) -> (r: Option<Vec<Account>>)
    ensures
        match r {
            Some(entries) => {
                &&& allocation_total(allocations@) <= u64::MAX
                &&& addresses_unique(entries@)
                &&& total_supply(entries@) == allocation_total(allocations@)
                &&& state_of(entries@) == allocate(AccountState::empty(), allocations@)
            },
            None => allocation_total(allocations@) > u64::MAX,
        },
{
    let mut sum: u64 = 0;
    let mut i: usize = 0;
    while i < allocations.len()
        invariant
            0 <= i <= allocations@.len(),
            sum == allocation_total(allocations@.take(i as int)),
        decreases allocations@.len() - i,
    {
        assert(allocations@.take(i + 1).drop_last() =~= allocations@.take(i as int));
        match sum.checked_add(allocations[i].1) {
            Some(next) => {
                sum = next;
            },
            None => {
                proof {
                    lemma_allocation_prefix(allocations@, i + 1);
                }
                return None;
            },
        }
        i = i + 1;
    }
    assert(allocations@.take(allocations@.len() as int) =~= allocations@);
    let mut entries: Vec<Account> = Vec::new();
    let mut i: usize = 0;
    assert(state_of(entries@) =~= AccountState::empty());
    while i < allocations.len()
        invariant
            0 <= i <= allocations@.len(),
            allocation_total(allocations@) <= u64::MAX,
            addresses_unique(entries@),
            total_supply(entries@) == allocation_total(allocations@.take(i as int)),
            state_of(entries@) == allocate(AccountState::empty(), allocations@.take(i as int)),
        decreases allocations@.len() - i,
    {
        assert(allocations@.take(i + 1).drop_last() =~= allocations@.take(i as int));
        proof {
            lemma_allocation_prefix(allocations@, i + 1);
        }
        let zero = Address([0u8; 32]);
        assert(zero@ =~= Seq::new(32, |j: int| 0u8));
        advance_nonce(&mut entries, &zero);
        credit(&mut entries, &allocations[i].0, allocations[i].1);
        i = i + 1;
    }
    Some(entries)
}

/// The position of the first transaction of `b` with hash `hash`, if any.
fn position_of_transaction(b: &Block, hash: &crate::hash::Hash) -> (r: Option<usize>)
    requires
        b.transaction_hashes@.len() == b.transactions@.len(),
    ensures
        match r {
            Some(j) => {
                &&& j < b.transactions@.len()
                &&& b.transaction_hashes@[j as int]@ == hash@
                &&& forall|l: int| 0 <= l < j ==> #[trigger] b.transaction_hashes@[l]@ != hash@
            },
            None => !has_transaction_hash(*b, hash@),
        },
{
    let mut j: usize = 0;
    while j < b.transaction_hashes.len()
        invariant
            0 <= j <= b.transaction_hashes@.len(),
            b.transaction_hashes@.len() == b.transactions@.len(),
            forall|l: int| 0 <= l < j ==> #[trigger] b.transaction_hashes@[l]@ != hash@,
        decreases b.transaction_hashes@.len() - j,
    {
        if b.transaction_hashes[j] == *hash {
            return Some(j);
        }
        j = j + 1;
    }
    None
}

/// The ledger: the chain of committed blocks and the account state that
/// replaying them yields.
#[derive(Clone)]
pub struct Blockhead {
    blocks: Vec<Block>,
    accounts: Vec<Account>,
}

/// `post` is `pre` with one more block holding `txs`, built on the tip of `pre`
/// with the given timestamp, or the tip's if that is later, and with the
/// transfers applied to the account state.
pub open spec fn appended(pre: Blockhead, post: Blockhead, txs: Seq<Transaction>, timestamp: u64) -> bool {
    let tip = pre.chain().last();
    let b = post.chain().last();
    &&& pre.chain().len() > 0
    &&& post.chain().len() == pre.chain().len() + 1
    &&& post.chain().drop_last() == pre.chain()
    &&& b.parent_hash@ == tip.hash@
    &&& b.number == tip.number + 1
    &&& b.timestamp == if timestamp < tip.timestamp { tip.timestamp } else { timestamp }
    &&& b.transactions@ == txs
    &&& apply_transfers(pre.state(), txs) == Some(post.state())
}

impl Blockhead {
    /// The committed blocks, genesis first.
    pub closed spec fn chain(&self) -> Seq<Block> {
        self.blocks@
    }

    /// One entry per address that ever had an account.
    pub closed spec fn entries(&self) -> Seq<Account> {
        self.accounts@
    }

    /// Balance and nonce by address.
    pub open spec fn state(&self) -> AccountState {
        state_of(self.entries())
    }

    pub open spec fn wf(&self) -> bool {
        &&& chain_linked(self.chain())
        &&& addresses_unique(self.entries())
        &&& total_supply(self.entries()) <= u64::MAX
        &&& self.chain().len() == 0 ==> self.entries().len() == 0
        &&& replay(self.chain()) == Some(self.state())
    }

    /// A ledger with no blocks; a genesis block comes first.
    pub fn new() -> (r: Blockhead)
        ensures
            r.wf(),
            r.chain().len() == 0,
            r.state() == AccountState::empty(),
    {
        let r = Blockhead { blocks: Vec::new(), accounts: Vec::new() };
        assert(r.state() =~= AccountState::empty());
        assert(replay(r.chain()) == Some(AccountState::empty()));
        r
    }

    /// Builds a block of `transactions` on the tip and commits it, applying
    /// the transfers in order; returns the new block's hash. Where a transfer
    /// would overdraw its sender, nothing changes. The block's timestamp is
    /// the one given, or the tip's where that is later.
    pub fn append_block(&mut self, transactions: Vec<Transaction>, timestamp: u64) -> (r: Result<
        crate::hash::Hash,
        LedgerError,
    >)
        requires
            old(self).wf(),
        ensures
            final(self).wf(),
            old(self).chain().len() == 0 ==> {
                &&& r == Err::<crate::hash::Hash, LedgerError>(LedgerError::EmptyChain)
                &&& *final(self) == *old(self)
            },
            old(self).chain().len() > 0 && apply_transfers(old(self).state(), transactions@) is None
                ==> {
                &&& r == Err::<crate::hash::Hash, LedgerError>(LedgerError::InsufficientBalance)
                &&& *final(self) == *old(self)
            },
            old(self).chain().len() > 0 && apply_transfers(old(self).state(), transactions@) is Some
                ==> {
                &&& r is Ok
                &&& appended(*old(self), *final(self), transactions@, timestamp)
                &&& r.unwrap()@ == final(self).chain().last().hash@
                &&& total_supply(final(self).entries()) == total_supply(old(self).entries())
            },
    {
        if self.blocks.len() == 0 {
            return Err(LedgerError::EmptyChain);
        }
        let work = match apply_transfers_to(&self.accounts, &transactions) {
            Some(work) => work,
            None => {
                return Err(LedgerError::InsufficientBalance);
            },
        };
        let last = self.blocks.len() - 1;
        let parent_hash = self.blocks[last].hash;
        let number = self.blocks[last].number + 1;
        let tip_timestamp = self.blocks[last].timestamp;
        let block_timestamp = if timestamp < tip_timestamp {
            tip_timestamp
        } else {
            timestamp
        };
        let block = Block::seal(parent_hash, number, block_timestamp, transactions);
        let hash = block.hash;
        let ghost pre = self.blocks@;
        proof {
            lemma_chain_extend(pre, block);
        }
        self.blocks.push(block);
        assert(self.blocks@.drop_last() =~= pre);
        self.accounts = work;
        Ok(hash)
    }

    /// Commits `transaction` at once, in a block of its own, and returns its
    /// hash; fails as `append_block` does, with nothing changed.
    pub fn send_transaction(&mut self, transaction: Transaction, timestamp: u64) -> (r: Result<
        crate::hash::Hash,
        LedgerError,
    >)
        requires
            old(self).wf(),
        ensures
            final(self).wf(),
            old(self).chain().len() == 0 ==> {
                &&& r == Err::<crate::hash::Hash, LedgerError>(LedgerError::EmptyChain)
                &&& *final(self) == *old(self)
            },
            old(self).chain().len() > 0 && apply_transfer(old(self).state(), transaction) is None
                ==> {
                &&& r == Err::<crate::hash::Hash, LedgerError>(LedgerError::InsufficientBalance)
                &&& *final(self) == *old(self)
            },
            old(self).chain().len() > 0 && apply_transfer(old(self).state(), transaction) is Some
                ==> {
                &&& r is Ok
                &&& appended(*old(self), *final(self), seq![transaction], timestamp)
                &&& r.unwrap()@ == final(self).chain().last().transaction_hashes@[0]@
            },
    {
        let ghost txs = seq![transaction];
        assert(txs.drop_last() =~= Seq::<Transaction>::empty());
        let mut transactions: Vec<Transaction> = Vec::new();
        transactions.push(transaction);
        assert(transactions@ =~= txs);
        proof {
            assert(apply_transfers(self.state(), txs.drop_last()) == Some(self.state()));
        }
        match self.append_block(transactions, timestamp) {
            Ok(_) => {},
            Err(e) => {
                return Err(e);
            },
        }
        let last = self.blocks.len() - 1;
        Ok(self.blocks[last].transaction_hashes[0])
    }

    /// The earliest committed block with hash `hash`, if any.
    pub fn get_block_by_hash(&self, hash: &crate::hash::Hash) -> (r: Option<&Block>)
        ensures
            match r {
                Some(b) => is_first_block_with_hash(self.chain(), hash@, *b),
                None => forall|i: int|
                    0 <= i < self.chain().len() ==> (#[trigger] self.chain()[i]).hash@ != hash@,
            },
    {
        let mut i: usize = 0;
        while i < self.blocks.len()
            invariant
                0 <= i <= self.blocks@.len(),
                forall|k: int| 0 <= k < i ==> (#[trigger] self.blocks@[k]).hash@ != hash@,
            decreases self.blocks@.len() - i,
        {
            if self.blocks[i].hash == *hash {
                return Some(&self.blocks[i]);
            }
            i = i + 1;
        }
        None
    }

    /// The block numbered `number`, if the chain is that long.
    pub fn get_block_by_number(&self, number: u64) -> (r: Option<&Block>)
        requires
            self.wf(),
        ensures
            match r {
                Some(b) => number < self.chain().len() && *b == self.chain()[number as int]
                    && b.number == number,
                None => number >= self.chain().len(),
            },
    {
        if number < self.blocks.len() as u64 {
            Some(&self.blocks[number as usize])
        } else {
            None
        }
    }

    /// The tip of the chain.
    pub fn get_latest_block(&self) -> (r: Result<&Block, LedgerError>)
        ensures
            self.chain().len() == 0 ==> r == Err::<&Block, LedgerError>(LedgerError::EmptyChain),
            self.chain().len() > 0 ==> (r matches Ok(b) && *b == self.chain().last()),
    {
        if self.blocks.len() == 0 {
            Err(LedgerError::EmptyChain)
        } else {
            Ok(&self.blocks[self.blocks.len() - 1])
        }
    }

    /// The number of committed blocks.
    pub fn block_count(&self) -> (r: usize)
        ensures
            r == self.chain().len(),
    {
        self.blocks.len()
    }

    /// The earliest committed transaction with hash `hash`, if any.
    pub fn get_transaction(&self, hash: &crate::hash::Hash) -> (r: Option<&Transaction>)
        requires
            self.wf(),
        ensures
            match r {
                Some(t) => is_first_transaction_with_hash(self.chain(), hash@, *t),
                None => forall|i: int|
                    0 <= i < self.chain().len() ==> !has_transaction_hash(
                        #[trigger] self.chain()[i],
                        hash@,
                    ),
            },
    {
        let mut i: usize = 0;
        while i < self.blocks.len()
            invariant
                0 <= i <= self.blocks@.len(),
                forall|k: int|
                    0 <= k < self.blocks@.len() ==> (#[trigger] self.blocks@[k]).is_sealed(),
                forall|k: int|
                    0 <= k < i ==> !has_transaction_hash(#[trigger] self.blocks@[k], hash@),
            decreases self.blocks@.len() - i,
        {
            let block = &self.blocks[i];
            assert(block.is_sealed());
            match position_of_transaction(block, hash) {
                Some(j) => {
                    return Some(&block.transactions[j]);
                },
                None => {},
            }
            i = i + 1;
        }
        None
    }

    /// The balance of `address`; zero for an address never seen.
    pub fn get_balance(&self, address: &Address) -> (r: u64)
        requires
            self.wf(),
        ensures
            r == balance_in(self.state(), address@),
    {
        match find_account(&self.accounts, address) {
            Some(i) => {
                proof {
                    lemma_state_at(self.accounts@, i as int);
                }
                self.accounts[i].balance
            },
            None => 0,
        }
    }

    /// The number of transfers `address` has sent; zero for an address never seen.
    pub fn get_nonce(&self, address: &Address) -> (r: u64)
        requires
            self.wf(),
        ensures
            r == nonce_in(self.state(), address@),
    {
        match find_account(&self.accounts, address) {
            Some(i) => {
                proof {
                    lemma_state_at(self.accounts@, i as int);
                }
                self.accounts[i].nonce
            },
            None => 0,
        }
    }

    /// The chain identifier, fixed for this single-node ledger.
    pub fn chain_id(&self) -> (r: u64)
        ensures
            r == CHAIN_ID,
    {
        CHAIN_ID
    }

    /// Whether the ledger is catching up with peers; never, as it has none.
    pub fn syncing(&self) -> (r: bool)
        ensures
            !r,
    {
        false
    }

    /// The gas price, fixed for this single-node ledger.
    pub fn gas_price(&self) -> (r: u64)
        ensures
            r == GAS_PRICE,
    {
        GAS_PRICE
    }

    /// Commits the genesis block: number 0, the zero parent, and one
    /// transaction per allocation, from the zero address, whose value is
    /// credited to the allocated address.
    pub fn commit_genesis(&mut self, timestamp: u64, allocations: &Vec<(Address, u64)>) -> (r:
        Result<crate::hash::Hash, LedgerError>)
        requires
            old(self).wf(),
        ensures
            final(self).wf(),
            old(self).chain().len() > 0 ==> {
                &&& r == Err::<crate::hash::Hash, LedgerError>(LedgerError::GenesisExists)
                &&& *final(self) == *old(self)
            },
            old(self).chain().len() == 0 && allocation_total(allocations@) > u64::MAX ==> {
                &&& r == Err::<crate::hash::Hash, LedgerError>(LedgerError::SupplyOverflow)
                &&& *final(self) == *old(self)
            },
            old(self).chain().len() == 0 && allocation_total(allocations@) <= u64::MAX ==> {
                let g = final(self).chain()[0];
                &&& r is Ok
                &&& r.unwrap()@ == g.hash@
                &&& final(self).chain().len() == 1
                &&& g.number == 0
                &&& is_zero_hash(g.parent_hash@)
                &&& g.timestamp == timestamp
                &&& g.transactions@.len() == allocations@.len()
                &&& forall|k: int|
                    0 <= k < allocations@.len() ==> is_allocation_of(
                        #[trigger] g.transactions@[k],
                        allocations@[k],
                    )
                &&& final(self).state() == mint(AccountState::empty(), g.transactions@)
            },
    {
        if self.blocks.len() > 0 {
            return Err(LedgerError::GenesisExists);
        }
        let entries = match genesis_entries(allocations) {
            Some(entries) => entries,
            None => {
                return Err(LedgerError::SupplyOverflow);
            },
        };
        let transactions = allocation_transactions(allocations);
        proof {
            lemma_mint_matches_allocations(AccountState::empty(), allocations@, transactions@);
        }
        let genesis = Block::seal(crate::hash::Hash::zero(), 0, timestamp, transactions);
        let hash = genesis.hash;
        self.blocks.push(genesis);
        self.accounts = entries;
        Ok(hash)
    }
}

/// Every block after genesis names the one before it as its parent and
/// carries the next number.
pub proof fn lemma_chain_linkage(ledger: Blockhead, i: int)
    requires
        ledger.wf(),
        0 < i < ledger.chain().len(),
    ensures
        ledger.chain()[i].parent_hash@ == ledger.chain()[i - 1].hash@,
        ledger.chain()[i].number == ledger.chain()[i - 1].number + 1,
{
    assert(ledger.chain()[i].number == i);
    assert(ledger.chain()[i - 1].number == i - 1);
}

/// Looking a block up by hash gives one answer: two lookups on the same chain
/// find the same block.
pub proof fn lemma_block_lookup_deterministic(blocks: Seq<Block>, h: Seq<u8>, b1: Block, b2: Block)
    requires
        is_first_block_with_hash(blocks, h, b1),
        is_first_block_with_hash(blocks, h, b2),
    ensures
        b1 == b2,
{
    let i1 = choose|i: int|
        0 <= i < blocks.len() && #[trigger] blocks[i] == b1 && b1.hash@ == h && forall|k: int|
            0 <= k < i ==> (#[trigger] blocks[k]).hash@ != h;
    let i2 = choose|i: int|
        0 <= i < blocks.len() && #[trigger] blocks[i] == b2 && b2.hash@ == h && forall|k: int|
            0 <= k < i ==> (#[trigger] blocks[k]).hash@ != h;
    if i1 < i2 {
        assert(blocks[i1].hash@ != h);
    } else if i2 < i1 {
        assert(blocks[i2].hash@ != h);
    }
}

/// How many of the transfers `a` sends.
pub open spec fn sent_by(txs: Seq<Transaction>, a: Seq<u8>) -> nat
    decreases txs.len(),
{
    if txs.len() == 0 {
        0
    } else {
        sent_by(txs.drop_last(), a) + if txs.last().from_address@ == a {
            1nat
        } else {
            0nat
        }
    }
}

/// How many committed transactions `a` has sent, genesis included.
pub open spec fn sent_in_chain(blocks: Seq<Block>, a: Seq<u8>) -> nat
    decreases blocks.len(),
{
    if blocks.len() == 0 {
        0
    } else {
        sent_in_chain(blocks.drop_last(), a) + sent_by(blocks.last().transactions@, a)
    }
}

/// `n`, or `u64::MAX` where `n` is larger.
pub open spec fn capped(n: int) -> u64 {
    if n > u64::MAX {
        u64::MAX
    } else {
        n as u64
    }
}

proof fn lemma_mint_counts_nonce(m: AccountState, txs: Seq<Transaction>, a: Seq<u8>)
    ensures
        nonce_in(mint(m, txs), a) == capped(nonce_in(m, a) + sent_by(txs, a)),
    decreases txs.len(),
{
    if txs.len() > 0 {
        lemma_mint_counts_nonce(m, txs.drop_last(), a);
    }
}

proof fn lemma_transfers_count_nonce(m: AccountState, txs: Seq<Transaction>, a: Seq<u8>)
    requires
        apply_transfers(m, txs) is Some,
    ensures
        nonce_in(apply_transfers(m, txs).unwrap(), a) == capped(nonce_in(m, a) + sent_by(txs, a)),
    decreases txs.len(),
{
    if txs.len() > 0 {
        let m1 = apply_transfers(m, txs.drop_last());
        assert(m1 is Some);
        lemma_transfers_count_nonce(m, txs.drop_last(), a);
        let tx = txs.last();
        let n1 = nonce_in(m1.unwrap(), tx.from_address@);
        let mid = m1.unwrap().insert(
            tx.from_address@,
            ((balance_in(m1.unwrap(), tx.from_address@) - tx.value) as u64, saturating_inc(n1)),
        );
        assert(nonce_in(mid, a) == if tx.from_address@ == a {
            saturating_inc(n1)
        } else {
            nonce_in(m1.unwrap(), a)
        });
    }
}

proof fn lemma_replay_counts_nonce(blocks: Seq<Block>, a: Seq<u8>)
    requires
        replay(blocks) is Some,
    ensures
        nonce_in(replay(blocks).unwrap(), a) == capped(sent_in_chain(blocks, a) as int),
    decreases blocks.len(),
{
    if blocks.len() == 1 {
        lemma_mint_counts_nonce(AccountState::empty(), blocks[0].transactions@, a);
        assert(sent_in_chain(blocks.drop_last(), a) == 0);
        assert(blocks.last() == blocks[0]);
        assert(nonce_in(AccountState::empty(), a) == 0);
    } else if blocks.len() > 1 {
        lemma_replay_counts_nonce(blocks.drop_last(), a);
        lemma_transfers_count_nonce(
            replay(blocks.drop_last()).unwrap(),
            blocks.last().transactions@,
            a,
        );
    }
}

/// An address's balance and nonce are what replaying the committed chain
/// gives it, and its nonce counts the committed transactions it has sent,
/// stopping at `u64::MAX`.
pub proof fn lemma_state_replays_chain(ledger: Blockhead, a: Seq<u8>)
    requires
        ledger.wf(),
    ensures
        replay(ledger.chain()) == Some(ledger.state()),
        nonce_in(ledger.state(), a) == capped(sent_in_chain(ledger.chain(), a) as int),
{
    lemma_replay_counts_nonce(ledger.chain(), a);
}

/// A ledger whose only block is a genesis block without transactions holds
/// nothing: every balance and every nonce is zero.
pub proof fn lemma_bare_genesis_holds_nothing(ledger: Blockhead, a: Seq<u8>)
    requires
        ledger.wf(),
        ledger.chain().len() == 1,
        ledger.chain()[0].transactions@.len() == 0,
    ensures
        balance_in(ledger.state(), a) == 0,
        nonce_in(ledger.state(), a) == 0,
{
    assert(ledger.state() == mint(AccountState::empty(), ledger.chain()[0].transactions@));
}

/// A committed block holding one transfer between two distinct addresses
/// moves its value from the sender to the receiver and advances the sender's
/// nonce; every other address keeps its balance and nonce.
pub proof fn lemma_single_transfer(pre: Blockhead, post: Blockhead, tx: Transaction, timestamp: u64)
    requires
        pre.wf(),
        appended(pre, post, seq![tx], timestamp),
        tx.from_address@ != tx.to_address@,
    ensures
        balance_in(post.state(), tx.from_address@) == balance_in(pre.state(), tx.from_address@)
            - tx.value,
        balance_in(post.state(), tx.to_address@) == balance_in(pre.state(), tx.to_address@)
            + tx.value,
        nonce_in(post.state(), tx.from_address@) == saturating_inc(
            nonce_in(pre.state(), tx.from_address@),
        ),
        nonce_in(post.state(), tx.to_address@) == nonce_in(pre.state(), tx.to_address@),
        forall|a: Seq<u8>|
            a != tx.from_address@ && a != tx.to_address@ ==> balance_in(post.state(), a)
                == balance_in(pre.state(), a) && nonce_in(post.state(), a) == nonce_in(
                pre.state(),
                a,
            ),
{
    let m = pre.state();
    let s = pre.entries();
    let from = tx.from_address@;
    let to = tx.to_address@;
    let txs = seq![tx];
    assert(txs.drop_last() =~= Seq::<Transaction>::empty());
    assert(apply_transfers(m, txs.drop_last()) == Some(m));
    assert(txs.last() == tx);
    assert(apply_transfer(m, tx) == Some(post.state()));
    if has_entry(s, to) {
        let j = choose|j: int| 0 <= j < s.len() && #[trigger] s[j].address@ == to;
        lemma_state_at(s, j);
        if has_entry(s, from) {
            let i = choose|i: int| 0 <= i < s.len() && #[trigger] s[i].address@ == from;
            lemma_state_at(s, i);
            lemma_two_balances_within_supply(s, i, j);
        } else {
            assert(balance_in(m, from) == 0);
        }
    } else if has_entry(s, from) {
        let i = choose|i: int| 0 <= i < s.len() && #[trigger] s[i].address@ == from;
        lemma_state_at(s, i);
        lemma_balance_within_supply(s, i);
    }
}

} // verus!
