use crate::address::Address;
use crate::transaction::Transaction;
use vstd::prelude::*;

verus! {

/// The state of one account: its balance and how many transfers it has sent.
#[derive(Clone, Copy, Debug)]
pub struct Account {
    pub address: Address,
    pub balance: u64,
    pub nonce: u64,
}

/// Balance and nonce by address, for the addresses that have an entry.
pub type AccountState = Map<Seq<u8>, (u64, u64)>;

/// No address has two entries.
pub open spec fn addresses_unique(s: Seq<Account>) -> bool {
    forall|i: int, j: int|
        0 <= i < s.len() && 0 <= j < s.len() && i != j ==> #[trigger] s[i].address@
            != #[trigger] s[j].address@
}

pub open spec fn has_entry(s: Seq<Account>, a: Seq<u8>) -> bool {
    exists|i: int| 0 <= i < s.len() && #[trigger] s[i].address@ == a
}

pub open spec fn entry_index(s: Seq<Account>, a: Seq<u8>) -> int {
    choose|i: int| 0 <= i < s.len() && #[trigger] s[i].address@ == a
}

/// The account state that a list of entries stands for.
pub open spec fn state_of(s: Seq<Account>) -> AccountState {
    Map::new(
        |a: Seq<u8>| has_entry(s, a),
        |a: Seq<u8>| (s[entry_index(s, a)].balance, s[entry_index(s, a)].nonce),
    )
}

/// The balance of `a`; an address without an entry holds nothing.
pub open spec fn balance_in(m: AccountState, a: Seq<u8>) -> u64 {
    if m.contains_key(a) {
        m[a].0
    } else {
        0
    }
}

/// The nonce of `a`; an address without an entry has sent nothing.
pub open spec fn nonce_in(m: AccountState, a: Seq<u8>) -> u64 {
    if m.contains_key(a) {
        m[a].1
    } else {
        0
    }
}

/// One more, stopping at `u64::MAX`.
pub open spec fn saturating_inc(n: u64) -> u64 {
    if n == u64::MAX {
        n
    } else {
        (n + 1) as u64
    }
}

/// The state after one transfer, or `None` where the sender holds less than
/// the value: the sender is debited and its nonce advances, then the
/// receiver is credited.
pub open spec fn apply_transfer(m: AccountState, tx: Transaction) -> Option<AccountState> {
    let from = tx.from_address@;
    let to = tx.to_address@;
    if balance_in(m, from) < tx.value {
        None
    } else {
        let m1 = m.insert(
            from,
            ((balance_in(m, from) - tx.value) as u64, saturating_inc(nonce_in(m, from))),
        );
        Some(m1.insert(to, ((balance_in(m1, to) + tx.value) as u64, nonce_in(m1, to))))
    }
}

/// The state after the transfers in order, or `None` where one of them fails.
pub open spec fn apply_transfers(m: AccountState, txs: Seq<Transaction>) -> Option<AccountState>
    decreases txs.len(),
{
    if txs.len() == 0 {
        Some(m)
    } else {
        match apply_transfers(m, txs.drop_last()) {
            Some(m1) => apply_transfer(m1, txs.last()),
            None => None,
        }
    }
}

/// The sum of all balances.
pub open spec fn total_supply(s: Seq<Account>) -> int
    decreases s.len(),
{
    if s.len() == 0 {
        0
    } else {
        total_supply(s.drop_last()) + s.last().balance
    }
}

/// The index of the entry of `a`, if there is one.
pub fn find_account(accounts: &Vec<Account>, a: &Address) -> (r: Option<usize>)
    ensures
        match r {
            Some(i) => i < accounts@.len() && accounts@[i as int].address@ == a@,
            None => !has_entry(accounts@, a@),
        },
{
    let mut i: usize = 0;
    while i < accounts.len()
        invariant
            0 <= i <= accounts@.len(),
            forall|k: int| 0 <= k < i ==> #[trigger] accounts@[k].address@ != a@,
        decreases accounts@.len() - i,
    {
        if accounts[i].address == *a {
            return Some(i);
        }
        i = i + 1;
    }
    None
}

/// A copy of the entries.
pub fn copy_entries(accounts: &Vec<Account>) -> (r: Vec<Account>)
    ensures
        r@ == accounts@,
{
    let mut r: Vec<Account> = Vec::new();
    let mut i: usize = 0;
    while i < accounts.len()
        invariant
            0 <= i <= accounts@.len(),
            r@ == accounts@.subrange(0, i as int),
        decreases accounts@.len() - i,
    {
        r.push(accounts[i]);
        i = i + 1;
    }
    assert(r@ =~= accounts@);
    r
}

/// Advances the nonce of `a` by one, stopping at `u64::MAX`.
pub fn advance_nonce(accounts: &mut Vec<Account>, a: &Address)
    requires
        addresses_unique(old(accounts)@),
    ensures
        addresses_unique(final(accounts)@),
        state_of(final(accounts)@) == state_of(old(accounts)@).insert(
            a@,
            (
                balance_in(state_of(old(accounts)@), a@),
                saturating_inc(nonce_in(state_of(old(accounts)@), a@)),
            ),
        ),
        total_supply(final(accounts)@) == total_supply(old(accounts)@),
{
    let ghost m = state_of(accounts@);
    let i = entry_for(accounts, a);
    proof {
        lemma_state_at(accounts@, i as int);
    }
    let balance = accounts[i].balance;
    let nonce = accounts[i].nonce.saturating_add(1);
    set_entry(accounts, i, balance, nonce);
    assert(state_of(accounts@) =~= m.insert(a@, (balance_in(m, a@), saturating_inc(nonce_in(m, a@)))));
}

/// Adds `value` to the balance of `a`.
pub fn credit(accounts: &mut Vec<Account>, a: &Address, value: u64)
    requires
        addresses_unique(old(accounts)@),
        total_supply(old(accounts)@) + value <= u64::MAX,
    ensures
        addresses_unique(final(accounts)@),
        state_of(final(accounts)@) == state_of(old(accounts)@).insert(
            a@,
            (
                (balance_in(state_of(old(accounts)@), a@) + value) as u64,
                nonce_in(state_of(old(accounts)@), a@),
            ),
        ),
        total_supply(final(accounts)@) == total_supply(old(accounts)@) + value,
{
    let ghost m = state_of(accounts@);
    let i = entry_for(accounts, a);
    proof {
        lemma_state_at(accounts@, i as int);
        lemma_balance_within_supply(accounts@, i as int);
    }
    let balance = accounts[i].balance + value;
    let nonce = accounts[i].nonce;
    set_entry(accounts, i, balance, nonce);
    assert(state_of(accounts@) =~= m.insert(a@, ((balance_in(m, a@) + value) as u64, nonce_in(m, a@))));
}

/// The index of the entry of `a`, made with nothing in it where there was none.
fn entry_for(accounts: &mut Vec<Account>, a: &Address) -> (r: usize)
    requires
        addresses_unique(old(accounts)@),
    ensures
        addresses_unique(final(accounts)@),
        r < final(accounts)@.len(),
        final(accounts)@[r as int].address@ == a@,
        state_of(final(accounts)@) == state_of(old(accounts)@).insert(
            a@,
            (balance_in(state_of(old(accounts)@), a@), nonce_in(state_of(old(accounts)@), a@)),
        ),
        total_supply(final(accounts)@) == total_supply(old(accounts)@),
{
    match find_account(accounts, a) {
        Some(i) => {
            proof {
                lemma_state_at(accounts@, i as int);
                assert(state_of(accounts@).insert(a@, state_of(accounts@)[a@]) =~= state_of(
                    accounts@,
                ));
            }
            i
        },
        None => {
            let acct = Account { address: *a, balance: 0, nonce: 0 };
            proof {
                lemma_state_push(accounts@, acct);
                lemma_supply_push(accounts@, acct);
            }
            accounts.push(acct);
            accounts.len() - 1
        },
    }
}

/// Overwrites the balance and nonce of entry `i`.
fn set_entry(accounts: &mut Vec<Account>, i: usize, balance: u64, nonce: u64)
    requires
        addresses_unique(old(accounts)@),
        i < old(accounts)@.len(),
    ensures
        addresses_unique(final(accounts)@),
        final(accounts)@.len() == old(accounts)@.len(),
        state_of(final(accounts)@) == state_of(old(accounts)@).insert(
            old(accounts)@[i as int].address@,
            (balance, nonce),
        ),
        total_supply(final(accounts)@) == total_supply(old(accounts)@) - old(
            accounts,
        )@[i as int].balance + balance,
{
    let acct = Account { address: accounts[i].address, balance, nonce };
    proof {
        lemma_state_update(accounts@, i as int, acct);
        lemma_supply_update(accounts@, i as int, acct);
    }
    accounts.set(i, acct);
}

/// Applies one transfer to the entries; `false` where the sender holds less
/// than the value, and the entries are then of no further use.
pub fn apply_transfer_to(accounts: &mut Vec<Account>, tx: &Transaction) -> (r: bool)
    requires
        addresses_unique(old(accounts)@),
        total_supply(old(accounts)@) <= u64::MAX,
    ensures
        addresses_unique(final(accounts)@),
        r == apply_transfer(state_of(old(accounts)@), *tx).is_some(),
        r ==> state_of(final(accounts)@) == apply_transfer(state_of(old(accounts)@), *tx).unwrap(),
        r ==> total_supply(final(accounts)@) == total_supply(old(accounts)@),
{
    let ghost m = state_of(accounts@);
    let ghost supply = total_supply(accounts@);
    let i = entry_for(accounts, &tx.from_address);
    proof {
        lemma_state_at(accounts@, i as int);
    }
    let balance = accounts[i].balance;
    if balance < tx.value {
        return false;
    }
    let nonce = accounts[i].nonce.saturating_add(1);
    set_entry(accounts, i, balance - tx.value, nonce);
    let ghost m1 = m.insert(
        tx.from_address@,
        ((balance_in(m, tx.from_address@) - tx.value) as u64, saturating_inc(
            nonce_in(m, tx.from_address@),
        )),
    );
    assert(state_of(accounts@) =~= m1);
    let j = entry_for(accounts, &tx.to_address);
    proof {
        lemma_state_at(accounts@, j as int);
        lemma_balance_within_supply(accounts@, j as int);
    }
    let credited = accounts[j].balance + tx.value;
    let to_nonce = accounts[j].nonce;
    set_entry(accounts, j, credited, to_nonce);
    assert(state_of(accounts@) =~= m1.insert(
        tx.to_address@,
        ((balance_in(m1, tx.to_address@) + tx.value) as u64, nonce_in(m1, tx.to_address@)),
    ));
    true
}

/// The entries after applying the transfers in order, or `None` where one of
/// them would overdraw its sender.
pub fn apply_transfers_to(accounts: &Vec<Account>, transactions: &Vec<Transaction>) -> (r: Option<
    Vec<Account>,
>)
    requires
        addresses_unique(accounts@),
        total_supply(accounts@) <= u64::MAX,
    ensures
        r is None <==> apply_transfers(state_of(accounts@), transactions@) is None,
        r matches Some(next) ==> {
            &&& addresses_unique(next@)
            &&& apply_transfers(state_of(accounts@), transactions@) == Some(state_of(next@))
            &&& total_supply(next@) == total_supply(accounts@)
        },
{
    let ghost m = state_of(accounts@);
    let mut work = copy_entries(accounts);
    let mut i: usize = 0;
    assert(transactions@.take(0) =~= Seq::<Transaction>::empty());
    while i < transactions.len()
        invariant
            0 <= i <= transactions@.len(),
            m == state_of(accounts@),
            addresses_unique(work@),
            total_supply(work@) == total_supply(accounts@),
            total_supply(accounts@) <= u64::MAX,
            apply_transfers(m, transactions@.take(i as int)) == Some(state_of(work@)),
        decreases transactions@.len() - i,
    {
        assert(transactions@.take(i + 1).drop_last() =~= transactions@.take(i as int));
        if !apply_transfer_to(&mut work, &transactions[i]) {
            proof {
                lemma_transfers_prefix_fails(m, transactions@, i + 1);
            }
            return None;
        }
        i = i + 1;
    }
    assert(transactions@.take(transactions@.len() as int) =~= transactions@);
    Some(work)
}

/// Once a prefix of the transfers fails, all of them fail.
pub proof fn lemma_transfers_prefix_fails(m: AccountState, txs: Seq<Transaction>, i: int)
    requires
        0 <= i <= txs.len(),
        apply_transfers(m, txs.take(i)) is None,
    ensures
        apply_transfers(m, txs) is None,
    decreases txs.len(),
{
    if i == txs.len() {
        assert(txs.take(i) =~= txs);
    } else {
        assert(txs.take(i) =~= txs.drop_last().take(i));
        lemma_transfers_prefix_fails(m, txs.drop_last(), i);
    }
}

pub proof fn lemma_state_at(s: Seq<Account>, i: int)
    requires
        addresses_unique(s),
        0 <= i < s.len(),
    ensures
        state_of(s).contains_key(s[i].address@),
        state_of(s)[s[i].address@] == (s[i].balance, s[i].nonce),
{
    let a = s[i].address@;
    assert(has_entry(s, a));
    let j = entry_index(s, a);
    assert(s[j].address@ == a);
}

pub proof fn lemma_state_update(s: Seq<Account>, i: int, acct: Account)
    requires
        addresses_unique(s),
        0 <= i < s.len(),
        acct.address@ == s[i].address@,
    ensures
        addresses_unique(s.update(i, acct)),
        state_of(s.update(i, acct)) == state_of(s).insert(acct.address@, (acct.balance, acct.nonce)),
{
    let t = s.update(i, acct);
    assert forall|p: int, q: int|
        0 <= p < t.len() && 0 <= q < t.len() && p != q implies #[trigger] t[p].address@
        != #[trigger] t[q].address@ by {
        assert(t[p].address@ == s[p].address@);
        assert(t[q].address@ == s[q].address@);
    }
    let m = state_of(s).insert(acct.address@, (acct.balance, acct.nonce));
    assert forall|k: Seq<u8>| #[trigger] state_of(t).contains_key(k) == m.contains_key(k) by {
        if has_entry(t, k) {
            let j = choose|j: int| 0 <= j < t.len() && #[trigger] t[j].address@ == k;
            assert(s[j].address@ == k);
        }
        if has_entry(s, k) {
            let j = choose|j: int| 0 <= j < s.len() && #[trigger] s[j].address@ == k;
            assert(t[j].address@ == k);
        }
        if k == acct.address@ {
            assert(t[i].address@ == k);
        }
    }
    assert forall|k: Seq<u8>| #[trigger] state_of(t).contains_key(k) implies state_of(t)[k]
        == m[k] by {
        let j = choose|j: int| 0 <= j < t.len() && #[trigger] t[j].address@ == k;
        lemma_state_at(t, j);
        if j != i {
            assert(s[j].address@ == k);
            lemma_state_at(s, j);
        }
    }
    assert(state_of(t) =~= m);
}

pub proof fn lemma_state_push(s: Seq<Account>, acct: Account)
    requires
        addresses_unique(s),
        !has_entry(s, acct.address@),
    ensures
        addresses_unique(s.push(acct)),
        state_of(s.push(acct)) == state_of(s).insert(acct.address@, (acct.balance, acct.nonce)),
{
    let t = s.push(acct);
    let n = s.len() as int;
    assert forall|p: int, q: int|
        0 <= p < t.len() && 0 <= q < t.len() && p != q implies #[trigger] t[p].address@
        != #[trigger] t[q].address@ by {
        if p == n {
            assert(s[q].address@ == t[q].address@);
        } else if q == n {
            assert(s[p].address@ == t[p].address@);
        } else {
            assert(s[p].address@ == t[p].address@);
            assert(s[q].address@ == t[q].address@);
        }
    }
    let m = state_of(s).insert(acct.address@, (acct.balance, acct.nonce));
    assert forall|k: Seq<u8>| #[trigger] state_of(t).contains_key(k) == m.contains_key(k) by {
        if has_entry(t, k) {
            let j = choose|j: int| 0 <= j < t.len() && #[trigger] t[j].address@ == k;
            if j < n {
                assert(s[j].address@ == k);
            }
        }
        if has_entry(s, k) {
            let j = choose|j: int| 0 <= j < s.len() && #[trigger] s[j].address@ == k;
            assert(t[j].address@ == k);
        }
        if k == acct.address@ {
            assert(t[n].address@ == k);
        }
    }
    assert forall|k: Seq<u8>| #[trigger] state_of(t).contains_key(k) implies state_of(t)[k]
        == m[k] by {
        let j = choose|j: int| 0 <= j < t.len() && #[trigger] t[j].address@ == k;
        lemma_state_at(t, j);
        if j != n {
            assert(s[j].address@ == k);
            lemma_state_at(s, j);
        }
    }
    assert(state_of(t) =~= m);
}

pub proof fn lemma_supply_update(s: Seq<Account>, i: int, acct: Account)
    requires
        0 <= i < s.len(),
    ensures
        total_supply(s.update(i, acct)) == total_supply(s) - s[i].balance + acct.balance,
    decreases s.len(),
{
    let t = s.update(i, acct);
    if i == s.len() - 1 {
        assert(t.drop_last() =~= s.drop_last());
    } else {
        assert(t.drop_last() =~= s.drop_last().update(i, acct));
        lemma_supply_update(s.drop_last(), i, acct);
    }
}

pub proof fn lemma_supply_push(s: Seq<Account>, acct: Account)
    ensures
        total_supply(s.push(acct)) == total_supply(s) + acct.balance,
{
    assert(s.push(acct).drop_last() =~= s);
}

pub proof fn lemma_balance_within_supply(s: Seq<Account>, i: int)
    requires
        0 <= i < s.len(),
    ensures
        0 <= s[i].balance <= total_supply(s),
    decreases s.len(),
{
    lemma_supply_nonnegative(s.drop_last());
    if i < s.len() - 1 {
        lemma_balance_within_supply(s.drop_last(), i);
    }
}

pub proof fn lemma_two_balances_within_supply(s: Seq<Account>, i: int, j: int)
    requires
        0 <= i < s.len(),
        0 <= j < s.len(),
        i != j,
    ensures
        s[i].balance + s[j].balance <= total_supply(s),
    decreases s.len(),
{
    let n = s.len() - 1;
    if i == n {
        lemma_balance_within_supply(s.drop_last(), j);
    } else if j == n {
        lemma_balance_within_supply(s.drop_last(), i);
    } else {
        lemma_two_balances_within_supply(s.drop_last(), i, j);
    }
}

pub proof fn lemma_supply_nonnegative(s: Seq<Account>)
    ensures
        total_supply(s) >= 0,
    decreases s.len(),
{
    if s.len() > 0 {
        lemma_supply_nonnegative(s.drop_last());
    }
}

} // verus!
