//! The world state: a canonical map from addresses to live accounts, kept as
//! a vector sorted strictly by address, together with a cached state root.
//! The root is the keccak-256 digest of the concatenated account records in
//! address order, or all zeros for the empty state, so it depends only on
//! the set of live accounts.

use vstd::prelude::*;
use crate::account::Account;
use crate::address::Address;
use crate::bytes::u64_be_seq;
use crate::crypto::{keccak256, keccak_spec};
use crate::u256::U256;

verus! {

/// Strictly ascending by address: sorted and duplicate-free at once.
pub open spec fn sorted_by_address(s: Seq<Account>) -> bool {
    forall|i: int, j: int|
        0 <= i < j < s.len() ==> s[i].address.as_nat() < s[j].address.as_nat()
}

/// Every kept entry has a nonzero balance or nonce.
pub open spec fn all_live(s: Seq<Account>) -> bool {
    forall|i: int| 0 <= i < s.len() ==> s[i].is_live()
}

/// The canonical record of one account: address, balance, nonce, big endian.
pub open spec fn account_bytes(a: Account) -> Seq<u8> {
    a.address.be_seq() + a.balance.be_seq() + u64_be_seq(a.nonce)
}

/// The concatenated records of a sequence of accounts.
pub open spec fn accounts_bytes(s: Seq<Account>) -> Seq<u8>
    decreases s.len(),
{
    if s.len() == 0 {
        Seq::empty()
    } else {
        accounts_bytes(s.drop_last()) + account_bytes(s.last())
    }
}

/// Thirty-two zero bytes, the root of the empty state.
pub open spec fn zero_root() -> Seq<u8> {
    Seq::new(32, |i: int| 0u8)
}

/// The state root over a canonical account sequence.
pub open spec fn root_of(s: Seq<Account>) -> Seq<u8> {
    if s.len() == 0 {
        zero_root()
    } else {
        keccak_spec(accounts_bytes(s))
    }
}

/// The entry stored under an address, if any.
pub open spec fn find_account(s: Seq<Account>, a: Address) -> Option<Account>
    decreases s.len(),
{
    if s.len() == 0 {
        None
    } else if s[0].address.as_nat() == a.as_nat() {
        Some(s[0])
    } else {
        find_account(s.skip(1), a)
    }
}

/// The balance stored under an address; an absent account holds zero.
pub open spec fn balance_of(s: Seq<Account>, a: Address) -> nat {
    match find_account(s, a) {
        Some(acc) => acc.balance.as_nat(),
        None => 0,
    }
}

/// The nonce stored under an address; an absent account holds zero.
pub open spec fn nonce_of(s: Seq<Account>, a: Address) -> nat {
    match find_account(s, a) {
        Some(acc) => acc.nonce as nat,
        None => 0,
    }
}

/// The sum of all stored balances.
pub open spec fn sum_balances(s: Seq<Account>) -> nat
    decreases s.len(),
{
    if s.len() == 0 {
        0
    } else {
        sum_balances(s.drop_last()) + s.last().balance.as_nat()
    }
}

/// Skipping past entries that do not match leaves the lookup unchanged.
proof fn lemma_find_skip(s: Seq<Account>, a: Address, i: int)
    requires
        0 <= i <= s.len(),
        forall|j: int| 0 <= j < i ==> s[j].address.as_nat() != a.as_nat(),
    ensures
        find_account(s, a) == find_account(s.skip(i), a),
    decreases i,
{
    if i > 0 {
        lemma_find_skip(s.skip(1), a, i - 1);
        assert(s.skip(1).skip(i - 1) =~= s.skip(i));
    } else {
        assert(s.skip(0) =~= s);
    }
}

/// A stored entry is what the lookup returns for its address.
pub proof fn lemma_find_present(s: Seq<Account>, i: int)
    requires
        sorted_by_address(s),
        0 <= i < s.len(),
    ensures
        find_account(s, s[i].address) == Some(s[i]),
{
    lemma_find_skip(s, s[i].address, i);
    assert(s.skip(i)[0] == s[i]);
}

/// An address held by no entry finds nothing.
pub proof fn lemma_find_absent(s: Seq<Account>, a: Address)
    requires
        forall|i: int| 0 <= i < s.len() ==> s[i].address.as_nat() != a.as_nat(),
    ensures
        find_account(s, a) == None::<Account>,
{
    lemma_find_skip(s, a, s.len() as int);
}

/// A found entry carries the address it was found under.
pub proof fn lemma_find_addr(s: Seq<Account>, a: Address)
    requires
        find_account(s, a) is Some,
    ensures
        find_account(s, a).unwrap().address.as_nat() == a.as_nat(),
    decreases s.len(),
{
    if s.len() > 0 && s[0].address.as_nat() != a.as_nat() {
        lemma_find_addr(s.skip(1), a);
    }
}

/// Inserting an account at its sorted position changes only its own lookup.
proof fn lemma_find_insert(s: Seq<Account>, i: int, acc: Account, x: Address)
    requires
        0 <= i <= s.len(),
        forall|j: int| 0 <= j < i ==> s[j].address.as_nat() < acc.address.as_nat(),
        forall|j: int| i <= j < s.len() ==> s[j].address.as_nat() > acc.address.as_nat(),
    ensures
        find_account(s.insert(i, acc), x) == if x.as_nat() == acc.address.as_nat() {
            Some(acc)
        } else {
            find_account(s, x)
        },
    decreases i,
{
    let t = s.insert(i, acc);
    if i == 0 {
        assert(t[0] == acc);
        assert(t.skip(1) =~= s);
    } else {
        assert(t[0] == s[0]);
        assert(t.skip(1) =~= s.skip(1).insert(i - 1, acc));
        lemma_find_insert(s.skip(1), i - 1, acc, x);
    }
}

/// Removing an entry changes only its own lookup.
proof fn lemma_find_remove(s: Seq<Account>, i: int, x: Address)
    requires
        sorted_by_address(s),
        0 <= i < s.len(),
    ensures
        find_account(s.remove(i), x) == if x.as_nat() == s[i].address.as_nat() {
            None::<Account>
        } else {
            find_account(s, x)
        },
    decreases i,
{
    let t = s.remove(i);
    if i == 0 {
        assert(t =~= s.skip(1));
        if x.as_nat() == s[0].address.as_nat() {
            assert forall|j: int| 0 <= j < t.len() implies t[j].address.as_nat()
                != x.as_nat() by {
                assert(t[j] == s[j + 1]);
            }
            lemma_find_absent(t, x);
        }
    } else {
        assert(t[0] == s[0]);
        assert(t.skip(1) =~= s.skip(1).remove(i - 1));
        assert(sorted_by_address(s.skip(1)));
        lemma_find_remove(s.skip(1), i - 1, x);
    }
}

/// Inserting adds exactly the new balance to the total.
proof fn lemma_sum_insert(s: Seq<Account>, i: int, acc: Account)
    requires
        0 <= i <= s.len(),
    ensures
        sum_balances(s.insert(i, acc)) == sum_balances(s) + acc.balance.as_nat(),
    decreases s.len(),
{
    let t = s.insert(i, acc);
    if i == s.len() {
        assert(t.drop_last() =~= s);
        assert(t.last() == acc);
    } else {
        assert(t.drop_last() =~= s.drop_last().insert(i, acc));
        assert(t.last() == s.last());
        lemma_sum_insert(s.drop_last(), i, acc);
    }
}

/// Removing takes exactly the removed balance out of the total.
proof fn lemma_sum_remove(s: Seq<Account>, i: int)
    requires
        0 <= i < s.len(),
    ensures
        sum_balances(s.remove(i)) + s[i].balance.as_nat() == sum_balances(s),
    decreases s.len(),
{
    let t = s.remove(i);
    if i == s.len() - 1 {
        assert(t =~= s.drop_last());
    } else {
        assert(t.drop_last() =~= s.drop_last().remove(i));
        assert(t.last() == s.last());
        lemma_sum_remove(s.drop_last(), i);
    }
}

/// Two canonical sequences holding the same accounts are the same sequence.
pub proof fn lemma_sorted_unique_by_set(s1: Seq<Account>, s2: Seq<Account>)
    requires
        sorted_by_address(s1),
        sorted_by_address(s2),
        s1.to_set() == s2.to_set(),
    ensures
        s1 == s2,
    decreases s1.len(),
{
    if s1.len() == 0 {
        if s2.len() > 0 {
            assert(s1.to_set().contains(s2[0])) by {
                assert(s2.contains(s2[0]));
            }
            assert(s1.contains(s2[0]));
        }
        assert(s1 =~= s2);
    } else {
        assert(s2.contains(s1.last())) by {
            assert(s1.contains(s1.last()));
            assert(s2.to_set().contains(s1.last()));
        }
        assert(s1.contains(s2.last())) by {
            assert(s2.contains(s2.last()));
            assert(s1.to_set().contains(s2.last()));
        }
        let i = choose|i: int| 0 <= i < s2.len() && s2[i] == s1.last();
        let j = choose|j: int| 0 <= j < s1.len() && s1[j] == s2.last();
        assert(s2[i].address.as_nat() <= s2.last().address.as_nat());
        assert(s1[j].address.as_nat() <= s1.last().address.as_nat());
        assert(s1.last() == s2.last()) by {
            assert(s1.last().address.as_nat() == s2.last().address.as_nat());
            assert(i == s2.len() - 1);
        }
        let t1 = s1.drop_last();
        let t2 = s2.drop_last();
        assert(t1.to_set() =~= t2.to_set()) by {
            assert forall|x: Account| t1.to_set().contains(x) implies t2.to_set().contains(
                x,
            ) by {
                lemma_drop_last_member(s1, s2, x);
            }
            assert forall|x: Account| t2.to_set().contains(x) implies t1.to_set().contains(
                x,
            ) by {
                lemma_drop_last_member(s2, s1, x);
            }
        }
        lemma_sorted_unique_by_set(t1, t2);
        assert(s1 =~= s2) by {
            assert(forall|k: int| 0 <= k < s1.len() - 1 ==> s1[k] == t1[k] && s2[k] == t2[k]);
        }
    }
}

/// An account below the top of one canonical sequence sits below the top of
/// the other as well.
proof fn lemma_drop_last_member(s1: Seq<Account>, s2: Seq<Account>, x: Account)
    requires
        sorted_by_address(s1),
        sorted_by_address(s2),
        s1.len() > 0,
        s2.len() > 0,
        s1.last() == s2.last(),
        s1.to_set() == s2.to_set(),
        s1.drop_last().to_set().contains(x),
    ensures
        s2.drop_last().to_set().contains(x),
{
    let t1 = s1.drop_last();
    assert(t1.contains(x));
    let k = choose|k: int| 0 <= k < t1.len() && t1[k] == x;
    assert(s1[k] == x);
    assert(x.address.as_nat() < s1.last().address.as_nat());
    assert(s1.contains(x));
    assert(s2.to_set().contains(x));
    assert(s2.contains(x));
    let m = choose|m: int| 0 <= m < s2.len() && s2[m] == x;
    assert(m < s2.len() - 1) by {
        if m == s2.len() - 1 {
            assert(x == s2.last());
        }
    }
    assert(s2.drop_last()[m] == x);
    assert(s2.drop_last().contains(x));
}

/// The account map with its cached root.
pub struct State {
    pub accounts: Vec<Account>,
    pub state_root: U256,
}

impl State {
    /// Canonical representation: sorted, live entries only, root in step.
    pub open spec fn wf(self) -> bool {
        sorted_by_address(self.accounts@) && all_live(self.accounts@)
            && self.state_root.be_seq() == root_of(self.accounts@)
    }

    /// The stored entry for an address, if any.
    pub open spec fn spec_find(self, a: Address) -> Option<Account> {
        find_account(self.accounts@, a)
    }

    /// The empty state with the all-zero root.
    pub fn new() -> (r: State)
        ensures
            r.wf(),
            r.accounts@.len() == 0,
            r.state_root.as_nat() == 0,
    {
        let root = U256::zero();
        proof {
            assert(root.be_seq() =~= zero_root());
        }
        State { accounts: Vec::new(), state_root: root }
    }

    /// The account under `address`, or a fresh zero account.
    pub fn get_account(&self, address: &Address) -> (r: Account)
        ensures
            match self.spec_find(*address) {
                Some(acc) => r == acc,
                None => r.address == *address && r.balance.as_nat() == 0 && r.nonce == 0,
            },
    {
        let n = self.accounts.len();
        let mut i: usize = 0;
        while i < n
            invariant
                n == self.accounts@.len(),
                0 <= i <= n,
                forall|j: int| 0 <= j < i ==> self.accounts@[j].address.as_nat()
                    != address.as_nat(),
            decreases n - i,
        {
            let cand = self.accounts[i];
            if cand.address == *address {
                proof {
                    lemma_find_skip(self.accounts@, *address, i as int);
                    assert(self.accounts@.skip(i as int)[0] == self.accounts@[i as int]);
                }
                return cand;
            }
            i = i + 1;
        }
        proof {
            lemma_find_absent(self.accounts@, *address);
        }
        Account::new(*address)
    }

    pub fn get_balance(&self, address: &Address) -> (r: U256)
        ensures
            r.as_nat() == balance_of(self.accounts@, *address),
    {
        self.get_account(address).balance
    }

    pub fn get_nonce(&self, address: &Address) -> (r: u64)
        ensures
            r as nat == nonce_of(self.accounts@, *address),
    {
        self.get_account(address).nonce
    }

    pub fn get_state_root(&self) -> (r: U256)
        ensures
            r == self.state_root,
    {
        self.state_root
    }

    pub fn account_count(&self) -> (r: usize)
        ensures
            r == self.accounts@.len(),
    {
        self.accounts.len()
    }

    /// A value copy of the whole state.
    pub fn snapshot(&self) -> (r: State)
        ensures
            r.accounts@ == self.accounts@,
            r.state_root == self.state_root,
    {
        let n = self.accounts.len();
        let mut accounts: Vec<Account> = Vec::new();
        let mut i: usize = 0;
        while i < n
            invariant
                n == self.accounts@.len(),
                0 <= i <= n,
                accounts@ == self.accounts@.subrange(0, i as int),
            decreases n - i,
        {
            accounts.push(self.accounts[i]);
            proof {
                assert(accounts@ =~= self.accounts@.subrange(0, i as int + 1));
            }
            i = i + 1;
        }
        proof {
            assert(self.accounts@.subrange(0, n as int) =~= self.accounts@);
        }
        State { accounts, state_root: self.state_root }
    }

    /// Recomputes the cached root from the canonical sequence.
    fn recompute_root(&mut self)
        ensures
            final(self).accounts == old(self).accounts,
            final(self).state_root.be_seq() == root_of(final(self).accounts@),
    {
        if self.accounts.len() == 0 {
            let root = U256::zero();
            proof {
                assert(root.be_seq() =~= zero_root());
            }
            self.state_root = root;
            return;
        }
        let n = self.accounts.len();
        let mut data: Vec<u8> = Vec::new();
        let mut i: usize = 0;
        proof {
            assert(data@ =~= accounts_bytes(self.accounts@.subrange(0, 0)));
        }
        while i < n
            invariant
                n == self.accounts@.len(),
                0 <= i <= n,
                data@ == accounts_bytes(self.accounts@.subrange(0, i as int)),
            decreases n - i,
        {
            let acc = self.accounts[i];
            acc.address.push_be_bytes(&mut data);
            acc.balance.push_be_bytes(&mut data);
            crate::bytes::push_u64_be(&mut data, acc.nonce);
            proof {
                let pre = self.accounts@.subrange(0, i as int);
                let post = self.accounts@.subrange(0, i as int + 1);
                assert(post.drop_last() =~= pre);
                assert(post.last() == self.accounts@[i as int]);
                assert(data@ =~= accounts_bytes(pre) + account_bytes(self.accounts@[i as int]));
            }
            i = i + 1;
        }
        proof {
            assert(self.accounts@.subrange(0, n as int) =~= self.accounts@);
        }
        self.state_root = keccak256(&data);
    }

    /// Stores `account` under its address, dropping it instead when it has
    /// become empty, and refreshes the root. Lookups at every other address
    /// are untouched, and the balance total moves by exactly the
    /// difference at this address.
    #[verifier::rlimit(100)]
    pub fn set_account(&mut self, address: Address, account: Account)
        requires
            old(self).wf(),
            account.address == address,
        ensures
            final(self).wf(),
            find_account(final(self).accounts@, address) == (if account.is_live() {
                Some(account)
            } else {
                None::<Account>
            }),
            forall|x: Address| x.as_nat() != address.as_nat() ==> find_account(
                final(self).accounts@,
                x,
            ) == find_account(old(self).accounts@, x),
            sum_balances(final(self).accounts@) + balance_of(old(self).accounts@, address)
                == sum_balances(old(self).accounts@) + account.balance.as_nat(),
    {
        let n = self.accounts.len();
        let mut i: usize = 0;
        while i < n && self.accounts[i].address.lt(&address)
            invariant
                n == self.accounts@.len(),
                0 <= i <= n,
                forall|j: int| 0 <= j < i ==> self.accounts@[j].address.as_nat()
                    < address.as_nat(),
                sorted_by_address(self.accounts@),
            decreases n - i,
        {
            i = i + 1;
        }
        let ghost s0 = self.accounts@;
        let is_live = !(account.balance.is_zero() && account.nonce == 0);
        let found = i < n && self.accounts[i].address == address;
        proof {
            if i < n as usize && !found {
                crate::address::Address::lemma_as_nat_inj(s0[i as int].address, address);
            }
        }
        if found {
            proof {
                lemma_find_present(s0, i as int);
                crate::address::Address::lemma_as_nat_inj(s0[i as int].address, address);
            }
            let _removed = self.accounts.remove(i);
            proof {
                lemma_find_remove(s0, i as int, address);
                assert(forall|x: Address| x.as_nat() != address.as_nat() ==> find_account(
                    self.accounts@,
                    x,
                ) == find_account(s0, x)) by {
                    assert forall|x: Address| x.as_nat() != address.as_nat() implies find_account(
                        self.accounts@,
                        x,
                    ) == find_account(s0, x) by {
                        lemma_find_remove(s0, i as int, x);
                    }
                }
                lemma_sum_remove(s0, i as int);
                assert(sorted_by_address(self.accounts@));
            }
            let ghost s1 = self.accounts@;
            if is_live {
                self.accounts.insert(i, account);
                proof {
                    assert(forall|j: int| 0 <= j < i ==> s1[j] == s0[j]);
                    assert(forall|j: int| i <= j < s1.len() ==> s1[j] == s0[j + 1]);
                    assert forall|x: Address| x.as_nat() != address.as_nat() implies find_account(
                        self.accounts@,
                        x,
                    ) == find_account(s1, x) by {
                        lemma_find_insert(s1, i as int, account, x);
                    }
                    lemma_find_insert(s1, i as int, account, address);
                    lemma_sum_insert(s1, i as int, account);
                    assert(sorted_by_address(self.accounts@));
                }
            }
        } else {
            proof {
                assert(forall|j: int| 0 <= j < s0.len() ==> s0[j].address.as_nat()
                    != address.as_nat());
                lemma_find_absent(s0, address);
            }
            if is_live {
                self.accounts.insert(i, account);
                proof {
                    assert forall|x: Address| x.as_nat() != address.as_nat() implies find_account(
                        self.accounts@,
                        x,
                    ) == find_account(s0, x) by {
                        lemma_find_insert(s0, i as int, account, x);
                    }
                    lemma_find_insert(s0, i as int, account, address);
                    lemma_sum_insert(s0, i as int, account);
                    assert(sorted_by_address(self.accounts@));
                }
            }
        }
        proof {
            assert(all_live(self.accounts@));
        }
        self.recompute_root();
    }

    /// Adds `amount` to the balance stored under `address`; the caller keeps
    /// the total below 2^256.
    #[verifier::rlimit(100)]
    pub fn fund_account(&mut self, address: &Address, amount: U256)
        requires
            old(self).wf(),
            balance_of(old(self).accounts@, *address) + amount.as_nat()
                < crate::u256::pow256(),
        ensures
            final(self).wf(),
            balance_of(final(self).accounts@, *address) == balance_of(
                old(self).accounts@,
                *address,
            ) + amount.as_nat(),
            nonce_of(final(self).accounts@, *address) == nonce_of(old(self).accounts@, *address),
            forall|x: Address| x.as_nat() != address.as_nat() ==> find_account(
                final(self).accounts@,
                x,
            ) == find_account(old(self).accounts@, x),
            sum_balances(final(self).accounts@) == sum_balances(old(self).accounts@)
                + amount.as_nat(),
    {
        let mut account = self.get_account(address);
        proof {
            if find_account(self.accounts@, *address) is Some {
                lemma_find_addr(self.accounts@, *address);
            }
            crate::address::Address::lemma_as_nat_inj(account.address, *address);
            assert(account.balance.as_nat() == balance_of(self.accounts@, *address));
        }
        account.balance = match account.balance.checked_add(&amount) {
            Some(b) => b,
            None => {
                proof {
                    assert(false);
                }
                U256::zero()
            }
        };
        let ghost old_accounts = self.accounts@;
        self.set_account(*address, account);
        proof {
            if account.is_live() {
                assert(find_account(self.accounts@, *address) == Some(account));
            } else {
                assert(account.balance.as_nat() == 0);
            }
            assert(balance_of(self.accounts@, *address) == balance_of(old_accounts, *address)
                + amount.as_nat());
            assert(nonce_of(self.accounts@, *address) == nonce_of(old_accounts, *address));
        }
    }
}

/// The root is a function of the set of live accounts alone: two well-formed
/// states holding the same accounts have the same canonical sequence and the
/// same root, whatever order the accounts were touched in.
pub proof fn lemma_state_root_canonical(a: State, b: State)
    requires
        a.wf(),
        b.wf(),
        a.accounts@.to_set() == b.accounts@.to_set(),
    ensures
        a.accounts@ == b.accounts@,
        a.state_root == b.state_root,
{
    lemma_sorted_unique_by_set(a.accounts@, b.accounts@);
    crate::u256::U256::lemma_be_seq_inj(a.state_root, b.state_root);
}

} // verus!
