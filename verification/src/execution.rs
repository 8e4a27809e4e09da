//! The execution engine: an optimistic preflight that filters a candidate
//! batch against per-sender running nonces and balances, and the
//! authoritative commit that applies each transfer atomically and writes a
//! receipt, burning the full gas limit of a failed transfer.

use vstd::prelude::*;
use crate::account::Account;
use crate::address::Address;
use crate::gas::{intrinsic_gas_nat, GasConfig};
use crate::mempool::{has_sender_nonce, Mempool, MempoolError};
use crate::state::{balance_of, find_account, nonce_of, sum_balances, State};
use crate::state_transition::{transition_admissible, StateTransition, StateTransitionError};
use crate::transaction::Transaction;
use crate::u256::{pow256, U256};

verus! {

#[derive(Clone, Copy, Debug, PartialEq, Eq, Structural)]
pub struct Receipt {
    pub transaction_hash: U256,
    pub gas_used: U256,
    pub success: bool,
    pub error_message: Option<StateTransitionError>,
}

impl Receipt {
    pub fn success(transaction_hash: U256, gas_used: U256) -> (r: Receipt)
        ensures
            r.transaction_hash == transaction_hash && r.gas_used == gas_used && r.success
                && r.error_message is None,
    {
        Receipt { transaction_hash, gas_used, success: true, error_message: None }
    }

    pub fn failed(transaction_hash: U256, gas_used: U256, error: StateTransitionError) -> (r:
        Receipt)
        ensures
            r.transaction_hash == transaction_hash && r.gas_used == gas_used && !r.success
                && r.error_message == Some(error),
    {
        Receipt { transaction_hash, gas_used, success: false, error_message: Some(error) }
    }
}

#[derive(Clone, Debug)]
pub struct ExecutionResult {
    pub receipts: Vec<Receipt>,
    pub total_gas_used: U256,
    pub state_root: U256,
}

/// The running nonce a sender sees during preflight.
pub open spec fn sim_nonce(base: Seq<Account>, m: Map<Address, (nat, nat)>, a: Address) -> nat {
    if m.dom().contains(a) {
        m[a].0
    } else {
        nonce_of(base, a)
    }
}

/// The running balance a sender sees during preflight.
pub open spec fn sim_balance(base: Seq<Account>, m: Map<Address, (nat, nat)>, a: Address) -> nat {
    if m.dom().contains(a) {
        m[a].1
    } else {
        balance_of(base, a)
    }
}

/// Whether the preflight admits the transfer under the running values.
pub open spec fn sim_admits(base: Seq<Account>, m: Map<Address, (nat, nat)>, t: Transaction) -> bool {
    t.nonce as nat == sim_nonce(base, m, t.from) && sim_nonce(base, m, t.from)
        < 0xffff_ffff_ffff_ffff && t.gas_limit.as_nat() >= 21_000 && sim_balance(base, m, t.from)
        >= t.max_cost_nat()
}

/// The admitted subsequence from position `i` on, threading running nonces
/// and balances per sender.
#[verifier::opaque]
pub open spec fn simulate_rec(
    base: Seq<Account>,
    txs: Seq<Transaction>,
    i: int,
    m: Map<Address, (nat, nat)>,
) -> Seq<Transaction>
    decreases txs.len() - i,
{
    if i < 0 || i >= txs.len() {
        Seq::empty()
    } else {
        let t = txs[i];
        if sim_admits(base, m, t) {
            seq![t] + simulate_rec(
                base,
                txs,
                i + 1,
                m.insert(
                    t.from,
                    (
                        sim_nonce(base, m, t.from) + 1,
                        (sim_balance(base, m, t.from) - t.max_cost_nat()) as nat,
                    ),
                ),
            )
        } else {
            simulate_rec(base, txs, i + 1, m)
        }
    }
}

/// The preflight result over a whole batch.
pub open spec fn simulate_spec(base: Seq<Account>, txs: Seq<Transaction>) -> Seq<Transaction> {
    simulate_rec(base, txs, 0, Map::empty())
}

/// The preflight admits at most the transfers that remain.
pub proof fn lemma_simulate_len(
    base: Seq<Account>,
    txs: Seq<Transaction>,
    i: int,
    m: Map<Address, (nat, nat)>,
)
    requires
        0 <= i <= txs.len(),
    ensures
        simulate_rec(base, txs, i, m).len() <= txs.len() - i,
    decreases txs.len() - i,
{
    reveal(simulate_rec);
    if i < txs.len() {
        let t = txs[i];
        if sim_admits(base, m, t) {
            lemma_simulate_len(
                base,
                txs,
                i + 1,
                m.insert(
                    t.from,
                    (
                        sim_nonce(base, m, t.from) + 1,
                        (sim_balance(base, m, t.from) - t.max_cost_nat()) as nat,
                    ),
                ),
            );
        } else {
            lemma_simulate_len(base, txs, i + 1, m);
        }
    }
}

/// A preflight that keeps the whole tail kept it unchanged: as many admitted
/// transfers as offered means every transfer was admitted, in order.
pub proof fn lemma_simulate_all(
    base: Seq<Account>,
    txs: Seq<Transaction>,
    i: int,
    m: Map<Address, (nat, nat)>,
)
    requires
        0 <= i <= txs.len(),
        simulate_rec(base, txs, i, m).len() == txs.len() - i,
    ensures
        simulate_rec(base, txs, i, m) == txs.skip(i),
    decreases txs.len() - i,
{
    reveal(simulate_rec);
    if i == txs.len() {
        assert(simulate_rec(base, txs, i, m) =~= txs.skip(i));
    } else {
        let t = txs[i];
        if sim_admits(base, m, t) {
            let m2 = m.insert(
                t.from,
                (
                    sim_nonce(base, m, t.from) + 1,
                    (sim_balance(base, m, t.from) - t.max_cost_nat()) as nat,
                ),
            );
            lemma_simulate_all(base, txs, i + 1, m2);
            assert(seq![t] + txs.skip(i + 1) =~= txs.skip(i));
        } else {
            lemma_simulate_len(base, txs, i + 1, m);
        }
    }
}

/// A batch the preflight keeps whole was admitted unchanged: as many
/// admitted transfers as offered means the admitted sequence is the offered
/// one.
pub proof fn lemma_simulate_full_batch(base: Seq<Account>, txs: Seq<Transaction>)
    requires
        simulate_spec(base, txs).len() == txs.len(),
    ensures
        simulate_spec(base, txs) == txs,
{
    lemma_simulate_all(base, txs, 0, Map::empty());
    assert(txs.skip(0) =~= txs);
}

/// The scratch state mirrors the preflight overlay: every address reads
/// the overlay's running nonce and balance.
#[verifier::opaque]
pub open spec fn overlay_ok(
    base: Seq<Account>,
    m: Map<Address, (nat, nat)>,
    cur: Seq<Account>,
) -> bool {
    forall|x: Address| #![trigger sim_nonce(base, m, x)]
        nonce_of(cur, x) == sim_nonce(base, m, x) && balance_of(cur, x) == sim_balance(base, m, x)
}

/// An untouched copy of the base state mirrors the empty overlay.
proof fn lemma_overlay_init(base: Seq<Account>)
    ensures
        overlay_ok(base, Map::empty(), base),
{
    reveal(overlay_ok);
}

/// One admitted step of the preflight, unfolded.
proof fn lemma_sim_step(
    base: Seq<Account>,
    txs: Seq<Transaction>,
    i: int,
    m: Map<Address, (nat, nat)>,
)
    requires
        0 <= i < txs.len(),
        sim_admits(base, m, txs[i]),
    ensures
        simulate_rec(base, txs, i, m) == seq![txs[i]] + simulate_rec(
            base,
            txs,
            i + 1,
            m.insert(
                txs[i].from,
                (
                    sim_nonce(base, m, txs[i].from) + 1,
                    (sim_balance(base, m, txs[i].from) - txs[i].max_cost_nat()) as nat,
                ),
            ),
        ),
{
    reveal(simulate_rec);
}

/// One rejected step of the preflight, unfolded.
proof fn lemma_sim_skip(
    base: Seq<Account>,
    txs: Seq<Transaction>,
    i: int,
    m: Map<Address, (nat, nat)>,
)
    requires
        0 <= i < txs.len(),
        !sim_admits(base, m, txs[i]),
    ensures
        simulate_rec(base, txs, i, m) == simulate_rec(base, txs, i + 1, m),
{
    reveal(simulate_rec);
}

/// Past the batch the preflight admits nothing.
proof fn lemma_sim_done(
    base: Seq<Account>,
    txs: Seq<Transaction>,
    m: Map<Address, (nat, nat)>,
)
    ensures
        simulate_rec(base, txs, txs.len() as int, m) == Seq::<Transaction>::empty(),
{
    reveal(simulate_rec);
    assert(simulate_rec(base, txs, txs.len() as int, m) =~= Seq::<Transaction>::empty());
}

/// Writing the admitted sender's new nonce and balance keeps the scratch
/// state in step with the overlay.
proof fn lemma_overlay_update(
    base: Seq<Account>,
    m: Map<Address, (nat, nat)>,
    pre: Seq<Account>,
    post: Seq<Account>,
    acc: Account,
    nn: nat,
    nb: nat,
)
    requires
        overlay_ok(base, m, pre),
        find_account(post, acc.address) == Some(acc),
        forall|x: Address| x.as_nat() != acc.address.as_nat() ==> find_account(post, x)
            == find_account(pre, x),
        acc.nonce as nat == nn,
        acc.balance.as_nat() == nb,
    ensures
        overlay_ok(base, m.insert(acc.address, (nn, nb)), post),
{
    reveal(overlay_ok);
    let m2 = m.insert(acc.address, (nn, nb));
    assert forall|x: Address| nonce_of(post, x) == sim_nonce(base, m2, x) && balance_of(post, x)
        == sim_balance(base, m2, x) by {
        if x.as_nat() == acc.address.as_nat() {
            Address::lemma_as_nat_inj(x, acc.address);
            assert(x == acc.address);
            assert(find_account(post, x) == Some(acc));
            assert(m2.dom().contains(x) && m2[x] == (nn, nb));
        } else {
            assert(find_account(post, x) == find_account(pre, x));
            assert(nonce_of(pre, x) == sim_nonce(base, m, x));
            assert(balance_of(pre, x) == sim_balance(base, m, x));
            assert(sim_nonce(base, m2, x) == sim_nonce(base, m, x));
            assert(sim_balance(base, m2, x) == sim_balance(base, m, x));
        }
    }
}

/// Moving one admitted transfer from the tail to the accumulator.
proof fn lemma_accumulate(
    whole: Seq<Transaction>,
    valid_old: Seq<Transaction>,
    valid_new: Seq<Transaction>,
    t: Transaction,
    rec_here: Seq<Transaction>,
    rec_next: Seq<Transaction>,
)
    requires
        whole == valid_old + rec_here,
        rec_here == seq![t] + rec_next,
        valid_new == valid_old.push(t),
    ensures
        whole == valid_new + rec_next,
{
    assert(valid_new =~= valid_old + seq![t]);
    assert((valid_old + seq![t]) + rec_next =~= valid_old + (seq![t] + rec_next));
}

/// The gas the receipts charge, added up.
pub open spec fn receipt_gas_sum(receipts: Seq<Receipt>) -> nat
    decreases receipts.len(),
{
    if receipts.len() == 0 {
        0
    } else {
        receipt_gas_sum(receipts.drop_last()) + receipts.last().gas_used.as_nat()
    }
}

/// One step of the commit: the receipt records the transfer's hash; an
/// admissible transfer succeeds, charges the intrinsic gas, and moves the
/// state exactly as the atomic transition says; an inadmissible one fails,
/// burns its whole gas limit, and leaves the state alone.
pub open spec fn commit_step(
    pre: Seq<Account>,
    tx: Transaction,
    config: GasConfig,
    post: Seq<Account>,
    receipt: Receipt,
) -> bool {
    receipt.transaction_hash == tx.hash && if transition_admissible(pre, tx, config) {
        receipt.success && receipt.gas_used.as_nat() == intrinsic_gas_nat(config)
            && receipt.error_message is None && balance_of(post, tx.from) + tx.amount.as_nat()
            + intrinsic_gas_nat(config) * tx.gas_price.as_nat() == balance_of(pre, tx.from)
            && nonce_of(post, tx.from) == nonce_of(pre, tx.from) + 1 && balance_of(post, tx.to)
            == balance_of(pre, tx.to) + tx.amount.as_nat() && nonce_of(post, tx.to) == nonce_of(
            pre,
            tx.to,
        ) && (forall|x: Address|
            x.as_nat() != tx.from.as_nat() && x.as_nat() != tx.to.as_nat() ==> find_account(
                post,
                x,
            ) == find_account(pre, x)) && sum_balances(post) + intrinsic_gas_nat(config)
            * tx.gas_price.as_nat() == sum_balances(pre)
    } else {
        !receipt.success && receipt.gas_used == tx.gas_limit && receipt.error_message is Some
            && post == pre
    }
}

pub struct ExecutionEngine {
    pub state: State,
    pub mempool: Mempool,
    pub gas_config: GasConfig,
}

impl ExecutionEngine {
    pub open spec fn wf(self) -> bool {
        self.state.wf() && self.mempool.wf() && self.gas_config.wf()
    }

    pub fn new(mempool_capacity: usize) -> (r: ExecutionEngine)
        ensures
            r.wf(),
            r.state.accounts@.len() == 0,
            r.mempool.transactions@.len() == 0,
            r.mempool.max_size == mempool_capacity,
    {
        ExecutionEngine {
            state: State::new(),
            mempool: Mempool::new(mempool_capacity),
            gas_config: GasConfig::default(),
        }
    }

    /// Whether the preflight admits `t` against the scratch state that
    /// mirrors the overlay, with the sender's running nonce and balance.
    #[verifier::rlimit(100)]
    fn preflight_admits(
        temp: &State,
        t: &Transaction,
        Ghost(base): Ghost<Seq<Account>>,
        Ghost(m): Ghost<Map<Address, (nat, nat)>>,
    ) -> (r: (bool, u64, U256))
        requires
            overlay_ok(base, m, temp.accounts@),
        ensures
            r.0 == sim_admits(base, m, *t),
            r.1 as nat == sim_nonce(base, m, t.from),
            r.2.as_nat() == sim_balance(base, m, t.from),
            r.2.as_nat() < pow256(),
    {
        proof {
            reveal(overlay_ok);
        }
        let cn = temp.get_nonce(&t.from);
        let cb = temp.get_balance(&t.from);
        proof {
            assert(cn as nat == sim_nonce(base, m, t.from));
            assert(cb.as_nat() == sim_balance(base, m, t.from));
            U256::lemma_as_nat_inj(cb, cb);
        }
        let floor = U256::from_u64(21_000);
        let cost = t.max_transaction_cost();
        let keep = t.nonce == cn && cn < 0xffff_ffff_ffff_ffff && floor.le(&t.gas_limit)
            && (match cost {
            Some(c) => c.le(&cb),
            None => false,
        });
        (keep, cn, cb)
    }

    /// The optimistic preflight: walks the batch in order against
    /// per-sender running nonces and balances kept in a scratch copy of the
    /// state, admitting exactly the transfers the preflight relation
    /// admits, and touching no real state.
    #[verifier::rlimit(100)]
    #[verifier::spinoff_prover]
    pub fn simulate_execute_block(&self, transactions: &Vec<Transaction>) -> (r: Vec<Transaction>)
        requires
            self.wf(),
        ensures
            r@ == simulate_spec(self.state.accounts@, transactions@),
    {
        let mut temp = self.state.snapshot();
        let mut valid: Vec<Transaction> = Vec::new();
        let ghost base = self.state.accounts@;
        let ghost mut m: Map<Address, (nat, nat)> = Map::empty();
        let n = transactions.len();
        let mut i: usize = 0;
        proof {
            lemma_overlay_init(base);
            assert(valid@ + simulate_rec(base, transactions@, 0, m) =~= simulate_rec(
                base,
                transactions@,
                0,
                m,
            ));
        }
        while i < n
            invariant
                temp.wf(),
                n == transactions@.len(),
                0 <= i <= n,
                overlay_ok(base, m, temp.accounts@),
                simulate_spec(base, transactions@) == valid@ + simulate_rec(
                    base,
                    transactions@,
                    i as int,
                    m,
                ),
            decreases n - i,
        {
            let t = transactions[i];
            let (keep, cn, cb) = Self::preflight_admits(&temp, &t, Ghost(base), Ghost(m));
            if keep {
                let c = match t.max_transaction_cost() {
                    Some(c) => c,
                    None => {
                        proof {
                            assert(false);
                        }
                        U256::zero()
                    }
                };
                let ghost valid_old = valid@;
                valid.push(t);
                let updated = Account { address: t.from, balance: cb.sub(&c), nonce: cn + 1 };
                let ghost pre_accounts = temp.accounts@;
                let ghost m_next = m.insert(
                    t.from,
                    (
                        sim_nonce(base, m, t.from) + 1,
                        (sim_balance(base, m, t.from) - t.max_cost_nat()) as nat,
                    ),
                );
                temp.set_account(t.from, updated);
                proof {
                    assert(updated.is_live());
                    lemma_overlay_update(
                        base,
                        m,
                        pre_accounts,
                        temp.accounts@,
                        updated,
                        sim_nonce(base, m, t.from) + 1,
                        (sim_balance(base, m, t.from) - t.max_cost_nat()) as nat,
                    );
                    lemma_sim_step(base, transactions@, i as int, m);
                    lemma_accumulate(
                        simulate_spec(base, transactions@),
                        valid_old,
                        valid@,
                        t,
                        simulate_rec(base, transactions@, i as int, m),
                        simulate_rec(base, transactions@, i as int + 1, m_next),
                    );
                    m = m_next;
                }
            } else {
                proof {
                    lemma_sim_skip(base, transactions@, i as int, m);
                }
            }
            i = i + 1;
        }
        proof {
            lemma_sim_done(base, transactions@, m);
            assert(valid@ =~= simulate_spec(base, transactions@));
        }
        valid
    }

    /// The authoritative commit: applies each transfer in block order, one
    /// atomic transition at a time. A rejected transfer burns its whole gas
    /// limit in a failed receipt and changes nothing; a rejected transfer
    /// never fails the batch. The receipts, the gas total and the reported
    /// root all follow the step relation; the total saturates at the largest
    /// representable value if the burned gas ever exceeds it.
    #[verifier::rlimit(100)]
    #[verifier::spinoff_prover]
    pub fn execute_block_commit(&mut self, transactions: &Vec<Transaction>) -> (res:
        ExecutionResult)
        requires
            old(self).wf(),
        ensures
            final(self).wf(),
            final(self).mempool == old(self).mempool,
            final(self).gas_config == old(self).gas_config,
            res.receipts@.len() == transactions@.len(),
            forall|j: int| 0 <= j < transactions@.len() ==> #[trigger] res.receipts@[
                j].transaction_hash == transactions@[j].hash,
            res.state_root == final(self).state.state_root,
            exists|tr: Seq<Seq<Account>>|
                tr.len() == transactions@.len() + 1 && tr[0] == old(self).state.accounts@
                    && tr[transactions@.len() as int] == final(self).state.accounts@ && (forall|
                    j: int,
                |
                    0 <= j < transactions@.len() ==> #[trigger] commit_step(
                        tr[j],
                        transactions@[j],
                        old(self).gas_config,
                        tr[j + 1],
                        res.receipts@[j],
                    )),
            if receipt_gas_sum(res.receipts@) < pow256() {
                res.total_gas_used.as_nat() == receipt_gas_sum(res.receipts@)
            } else {
                res.total_gas_used.as_nat() == pow256() - 1
            },
            sum_balances(final(self).state.accounts@) <= sum_balances(old(self).state.accounts@),
    {
        let mut receipts: Vec<Receipt> = Vec::new();
        let mut total_gas: U256 = U256::zero();
        let ghost mut tr: Seq<Seq<Account>> = seq![old(self).state.accounts@];
        let n = transactions.len();
        let mut i: usize = 0;
        while i < n
            invariant
                self.wf(),
                self.mempool == old(self).mempool,
                self.gas_config == old(self).gas_config,
                n == transactions@.len(),
                0 <= i <= n,
                receipts@.len() == i as nat,
                forall|j: int| 0 <= j < i ==> #[trigger] receipts@[j].transaction_hash
                    == transactions@[j].hash,
                tr.len() == i + 1,
                tr[0] == old(self).state.accounts@,
                tr[i as int] == self.state.accounts@,
                forall|j: int| 0 <= j < i ==> #[trigger] commit_step(
                    tr[j],
                    transactions@[j],
                    old(self).gas_config,
                    tr[j + 1],
                    receipts@[j],
                ),
                if receipt_gas_sum(receipts@) < pow256() {
                    total_gas.as_nat() == receipt_gas_sum(receipts@)
                } else {
                    total_gas.as_nat() == pow256() - 1
                },
                sum_balances(self.state.accounts@) <= sum_balances(old(self).state.accounts@),
            decreases n - i,
        {
            let t = transactions[i];
            let ghost pre = self.state.accounts@;
            let ghost old_receipts = receipts@;
            let gas_charged: U256;
            match StateTransition::apply_transaction(&mut self.state, &t, &self.gas_config) {
                Ok(gas_used) => {
                    receipts.push(Receipt::success(t.hash, gas_used));
                    gas_charged = gas_used;
                }
                Err(e) => {
                    receipts.push(Receipt::failed(t.hash, t.gas_limit, e));
                    gas_charged = t.gas_limit;
                }
            }
            total_gas = match total_gas.checked_add(&gas_charged) {
                Some(g) => g,
                None => U256 {
                    limb0: 0xffff_ffff_ffff_ffff,
                    limb1: 0xffff_ffff_ffff_ffff,
                    limb2: 0xffff_ffff_ffff_ffff,
                    limb3: 0xffff_ffff_ffff_ffff,
                },
            };
            proof {
                tr = tr.push(self.state.accounts@);
                assert(commit_step(
                    pre,
                    transactions@[i as int],
                    old(self).gas_config,
                    self.state.accounts@,
                    receipts@[i as int],
                ));
                assert(receipts@.drop_last() =~= old_receipts);
                assert(receipts@.last() == receipts@[i as int]);
                U256::lemma_as_nat_inj(total_gas, total_gas);
            }
            i = i + 1;
        }
        let root = self.state.get_state_root();
        proof {
            assert(tr[n as int] == self.state.accounts@);
        }
        ExecutionResult { receipts, total_gas_used: total_gas, state_root: root }
    }

    /// Hands an inbound transfer to the pool, with the pool's own admission
    /// outcome passed through unchanged.
    pub fn add_transaction(&mut self, transaction: &Transaction) -> (r: Result<
        U256,
        MempoolError,
    >)
        requires
            old(self).wf(),
        ensures
            final(self).wf(),
            final(self).state == old(self).state,
            final(self).gas_config == old(self).gas_config,
            final(self).mempool.max_size == old(self).mempool.max_size,
            r is Err ==> final(self).mempool.transactions@ == old(self).mempool.transactions@,
            (r matches Err(e) && e is InvalidSignature) <==> !transaction.signature_valid(),
            r matches Ok(h) ==> h == transaction.hash,
            r is Ok ==> final(self).mempool.transactions@.last() == *transaction,
            ((r is Ok) && !has_sender_nonce(old(self).mempool.transactions@, *transaction))
                ==> final(self).mempool.transactions@ == old(
                self,
            ).mempool.transactions@.push(*transaction),
            ((r is Ok) && has_sender_nonce(old(self).mempool.transactions@, *transaction))
                ==> exists|i: int|
                0 <= i < old(self).mempool.transactions@.len() && old(
                    self,
                ).mempool.transactions@[i].from.as_nat() == transaction.from.as_nat() && old(
                    self,
                ).mempool.transactions@[i].nonce == transaction.nonce && final(self).mempool.transactions@ == old(self).mempool.transactions@.remove(i).push(
                    *transaction,
                ),
            r is Ok ==> forall|i: int|
                #![trigger old(self).mempool.transactions@[i]]
                0 <= i < old(self).mempool.transactions@.len() && old(
                    self,
                ).mempool.transactions@[i].from.as_nat() == transaction.from.as_nat() && old(
                    self,
                ).mempool.transactions@[i].nonce == transaction.nonce
                    ==> transaction.gas_price.as_nat() > old(
                    self,
                ).mempool.transactions@[i].gas_price.as_nat(),
    {
        self.mempool.add_transaction(transaction)
    }

    /// A snapshot of the pending transfers.
    pub fn get_pending_transactions(&self) -> (r: Vec<Transaction>)
        ensures
            r@ == self.mempool.transactions@,
    {
        self.mempool.get_all_transactions()
    }
}

} // verus!
