use vstd::prelude::*;

use crate::transactions::{Amount, ClientId, Transaction, TransactionId};
use std::collections::HashMap;

verus! {

/// One exported row: a client's balances and whether the account is locked.
#[derive(Clone, Copy, Debug, PartialEq, Eq, Structural)]
pub struct CsvAccount {
    pub client: ClientId,
    pub available: Amount,
    pub held: Amount,
    pub total: Amount,
    pub locked: bool,
}

/// A client's balances.
#[derive(Clone, Copy, Debug, PartialEq, Eq, Structural)]
pub struct Account {
    pub available: Amount,
    pub held: Amount,
    pub locked: bool,
}

/// A deposit as it was applied, and whether a dispute on it is open.
#[derive(Clone, Copy, Debug, PartialEq, Eq, Structural)]
pub struct DepositLog {
    pub amount: Amount,
    pub disputed: bool,
}

/// The abstract state of the ledger: for each known client, the account and
/// the deposits applied to it, keyed by transaction id.
pub type LedgerModel = Map<ClientId, (Account, Map<TransactionId, DepositLog>)>;

/// Whether `x` fits an `Amount`.
pub open spec fn fits(x: int) -> bool {
    i64::MIN <= x <= i64::MAX
}

/// Balances that an account can hold: each of them and their sum fit an `Amount`.
pub open spec fn representable(available: int, held: int) -> bool {
    fits(available) && fits(held) && fits(available + held)
}

/// The account `a` with new balances and the same lock.
pub open spec fn with_balances(a: Account, available: int, held: int) -> Account {
    Account { available: available as i64, held: held as i64, locked: a.locked }
}

/// A deposit: refused for a negative amount or a locked account; otherwise
/// credited to the available funds (opening the account if the client is new)
/// and recorded as undisputed, replacing any record under the same id.
pub open spec fn deposit_step(m: LedgerModel, c: ClientId, tx: TransactionId, amount: Amount) -> LedgerModel {
    let log = DepositLog { amount, disputed: false };
    if amount < 0 {
        m
    } else if !m.contains_key(c) {
        m.insert(c, (Account { available: amount, held: 0, locked: false }, Map::empty().insert(tx, log)))
    } else {
        let a = m[c].0;
        if a.locked || !representable(a.available + amount, a.held as int) {
            m
        } else {
            m.insert(c, (with_balances(a, a.available + amount, a.held as int), m[c].1.insert(tx, log)))
        }
    }
}

/// A withdrawal: refused for an unknown client, a locked account, a negative
/// amount or insufficient available funds; otherwise debited.
pub open spec fn withdrawal_step(m: LedgerModel, c: ClientId, amount: Amount) -> LedgerModel {
    if !m.contains_key(c) {
        m
    } else {
        let a = m[c].0;
        if a.locked || amount < 0 || a.available - amount < 0 {
            m
        } else {
            m.insert(c, (with_balances(a, a.available - amount, a.held as int), m[c].1))
        }
    }
}

/// Whether the client is known, unlocked, and has a deposit recorded under `tx`
/// whose dispute flag is `disputed`.
pub open spec fn deposit_in_state(m: LedgerModel, c: ClientId, tx: TransactionId, disputed: bool) -> bool {
    &&& m.contains_key(c)
    &&& !m[c].0.locked
    &&& m[c].1.contains_key(tx)
    &&& m[c].1[tx].disputed == disputed
}

/// A dispute: moves the amount of an undisputed deposit from available to held
/// funds and marks the deposit disputed.
pub open spec fn dispute_step(m: LedgerModel, c: ClientId, tx: TransactionId) -> LedgerModel {
    if !deposit_in_state(m, c, tx, false) {
        m
    } else {
        let a = m[c].0;
        let d = m[c].1[tx];
        if !representable(a.available - d.amount, a.held + d.amount) {
            m
        } else {
            m.insert(
                c,
                (
                    with_balances(a, a.available - d.amount, a.held + d.amount),
                    m[c].1.insert(tx, DepositLog { amount: d.amount, disputed: true }),
                ),
            )
        }
    }
}

/// A resolve: moves the amount of a disputed deposit back from held to
/// available funds and clears the dispute.
pub open spec fn resolve_step(m: LedgerModel, c: ClientId, tx: TransactionId) -> LedgerModel {
    if !deposit_in_state(m, c, tx, true) {
        m
    } else {
        let a = m[c].0;
        let d = m[c].1[tx];
        if !representable(a.available + d.amount, a.held - d.amount) {
            m
        } else {
            m.insert(
                c,
                (
                    with_balances(a, a.available + d.amount, a.held - d.amount),
                    m[c].1.insert(tx, DepositLog { amount: d.amount, disputed: false }),
                ),
            )
        }
    }
}

/// A charge-back: removes the amount of a disputed deposit from the held
/// funds, clears the dispute and locks the account for good.
pub open spec fn charge_back_step(m: LedgerModel, c: ClientId, tx: TransactionId) -> LedgerModel {
    if !deposit_in_state(m, c, tx, true) {
        m
    } else {
        let a = m[c].0;
        let d = m[c].1[tx];
        if !representable(a.available as int, a.held - d.amount) {
            m
        } else {
            m.insert(
                c,
                (
                    Account { available: a.available, held: (a.held - d.amount) as i64, locked: true },
                    m[c].1.insert(tx, DepositLog { amount: d.amount, disputed: false }),
                ),
            )
        }
    }
}

/// The ledger after one transaction. Every refusal leaves the ledger as it was.
pub open spec fn step(m: LedgerModel, t: Transaction) -> LedgerModel {
    match t {
        Transaction::Deposit(i) => deposit_step(m, i.client, i.tx, i.amount),
        Transaction::Withdrawal(i) => withdrawal_step(m, i.client, i.amount),
        Transaction::Dispute(i) => dispute_step(m, i.client, i.tx),
        Transaction::Resolve(i) => resolve_step(m, i.client, i.tx),
        Transaction::ChargeBack(i) => charge_back_step(m, i.client, i.tx),
    }
}

/// The exported row of client `c` with account `a`.
pub open spec fn csv_row(c: ClientId, a: Account) -> CsvAccount {
    CsvAccount {
        client: c,
        available: a.available,
        held: a.held,
        total: (a.available + a.held) as i64,
        locked: a.locked,
    }
}

/// Every account of the model has representable balances.
pub open spec fn balances_representable(m: LedgerModel) -> bool {
    forall|c: ClientId| #[trigger] m.contains_key(c) ==> representable(m[c].0.available as int, m[c].0.held as int)
}

/// Whether balances held as `i128` are representable; each input lies well
/// inside the `i128` range, so the sum below cannot overflow.
fn is_representable(available: i128, held: i128) -> (r: bool)
    requires
        -0x10000000000000000 <= available <= 0x10000000000000000,
        -0x10000000000000000 <= held <= 0x10000000000000000,
    ensures
        r == representable(available as int, held as int),
{
    let lo = i64::MIN as i128;
    let hi = i64::MAX as i128;
    lo <= available && available <= hi && lo <= held && held <= hi && lo <= available + held
        && available + held <= hi
}

impl Default for Account {
    fn default() -> (r: Self)
        ensures
            r == (Account { available: 0, held: 0, locked: false }),
    {
        Account { available: 0, held: 0, locked: false }
    }
}

impl Account {
    /// Credits a non-negative `amount` to the available funds; refuses a
    /// negative one, or one after which the balances are not representable.
    fn deposit(&mut self, amount: Amount) -> (ok: bool)
        ensures
            ok == (amount >= 0 && representable(old(self).available + amount, old(self).held as int)),
            ok ==> *final(self) == with_balances(*old(self), old(self).available + amount, old(self).held as int),
            !ok ==> *final(self) == *old(self),
    {
        if amount >= 0 && is_representable(self.available as i128 + amount as i128, self.held as i128) {
            self.available = self.available + amount;
            true
        } else {
            false
        }
    }

    /// Debits a non-negative `amount` from the available funds; refuses a
    /// negative one, or one larger than the available funds.
    fn withdraw(&mut self, amount: Amount) -> (ok: bool)
        requires
            representable(old(self).available as int, old(self).held as int),
        ensures
            ok == (amount >= 0 && old(self).available - amount >= 0),
            ok ==> *final(self) == with_balances(*old(self), old(self).available - amount, old(self).held as int),
            !ok ==> *final(self) == *old(self),
            representable(final(self).available as int, final(self).held as int),
    {
        if amount >= 0 && self.available >= amount {
            self.available = self.available - amount;
            true
        } else {
            false
        }
    }

    /// Moves `amount` from the available to the held funds, unless the
    /// balances after it are not representable.
    fn dispute(&mut self, amount: Amount) -> (ok: bool)
        ensures
            ok == representable(old(self).available - amount, old(self).held + amount),
            ok ==> *final(self) == with_balances(*old(self), old(self).available - amount, old(self).held + amount),
            !ok ==> *final(self) == *old(self),
    {
        let available = self.available as i128 - amount as i128;
        let held = self.held as i128 + amount as i128;
        if is_representable(available, held) {
            self.available = available as i64;
            self.held = held as i64;
            true
        } else {
            false
        }
    }

    /// Moves `amount` from the held back to the available funds, unless the
    /// balances after it are not representable.
    fn resolve(&mut self, amount: Amount) -> (ok: bool)
        ensures
            ok == representable(old(self).available + amount, old(self).held - amount),
            ok ==> *final(self) == with_balances(*old(self), old(self).available + amount, old(self).held - amount),
            !ok ==> *final(self) == *old(self),
    {
        let available = self.available as i128 + amount as i128;
        let held = self.held as i128 - amount as i128;
        if is_representable(available, held) {
            self.available = available as i64;
            self.held = held as i64;
            true
        } else {
            false
        }
    }

    /// Removes `amount` from the held funds and locks the account, unless the
    /// balances after it are not representable.
    fn charge_back(&mut self, amount: Amount) -> (ok: bool)
        ensures
            ok == representable(old(self).available as int, old(self).held - amount),
            ok ==> *final(self) == (Account {
                available: old(self).available,
                held: (old(self).held - amount) as i64,
                locked: true,
            }),
            !ok ==> *final(self) == *old(self),
    {
        let held = self.held as i128 - amount as i128;
        if is_representable(self.available as i128, held) {
            self.held = held as i64;
            self.locked = true;
            true
        } else {
            false
        }
    }
}

/// Stores the current state of the clients, their accounts and their deposits.
pub struct ClientInfoStorage {
    client_info: HashMap<ClientId, (Account, HashMap<TransactionId, DepositLog>)>,
    clients: Vec<ClientId>,
}

impl View for ClientInfoStorage {
    type V = LedgerModel;

    closed spec fn view(&self) -> LedgerModel {
        Map::new(
            |c: ClientId| self.client_info@.contains_key(c),
            |c: ClientId| (self.client_info@[c].0, self.client_info@[c].1@),
        )
    }
}

impl Default for ClientInfoStorage {
    fn default() -> (r: Self)
        ensures
            r.wf(),
            r@ == LedgerModel::empty(),
    {
        Self::new()
    }
}

impl ClientInfoStorage {
    /// The known clients, each once, in the order they were first seen.
    pub closed spec fn client_order(&self) -> Seq<ClientId> {
        self.clients@
    }

    /// Balances are representable, and the client order lists each known
    /// client exactly once.
    pub open spec fn wf(&self) -> bool {
        &&& balances_representable(self@)
        &&& self.client_order().no_duplicates()
        &&& forall|i: int| 0 <= i < self.client_order().len() ==> self@.contains_key(#[trigger] self.client_order()[i])
        &&& forall|c: ClientId| #[trigger] self@.contains_key(c) ==> self.client_order().contains(c)
    }

    /// Creates an empty storage.
    pub fn new() -> (r: Self)
        ensures
            r.wf(),
            r@ == LedgerModel::empty(),
    {
        let r = ClientInfoStorage { client_info: HashMap::new(), clients: Vec::new() };
        assert(r@ =~= LedgerModel::empty());
        r
    }
    /// Looks up the deposit `tx` among `logs`.
    fn find_deposit(logs: &HashMap<TransactionId, DepositLog>, tx: TransactionId) -> (r: Option<DepositLog>)
        ensures
            r == (if logs@.contains_key(tx) { Some(logs@[tx]) } else { None::<DepositLog> }),
    {
        match logs.get(&tx) {
            Some(d) => Some(*d),
            None => None,
        }
    }

    /// Takes the entry of client `c` out of the storage, for it to be put back.
    fn take_entry(&mut self, c: ClientId) -> (r: Option<(Account, HashMap<TransactionId, DepositLog>)>)
        ensures
            final(self).client_info@ == old(self).client_info@.remove(c),
            final(self).clients == old(self).clients,
            match r {
                Some(e) => old(self)@.contains_key(c) && (e.0, e.1@) == old(self)@[c],
                None => !old(self)@.contains_key(c) && final(self)@ == old(self)@,
            },
    {
        let r = self.client_info.remove(&c);
        proof {
            if r is None {
                assert(self@ =~= old(self)@);
            }
        }
        r
    }

    /// Puts the entry of client `c` back, after `take_entry`.
    fn put_entry(&mut self, c: ClientId, a: Account, logs: HashMap<TransactionId, DepositLog>, Ghost(before): Ghost<Self>)
        requires
            before.wf(),
            before@.contains_key(c),
            old(self).client_info@ == before.client_info@.remove(c),
            old(self).clients == before.clients,
            representable(a.available as int, a.held as int),
        ensures
            final(self).wf(),
            final(self)@ == before@.insert(c, (a, logs@)),
    {
        self.client_info.insert(c, (a, logs));
        assert(self@ =~= before@.insert(c, (a, logs@)));
    }

    fn apply_deposit(&mut self, c: ClientId, tx: TransactionId, amount: Amount)
        requires
            old(self).wf(),
        ensures
            final(self).wf(),
            final(self)@ == deposit_step(old(self)@, c, tx, amount),
    {
        if amount < 0 {
            return;
        }
        let ghost before = *self;
        match self.take_entry(c) {
            None => {
                let mut logs: HashMap<TransactionId, DepositLog> = HashMap::new();
                logs.insert(tx, DepositLog { amount, disputed: false });
                self.client_info.insert(c, (Account { available: amount, held: 0, locked: false }, logs));
                self.clients.push(c);
                proof {
                    assert(self@ =~= deposit_step(before@, c, tx, amount));
                    assert(self.client_order() == before.client_order().push(c));
                    assert forall|i: int| 0 <= i < self.client_order().len() implies self@.contains_key(
                        #[trigger] self.client_order()[i],
                    ) by {
                        if i < before.client_order().len() {
                            assert(before@.contains_key(before.client_order()[i]));
                        }
                    }
                    assert forall|d: ClientId| #[trigger] self@.contains_key(d) implies self.client_order().contains(d) by {
                        if d != c {
                            assert(before@.contains_key(d));
                            let i = choose|i: int| 0 <= i < before.client_order().len() && before.client_order()[i] == d;
                            assert(self.client_order()[i] == d);
                        } else {
                            assert(self.client_order()[before.client_order().len() as int] == c);
                        }
                    }
                }
            }
            Some((a, logs)) => {
                let mut a = a;
                let mut logs = logs;
                if !a.locked && a.deposit(amount) {
                    logs.insert(tx, DepositLog { amount, disputed: false });
                }
                self.put_entry(c, a, logs, Ghost(before));
                proof {
                    assert(self@ =~= deposit_step(before@, c, tx, amount));
                }
            }
        }
    }

    fn apply_withdrawal(&mut self, c: ClientId, amount: Amount)
        requires
            old(self).wf(),
        ensures
            final(self).wf(),
            final(self)@ == withdrawal_step(old(self)@, c, amount),
    {
        let ghost before = *self;
        match self.take_entry(c) {
            None => {},
            Some((a, logs)) => {
                let mut a = a;
                if !a.locked {
                    a.withdraw(amount);
                }
                self.put_entry(c, a, logs, Ghost(before));
                proof {
                    assert(self@ =~= withdrawal_step(before@, c, amount));
                }
            }
        }
    }

    fn apply_dispute(&mut self, c: ClientId, tx: TransactionId)
        requires
            old(self).wf(),
        ensures
            final(self).wf(),
            final(self)@ == dispute_step(old(self)@, c, tx),
    {
        let ghost before = *self;
        match self.take_entry(c) {
            None => {},
            Some((a, logs)) => {
                let mut a = a;
                let mut logs = logs;
                if !a.locked {
                    match Self::find_deposit(&logs, tx) {
                        Some(d) => {
                            if !d.disputed && a.dispute(d.amount) {
                                logs.insert(tx, DepositLog { amount: d.amount, disputed: true });
                            }
                        },
                        None => {},
                    }
                }
                self.put_entry(c, a, logs, Ghost(before));
                proof {
                    assert(self@ =~= dispute_step(before@, c, tx));
                }
            }
        }
    }

    fn apply_resolve(&mut self, c: ClientId, tx: TransactionId)
        requires
            old(self).wf(),
        ensures
            final(self).wf(),
            final(self)@ == resolve_step(old(self)@, c, tx),
    {
        let ghost before = *self;
        match self.take_entry(c) {
            None => {},
            Some((a, logs)) => {
                let mut a = a;
                let mut logs = logs;
                if !a.locked {
                    match Self::find_deposit(&logs, tx) {
                        Some(d) => {
                            if d.disputed && a.resolve(d.amount) {
                                logs.insert(tx, DepositLog { amount: d.amount, disputed: false });
                            }
                        },
                        None => {},
                    }
                }
                self.put_entry(c, a, logs, Ghost(before));
                proof {
                    assert(self@ =~= resolve_step(before@, c, tx));
                }
            }
        }
    }

    fn apply_charge_back(&mut self, c: ClientId, tx: TransactionId)
        requires
            old(self).wf(),
        ensures
            final(self).wf(),
            final(self)@ == charge_back_step(old(self)@, c, tx),
    {
        let ghost before = *self;
        match self.take_entry(c) {
            None => {},
            Some((a, logs)) => {
                let mut a = a;
                let mut logs = logs;
                if !a.locked {
                    match Self::find_deposit(&logs, tx) {
                        Some(d) => {
                            if d.disputed && a.charge_back(d.amount) {
                                logs.insert(tx, DepositLog { amount: d.amount, disputed: false });
                            }
                        },
                        None => {},
                    }
                }
                self.put_entry(c, a, logs, Ghost(before));
                proof {
                    assert(self@ =~= charge_back_step(before@, c, tx));
                }
            }
        }
    }

    /// Applies one transaction. A transaction that breaks a rule of its type,
    /// that targets a locked account, or after which a balance or the total
    /// would not fit an `Amount`, changes nothing.
    pub fn update(&mut self, transaction: Transaction)
        requires
            old(self).wf(),
        ensures
            final(self).wf(),
            final(self)@ == step(old(self)@, transaction),
    {
        match transaction {
            Transaction::Deposit(info) => self.apply_deposit(info.client, info.tx, info.amount),
            Transaction::Withdrawal(info) => self.apply_withdrawal(info.client, info.amount),
            Transaction::Dispute(info) => self.apply_dispute(info.client, info.tx),
            Transaction::Resolve(info) => self.apply_resolve(info.client, info.tx),
            Transaction::ChargeBack(info) => self.apply_charge_back(info.client, info.tx),
        }
    }
    /// One row per known client, in no promised order: its balances, their
    /// total and its lock. Amounts are exact ten-thousandths, so the balances
    /// come out as stored.
    pub fn get_csv_format_accounts(&self) -> (r: Vec<CsvAccount>)
        requires
            self.wf(),
        ensures
            forall|i: int| 0 <= i < r@.len() ==> self@.contains_key(#[trigger] r@[i].client),
            forall|i: int| 0 <= i < r@.len() ==> #[trigger] r@[i] == csv_row(r@[i].client, self@[r@[i].client].0),
            forall|i: int, j: int| 0 <= i < j < r@.len() ==> #[trigger] r@[i].client != #[trigger] r@[j].client,
            forall|c: ClientId| #[trigger] self@.contains_key(c) ==> exists|i: int| 0 <= i < r@.len() && #[trigger] r@[i].client == c,
    {
        let mut records: Vec<CsvAccount> = Vec::new();
        let n = self.clients.len();
        let mut k: usize = 0;
        while k < n
            invariant
                self.wf(),
                n == self.clients@.len(),
                k <= n,
                records@.len() == k,
                forall|i: int| 0 <= i < k ==> #[trigger] records@[i].client == self.clients@[i],
                forall|i: int| 0 <= i < k ==> #[trigger] records@[i] == csv_row(self.clients@[i], self@[self.clients@[i]].0),
            decreases n - k,
        {
            let c = self.clients[k];
            assert(self@.contains_key(self.client_order()[k as int]));
            match self.client_info.get(&c) {
                Some(entry) => {
                    let a = entry.0;
                    records.push(CsvAccount {
                        client: c,
                        available: a.available,
                        held: a.held,
                        total: a.available + a.held,
                        locked: a.locked,
                    });
                },
                None => {
                    assert(false);
                },
            }
            k = k + 1;
        }
        proof {
            assert forall|c: ClientId| #[trigger] self@.contains_key(c) implies exists|i: int| 0 <= i < records@.len() && #[trigger] records@[i].client == c by {
                assert(self.client_order().contains(c));
                let i = choose|i: int| 0 <= i < self.clients@.len() && self.clients@[i] == c;
                assert(records@[i].client == c);
            }
            assert forall|i: int, j: int| 0 <= i < j < records@.len() implies #[trigger] records@[i].client != #[trigger] records@[j].client by {
                assert(self.client_order()[i] != self.client_order()[j]);
            }
        }
        records
    }
}

} // verus!
