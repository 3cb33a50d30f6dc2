use vstd::prelude::*;
use crate::error::TransactionError;
use crate::signing::{key_decompresses, spec_key_decompresses};
use crate::table::{Table, TableKey};
use crate::transaction::{Transaction, WalEntry};
use crate::validator::VerificationTask;

verus! {

/// How far ahead of an account's next expected sequence number a transfer may be.
pub const MAX_FUTURE_GAP: u64 = 50;

/// How many early transfers one sender may have waiting at a time.
pub const MAX_PENDING_PER_SENDER: usize = 20;

/// The accounts as the ledger knows them: each name's public key, and per
/// public key (by its bytes) the account's name, balance and last applied
/// sequence number.
#[verifier::ext_equal]
pub struct AccountsView {
    pub name_to_key: Map<Seq<char>, [u8; 32]>,
    pub names: Map<Seq<u8>, String>,
    pub balances: Map<Seq<u8>, u64>,
    pub sequences: Map<Seq<u8>, u64>,
}

/// A write the ledger has asked for and whose outcome it awaits.
#[derive(Debug)]
pub enum InFlight {
    /// A transfer; `drained` tells whether it came out of the waiting queue
    /// rather than being the transfer just submitted.
    Transfer { tx: Transaction, drained: bool },
    Profile { name: String, key: [u8; 32], balance: u64, last_sequence: u64 },
}

/// The ledger's whole state.
#[verifier::ext_equal]
pub struct LedgerView {
    pub accounts: AccountsView,
    pub pending: Seq<VerificationTask>,
    pub in_flight: Option<InFlight>,
}

/// What a client is told about a transfer it submitted.
#[derive(Debug, Clone, Copy, PartialEq, Eq, Structural)]
pub enum LedgerConfirm {
    Committed,
    Queued,
}

/// A message for a client.
#[derive(Debug)]
pub enum Notice {
    /// For the client of the transfer just submitted.
    Submitted(Result<LedgerConfirm, TransactionError>),
    /// For the client of a transfer that had been queued: it is committed.
    Committed { sender: [u8; 32], sequence: u64 },
}

/// What the caller must do next.
#[derive(Debug)]
pub enum LedgerAction {
    /// Append this entry to the write-ahead log, then report the outcome
    /// with `Ledger::complete_write`.
    Write(WalEntry),
    /// The request is finished, with this result.
    Done(Result<(), TransactionError>),
}

/// One step of the ledger: an optional message for a client and the next action.
#[derive(Debug)]
pub struct Step {
    pub notice: Option<Notice>,
    pub action: LedgerAction,
}

/// How an append to the write-ahead log went.
#[derive(Debug, Clone, Copy, PartialEq, Eq, Structural)]
pub enum WalOutcome {
    Written,
    /// The entry could not be encoded.
    EncodeFailed,
    /// The log refused the entry.
    WriteFailed,
}

// ---------------------------------------------------------------------------
// The rules, as functions on the model.

/// The last sequence number applied for the key, 0 when none is recorded.
pub open spec fn cur_seq(a: AccountsView, k: Seq<u8>) -> u64 {
    if a.sequences.contains_key(k) {
        a.sequences[k]
    } else {
        0
    }
}

pub open spec fn sat_sub(x: u64, y: u64) -> u64 {
    if x >= y {
        (x - y) as u64
    } else {
        0
    }
}

pub open spec fn sat_add(x: u64, y: u64) -> u64 {
    if x + y <= u64::MAX {
        (x + y) as u64
    } else {
        u64::MAX
    }
}

/// Every registered name's key has a balance and a sequence number.
pub open spec fn registered_accounts_complete(a: AccountsView) -> bool {
    forall|n: Seq<char>|
        #[trigger] a.name_to_key.contains_key(n) ==> a.balances.contains_key(a.name_to_key[n]@)
            && a.sequences.contains_key(a.name_to_key[n]@)
}

/// The effect of a committed transfer on the accounts. A transfer whose
/// sequence number is not above the sender's last one changes nothing; else
/// the sender pays (saturating at 0), the receiver is paid (saturating at the
/// largest balance) and the sender's sequence number becomes the transfer's.
pub open spec fn spec_apply(a: AccountsView, tx: Transaction) -> AccountsView {
    let s = tx.sender@;
    let r = tx.receiver@;
    if tx.sequence <= cur_seq(a, s) {
        a
    } else {
        let b1 = if a.balances.contains_key(s) {
            a.balances.insert(s, sat_sub(a.balances[s], tx.amount))
        } else {
            a.balances
        };
        let b2 = if b1.contains_key(r) {
            b1.insert(r, sat_add(b1[r], tx.amount))
        } else {
            b1
        };
        AccountsView { balances: b2, sequences: a.sequences.insert(s, tx.sequence), ..a }
    }
}

/// The effect of creating (or overwriting) an account.
pub open spec fn spec_create(
    a: AccountsView,
    name: String,
    key: [u8; 32],
    balance: u64,
    last_sequence: u64,
) -> AccountsView {
    AccountsView {
        name_to_key: a.name_to_key.insert(name@, key),
        names: a.names.insert(key@, name),
        balances: a.balances.insert(key@, balance),
        sequences: a.sequences.insert(key@, last_sequence),
    }
}

/// The effect of one log entry when the log is replayed.
pub open spec fn spec_replay(a: AccountsView, e: WalEntry) -> AccountsView {
    match e {
        WalEntry::CreateProfile { name, key, balance, last_sequence } => spec_create(
            a,
            name,
            key,
            balance,
            last_sequence,
        ),
        WalEntry::Transfer(tx) => spec_apply(a, tx),
    }
}

/// The effect of replaying a whole log, in order.
pub open spec fn spec_replay_all(a: AccountsView, es: Seq<WalEntry>) -> AccountsView
    decreases es.len(),
{
    if es.len() == 0 {
        a
    } else {
        spec_replay(spec_replay_all(a, es.drop_last()), es.last())
    }
}

/// The checks a transfer must pass before it is logged, and the transaction
/// that is logged for it: the sender must have an account holding at least
/// the amount, and the receiver's name must belong to an account whose key
/// decodes.
pub open spec fn spec_prepare(a: AccountsView, task: VerificationTask) -> Result<
    Transaction,
    TransactionError,
> {
    let s = task.sender_pubkey@;
    if !a.balances.contains_key(s) {
        Err(TransactionError::AccountNotFound)
    } else if task.amount > a.balances[s] {
        Err(TransactionError::NotEnoughBalance)
    } else if !a.name_to_key.contains_key(task.receiver_name@) {
        Err(TransactionError::AccountNotFound)
    } else if !spec_key_decompresses(a.name_to_key[task.receiver_name@]@) {
        Err(TransactionError::InvalidSignature)
    } else {
        Ok(
            Transaction {
                sender: task.sender_pubkey,
                receiver: a.name_to_key[task.receiver_name@],
                amount: task.amount,
                timestamp: task.timestamp,
                signature: task.signature,
                sequence: task.sequence,
            },
        )
    }
}

pub open spec fn sender_is(k: Seq<u8>) -> spec_fn(VerificationTask) -> bool {
    |t: VerificationTask| t.sender_pubkey@ == k
}

/// The transfers waiting for the sender with key `k`.
pub open spec fn queue_of(p: Seq<VerificationTask>, k: Seq<u8>) -> Seq<VerificationTask> {
    p.filter(sender_is(k))
}

/// A transfer from `k` with sequence number `s` is waiting.
pub open spec fn has_pending(p: Seq<VerificationTask>, k: Seq<u8>, s: u64) -> bool {
    exists|i: int| 0 <= i < p.len() && p[i].sender_pubkey@ == k && p[i].sequence == s
}

/// Where the waiting transfer from `k` with sequence number `s` is.
pub open spec fn pending_index(p: Seq<VerificationTask>, k: Seq<u8>, s: u64) -> int {
    choose|i: int| 0 <= i < p.len() && p[i].sender_pubkey@ == k && p[i].sequence == s
}

/// No sender has two waiting transfers with one sequence number, nor more
/// than `MAX_PENDING_PER_SENDER` waiting transfers.
pub open spec fn pending_wf(p: Seq<VerificationTask>) -> bool {
    &&& forall|i: int, j: int|
        0 <= i < p.len() && 0 <= j < p.len() && i != j && #[trigger] p[i].sender_pubkey@
            == #[trigger] p[j].sender_pubkey@ ==> p[i].sequence != p[j].sequence
    &&& forall|k: Seq<u8>| #[trigger] queue_of(p, k).len() <= MAX_PENDING_PER_SENDER
}

pub open spec fn reply(r: Result<LedgerConfirm, TransactionError>) -> Step {
    Step { notice: Some(Notice::Submitted(r)), action: LedgerAction::Done(Ok(())) }
}

pub open spec fn finish(r: Result<(), TransactionError>) -> Step {
    Step { notice: None, action: LedgerAction::Done(r) }
}

/// Submitting a verified transfer: too old, too far ahead, a duplicate of a
/// waiting one or beyond a full queue, it is refused; ahead of its turn, it
/// waits; in its turn, it is checked and, if it passes, logged.
pub open spec fn spec_add(l: LedgerView, task: VerificationTask) -> (LedgerView, Step) {
    let k = task.sender_pubkey@;
    let cur = cur_seq(l.accounts, k);
    if task.sequence <= cur {
        (l, reply(Err(TransactionError::OldSequence)))
    } else if task.sequence > cur + MAX_FUTURE_GAP {
        (l, reply(Err(TransactionError::SequenceTooFar)))
    } else if task.sequence > cur + 1 {
        if has_pending(l.pending, k, task.sequence) {
            (l, reply(Err(TransactionError::DuplicateSequence)))
        } else if queue_of(l.pending, k).len() >= MAX_PENDING_PER_SENDER {
            (l, reply(Err(TransactionError::QueueFull)))
        } else {
            (LedgerView { pending: l.pending.push(task), ..l }, reply(Ok(LedgerConfirm::Queued)))
        }
    } else {
        match spec_prepare(l.accounts, task) {
            Err(e) => (l, finish(Err(e))),
            Ok(tx) => (
                LedgerView { in_flight: Some(InFlight::Transfer { tx, drained: false }), ..l },
                Step { notice: None, action: LedgerAction::Write(WalEntry::Transfer(tx)) },
            ),
        }
    }
}

/// Asking to create an account: a name already in use is refused; else the
/// new account is logged.
pub open spec fn spec_profile(
    l: LedgerView,
    name: String,
    balance: u64,
    key: [u8; 32],
    last_sequence: u64,
) -> (LedgerView, Step) {
    if l.accounts.name_to_key.contains_key(name@) {
        (l, finish(Err(TransactionError::AccountAlreadyExists)))
    } else {
        (
            LedgerView {
                in_flight: Some(InFlight::Profile { name, key, balance, last_sequence }),
                ..l
            },
            Step {
                notice: None,
                action: LedgerAction::Write(
                    WalEntry::CreateProfile { name, key, balance, last_sequence },
                ),
            },
        )
    }
}

/// The error a failed write turns into.
pub open spec fn write_error(o: WalOutcome) -> TransactionError {
    if o == WalOutcome::EncodeFailed {
        TransactionError::IoError
    } else {
        TransactionError::WalError
    }
}

/// The outcome of the awaited write. A logged account is created. A logged
/// transfer is applied, its client is told, and the sender's next waiting
/// transfer, if any, leaves the queue: if it passes the checks it is logged
/// next, else it is dropped and the request ends. A failed write changes
/// nothing; it fails the request unless the transfer came from the queue.
pub open spec fn spec_complete(l: LedgerView, o: WalOutcome) -> (LedgerView, Step) {
    let idle = LedgerView { in_flight: None, ..l };
    match l.in_flight {
        None => (l, finish(Ok(()))),
        Some(InFlight::Profile { name, key, balance, last_sequence }) => {
            if o == WalOutcome::Written {
                (
                    LedgerView {
                        accounts: spec_create(l.accounts, name, key, balance, last_sequence),
                        ..idle
                    },
                    finish(Ok(())),
                )
            } else {
                (idle, finish(Err(write_error(o))))
            }
        },
        Some(InFlight::Transfer { tx, drained }) => {
            if o == WalOutcome::Written {
                let a = spec_apply(l.accounts, tx);
                let notice = if drained {
                    Notice::Committed { sender: tx.sender, sequence: tx.sequence }
                } else {
                    Notice::Submitted(Ok(LedgerConfirm::Committed))
                };
                let k = tx.sender@;
                let next = (cur_seq(a, k) + 1) as u64;
                if has_pending(l.pending, k, next) {
                    let i = pending_index(l.pending, k, next);
                    let p = l.pending.remove(i);
                    match spec_prepare(a, l.pending[i]) {
                        Ok(tx2) => (
                            LedgerView {
                                accounts: a,
                                pending: p,
                                in_flight: Some(InFlight::Transfer { tx: tx2, drained: true }),
                            },
                            Step {
                                notice: Some(notice),
                                action: LedgerAction::Write(WalEntry::Transfer(tx2)),
                            },
                        ),
                        Err(_) => (
                            LedgerView { accounts: a, pending: p, in_flight: None },
                            Step { notice: Some(notice), action: LedgerAction::Done(Ok(())) },
                        ),
                    }
                } else {
                    (
                        LedgerView { accounts: a, ..idle },
                        Step { notice: Some(notice), action: LedgerAction::Done(Ok(())) },
                    )
                }
            } else {
                (idle, finish(if drained { Ok(()) } else { Err(write_error(o)) }))
            }
        },
    }
}

/// The transfers recorded in a log, in order.
pub open spec fn transfers_of(es: Seq<WalEntry>) -> Seq<Transaction>
    decreases es.len(),
{
    if es.len() == 0 {
        Seq::empty()
    } else {
        let rest = transfers_of(es.drop_last());
        match es.last() {
            WalEntry::Transfer(tx) => rest.push(tx),
            WalEntry::CreateProfile { .. } => rest,
        }
    }
}

/// The transfers recorded in a log whose sender has key `k`, in order.
pub open spec fn transfers_from(es: Seq<WalEntry>, k: Seq<u8>) -> Seq<Transaction>
    decreases es.len(),
{
    if es.len() == 0 {
        Seq::empty()
    } else {
        let rest = transfers_from(es.drop_last(), k);
        match es.last() {
            WalEntry::Transfer(tx) => if tx.sender@ == k {
                rest.push(tx)
            } else {
                rest
            },
            WalEntry::CreateProfile { .. } => rest,
        }
    }
}



proof fn lemma_filter_push(
    s: Seq<VerificationTask>,
    t: VerificationTask,
    f: spec_fn(VerificationTask) -> bool,
)
    ensures
        s.push(t).filter(f) == (if f(t) {
            s.filter(f).push(t)
        } else {
            s.filter(f)
        }),
{
    reveal(Seq::filter);
    assert(s.push(t).drop_last() =~= s);
}

proof fn lemma_filter_remove_len(
    s: Seq<VerificationTask>,
    i: int,
    f: spec_fn(VerificationTask) -> bool,
)
    requires
        0 <= i < s.len(),
    ensures
        s.remove(i).filter(f).len() <= s.filter(f).len(),
{
    let a = s.take(i);
    let b = s.skip(i + 1);
    let mid = seq![s[i]];
    assert(s =~= a + mid + b);
    assert(s.remove(i) =~= a + b);
    Seq::filter_distributes_over_add(a, b, f);
    Seq::filter_distributes_over_add(a + mid, b, f);
    Seq::filter_distributes_over_add(a, mid, f);
}


/// A prefix of the waiting transfers holds no more of one sender's than the whole.
proof fn lemma_queue_prefix_bound(p: Seq<VerificationTask>, n: int, k: Seq<u8>)
    requires
        0 <= n <= p.len(),
    ensures
        p.take(n).filter(sender_is(k)).len() <= queue_of(p, k).len(),
{
    assert(p =~= p.take(n) + p.skip(n));
    Seq::filter_distributes_over_add(p.take(n), p.skip(n), sender_is(k));
}

/// Removing a waiting transfer keeps the queue consistent.
proof fn lemma_pending_wf_remove(p: Seq<VerificationTask>, i: int)
    requires
        pending_wf(p),
        0 <= i < p.len(),
    ensures
        pending_wf(p.remove(i)),
{
    let q = p.remove(i);
    assert forall|a: int, b: int|
        0 <= a < q.len() && 0 <= b < q.len() && a != b && #[trigger] q[a].sender_pubkey@
            == #[trigger] q[b].sender_pubkey@ implies q[a].sequence != q[b].sequence by {
        let a0 = if a < i { a } else { a + 1 };
        let b0 = if b < i { b } else { b + 1 };
        assert(q[a] == p[a0]);
        assert(q[b] == p[b0]);
        assert(p[a0].sender_pubkey@ == p[b0].sender_pubkey@);
    }
    assert forall|k: Seq<u8>| #[trigger] queue_of(q, k).len() <= MAX_PENDING_PER_SENDER by {
        lemma_filter_remove_len(p, i, sender_is(k));
        assert(queue_of(p, k).len() <= MAX_PENDING_PER_SENDER);
    }
}

// ---------------------------------------------------------------------------
// The ledger.

struct Accounts {
    name_to_key: Table<String, [u8; 32]>,
    names: Table<[u8; 32], String>,
    balances: Table<[u8; 32], u64>,
    sequences: Table<[u8; 32], u64>,
}

impl Accounts {
    closed spec fn wf(&self) -> bool {
        &&& self.name_to_key.wf()
        &&& self.names.wf()
        &&& self.balances.wf()
        &&& self.sequences.wf()
    }

    closed spec fn view(&self) -> AccountsView {
        AccountsView {
            name_to_key: self.name_to_key.map(),
            names: self.names.map(),
            balances: self.balances.map(),
            sequences: self.sequences.map(),
        }
    }
}

/// The ledger: accounts, transfers waiting for their turn, and the write it
/// awaits, if any. The waiting transfers are one list for all senders (each
/// sender's queue is its part of the list, see `queue_of`), since a map of
/// ordered maps keyed by public keys has no vstd specification to rely on
/// (see `Table`).
pub struct Ledger {
    accounts: Accounts,
    pending: Vec<VerificationTask>,
    in_flight: Option<InFlight>,
}

impl View for Ledger {
    type V = LedgerView;

    closed spec fn view(&self) -> LedgerView {
        LedgerView { accounts: self.accounts.view(), pending: self.pending@, in_flight: self.in_flight }
    }
}

impl Ledger {
    /// The ledger's internal consistency: each table maps a key at most once,
    /// the waiting transfers obey `pending_wf`, and an awaited transfer is the
    /// next in its sender's turn.
    pub closed spec fn wf(&self) -> bool {
        &&& self.accounts.wf()
        &&& registered_accounts_complete(self.accounts.view())
        &&& pending_wf(self.pending@)
        &&& (self.in_flight matches Some(InFlight::Transfer { tx, .. }) ==> tx.sequence == cur_seq(
            self.accounts.view(),
            tx.sender@,
        ) + 1)
    }

    /// What `wf` says of the model.
    pub proof fn lemma_wf(&self)
        requires
            self.wf(),
        ensures
            pending_wf(self@.pending),
            self@.in_flight matches Some(InFlight::Transfer { tx, .. }) ==> tx.sequence == cur_seq(
                self@.accounts,
                tx.sender@,
            ) + 1,
            self@.accounts.balances.dom().finite(),
            self@.accounts.sequences.dom().finite(),
            registered_accounts_complete(self@.accounts),
    {
        self.accounts.balances.lemma_map_finite();
        self.accounts.sequences.lemma_map_finite();
    }

    /// An empty ledger.
    pub fn new() -> (l: Ledger)
        ensures
            l.wf(),
            l@.accounts == (AccountsView {
                name_to_key: Map::empty(),
                names: Map::empty(),
                balances: Map::empty(),
                sequences: Map::empty(),
            }),
            l@.pending == Seq::<VerificationTask>::empty(),
            l@.in_flight is None,
    {
        let l = Ledger {
            accounts: Accounts {
                name_to_key: Table::new(),
                names: Table::new(),
                balances: Table::new(),
                sequences: Table::new(),
            },
            pending: Vec::new(),
            in_flight: None,
        };
        proof {
            assert forall|k: Seq<u8>| #[trigger] queue_of(l.pending@, k).len() <= MAX_PENDING_PER_SENDER by {
                reveal(Seq::filter);
            }
        }
        l
    }

    /// The last sequence number applied for the key, 0 when none is recorded.
    pub fn current_sequence(&self, key: &[u8; 32]) -> (s: u64)
        requires
            self.wf(),
        ensures
            s == cur_seq(self@.accounts, key@),
    {
        match self.accounts.sequences.get(key) {
            Some(s) => *s,
            None => 0,
        }
    }

    /// Whether a transfer from `key` with sequence number `seq` is waiting.
    pub fn has_pending_transfer(&self, key: &[u8; 32], seq: u64) -> (r: bool)
        requires
            self.wf(),
        ensures
            r == has_pending(self@.pending, key@, seq),
    {
        self.find_pending(key, seq).is_some()
    }

    /// The public key registered under this name, if any.
    pub fn key_of(&self, name: &str) -> (r: Option<[u8; 32]>)
        requires
            self.wf(),
        ensures
            match r {
                Some(k) => self@.accounts.name_to_key.contains_key(name@)
                    && k == self@.accounts.name_to_key[name@],
                None => !self@.accounts.name_to_key.contains_key(name@),
            },
    {
        match self.accounts.name_to_key.get(&name.to_owned()) {
            Some(k) => Some(*k),
            None => None,
        }
    }

    /// The write this ledger awaits, if any.
    pub fn in_flight(&self) -> (r: &Option<InFlight>)
        ensures
            *r == self@.in_flight,
    {
        &self.in_flight
    }


    /// How many transfers from `key` are waiting.
    fn queue_len(&self, key: &[u8; 32]) -> (n: usize)
        requires
            self.wf(),
        ensures
            n == queue_of(self@.pending, key@).len(),
    {
        let ghost f = sender_is(key@);
        let mut n: usize = 0;
        let mut i: usize = 0;
        while i < self.pending.len()
            invariant
                0 <= i <= self.pending@.len(),
                self.wf(),
                f == sender_is(key@),
                n == self.pending@.take(i as int).filter(f).len(),
            decreases self.pending@.len() - i,
        {
            proof {
                lemma_filter_push(self.pending@.take(i as int), self.pending@[i as int], f);
                assert(self.pending@.take(i + 1) =~= self.pending@.take(i as int).push(
                    self.pending@[i as int],
                ));
                Seq::lemma_filter_len(self.pending@.take(i + 1), f);
                Seq::lemma_filter_len(self.pending@, f);
                assert(queue_of(self.pending@, key@).len() <= MAX_PENDING_PER_SENDER);
                assert(self.pending@.take(i + 1).filter(f).len() <= self.pending@.take(
                    i as int,
                ).filter(f).len() + 1);
            }
            if self.pending[i].sender_pubkey.same_key(key) {
                proof {
                    lemma_queue_prefix_bound(self.pending@, i as int + 1, key@);
                }
                n = n + 1;
            }
            i += 1;
        }
        assert(self.pending@.take(self.pending@.len() as int) =~= self.pending@);
        n
    }

    /// Where the waiting transfer from `key` with sequence number `seq` is.
    fn find_pending(&self, key: &[u8; 32], seq: u64) -> (r: Option<usize>)
        requires
            self.wf(),
        ensures
            match r {
                Some(i) => has_pending(self@.pending, key@, seq) && i == pending_index(
                    self@.pending,
                    key@,
                    seq,
                ),
                None => !has_pending(self@.pending, key@, seq),
            },
    {
        let mut i: usize = 0;
        while i < self.pending.len()
            invariant
                0 <= i <= self.pending@.len(),
                pending_wf(self.pending@),
                forall|j: int|
                    0 <= j < i ==> !(self.pending@[j].sender_pubkey@ == key@
                        && self.pending@[j].sequence == seq),
            decreases self.pending@.len() - i,
        {
            if self.pending[i].sequence == seq && self.pending[i].sender_pubkey.same_key(key) {
                proof {
                    let p = self.pending@;
                    assert(has_pending(p, key@, seq));
                    let j = pending_index(p, key@, seq);
                    assert(0 <= j < p.len() && p[j].sender_pubkey@ == key@ && p[j].sequence == seq);
                    if j != i {
                        assert(p[j].sender_pubkey@ == p[i as int].sender_pubkey@);
                    }
                }
                return Some(i);
            }
            i += 1;
        }
        None
    }


    /// Submits a verified transfer (see `spec_add`).
    pub fn add(&mut self, task: VerificationTask) -> (step: Step)
        requires
            old(self).wf(),
            old(self)@.in_flight is None,
            task.sequence <= cur_seq(old(self)@.accounts, task.sender_pubkey@) || cur_seq(
                old(self)@.accounts,
                task.sender_pubkey@,
            ) + MAX_FUTURE_GAP <= u64::MAX,
        ensures
            final(self).wf(),
            final(self)@ == spec_add(old(self)@, task).0,
            step == spec_add(old(self)@, task).1,
    {
        let cur = self.current_sequence(&task.sender_pubkey);
        if task.sequence <= cur {
            return Step {
                notice: Some(Notice::Submitted(Err(TransactionError::OldSequence))),
                action: LedgerAction::Done(Ok(())),
            };
        }
        if task.sequence > cur + MAX_FUTURE_GAP {
            return Step {
                notice: Some(Notice::Submitted(Err(TransactionError::SequenceTooFar))),
                action: LedgerAction::Done(Ok(())),
            };
        }
        if task.sequence > cur + 1 {
            if self.find_pending(&task.sender_pubkey, task.sequence).is_some() {
                return Step {
                    notice: Some(Notice::Submitted(Err(TransactionError::DuplicateSequence))),
                    action: LedgerAction::Done(Ok(())),
                };
            }
            if self.queue_len(&task.sender_pubkey) >= MAX_PENDING_PER_SENDER {
                return Step {
                    notice: Some(Notice::Submitted(Err(TransactionError::QueueFull))),
                    action: LedgerAction::Done(Ok(())),
                };
            }
            let ghost p = self.pending@;
            let ghost k = task.sender_pubkey@;
            self.pending.push(task);
            proof {
                let q = self.pending@;
                assert(q =~= p.push(task));
                assert forall|a: int, b: int|
                    0 <= a < q.len() && 0 <= b < q.len() && a != b && #[trigger] q[a].sender_pubkey@
                        == #[trigger] q[b].sender_pubkey@ implies q[a].sequence != q[b].sequence by {
                    if a < p.len() && b < p.len() {
                        assert(q[a] == p[a] && q[b] == p[b]);
                    } else if a < p.len() {
                        assert(q[a] == p[a]);
                        assert(!has_pending(p, k, task.sequence));
                    } else {
                        assert(q[b] == p[b]);
                        assert(!has_pending(p, k, task.sequence));
                    }
                }
                assert forall|k2: Seq<u8>| #[trigger] queue_of(q, k2).len() <= MAX_PENDING_PER_SENDER by {
                    lemma_filter_push(p, task, sender_is(k2));
                    assert(queue_of(p, k2).len() <= MAX_PENDING_PER_SENDER);
                }
            }
            return Step {
                notice: Some(Notice::Submitted(Ok(LedgerConfirm::Queued))),
                action: LedgerAction::Done(Ok(())),
            };
        }
        match self.prepare(&task) {
            Err(e) => Step { notice: None, action: LedgerAction::Done(Err(e)) },
            Ok(tx) => {
                self.in_flight = Some(InFlight::Transfer { tx, drained: false });
                Step { notice: None, action: LedgerAction::Write(WalEntry::Transfer(tx)) }
            },
        }
    }

    /// Asks to create an account (see `spec_profile`).
    pub fn profile(&mut self, name: String, balance: u64, key: [u8; 32], last_sequence: u64) -> (step:
        Step)
        requires
            old(self).wf(),
            old(self)@.in_flight is None,
        ensures
            final(self).wf(),
            final(self)@ == spec_profile(old(self)@, name, balance, key, last_sequence).0,
            step == spec_profile(old(self)@, name, balance, key, last_sequence).1,
    {
        if self.accounts.name_to_key.get(&name).is_some() {
            return Step {
                notice: None,
                action: LedgerAction::Done(Err(TransactionError::AccountAlreadyExists)),
            };
        }
        let entry_name = name.clone();
        self.in_flight = Some(InFlight::Profile { name, key, balance, last_sequence });
        Step {
            notice: None,
            action: LedgerAction::Write(
                WalEntry::CreateProfile { name: entry_name, key, balance, last_sequence },
            ),
        }
    }


    /// Reports how the awaited write went (see `spec_complete`).
    pub fn complete_write(&mut self, outcome: WalOutcome) -> (step: Step)
        requires
            old(self).wf(),
            old(self)@.in_flight is Some,
            outcome == WalOutcome::Written ==> (old(self)@.in_flight matches Some(
                InFlight::Transfer { tx, .. },
            ) ==> tx.sequence < u64::MAX),
        ensures
            final(self).wf(),
            final(self)@ == spec_complete(old(self)@, outcome).0,
            step == spec_complete(old(self)@, outcome).1,
    {
        let awaited = self.in_flight.take();
        match awaited {
            None => Step { notice: None, action: LedgerAction::Done(Ok(())) },
            Some(InFlight::Profile { name, key, balance, last_sequence }) => {
                match outcome {
                    WalOutcome::Written => {
                        self.create(name, key, balance, last_sequence);
                        Step { notice: None, action: LedgerAction::Done(Ok(())) }
                    },
                    WalOutcome::EncodeFailed => Step {
                        notice: None,
                        action: LedgerAction::Done(Err(TransactionError::IoError)),
                    },
                    WalOutcome::WriteFailed => Step {
                        notice: None,
                        action: LedgerAction::Done(Err(TransactionError::WalError)),
                    },
                }
            },
            Some(InFlight::Transfer { tx, drained }) => {
                match outcome {
                    WalOutcome::Written => {},
                    WalOutcome::EncodeFailed => {
                        return Step {
                            notice: None,
                            action: LedgerAction::Done(
                                if drained {
                                    Ok(())
                                } else {
                                    Err(TransactionError::IoError)
                                },
                            ),
                        };
                    },
                    WalOutcome::WriteFailed => {
                        return Step {
                            notice: None,
                            action: LedgerAction::Done(
                                if drained {
                                    Ok(())
                                } else {
                                    Err(TransactionError::WalError)
                                },
                            ),
                        };
                    },
                }
                self.apply(tx);
                let notice = if drained {
                    Notice::Committed { sender: tx.sender, sequence: tx.sequence }
                } else {
                    Notice::Submitted(Ok(LedgerConfirm::Committed))
                };
                let cur = self.current_sequence(&tx.sender);
                assert(cur == tx.sequence);
                let next = cur + 1;
                match self.find_pending(&tx.sender, next) {
                    None => Step { notice: Some(notice), action: LedgerAction::Done(Ok(())) },
                    Some(i) => {
                        proof {
                            lemma_pending_wf_remove(self.pending@, i as int);
                        }
                        let task = self.pending.remove(i);
                        match self.prepare(&task) {
                            Ok(tx2) => {
                                self.in_flight = Some(InFlight::Transfer { tx: tx2, drained: true });
                                Step {
                                    notice: Some(notice),
                                    action: LedgerAction::Write(WalEntry::Transfer(tx2)),
                                }
                            },
                            Err(_) => Step {
                                notice: Some(notice),
                                action: LedgerAction::Done(Ok(())),
                            },
                        }
                    },
                }
            },
        }
    }


    /// Creates (or overwrites) an account directly, with sequence number 0,
    /// without logging it.
    pub fn set_test_account(&mut self, name: String, key: [u8; 32], balance: u64)
        requires
            old(self).wf(),
            old(self)@.in_flight is None,
        ensures
            final(self).wf(),
            final(self)@ == (LedgerView {
                accounts: spec_create(old(self)@.accounts, name, key, balance, 0),
                ..old(self)@
            }),
    {
        self.create(name, key, balance, 0);
    }

    /// Sets the key's sequence number back to 0, without logging it.
    pub fn reset_test_sequence(&mut self, key: &[u8; 32])
        requires
            old(self).wf(),
            old(self)@.in_flight is None,
        ensures
            final(self).wf(),
            final(self)@ == (LedgerView {
                accounts: AccountsView {
                    sequences: old(self)@.accounts.sequences.insert(key@, 0),
                    ..old(self)@.accounts
                },
                ..old(self)@
            }),
    {
        self.accounts.sequences.insert(*key, 0);
    }

    /// The balance of the account with this name.
    pub fn get_balance(&self, name: &str) -> (r: Result<u64, TransactionError>)
        requires
            self.wf(),
        ensures
            r == (if self@.accounts.name_to_key.contains_key(name@) {
                Ok(self@.accounts.balances[self@.accounts.name_to_key[name@]@])
            } else {
                Err(TransactionError::AccountNotFound)
            }),
    {
        let key = match self.accounts.name_to_key.get(&name.to_owned()) {
            Some(k) => *k,
            None => return Err(TransactionError::AccountNotFound),
        };
        match self.accounts.balances.get(&key) {
            Some(b) => Ok(*b),
            None => Err(TransactionError::AccountNotFound),
        }
    }

    /// The next sequence number the account with this name is expected to use.
    pub fn get_sequence(&self, name: &str) -> (r: Result<u64, TransactionError>)
        requires
            self.wf(),
            self@.accounts.name_to_key.contains_key(name@)
                ==> self@.accounts.sequences[self@.accounts.name_to_key[name@]@] < u64::MAX,
        ensures
            r == (if self@.accounts.name_to_key.contains_key(name@) {
                Ok((self@.accounts.sequences[self@.accounts.name_to_key[name@]@] + 1) as u64)
            } else {
                Err(TransactionError::AccountNotFound)
            }),
    {
        let key = match self.accounts.name_to_key.get(&name.to_owned()) {
            Some(k) => *k,
            None => return Err(TransactionError::AccountNotFound),
        };
        match self.accounts.sequences.get(&key) {
            Some(s) => Ok(*s + 1),
            None => Err(TransactionError::AccountNotFound),
        }
    }

    fn replay_entry(&mut self, entry: &WalEntry)
        requires
            old(self).accounts.wf(),
        ensures
            final(self).accounts.wf(),
            final(self).accounts.view() == spec_replay(old(self).accounts.view(), *entry),
            final(self).pending == old(self).pending,
            final(self).in_flight == old(self).in_flight,
    {
        match entry {
            WalEntry::CreateProfile { name, key, balance, last_sequence } => {
                self.create(name.clone(), *key, *balance, *last_sequence);
            },
            WalEntry::Transfer(tx) => {
                self.apply(*tx);
            },
        }
    }

    /// Replays a log, in order, onto the accounts.
    pub fn recover(&mut self, entries: &Vec<WalEntry>)
        requires
            old(self).wf(),
            old(self)@.in_flight is None,
        ensures
            final(self).wf(),
            final(self)@ == (LedgerView {
                accounts: spec_replay_all(old(self)@.accounts, entries@),
                ..old(self)@
            }),
    {
        let mut i: usize = 0;
        while i < entries.len()
            invariant
                0 <= i <= entries@.len(),
                self.wf(),
                self.in_flight is None,
                self.pending == old(self).pending,
                self.accounts.view() == spec_replay_all(
                    old(self).accounts.view(),
                    entries@.take(i as int),
                ),
            decreases entries@.len() - i,
        {
            self.replay_entry(&entries[i]);
            proof {
                assert(entries@.take(i + 1).drop_last() =~= entries@.take(i as int));
            }
            i += 1;
        }
        assert(entries@.take(entries@.len() as int) =~= entries@);
    }

    /// The transfers recorded in a log, in order.
    pub fn list_transactions(&self, entries: &Vec<WalEntry>) -> (r: Vec<Transaction>)
        ensures
            r@ == transfers_of(entries@),
    {
        let mut list: Vec<Transaction> = Vec::new();
        let mut i: usize = 0;
        while i < entries.len()
            invariant
                0 <= i <= entries@.len(),
                list@ == transfers_of(entries@.take(i as int)),
            decreases entries@.len() - i,
        {
            proof {
                assert(entries@.take(i + 1).drop_last() =~= entries@.take(i as int));
            }
            match &entries[i] {
                WalEntry::Transfer(tx) => list.push(*tx),
                WalEntry::CreateProfile { .. } => {},
            }
            i += 1;
        }
        assert(entries@.take(entries@.len() as int) =~= entries@);
        list
    }

    /// The transfers recorded in a log that were sent by the account with
    /// this name, in order; the log is `None` when it could not be opened.
    pub fn find_by_sender(&self, name: &str, log: Option<&Vec<WalEntry>>) -> (r: Result<
        Vec<Transaction>,
        TransactionError,
    >)
        requires
            self.wf(),
        ensures
            !self@.accounts.name_to_key.contains_key(name@) ==> r == Err::<
                Vec<Transaction>,
                TransactionError,
            >(TransactionError::AccountNotFound),
            self@.accounts.name_to_key.contains_key(name@) && log is None ==> r == Err::<
                Vec<Transaction>,
                TransactionError,
            >(TransactionError::IoError),
            self@.accounts.name_to_key.contains_key(name@) && log is Some ==> (r matches Ok(v)
                && v@ == transfers_from(log.unwrap()@, self@.accounts.name_to_key[name@]@)),
    {
        let key = match self.accounts.name_to_key.get(&name.to_owned()) {
            Some(k) => *k,
            None => return Err(TransactionError::AccountNotFound),
        };
        let entries = match log {
            Some(e) => e,
            None => return Err(TransactionError::IoError),
        };
        let mut list: Vec<Transaction> = Vec::new();
        let mut i: usize = 0;
        while i < entries.len()
            invariant
                0 <= i <= entries@.len(),
                list@ == transfers_from(entries@.take(i as int), key@),
            decreases entries@.len() - i,
        {
            proof {
                assert(entries@.take(i + 1).drop_last() =~= entries@.take(i as int));
            }
            match &entries[i] {
                WalEntry::Transfer(tx) => {
                    if tx.sender.same_key(&key) {
                        list.push(*tx);
                    }
                },
                WalEntry::CreateProfile { .. } => {},
            }
            i += 1;
        }
        assert(entries@.take(entries@.len() as int) =~= entries@);
        Ok(list)
    }

    fn prepare(&self, task: &VerificationTask) -> (r: Result<Transaction, TransactionError>)
        requires
            self.wf(),
        ensures
            r == spec_prepare(self@.accounts, *task),
    {
        let balance = match self.accounts.balances.get(&task.sender_pubkey) {
            Some(b) => *b,
            None => return Err(TransactionError::AccountNotFound),
        };
        if task.amount > balance {
            return Err(TransactionError::NotEnoughBalance);
        }
        let receiver = match self.accounts.name_to_key.get(&task.receiver_name) {
            Some(k) => *k,
            None => return Err(TransactionError::AccountNotFound),
        };
        if !key_decompresses(&receiver) {
            return Err(TransactionError::InvalidSignature);
        }
        Ok(
            Transaction {
                sender: task.sender_pubkey,
                receiver,
                amount: task.amount,
                timestamp: task.timestamp,
                signature: task.signature,
                sequence: task.sequence,
            },
        )
    }

    fn apply(&mut self, tx: Transaction)
        requires
            old(self).accounts.wf(),
        ensures
            final(self).accounts.wf(),
            final(self).accounts.view() == spec_apply(old(self).accounts.view(), tx),
            final(self).pending == old(self).pending,
            final(self).in_flight == old(self).in_flight,
    {
        let cur = match self.accounts.sequences.get(&tx.sender) {
            Some(s) => *s,
            None => 0,
        };
        if tx.sequence <= cur {
            return ;
        }
        let sender_balance = match self.accounts.balances.get(&tx.sender) {
            Some(b) => Some(*b),
            None => None,
        };
        if let Some(b) = sender_balance {
            self.accounts.balances.insert(tx.sender, b.saturating_sub(tx.amount));
        }
        let receiver_balance = match self.accounts.balances.get(&tx.receiver) {
            Some(b) => Some(*b),
            None => None,
        };
        if let Some(b) = receiver_balance {
            self.accounts.balances.insert(tx.receiver, b.saturating_add(tx.amount));
        }
        self.accounts.sequences.insert(tx.sender, tx.sequence);
    }

    fn create(&mut self, name: String, key: [u8; 32], balance: u64, last_sequence: u64)
        requires
            old(self).accounts.wf(),
        ensures
            final(self).accounts.wf(),
            final(self).accounts.view() == spec_create(
                old(self).accounts.view(),
                name,
                key,
                balance,
                last_sequence,
            ),
            final(self).pending == old(self).pending,
            final(self).in_flight == old(self).in_flight,
    {
        let name_copy = name.clone();
        self.accounts.name_to_key.insert(name_copy, key);
        self.accounts.names.insert(key, name);
        self.accounts.balances.insert(key, balance);
        self.accounts.sequences.insert(key, last_sequence);
    }
}

} // verus!
