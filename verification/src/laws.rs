//! Properties of the ledger that span several of its operations.
use vstd::prelude::*;
use crate::ledger::{
    cur_seq, pending_wf, queue_of, spec_add, spec_apply, spec_complete, spec_prepare, spec_profile,
    spec_replay, spec_replay_all, sat_add, sat_sub, transfers_from, transfers_of, AccountsView, InFlight, Ledger, LedgerAction, LedgerView, Notice,
    WalOutcome, MAX_PENDING_PER_SENDER,
};
use crate::ledger::{finish, has_pending, reply, LedgerConfirm, MAX_FUTURE_GAP};
use crate::error::TransactionError;
use crate::signing::spec_key_decompresses;
use crate::transaction::{Transaction, WalEntry};
use crate::validator::{spec_transfer_message, VerificationTask};
use vstd::bytes::{spec_u64_to_le_bytes, spec_u64_to_le_bytes_to_open};

verus! {

/// The log entry that records an awaited write.
pub open spec fn logged_entry(f: InFlight) -> WalEntry {
    match f {
        InFlight::Transfer { tx, .. } => WalEntry::Transfer(tx),
        InFlight::Profile { name, key, balance, last_sequence } => WalEntry::CreateProfile {
            name,
            key,
            balance,
            last_sequence,
        },
    }
}

/// A request made of the ledger.
pub enum Event {
    Add(VerificationTask),
    Profile { name: String, balance: u64, key: [u8; 32], last_sequence: u64 },
    Complete(WalOutcome),
}

/// The state after one request.
pub open spec fn next_state(l: LedgerView, e: Event) -> LedgerView {
    match e {
        Event::Add(task) => spec_add(l, task).0,
        Event::Profile { name, balance, key, last_sequence } => spec_profile(
            l,
            name,
            balance,
            key,
            last_sequence,
        ).0,
        Event::Complete(o) => spec_complete(l, o).0,
    }
}

/// The state after a run of requests.
pub open spec fn run(l: LedgerView, evs: Seq<Event>) -> LedgerView
    decreases evs.len(),
{
    if evs.len() == 0 {
        l
    } else {
        next_state(run(l, evs.drop_last()), evs.last())
    }
}

/// The entries a run of requests got written to the log, in order.
pub open spec fn written(l: LedgerView, evs: Seq<Event>) -> Seq<WalEntry>
    decreases evs.len(),
{
    if evs.len() == 0 {
        Seq::empty()
    } else {
        let before = run(l, evs.drop_last());
        let w = written(l, evs.drop_last());
        match (evs.last(), before.in_flight) {
            (Event::Complete(WalOutcome::Written), Some(f)) => w.push(logged_entry(f)),
            _ => w,
        }
    }
}

/// Whenever the ledger asks for an entry to be written, the write it then
/// awaits is recorded by exactly that entry.
pub proof fn law_writes_what_it_awaits(l: LedgerView, e: Event)
    ensures
        ({
            let action = match e {
                Event::Add(task) => spec_add(l, task).1.action,
                Event::Profile { name, balance, key, last_sequence } => spec_profile(
                    l,
                    name,
                    balance,
                    key,
                    last_sequence,
                ).1.action,
                Event::Complete(o) => spec_complete(l, o).1.action,
            };
            action matches LedgerAction::Write(entry) ==> (next_state(l, e).in_flight matches Some(
                f,
            ) && logged_entry(f) == entry)
        }),
{
}

/// The accounts change only when a write succeeds, and then exactly as
/// replaying the written entry would change them.
pub proof fn law_accounts_change_only_by_written_entries(l: LedgerView, e: Event)
    ensures
        next_state(l, e).accounts == (match (e, l.in_flight) {
            (Event::Complete(WalOutcome::Written), Some(f)) => spec_replay(
                l.accounts,
                logged_entry(f),
            ),
            _ => l.accounts,
        }),
{
}

/// Replaying the log reproduces the accounts: after any run of requests,
/// the accounts are those obtained by replaying, from where the run began,
/// the entries the run got written.
pub proof fn law_replaying_the_log_reproduces_the_accounts(l: LedgerView, evs: Seq<Event>)
    ensures
        run(l, evs).accounts == spec_replay_all(l.accounts, written(l, evs)),
    decreases evs.len(),
{
    if evs.len() > 0 {
        law_replaying_the_log_reproduces_the_accounts(l, evs.drop_last());
        law_accounts_change_only_by_written_entries(run(l, evs.drop_last()), evs.last());
        let w = written(l, evs.drop_last());
        match (evs.last(), run(l, evs.drop_last()).in_flight) {
            (Event::Complete(WalOutcome::Written), Some(f)) => {
                assert(w.push(logged_entry(f)).drop_last() =~= w);
            },
            _ => {},
        }
    }
}

/// A submitted transfer that is refused leaves the ledger as it was.
pub proof fn law_refused_transfer_changes_nothing(l: LedgerView, task: VerificationTask)
    ensures
        (spec_add(l, task).1.notice matches Some(Notice::Submitted(Err(_))) || spec_add(
            l,
            task,
        ).1.action matches LedgerAction::Done(Err(_))) ==> spec_add(l, task).0 == l,
{
}

/// The sequence number the ledger announces as next for an account (one
/// above its last) is taken at once: a transfer carrying it is neither
/// refused as old, too far, duplicate or beyond a full queue, nor queued;
/// it is checked, and logged if it passes.
pub proof fn law_next_sequence_is_taken_at_once(l: LedgerView, task: VerificationTask)
    requires
        task.sequence == cur_seq(l.accounts, task.sender_pubkey@) + 1,
    ensures
        spec_add(l, task).1.notice is None,
        spec_add(l, task).0.pending == l.pending,
        spec_prepare(l.accounts, task) is Ok <==> spec_add(l, task).1.action is Write,
{
}

/// A failed write changes neither the accounts nor the waiting transfers.
pub proof fn law_failed_write_changes_nothing(l: LedgerView, o: WalOutcome)
    requires
        o != WalOutcome::Written,
    ensures
        spec_complete(l, o).0.accounts == l.accounts,
        spec_complete(l, o).0.pending == l.pending,
        spec_complete(l, o).0.in_flight is None,
{
}

/// Replaying a transfer that was already applied changes nothing.
pub proof fn law_replaying_a_transfer_twice_is_replaying_it_once(a: AccountsView, tx: Transaction)
    ensures
        spec_apply(spec_apply(a, tx), tx) == spec_apply(a, tx),
{
}

/// Applying a transfer never lowers a sequence number.
pub proof fn law_sequences_never_decrease(a: AccountsView, tx: Transaction, k: Seq<u8>)
    ensures
        cur_seq(spec_apply(a, tx), k) >= cur_seq(a, k),
{
}

/// A transfer between two different accounts, which the sender can afford
/// and which does not overflow the receiver, moves exactly the amount and
/// touches no other balance.
pub proof fn law_transfer_conserves_money(a: AccountsView, tx: Transaction, k: Seq<u8>)
    requires
        tx.sender@ != tx.receiver@,
        a.balances.contains_key(tx.sender@),
        a.balances.contains_key(tx.receiver@),
        tx.amount <= a.balances[tx.sender@],
        a.balances[tx.receiver@] + tx.amount <= u64::MAX,
        tx.sequence > cur_seq(a, tx.sender@),
    ensures
        spec_apply(a, tx).balances[tx.sender@] == a.balances[tx.sender@] - tx.amount,
        spec_apply(a, tx).balances[tx.receiver@] == a.balances[tx.receiver@] + tx.amount,
        spec_apply(a, tx).balances[tx.sender@] + spec_apply(a, tx).balances[tx.receiver@]
            == a.balances[tx.sender@] + a.balances[tx.receiver@],
        spec_apply(a, tx).balances.dom() == a.balances.dom(),
        k != tx.sender@ && k != tx.receiver@ ==> spec_apply(a, tx).balances[k] == a.balances[k],
{
}

/// Transfers are committed in their senders' order, one sequence number at
/// a time: the awaited transfer is the next in its sender's turn, and once
/// written its sequence number is the sender's last.
pub proof fn law_transfers_commit_in_sequence(l: &Ledger)
    requires
        l.wf(),
        l@.in_flight is Some,
    ensures
        l@.in_flight matches Some(InFlight::Transfer { tx, .. }) ==> {
            &&& tx.sequence == cur_seq(l@.accounts, tx.sender@) + 1
            &&& cur_seq(spec_complete(l@, WalOutcome::Written).0.accounts, tx.sender@)
                == tx.sequence
        },
{
    l.lemma_wf();
}

/// No sender ever has two waiting transfers with one sequence number, nor
/// more than `MAX_PENDING_PER_SENDER` waiting transfers.
pub proof fn law_waiting_transfers_are_bounded(l: &Ledger)
    requires
        l.wf(),
    ensures
        pending_wf(l@.pending),
        forall|k: Seq<u8>| #[trigger] queue_of(l@.pending, k).len() <= MAX_PENDING_PER_SENDER,
{
    l.lemma_wf();
}


/// The sum of all balances.
pub open spec fn total(m: Map<Seq<u8>, u64>) -> int
    decreases m.dom().len(),
    when m.dom().finite()
{
    if m.dom().len() == 0 {
        0
    } else {
        let k = m.dom().choose();
        m[k] + total(m.remove(k))
    }
}

/// The sum of all balances counts each balance once, whichever is taken first.
pub proof fn lemma_total_remove(m: Map<Seq<u8>, u64>, k: Seq<u8>)
    requires
        m.dom().finite(),
        m.contains_key(k),
    ensures
        total(m) == m[k] + total(m.remove(k)),
    decreases m.dom().len(),
{
    assert(m.dom().len() > 0);
    let c = m.dom().choose();
    if c != k {
        lemma_total_remove(m.remove(c), k);
        lemma_total_remove(m.remove(k), c);
        assert(m.remove(c).remove(k) =~= m.remove(k).remove(c));
    }
}

/// Changing one balance changes the sum by the difference.
pub proof fn lemma_total_insert(m: Map<Seq<u8>, u64>, k: Seq<u8>, v: u64)
    requires
        m.dom().finite(),
        m.contains_key(k),
    ensures
        m.insert(k, v).dom().finite(),
        total(m.insert(k, v)) == total(m) - m[k] + v,
{
    lemma_total_remove(m, k);
    lemma_total_remove(m.insert(k, v), k);
    assert(m.insert(k, v).remove(k) =~= m.remove(k));
}

/// The awaited transfer, if any, passed its checks against the current
/// accounts, and no account creation is awaited.
pub open spec fn awaits_only_checked_transfers(l: LedgerView) -> bool {
    match l.in_flight {
        None => true,
        Some(InFlight::Profile { .. }) => false,
        Some(InFlight::Transfer { tx, .. }) => l.accounts.balances.contains_key(tx.sender@)
            && tx.amount <= l.accounts.balances[tx.sender@],
    }
}

/// If this request commits a transfer, the transfer goes between two
/// different accounts and does not overflow the receiver.
pub open spec fn commits_conserving(l: LedgerView, e: Event) -> bool {
    match (e, l.in_flight) {
        (Event::Complete(WalOutcome::Written), Some(InFlight::Transfer { tx, .. })) => {
            &&& tx.sender@ != tx.receiver@
            &&& l.accounts.balances.contains_key(tx.receiver@)
            &&& l.accounts.balances[tx.receiver@] + tx.amount <= u64::MAX
        },
        _ => true,
    }
}

proof fn lemma_step_keeps_total(l: LedgerView, e: Event)
    requires
        l.accounts.balances.dom().finite(),
        awaits_only_checked_transfers(l),
        !(e is Profile),
        commits_conserving(l, e),
    ensures
        next_state(l, e).accounts.balances.dom().finite(),
        total(next_state(l, e).accounts.balances) == total(l.accounts.balances),
        awaits_only_checked_transfers(next_state(l, e)),
{
    match e {
        Event::Add(task) => {},
        Event::Profile { .. } => {},
        Event::Complete(o) => {
            if let Some(InFlight::Transfer { tx, drained }) = l.in_flight {
                if o == WalOutcome::Written {
                    let a = l.accounts;
                    let s = tx.sender@;
                    let r = tx.receiver@;
                    if tx.sequence > cur_seq(a, s) {
                        let b1 = a.balances.insert(s, sat_sub(a.balances[s], tx.amount));
                        lemma_total_insert(a.balances, s, sat_sub(a.balances[s], tx.amount));
                        lemma_total_insert(b1, r, sat_add(b1[r], tx.amount));
                    }
                }
            }
        },
    }
}

proof fn lemma_run_keeps_total(l: LedgerView, evs: Seq<Event>, n: int)
    requires
        0 <= n <= evs.len(),
        l.accounts.balances.dom().finite(),
        awaits_only_checked_transfers(l),
        forall|i: int|
            0 <= i < evs.len() ==> !(evs[i] is Profile) && commits_conserving(
                #[trigger] run(l, evs.take(i)),
                evs[i],
            ),
    ensures
        run(l, evs.take(n)).accounts.balances.dom().finite(),
        total(run(l, evs.take(n)).accounts.balances) == total(l.accounts.balances),
        awaits_only_checked_transfers(run(l, evs.take(n))),
    decreases n,
{
    if n == 0 {
        assert(evs.take(0) =~= Seq::<Event>::empty());
    } else {
        lemma_run_keeps_total(l, evs, n - 1);
        assert(evs.take(n).drop_last() =~= evs.take(n - 1));
        assert(evs.take(n).last() == evs[n - 1]);
        assert(!(evs[n - 1] is Profile) && commits_conserving(run(l, evs.take(n - 1)), evs[n - 1]));
        lemma_step_keeps_total(run(l, evs.take(n - 1)), evs[n - 1]);
    }
}

/// Over a whole request that creates no account, the sum of all balances is
/// unchanged, provided each transfer it commits goes between two different
/// accounts and does not overflow the receiver: each committed transfer
/// takes its amount from the sender (who can afford it, as checked before it
/// was logged) and gives it to the receiver.
pub proof fn law_request_keeps_total_balance(l: &Ledger, evs: Seq<Event>)
    requires
        l.wf(),
        l@.in_flight is None,
        forall|i: int|
            0 <= i < evs.len() ==> !(evs[i] is Profile) && commits_conserving(
                #[trigger] run(l@, evs.take(i)),
                evs[i],
            ),
    ensures
        total(run(l@, evs).accounts.balances) == total(l@.accounts.balances),
{
    l.lemma_wf();
    lemma_run_keeps_total(l@, evs, evs.len() as int);
    assert(evs.take(evs.len() as int) =~= evs);
}


/// The entry creates an account with key `k`.
pub open spec fn creates_key(e: WalEntry, k: Seq<u8>) -> bool {
    e matches WalEntry::CreateProfile { key, .. } && key@ == k
}

/// Among the first `n` entries, one creates an account with key `k`.
pub open spec fn created_before(es: Seq<WalEntry>, n: int, k: Seq<u8>) -> bool {
    exists|i: int| 0 <= i < n && #[trigger] creates_key(es[i], k)
}

/// Every transfer in the log is between keys whose accounts were created
/// earlier in the log.
pub open spec fn transfers_between_created_accounts(es: Seq<WalEntry>) -> bool {
    forall|j: int|
        0 <= j < es.len() ==> (#[trigger] es[j] matches WalEntry::Transfer(tx) ==> created_before(
            es,
            j,
            tx.sender@,
        ) && created_before(es, j, tx.receiver@))
}

/// No accounts at all.
pub open spec fn no_accounts() -> AccountsView {
    AccountsView {
        name_to_key: Map::empty(),
        names: Map::empty(),
        balances: Map::empty(),
        sequences: Map::empty(),
    }
}

/// Two states of the accounts hold the same name, balance and sequence
/// number for key `k`.
pub open spec fn agree_at(x: AccountsView, y: AccountsView, k: Seq<u8>) -> bool {
    &&& x.names.contains_key(k) == y.names.contains_key(k)
    &&& x.names.contains_key(k) ==> x.names[k] == y.names[k]
    &&& x.balances.contains_key(k) == y.balances.contains_key(k)
    &&& x.balances.contains_key(k) ==> x.balances[k] == y.balances[k]
    &&& x.sequences.contains_key(k) == y.sequences.contains_key(k)
    &&& x.sequences.contains_key(k) ==> x.sequences[k] == y.sequences[k]
}

/// A transfer reads and writes only its sender's and receiver's records.
proof fn lemma_apply_local(x: AccountsView, y: AccountsView, tx: Transaction)
    requires
        agree_at(x, y, tx.sender@),
        agree_at(x, y, tx.receiver@),
    ensures
        agree_at(spec_apply(x, tx), spec_apply(y, tx), tx.sender@),
        agree_at(spec_apply(x, tx), spec_apply(y, tx), tx.receiver@),
        forall|k: Seq<u8>|
            k != tx.sender@ && k != tx.receiver@ ==> #[trigger] agree_at(spec_apply(x, tx), x, k),
{
}

/// Entries that neither create key `k` nor move money to or from it leave
/// its record as it was.
proof fn lemma_replay_untouched(a: AccountsView, es: Seq<WalEntry>, k: Seq<u8>)
    requires
        forall|j: int|
            0 <= j < es.len() ==> !creates_key(#[trigger] es[j], k) && (es[j] matches WalEntry::Transfer(
                tx,
            ) ==> tx.sender@ != k && tx.receiver@ != k),
    ensures
        agree_at(spec_replay_all(a, es), a, k),
    decreases es.len(),
{
    if es.len() > 0 {
        let p = es.drop_last();
        assert forall|j: int|
            0 <= j < p.len() implies !creates_key(#[trigger] p[j], k) && (p[j] matches WalEntry::Transfer(
                tx,
            ) ==> tx.sender@ != k && tx.receiver@ != k) by {
            assert(p[j] == es[j]);
        }
        lemma_replay_untouched(a, p, k);
        let e = es[es.len() - 1];
        assert(!creates_key(e, k));
    }
}

/// The names replayed onto any state are those replayed onto no accounts,
/// laid over the names already there.
proof fn lemma_replay_names(a: AccountsView, es: Seq<WalEntry>)
    ensures
        spec_replay_all(a, es).name_to_key == a.name_to_key.union_prefer_right(
            spec_replay_all(no_accounts(), es).name_to_key,
        ),
    decreases es.len(),
{
    if es.len() == 0 {
        assert(a.name_to_key.union_prefer_right(Map::empty()) =~= a.name_to_key);
    } else {
        lemma_replay_names(a, es.drop_last());
        let x = spec_replay_all(a, es.drop_last()).name_to_key;
        let r = spec_replay_all(no_accounts(), es.drop_last()).name_to_key;
        match es.last() {
            WalEntry::CreateProfile { name, key, .. } => {
                assert(a.name_to_key.union_prefer_right(r.insert(name@, key)) =~= a.name_to_key.union_prefer_right(
                    r,
                ).insert(name@, key));
            },
            WalEntry::Transfer(_) => {},
        }
    }
}

/// Replaying the same entries onto two states leaves them agreeing on every
/// key created by those entries.
proof fn lemma_replay_agrees_on_created(
    x0: AccountsView,
    y0: AccountsView,
    es: Seq<WalEntry>,
    n: int,
)
    requires
        0 <= n <= es.len(),
        transfers_between_created_accounts(es),
    ensures
        forall|k: Seq<u8>|
            created_before(es, n, k) ==> #[trigger] agree_at(
                spec_replay_all(x0, es.take(n)),
                spec_replay_all(y0, es.take(n)),
                k,
            ),
    decreases n,
{
    if n > 0 {
        lemma_replay_agrees_on_created(x0, y0, es, n - 1);
        assert(es.take(n).drop_last() =~= es.take(n - 1));
        let x = spec_replay_all(x0, es.take(n - 1));
        let y = spec_replay_all(y0, es.take(n - 1));
        let e = es[n - 1];
        assert(es.take(n).last() == e);
        match e {
            WalEntry::CreateProfile { name, key, balance, last_sequence } => {
                assert forall|k: Seq<u8>| created_before(es, n, k) implies #[trigger] agree_at(
                    spec_replay(x, e),
                    spec_replay(y, e),
                    k,
                ) by {
                    if k != key@ {
                        let i = choose|i: int| 0 <= i < n && #[trigger] creates_key(es[i], k);
                        assert(i != n - 1);
                        assert(created_before(es, n - 1, k));
                        assert(agree_at(x, y, k));
                    }
                }
            },
            WalEntry::Transfer(tx) => {
                assert(es[n - 1] matches WalEntry::Transfer(t) && t == tx);
                assert(created_before(es, n - 1, tx.sender@));
                assert(created_before(es, n - 1, tx.receiver@));
                assert(agree_at(x, y, tx.sender@));
                assert(agree_at(x, y, tx.receiver@));
                lemma_apply_local(x, y, tx);
                lemma_apply_local(y, x, tx);
                assert forall|k: Seq<u8>| created_before(es, n, k) implies #[trigger] agree_at(
                    spec_replay(x, e),
                    spec_replay(y, e),
                    k,
                ) by {
                    let i = choose|i: int| 0 <= i < n && #[trigger] creates_key(es[i], k);
                    assert(i != n - 1);
                    assert(created_before(es, n - 1, k));
                    assert(agree_at(x, y, k));
                    if k != tx.sender@ && k != tx.receiver@ {
                        assert(agree_at(spec_apply(x, tx), x, k));
                        assert(agree_at(spec_apply(y, tx), y, k));
                    }
                }
            },
        }
    }
}

/// Recovering twice from the same log is recovering once: replaying, onto
/// no accounts, a log whose transfers are between accounts it created
/// earlier, and then replaying the same log again onto the result, gives
/// the same names, keys, balances and sequence numbers as replaying it once.
pub proof fn law_recovering_twice_is_recovering_once(es: Seq<WalEntry>)
    requires
        transfers_between_created_accounts(es),
    ensures
        spec_replay_all(spec_replay_all(no_accounts(), es), es) == spec_replay_all(
            no_accounts(),
            es,
        ),
{
    let once = spec_replay_all(no_accounts(), es);
    let twice = spec_replay_all(once, es);
    lemma_replay_agrees_on_created(no_accounts(), once, es, es.len() as int);
    assert(es.take(es.len() as int) =~= es);
    assert forall|k: Seq<u8>| #[trigger] agree_at(twice, once, k) by {
        if created_before(es, es.len() as int, k) {
            assert(agree_at(once, twice, k));
        } else {
            assert forall|j: int|
                0 <= j < es.len() implies !creates_key(#[trigger] es[j], k) && (es[j] matches WalEntry::Transfer(
                tx,
            ) ==> tx.sender@ != k && tx.receiver@ != k) by {
                if creates_key(es[j], k) {
                    assert(created_before(es, es.len() as int, k));
                }
                if let WalEntry::Transfer(tx) = es[j] {
                    if tx.sender@ == k || tx.receiver@ == k {
                        assert(es[j] matches WalEntry::Transfer(t) && t == tx);
                        let i = choose|i: int| 0 <= i < j && #[trigger] creates_key(es[i], k);
                        assert(created_before(es, es.len() as int, k));
                    }
                }
            }
            lemma_replay_untouched(once, es, k);
        }
    }
    lemma_replay_names(once, es);
    assert(twice.name_to_key =~= once.name_to_key);
    assert(twice.names =~= once.names) by {
        assert forall|k: Seq<u8>| #[trigger] twice.names.contains_key(k) == once.names.contains_key(k) by {
            assert(agree_at(twice, once, k));
        }
        assert forall|k: Seq<u8>| twice.names.contains_key(k) implies #[trigger] twice.names[k] == once.names[k] by {
            assert(agree_at(twice, once, k));
        }
    }
    assert(twice.balances =~= once.balances) by {
        assert forall|k: Seq<u8>| #[trigger] twice.balances.contains_key(k) == once.balances.contains_key(k) by {
            assert(agree_at(twice, once, k));
        }
        assert forall|k: Seq<u8>| twice.balances.contains_key(k) implies #[trigger] twice.balances[k] == once.balances[k] by {
            assert(agree_at(twice, once, k));
        }
    }
    assert(twice.sequences =~= once.sequences) by {
        assert forall|k: Seq<u8>| #[trigger] twice.sequences.contains_key(k) == once.sequences.contains_key(k) by {
            assert(agree_at(twice, once, k));
        }
        assert forall|k: Seq<u8>| twice.sequences.contains_key(k) implies #[trigger] twice.sequences[k] == once.sequences[k] by {
            assert(agree_at(twice, once, k));
        }
    }
    assert(twice =~= once);
}

/// The transfers of one sender.
pub open spec fn sent_by(k: Seq<u8>) -> spec_fn(Transaction) -> bool {
    |tx: Transaction| tx.sender@ == k
}

/// The transfers found for a sender are the listed transfers whose sender
/// has that key, in log order.
pub proof fn law_sender_transfers_are_the_listing_filtered(es: Seq<WalEntry>, k: Seq<u8>)
    ensures
        transfers_from(es, k) == transfers_of(es).filter(sent_by(k)),
    decreases es.len(),
{
    reveal(Seq::filter);
    if es.len() > 0 {
        law_sender_transfers_are_the_listing_filtered(es.drop_last(), k);
        let rest = transfers_of(es.drop_last());
        match es.last() {
            WalEntry::Transfer(tx) => {
                assert(rest.push(tx).drop_last() =~= rest);
            },
            WalEntry::CreateProfile { .. } => {},
        }
    }
}

// ---------------------------------------------------------------------------
// The listing of a log.

/// The transaction an entry records, for a transfer entry.
pub open spec fn entry_transfer(e: WalEntry) -> Transaction {
    e->Transfer_0
}

/// Whether an entry records a transfer.
pub open spec fn is_transfer_entry(e: WalEntry) -> bool {
    e is Transfer
}

/// The listing of a log holds exactly the log's transfer entries, each once,
/// in the order they were logged; account creations take no place in it.
pub proof fn law_listing_is_every_logged_transfer(es: Seq<WalEntry>)
    ensures
        transfers_of(es) == es.filter(|e: WalEntry| is_transfer_entry(e)).map_values(
            |e: WalEntry| entry_transfer(e),
        ),
    decreases es.len(),
{
    reveal(Seq::filter);
    let f = |e: WalEntry| is_transfer_entry(e);
    let g = |e: WalEntry| entry_transfer(e);
    if es.len() > 0 {
        law_listing_is_every_logged_transfer(es.drop_last());
        let fl = es.drop_last().filter(f);
        if is_transfer_entry(es.last()) {
            assert(es.filter(f) == fl.push(es.last()));
            assert(fl.push(es.last()).map_values(g) =~= fl.map_values(g).push(g(es.last())));
        } else {
            assert(es.filter(f) == fl);
        }
    } else {
        assert(es.filter(f).map_values(g) =~= Seq::<Transaction>::empty());
    }
}

/// The listing of two logs written one after the other is the listing of
/// the first followed by that of the second: no later entry removes or
/// reorders a transfer already listed.
pub proof fn law_listing_of_joined_logs(es1: Seq<WalEntry>, es2: Seq<WalEntry>)
    ensures
        transfers_of(es1 + es2) == transfers_of(es1) + transfers_of(es2),
    decreases es2.len(),
{
    if es2.len() == 0 {
        assert(es1 + es2 =~= es1);
        assert(transfers_of(es1) + transfers_of(es2) =~= transfers_of(es1));
    } else {
        law_listing_of_joined_logs(es1, es2.drop_last());
        assert((es1 + es2).drop_last() =~= es1 + es2.drop_last());
        assert((es1 + es2).last() == es2.last());
        let a = transfers_of(es1);
        let b = transfers_of(es2.drop_last());
        match es2.last() {
            WalEntry::Transfer(tx) => {
                assert((a + b).push(tx) =~= a + b.push(tx));
            },
            WalEntry::CreateProfile { .. } => {},
        }
    }
}

// ---------------------------------------------------------------------------
// The signed message.

/// Digit `i` of `x` written in base 256, counting from the least significant.
pub open spec fn base256_digit(x: nat, i: nat) -> nat
    decreases i,
{
    if i == 0 {
        x % 256
    } else {
        base256_digit(x / 256, (i - 1) as nat)
    }
}

/// The eight base-256 digits of `x`, least significant first.
pub open spec fn digits_low_first(x: u64) -> Seq<u8> {
    Seq::new(8, |i: int| base256_digit(x as nat, i as nat) as u8)
}

/// The eight bytes of a message starting at `offset`.
pub open spec fn field8(m: Seq<u8>, offset: int) -> Seq<u8> {
    m.subrange(offset, offset + 8)
}

proof fn lemma_le_bytes_are_low_digits_first(x: u64)
    ensures
        spec_u64_to_le_bytes(x) == digits_low_first(x),
{
    spec_u64_to_le_bytes_to_open(x);
    reveal_with_fuel(base256_digit, 8);
    assert((x & 0xff) == x % 256) by (bit_vector);
    assert(((x >> 8) & 0xff) == (x / 256) % 256) by (bit_vector);
    assert(((x >> 16) & 0xff) == ((x / 256) / 256) % 256) by (bit_vector);
    assert(((x >> 24) & 0xff) == (((x / 256) / 256) / 256) % 256) by (bit_vector);
    assert(((x >> 32) & 0xff) == ((((x / 256) / 256) / 256) / 256) % 256) by (bit_vector);
    assert(((x >> 40) & 0xff) == (((((x / 256) / 256) / 256) / 256) / 256) % 256)
        by (bit_vector);
    assert(((x >> 48) & 0xff) == ((((((x / 256) / 256) / 256) / 256) / 256) / 256) % 256)
        by (bit_vector);
    assert(((x >> 56) & 0xff) == (((((((x / 256) / 256) / 256) / 256) / 256) / 256) / 256)
        % 256) by (bit_vector);
    assert(spec_u64_to_le_bytes(x) =~= digits_low_first(x));
}

/// The message a transfer is signed over: the sender's name, then the
/// receiver's name, then amount, timestamp (as its 64-bit two's complement)
/// and sequence number, each as eight bytes with the least significant byte
/// first.
pub proof fn law_transfer_message_layout(
    s: Seq<u8>,
    r: Seq<u8>,
    amount: u64,
    timestamp: i64,
    sequence: u64,
)
    ensures
        spec_transfer_message(s, r, amount, timestamp, sequence).len() == s.len() + r.len() + 24,
        spec_transfer_message(s, r, amount, timestamp, sequence).take(s.len() as int) == s,
        spec_transfer_message(s, r, amount, timestamp, sequence).subrange(
            s.len() as int,
            (s.len() + r.len()) as int,
        ) == r,
        field8(spec_transfer_message(s, r, amount, timestamp, sequence), (s.len() + r.len()) as int)
            == digits_low_first(amount),
        field8(spec_transfer_message(s, r, amount, timestamp, sequence), (s.len() + r.len() + 8) as int)
            == digits_low_first(timestamp as u64),
        field8(spec_transfer_message(s, r, amount, timestamp, sequence), (s.len() + r.len() + 16) as int)
            == digits_low_first(sequence),
{
    lemma_le_bytes_are_low_digits_first(amount);
    lemma_le_bytes_are_low_digits_first(timestamp as u64);
    lemma_le_bytes_are_low_digits_first(sequence);
    let m = spec_transfer_message(s, r, amount, timestamp, sequence);
    let n = (s.len() + r.len()) as int;
    assert(m.take(s.len() as int) =~= s);
    assert(m.subrange(s.len() as int, n) =~= r);
    assert(field8(m, n) =~= digits_low_first(amount));
    assert(field8(m, n + 8) =~= digits_low_first(timestamp as u64));
    assert(field8(m, n + 16) =~= digits_low_first(sequence));
}

// ---------------------------------------------------------------------------
// Submitting transfers and creating accounts.

/// A transfer passes the checks exactly when its sender's account holds at
/// least the amount and its receiver's name belongs to an account whose key
/// decodes; what passes is logged as a transaction from the sender's key to
/// that account's key, carrying the request's amount, timestamp, signature
/// and sequence number.
pub proof fn law_transfer_checks(a: AccountsView, task: VerificationTask)
    ensures
        spec_prepare(a, task) is Ok <==> (a.balances.contains_key(task.sender_pubkey@)
            && task.amount <= a.balances[task.sender_pubkey@] && a.name_to_key.contains_key(
            task.receiver_name@,
        ) && spec_key_decompresses(a.name_to_key[task.receiver_name@]@)),
        spec_prepare(a, task) matches Ok(tx) ==> tx.sender == task.sender_pubkey && tx.receiver
            == a.name_to_key[task.receiver_name@] && tx.amount == task.amount && tx.timestamp
            == task.timestamp && tx.signature == task.signature && tx.sequence == task.sequence,
{
}

/// The checks on a transfer read no balance but the sender's: changing any
/// other account's balance, the receiver's included, changes neither whether
/// the transfer passes nor what is logged for it.
pub proof fn law_checks_ignore_other_balances(
    a: AccountsView,
    task: VerificationTask,
    k: Seq<u8>,
    v: u64,
)
    requires
        k != task.sender_pubkey@,
    ensures
        spec_prepare(AccountsView { balances: a.balances.insert(k, v), ..a }, task)
            == spec_prepare(a, task),
{
}

/// A transfer in its turn, which its sender can afford, to a registered
/// receiver other than the sender whose key decodes and whose balance has
/// room for the amount, is logged; once the write succeeds the sender has
/// paid the amount, the receiver has received it, the sender's sequence
/// number is the transfer's, and no other balance has changed.
pub proof fn law_affordable_transfer_is_logged_and_applied(l: LedgerView, task: VerificationTask)
    requires
        task.sequence == cur_seq(l.accounts, task.sender_pubkey@) + 1,
        l.accounts.balances.contains_key(task.sender_pubkey@),
        task.amount <= l.accounts.balances[task.sender_pubkey@],
        l.accounts.name_to_key.contains_key(task.receiver_name@),
        spec_key_decompresses(l.accounts.name_to_key[task.receiver_name@]@),
        l.accounts.name_to_key[task.receiver_name@]@ != task.sender_pubkey@,
        l.accounts.balances.contains_key(l.accounts.name_to_key[task.receiver_name@]@),
        l.accounts.balances[l.accounts.name_to_key[task.receiver_name@]@] + task.amount
            <= u64::MAX,
    ensures
        spec_add(l, task).1.action matches LedgerAction::Write(WalEntry::Transfer(tx))
            && tx.sender == task.sender_pubkey && tx.receiver
            == l.accounts.name_to_key[task.receiver_name@] && tx.amount == task.amount,
        spec_complete(spec_add(l, task).0, WalOutcome::Written).0.accounts.balances
            == l.accounts.balances.insert(
            task.sender_pubkey@,
            (l.accounts.balances[task.sender_pubkey@] - task.amount) as u64,
        ).insert(
            l.accounts.name_to_key[task.receiver_name@]@,
            (l.accounts.balances[l.accounts.name_to_key[task.receiver_name@]@]
                + task.amount) as u64,
        ),
        spec_complete(spec_add(l, task).0, WalOutcome::Written).0.accounts.sequences
            == l.accounts.sequences.insert(task.sender_pubkey@, task.sequence),
{
    let s = task.sender_pubkey@;
    let r = l.accounts.name_to_key[task.receiver_name@]@;
    let b = l.accounts.balances;
    let l1 = spec_add(l, task).0;
    let tx = spec_prepare(l.accounts, task)->Ok_0;
    assert(l1.in_flight == Some(InFlight::Transfer { tx, drained: false }));
    let a2 = spec_apply(l.accounts, tx);
    assert(spec_complete(l1, WalOutcome::Written).0.accounts == a2);
    assert(a2.balances =~= b.insert(s, (b[s] - task.amount) as u64).insert(
        r,
        (b[r] + task.amount) as u64,
    ));
}

/// A transfer ahead of its turn by at most the allowed gap, measured from the
/// sender's last applied sequence number, with no waiting transfer of the
/// same number and room in the sender's queue, waits: it joins the queue and
/// its client is told it is queued; nothing else changes.
pub proof fn law_early_transfer_waits(l: LedgerView, task: VerificationTask)
    requires
        cur_seq(l.accounts, task.sender_pubkey@) + 1 < task.sequence,
        task.sequence <= cur_seq(l.accounts, task.sender_pubkey@) + MAX_FUTURE_GAP,
        !has_pending(l.pending, task.sender_pubkey@, task.sequence),
        queue_of(l.pending, task.sender_pubkey@).len() < MAX_PENDING_PER_SENDER,
    ensures
        spec_add(l, task).0 == (LedgerView { pending: l.pending.push(task), ..l }),
        spec_add(l, task).1 == reply(Ok(LedgerConfirm::Queued)),
{
}

/// A transfer is refused as too far ahead exactly when its sequence number
/// exceeds the sender's last applied one by more than the allowed gap.
pub proof fn law_too_far_is_relative_to_the_sender(l: LedgerView, task: VerificationTask)
    ensures
        spec_add(l, task).1 == reply(Err(TransactionError::SequenceTooFar)) <==> task.sequence
            > cur_seq(l.accounts, task.sender_pubkey@) + MAX_FUTURE_GAP,
{
}

/// How a submitted transfer is refused, by its sequence number `q` against
/// the sender's last applied one `c`: as old exactly when `q <= c`; as a
/// duplicate exactly when `c + 1 < q <= c + MAX_FUTURE_GAP` and a waiting
/// transfer of the sender has `q`; for a full queue exactly when, in that
/// window and with no such duplicate, the sender already has
/// `MAX_PENDING_PER_SENDER` transfers waiting.
pub proof fn law_refusals_by_sequence(l: LedgerView, task: VerificationTask)
    ensures
        spec_add(l, task).1 == reply(Err(TransactionError::OldSequence)) <==> task.sequence
            <= cur_seq(l.accounts, task.sender_pubkey@),
        spec_add(l, task).1 == reply(Err(TransactionError::DuplicateSequence)) <==> (cur_seq(
            l.accounts,
            task.sender_pubkey@,
        ) + 1 < task.sequence <= cur_seq(l.accounts, task.sender_pubkey@) + MAX_FUTURE_GAP
            && has_pending(l.pending, task.sender_pubkey@, task.sequence)),
        spec_add(l, task).1 == reply(Err(TransactionError::QueueFull)) <==> (cur_seq(
            l.accounts,
            task.sender_pubkey@,
        ) + 1 < task.sequence <= cur_seq(l.accounts, task.sender_pubkey@) + MAX_FUTURE_GAP
            && !has_pending(l.pending, task.sender_pubkey@, task.sequence) && queue_of(
            l.pending,
            task.sender_pubkey@,
        ).len() >= MAX_PENDING_PER_SENDER),
{
}

/// Asking for an account under a name already in use is refused with
/// `AccountAlreadyExists` and leaves the ledger as it was, whatever key,
/// balance and sequence number come with it.
pub proof fn law_taken_name_is_refused(
    l: LedgerView,
    name: String,
    balance: u64,
    key: [u8; 32],
    last_sequence: u64,
)
    requires
        l.accounts.name_to_key.contains_key(name@),
    ensures
        spec_profile(l, name, balance, key, last_sequence) == (l, finish(
            Err(TransactionError::AccountAlreadyExists),
        )),
{
}

/// With no write awaited, asking for an account under a name already in use
/// and then reporting any outcome of a write leaves the accounts as they
/// were: the name keeps its key, and every balance and sequence number stays.
pub proof fn law_taken_name_keeps_its_account(
    l: LedgerView,
    name: String,
    balance: u64,
    key: [u8; 32],
    last_sequence: u64,
    o: WalOutcome,
)
    requires
        l.in_flight is None,
        l.accounts.name_to_key.contains_key(name@),
    ensures
        spec_complete(spec_profile(l, name, balance, key, last_sequence).0, o).0.accounts
            == l.accounts,
{
}

} // verus!
