//! How a statement ends: within its time or not, and with what it wrote or without.
//!
//! Running a statement and measuring its time is left to the caller. What is decided
//! here is what becomes of the transaction once the statement is through.

use vstd::prelude::*;
use crate::ast::Timeout;
use crate::err::Error;
use crate::err::ErrorView;
use crate::kvs::tx::commit_fault;
use crate::kvs::tx::store_after_commit;
use crate::kvs::tx::tx_after_commit;
use crate::kvs::tx::Datastore;
use crate::kvs::tx::State;
use crate::kvs::tx::Transaction;
use crate::kvs::tx::TxView;
use crate::time::Duration;

verus! {

/// Whether the first span of time is longer than the second.
pub open spec fn longer(a: (u64, u32), b: (u64, u32)) -> bool {
    a.0 > b.0 || (a.0 == b.0 && a.1 > b.1)
}

/// Whether a statement that took `elapsed` ran out of the time it was given.
pub open spec fn timed_out(elapsed: (u64, u32), timeout: Option<(u64, u32)>) -> bool {
    match timeout {
        Some(most) => longer(elapsed, most),
        None => false,
    }
}

/// The time that a statement was given, as spans of time are seen.
pub open spec fn timeout_view(timeout: Option<Timeout>) -> Option<(u64, u32)> {
    match timeout {
        Some(timeout) => Some(timeout.0@),
        None => None,
    }
}

/// The transaction after a statement ran out of time: cancelled, unless it was over
/// already.
pub open spec fn tx_after_timeout(tx: TxView) -> TxView {
    if tx.state == State::Open || tx.state == State::Failed {
        TxView { state: State::Cancelled, ..tx }
    } else {
        tx
    }
}

/// Checks that a statement that took `elapsed` stayed within the time it was given.
pub fn check_deadline(elapsed: Duration, timeout: Option<Timeout>) -> (result: Result<(), Error>)
    ensures
        match result {
            Ok(_) => !timed_out(elapsed@, timeout_view(timeout)),
            Err(e) => timed_out(elapsed@, timeout_view(timeout)) && e@ == ErrorView::Timeout,
        },
{
    match timeout {
        Some(timeout) => {
            let most = timeout.0;
            if elapsed.secs() > most.secs() || (elapsed.secs() == most.secs()
                && elapsed.subsec_nanos() > most.subsec_nanos()) {
                Err(Error::Timeout)
            } else {
                Ok(())
            }
        },
        None => Ok(()),
    }
}

/// Ends a statement that took `elapsed`. Where it ran out of the time it was given, its
/// transaction is cancelled, the store stays as it was, and the error is `Timeout`.
/// Else its transaction commits, if it can.
pub fn conclude(
    txn: &mut Transaction,
    store: &mut Datastore,
    elapsed: Duration,
    timeout: Option<Timeout>,
) -> (result: Result<(), Error>)
    requires
        old(txn).wf(),
        old(store).wf(),
    ensures
        final(txn).wf(),
        final(store).wf(),
        timed_out(elapsed@, timeout_view(timeout)) ==> final(store)@ == old(store)@ && final(txn)@
            == tx_after_timeout(old(txn)@) && result is Err && result->Err_0@
            == ErrorView::Timeout,
        !timed_out(elapsed@, timeout_view(timeout)) ==> final(store)@ == store_after_commit(
            old(store)@,
            old(txn)@,
        ) && final(txn)@ == tx_after_commit(old(store)@, old(txn)@) && match result {
            Ok(_) => commit_fault(old(store)@, old(txn)@) is None,
            Err(e) => commit_fault(old(store)@, old(txn)@) == Some(e@),
        },
{
    match check_deadline(elapsed, timeout) {
        Ok(_) => txn.commit(store),
        Err(e) => {
            match txn.cancel() {
                Ok(_) => {},
                Err(_) => {},
            }
            Err(e)
        },
    }
}

/// Whether a statement is run again after it failed with `error`: the error is a
/// conflict, and the statement was not yet tried `most` times.
pub fn runs_again(error: &Error, tried: u32, most: u32) -> (again: bool)
    ensures
        again == (error@ is Conflict && tried < most),
{
    error.is_retriable() && tried < most
}

} // verus!
