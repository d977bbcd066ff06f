//! What holds of transactions: a transaction reads what it wrote, transactions that wrote
//! different keys both commit, and of two that wrote the same key one does not.

use vstd::prelude::*;
use crate::err::ErrorView;
use crate::kvs::tx::commit_fault;
use crate::kvs::tx::store_after_commit;
use crate::kvs::tx::tx_after_commit;
use crate::kvs::tx::Datastore;
use crate::kvs::tx::Transaction;
use crate::kvs::tx::State;
use crate::kvs::tx::StoreView;
use crate::kvs::tx::TxView;

verus! {

/// Whether two transactions wrote no key in common.
pub open spec fn wrote_apart(first: TxView, second: TxView) -> bool {
    forall|key: Seq<u8>| !(first.writes.contains_key(key) && second.writes.contains_key(key))
}

/// A transaction sees under a key what it put there, and under every other key what it
/// saw before.
pub proof fn lemma_reads_own_writes(tx: TxView, key: Seq<u8>, value: Seq<u8>, other: Seq<u8>)
    ensures
        tx.set(key, value).data.contains_key(key),
        tx.set(key, value).data[key] == value,
        !tx.del(key).data.contains_key(key),
        other != key ==> tx.set(key, value).data.contains_key(other) == tx.data.contains_key(
            other,
        ) && (tx.data.contains_key(other) ==> tx.set(key, value).data[other] == tx.data[other]),
        other != key ==> tx.del(key).data.contains_key(other) == tx.data.contains_key(other),
{
}

/// Writing keeps what a transaction holds for later reads in step with what it sees.
pub proof fn lemma_writes_keep_cache(tx: TxView, key: Seq<u8>, value: Seq<u8>)
    requires
        tx.wf(),
    ensures
        tx.set(key, value).wf(),
        tx.del(key).wf(),
{
}

/// A commit counts one commit more and leaves no key written by a commit yet to come.
pub proof fn lemma_commit_keeps_store(store: StoreView, tx: TxView)
    requires
        store.wf(),
    ensures
        store_after_commit(store, tx).wf(),
        store_after_commit(store, tx).sequence >= store.sequence,
{
}

/// A transaction that began when the store was as it is commits: no other commit can
/// have written its keys since.
pub proof fn lemma_alone_commits(store: StoreView, tx: TxView)
    requires
        store.wf(),
        tx.state == State::Open,
        tx.snapshot == store.sequence,
        store.sequence < u64::MAX,
    ensures
        commit_fault(store, tx) is None,
{
}

/// Two transactions that began at the same time and wrote no key in common both commit.
pub proof fn lemma_apart_both_commit(store: StoreView, first: TxView, second: TxView)
    requires
        store.wf(),
        first.state == State::Open,
        second.state == State::Open,
        first.snapshot == store.sequence,
        second.snapshot == store.sequence,
        wrote_apart(first, second),
        store.sequence + 2 <= u64::MAX,
    ensures
        commit_fault(store, first) is None,
        commit_fault(store_after_commit(store, first), second) is None,
        tx_after_commit(store, first).state == State::Committed,
        tx_after_commit(store_after_commit(store, first), second).state == State::Committed,
{
    let after = store_after_commit(store, first);
    if !second.wrote_nothing() {
        assert forall|key: Seq<u8>|
            second.writes.contains_key(key) && after.versions.contains_key(key) implies !(
        #[trigger] after.versions[key] > second.snapshot) by {
            assert(!first.writes.contains_key(key));
            assert(store.versions.contains_key(key));
        }
    }
}

/// Of two transactions that began at the same time and wrote the same key, the one that
/// commits second does not commit: it ends with a conflict, and the store keeps what the
/// first wrote.
pub proof fn lemma_overlap_conflicts(
    store: StoreView,
    first: TxView,
    second: TxView,
    key: Seq<u8>,
)
    requires
        store.wf(),
        first.state == State::Open,
        second.state == State::Open,
        first.snapshot == store.sequence,
        second.snapshot == store.sequence,
        first.writes.contains_key(key),
        second.writes.contains_key(key),
        store.sequence < u64::MAX,
    ensures
        commit_fault(store, first) is None,
        commit_fault(store_after_commit(store, first), second) == Some(ErrorView::Conflict),
        tx_after_commit(store_after_commit(store, first), second).state == State::Cancelled,
        store_after_commit(store_after_commit(store, first), second) == store_after_commit(
            store,
            first,
        ),
{
    let after = store_after_commit(store, first);
    assert(after.versions.contains_key(key));
    assert(after.versions[key] > second.snapshot);
}

/// What a transaction sees does not depend on what the store holds: it is what the
/// transaction saw when it began, with what it wrote itself.
pub proof fn lemma_commit_leaves_others(store: StoreView, committing: TxView)
    ensures
        tx_after_commit(store, committing).data == committing.data,
        tx_after_commit(store, committing).writes == committing.writes,
{
}

/// A transaction that only reads, or is over, leaves the store as it is when it tries to
/// commit.
pub proof fn lemma_idle_commit(store: StoreView, tx: TxView)
    requires
        tx.wrote_nothing() || tx.state != State::Open,
    ensures
        store_after_commit(store, tx) == store,
{
}

/// Two transactions on a store that began when the store was as it is and wrote no key
/// in common both commit, in either order.
pub proof fn lemma_store_commits_apart(
    store: &Datastore,
    first: &Transaction,
    second: &Transaction,
)
    requires
        store.wf(),
        first@.state == State::Open,
        second@.state == State::Open,
        first@.snapshot == store@.sequence,
        second@.snapshot == store@.sequence,
        wrote_apart(first@, second@),
        store@.sequence + 2 <= u64::MAX,
    ensures
        commit_fault(store@, first@) is None,
        commit_fault(store_after_commit(store@, first@), second@) is None,
        commit_fault(store@, second@) is None,
        commit_fault(store_after_commit(store@, second@), first@) is None,
{
    store.lemma_view_wf();
    lemma_apart_both_commit(store@, first@, second@);
    lemma_apart_both_commit(store@, second@, first@);
}

/// Of two transactions on a store that began when the store was as it is and wrote the
/// same key, the one that commits first commits, and the other ends with a conflict and
/// leaves the store as the first made it.
pub proof fn lemma_store_conflicts_on_overlap(
    store: &Datastore,
    first: &Transaction,
    second: &Transaction,
    key: Seq<u8>,
)
    requires
        store.wf(),
        first@.state == State::Open,
        second@.state == State::Open,
        first@.snapshot == store@.sequence,
        second@.snapshot == store@.sequence,
        first@.writes.contains_key(key),
        second@.writes.contains_key(key),
        store@.sequence < u64::MAX,
    ensures
        commit_fault(store@, first@) is None,
        commit_fault(store_after_commit(store@, first@), second@) == Some(ErrorView::Conflict),
        store_after_commit(store_after_commit(store@, first@), second@) == store_after_commit(
            store@,
            first@,
        ),
{
    store.lemma_view_wf();
    lemma_overlap_conflicts(store@, first@, second@, key);
}

} // verus!
