//! A store of byte strings in memory, and transactions over it.
//!
//! A transaction works on its own copy of what the store held when it began. What it
//! writes is kept apart, and put into the store when it commits. The store counts its
//! commits and remembers for each key the commit that wrote it last; a transaction that
//! wrote a key which another has written since it began does not commit.

use vstd::prelude::*;
use crate::err::Error;
use crate::err::ErrorView;
use crate::kvs::table::as_map;
use crate::kvs::table::ascending;
use crate::kvs::table::lemma_value_of_entry;
use crate::kvs::table::lemma_value_of_with;
use crate::kvs::table::lemma_value_of_without;
use crate::kvs::table::lower_bound;
use crate::kvs::table::value_of;
use crate::kvs::table::Table;
use crate::order::is_prefix;
use crate::order::lex_le;
use crate::order::lex_lt;

verus! {

/// What a store holds: under each key a value, for each key that was ever written the
/// number of the commit that wrote it last, and the number of commits so far.
pub struct StoreView {
    pub data: Map<Seq<u8>, Seq<u8>>,
    pub versions: Map<Seq<u8>, u64>,
    pub sequence: u64,
}

/// An ordered store of byte strings in memory.
pub struct Datastore {
    data: Table<Vec<u8>>,
    versions: Table<u64>,
    sequence: u64,
}

/// How far a transaction has come.
#[derive(Clone, Copy, PartialEq, Eq, Structural, Debug)]
pub enum State {
    /// The transaction reads and writes.
    Open,
    /// What the transaction wrote is in the store.
    Committed,
    /// What the transaction wrote is dropped.
    Cancelled,
    /// A statement failed in the transaction, which can now only be cancelled.
    Failed,
}

/// What a transaction stands for: what it sees under each key, what it wrote (a value,
/// or nothing for a key that it deleted), and when it began.
pub struct TxView {
    pub state: State,
    pub writable: bool,
    pub snapshot: u64,
    pub data: Map<Seq<u8>, Seq<u8>>,
    pub writes: Map<Seq<u8>, Option<Seq<u8>>>,
    pub cache: Map<Seq<u8>, Seq<u8>>,
}

/// A transaction over a store.
pub struct Transaction {
    state: State,
    writable: bool,
    snapshot: u64,
    data: Table<Vec<u8>>,
    writes: Table<Option<Vec<u8>>>,
    cache: Table<Vec<u8>>,
}

/// The values of a store after `writes` were put into it.
pub open spec fn applied(
    data: Map<Seq<u8>, Seq<u8>>,
    writes: Map<Seq<u8>, Option<Seq<u8>>>,
) -> Map<Seq<u8>, Seq<u8>> {
    Map::new(
        |key: Seq<u8>|
            if writes.contains_key(key) {
                writes[key] is Some
            } else {
                data.contains_key(key)
            },
        |key: Seq<u8>|
            if writes.contains_key(key) {
                writes[key]->Some_0
            } else {
                data[key]
            },
    )
}

/// The commits that wrote each key last, after the commit `sequence` wrote `writes`.
pub open spec fn stamped(
    versions: Map<Seq<u8>, u64>,
    writes: Map<Seq<u8>, Option<Seq<u8>>>,
    sequence: u64,
) -> Map<Seq<u8>, u64> {
    Map::new(
        |key: Seq<u8>| writes.contains_key(key) || versions.contains_key(key),
        |key: Seq<u8>|
            if writes.contains_key(key) {
                sequence
            } else {
                versions[key]
            },
    )
}

/// Whether a key of `writes` was written by a commit after `snapshot`.
pub open spec fn conflicts(
    versions: Map<Seq<u8>, u64>,
    snapshot: u64,
    writes: Map<Seq<u8>, Option<Seq<u8>>>,
) -> bool {
    exists|key: Seq<u8>|
        writes.contains_key(key) && versions.contains_key(key) && #[trigger] versions[key]
            > snapshot
}

impl StoreView {
    /// No key was written by a commit that is yet to come.
    pub open spec fn wf(self) -> bool {
        forall|key: Seq<u8>| #[trigger]
            self.versions.contains_key(key) ==> self.versions[key] <= self.sequence
    }

    /// The store after a commit put `writes` into it.
    pub open spec fn committed(self, writes: Map<Seq<u8>, Option<Seq<u8>>>) -> StoreView {
        StoreView {
            data: applied(self.data, writes),
            versions: stamped(self.versions, writes, (self.sequence + 1) as u64),
            sequence: (self.sequence + 1) as u64,
        }
    }
}

/// Why a transaction does not commit to a store: it is over; or it wrote a key that a
/// commit has written since it began; or the store cannot count another commit. A
/// transaction that wrote nothing commits whatever the store holds.
pub open spec fn commit_fault(store: StoreView, tx: TxView) -> Option<ErrorView> {
    if tx.state != State::Open {
        Some(ErrorView::Internal)
    } else if tx.wrote_nothing() {
        None
    } else if conflicts(store.versions, tx.snapshot, tx.writes) {
        Some(ErrorView::Conflict)
    } else if store.sequence == u64::MAX {
        Some(ErrorView::Internal)
    } else {
        None
    }
}

/// The store after a transaction tried to commit to it: with what the transaction wrote,
/// if it committed and wrote something, else as it was.
pub open spec fn store_after_commit(store: StoreView, tx: TxView) -> StoreView {
    if commit_fault(store, tx) is None && !tx.wrote_nothing() {
        store.committed(tx.writes)
    } else {
        store
    }
}

/// The transaction after it tried to commit: committed, or cancelled where it could not
/// commit. A transaction that was over stays as it was.
pub open spec fn tx_after_commit(store: StoreView, tx: TxView) -> TxView {
    if tx.state != State::Open {
        tx
    } else if commit_fault(store, tx) is None {
        TxView { state: State::Committed, ..tx }
    } else {
        TxView { state: State::Cancelled, ..tx }
    }
}

impl TxView {
    /// Whether the transaction wrote no key.
    pub open spec fn wrote_nothing(self) -> bool {
        forall|key: Seq<u8>| !self.writes.contains_key(key)
    }

    /// What the transaction keeps of a value for later reads is what it sees.
    pub open spec fn wf(self) -> bool {
        forall|key: Seq<u8>| #[trigger]
            self.cache.contains_key(key) ==> self.data.contains_key(key) && self.cache[key]
                == self.data[key]
    }

    /// The transaction after it put `value` under `key`.
    pub open spec fn set(self, key: Seq<u8>, value: Seq<u8>) -> TxView {
        TxView {
            data: self.data.insert(key, value),
            writes: self.writes.insert(key, Some(value)),
            cache: self.cache.remove(key),
            ..self
        }
    }

    /// The transaction after it deleted `key`.
    pub open spec fn del(self, key: Seq<u8>) -> TxView {
        TxView {
            data: self.data.remove(key),
            writes: self.writes.insert(key, None),
            cache: self.cache.remove(key),
            ..self
        }
    }

    /// Why the transaction does not write: it is over, or it only reads.
    pub open spec fn write_fault(self) -> Option<ErrorView> {
        if self.state != State::Open {
            Some(ErrorView::Internal)
        } else if !self.writable {
            Some(ErrorView::Unsupported)
        } else {
            None
        }
    }
}

/// The map of ascending entries with a value put under a key is the map with that value
/// put under that key.
pub proof fn lemma_map_with<T>(entries: Seq<(Seq<u8>, T)>, key: Seq<u8>, value: T)
    requires
        ascending(entries),
    ensures
        as_map(crate::kvs::table::with(entries, key, value)) == as_map(entries).insert(
            key,
            value,
        ),
{
    let after = as_map(crate::kvs::table::with(entries, key, value));
    let expected = as_map(entries).insert(key, value);
    assert forall|other: Seq<u8>| #[trigger]
        after.contains_key(other) == expected.contains_key(other) && (after.contains_key(
            other,
        ) ==> after[other] == expected[other]) by {
        lemma_value_of_with(entries, key, value, other);
    }
    assert(after.dom() =~= expected.dom());
    assert(after =~= expected);
}

/// The map of ascending entries without a key is the map without that key.
pub proof fn lemma_map_without<T>(entries: Seq<(Seq<u8>, T)>, key: Seq<u8>)
    requires
        ascending(entries),
    ensures
        as_map(crate::kvs::table::without(entries, key)) == as_map(entries).remove(key),
{
    let after = as_map(crate::kvs::table::without(entries, key));
    let expected = as_map(entries).remove(key);
    assert forall|other: Seq<u8>| #[trigger]
        after.contains_key(other) == expected.contains_key(other) && (after.contains_key(
            other,
        ) ==> after[other] == expected[other]) by {
        lemma_value_of_without(entries, key, other);
    }
    assert(after.dom() =~= expected.dom());
    assert(after =~= expected);
}

/// Whether `found` is what a scan of `data` from `start` up to `end` gives: the entries
/// whose keys lie there, in the order of the keys, and not more than `limit` of them.
pub open spec fn scanned(
    data: Map<Seq<u8>, Seq<u8>>,
    start: Seq<u8>,
    end: Seq<u8>,
    limit: nat,
    found: Seq<(Seq<u8>, Seq<u8>)>,
) -> bool {
    &&& found.len() <= limit
    &&& ascending(found)
    &&& forall|i: int|
        0 <= i < found.len() ==> {
            let entry = #[trigger] found[i];
            &&& lex_le(start, entry.0)
            &&& lex_lt(entry.0, end)
            &&& data.contains_key(entry.0)
            &&& data[entry.0] == entry.1
        }
    &&& forall|key: Seq<u8>| #[trigger]
        data.contains_key(key) && lex_le(start, key) && lex_lt(key, end) ==> (exists|i: int|
            0 <= i < found.len() && found[i].0 == key) || (found.len() == limit && (limit == 0
            || lex_lt(found.last().0, key)))
}

/// What a vector of entries stands for.
pub open spec fn pairs_view(pairs: Seq<(Vec<u8>, Vec<u8>)>) -> Seq<(Seq<u8>, Seq<u8>)> {
    pairs.map_values(|pair: (Vec<u8>, Vec<u8>)| (pair.0@, pair.1@))
}

/// The transaction after it deleted the keys of `found`, one after the other.
pub open spec fn deleted(tx: TxView, found: Seq<(Seq<u8>, Seq<u8>)>) -> TxView
    decreases found.len(),
{
    if found.len() == 0 {
        tx
    } else {
        deleted(tx, found.drop_last()).del(found.last().0)
    }
}

/// A byte string between a prefix and a byte string that starts with the prefix starts
/// with the prefix too.
pub proof fn lemma_between_has_prefix(prefix: Seq<u8>, middle: Seq<u8>, key: Seq<u8>)
    requires
        is_prefix(prefix, key),
        lex_le(prefix, middle),
        lex_le(middle, key),
    ensures
        is_prefix(prefix, middle),
    decreases prefix.len(),
{
    if prefix.len() == 0 {
        assert(middle.subrange(0, 0) =~= prefix);
    } else {
        assert(key.subrange(0, prefix.len() as int)[0] == prefix[0]);
        if middle.len() == 0 {
            assert(prefix != middle);
        } else {
            let p = prefix.skip(1);
            let m = middle.skip(1);
            let k = key.skip(1);
            if middle[0] == prefix[0] {
                assert(k.subrange(0, p.len() as int) =~= p) by {
                    assert forall|i: int| 0 <= i < p.len() implies k.subrange(
                        0,
                        p.len() as int,
                    )[i] == p[i] by {
                        assert(key.subrange(0, prefix.len() as int)[i + 1] == prefix[i + 1]);
                    }
                }
                if prefix == middle {
                    assert(p =~= m);
                }
                if middle == key {
                    assert(m =~= k);
                }
                lemma_between_has_prefix(p, m, k);
                assert forall|i: int| 0 <= i < prefix.len() implies middle.subrange(
                    0,
                    prefix.len() as int,
                )[i] == prefix[i] by {
                    if i > 0 {
                        assert(m.subrange(0, p.len() as int)[i - 1] == p[i - 1]);
                    }
                }
                assert(middle.subrange(0, prefix.len() as int) =~= prefix);
            } else {
                if prefix == middle {
                }
                if middle == key {
                }
            }
        }
    }
}

/// A byte string that starts with a prefix does not come before the prefix.
pub proof fn lemma_prefix_comes_first(prefix: Seq<u8>, key: Seq<u8>)
    requires
        is_prefix(prefix, key),
    ensures
        lex_le(prefix, key),
    decreases prefix.len(),
{
    if prefix.len() == 0 {
        if key.len() == 0 {
            assert(prefix =~= key);
        }
    } else {
        assert(key.subrange(0, prefix.len() as int)[0] == prefix[0]);
        let p = prefix.skip(1);
        let k = key.skip(1);
        assert(k.subrange(0, p.len() as int) =~= p) by {
            assert forall|i: int| 0 <= i < p.len() implies k.subrange(0, p.len() as int)[i]
                == p[i] by {
                assert(key.subrange(0, prefix.len() as int)[i + 1] == prefix[i + 1]);
            }
        }
        lemma_prefix_comes_first(p, k);
        if p == k {
            assert(prefix =~= seq![prefix[0]] + p);
            assert(key =~= seq![key[0]] + k);
        }
    }
}

/// Whether `key` starts with `prefix`.
pub fn starts_with(key: &[u8], prefix: &[u8]) -> (starts: bool)
    ensures
        starts == is_prefix(prefix@, key@),
{
    if prefix.len() > key.len() {
        return false;
    }
    let mut i: usize = 0;
    while i < prefix.len()
        invariant
            i <= prefix@.len() <= key@.len(),
            forall|j: int| 0 <= j < i ==> key@[j] == prefix@[j],
        decreases prefix@.len() - i,
    {
        if key[i] != prefix[i] {
            assert(key@.subrange(0, prefix@.len() as int)[i as int] != prefix@[i as int]);
            return false;
        }
        i += 1;
    }
    assert(key@.subrange(0, prefix@.len() as int) =~= prefix@);
    true
}

/// No byte string comes before itself.
proof fn lemma_lex_irreflexive_local(key: Seq<u8>)
    ensures
        !lex_lt(key, key),
{
    crate::order::lemma_lex_irreflexive(key);
}

/// A copy of the bytes.
pub fn copy_bytes(bytes: &[u8]) -> (copy: Vec<u8>)
    ensures
        copy@ == bytes@,
        copy.deep_view() == bytes@,
{
    let mut copy: Vec<u8> = Vec::new();
    copy.extend_from_slice(bytes);
    assert(copy@ =~= bytes@);
    assert(copy.deep_view() =~= bytes@);
    copy
}

/// Bytes stand for themselves.
pub proof fn lemma_bytes_view(bytes: Vec<u8>)
    ensures
        bytes.deep_view() == bytes@,
{
    assert(bytes.deep_view() =~= bytes@);
}

/// Bytes, or none, stand for themselves.
pub proof fn lemma_some_bytes_view(bytes: Vec<u8>)
    ensures
        Some(bytes).deep_view() == Some(bytes@),
{
    lemma_bytes_view(bytes);
}

impl Datastore {
    /// What the store holds.
    pub closed spec fn view(&self) -> StoreView {
        StoreView {
            data: self.data.map(),
            versions: self.versions.map(),
            sequence: self.sequence,
        }
    }

    /// The tables of the store are in order, and no key was written by a commit that is
    /// yet to come.
    pub closed spec fn wf(&self) -> bool {
        &&& self.data.wf()
        &&& self.versions.wf()
        &&& self@.wf()
    }

    /// What a well-formed store holds is well-formed: no key was written by a commit
    /// that is yet to come.
    pub proof fn lemma_view_wf(&self)
        requires
            self.wf(),
        ensures
            self@.wf(),
    {
    }

    /// A store that holds nothing.
    pub fn new() -> (store: Datastore)
        ensures
            store.wf(),
            store@.data == Map::<Seq<u8>, Seq<u8>>::empty(),
            store@.versions == Map::<Seq<u8>, u64>::empty(),
            store@.sequence == 0,
    {
        let store = Datastore { data: Table::new(), versions: Table::new(), sequence: 0 };
        assert(store@.data =~= Map::<Seq<u8>, Seq<u8>>::empty());
        assert(store@.versions =~= Map::<Seq<u8>, u64>::empty());
        store
    }

    /// How many commits the store has seen.
    pub fn sequence(&self) -> (sequence: u64)
        ensures
            sequence == self@.sequence,
    {
        self.sequence
    }

    /// The value that the store holds under `key`.
    pub fn get(&self, key: &[u8]) -> (value: Option<Vec<u8>>)
        requires
            self.wf(),
        ensures
            match value {
                Some(v) => self@.data.contains_key(key@) && self@.data[key@] == v@,
                None => !self@.data.contains_key(key@),
            },
    {
        match self.data.get(key) {
            Some(value) => {
                proof {
                    lemma_bytes_view(*value);
                }
                Some(copy_bytes(value.as_slice()))
            },
            None => None,
        }
    }

    /// Begins a transaction, which sees what the store holds now.
    pub fn begin(&self, writable: bool) -> (tx: Transaction)
        requires
            self.wf(),
        ensures
            tx.wf(),
            tx@ == (TxView {
                state: State::Open,
                writable,
                snapshot: self@.sequence,
                data: self@.data,
                writes: Map::empty(),
                cache: Map::empty(),
            }),
    {
        let mut data: Table<Vec<u8>> = Table::new();
        let mut i: usize = 0;
        let count = self.data.len();
        proof {
            assert(as_map(data.entries()) =~= as_map(self.data.entries().take(0))) by {
                assert(self.data.entries().take(0) =~= data.entries());
            }
        }
        while i < count
            invariant
                i <= count,
                count == self.data.entries().len(),
                self.data.wf(),
                data.wf(),
                data.entries() == self.data.entries().take(i as int),
            decreases count - i,
        {
            let held_value = self.data.value_at(i);
            let key = copy_bytes(self.data.key_at(i).as_slice());
            let value = copy_bytes(held_value.as_slice());
            proof {
                lemma_bytes_view(*held_value);
                lemma_bytes_view(value);
                let all = self.data.entries();
                let held = data.entries();
                assert forall|j: int| 0 <= j < held.len() implies lex_lt(
                    #[trigger] held[j].0,
                    key@,
                ) by {
                    assert(held[j] == all[j]);
                }
                crate::kvs::table::lemma_lower_bound_is(held, key@, held.len() as int);
                assert(crate::kvs::table::with(held, key@, value@) =~= all.take(i + 1));
            }
            data.set(key, value);
            i += 1;
        }
        assert(data.entries() =~= self.data.entries());
        let tx = Transaction {
            state: State::Open,
            writable,
            snapshot: self.sequence,
            data,
            writes: Table::new(),
            cache: Table::new(),
        };
        assert(tx@.writes =~= Map::<Seq<u8>, Option<Seq<u8>>>::empty());
        assert(tx@.cache =~= Map::<Seq<u8>, Seq<u8>>::empty());
        tx
    }
}

impl Transaction {
    /// What the transaction stands for.
    pub closed spec fn view(&self) -> TxView {
        TxView {
            state: self.state,
            writable: self.writable,
            snapshot: self.snapshot,
            data: self.data.map(),
            writes: self.writes.map(),
            cache: self.cache.map(),
        }
    }

    /// The tables of the transaction are in order, and what it keeps for later reads is
    /// what it sees.
    pub closed spec fn wf(&self) -> bool {
        &&& self.data.wf()
        &&& self.writes.wf()
        &&& self.cache.wf()
        &&& self@.wf()
    }

    /// What a well-formed transaction stands for is well-formed: what it keeps for later
    /// reads is what it sees.
    pub proof fn lemma_view_wf(&self)
        requires
            self.wf(),
        ensures
            self@.wf(),
    {
    }

    /// Whether the transaction is neither committed nor cancelled.
    pub fn is_open(&self) -> (open: bool)
        ensures
            open == (self@.state == State::Open),
    {
        self.state == State::Open
    }

    /// Whether the transaction may write.
    pub fn is_writable(&self) -> (writable: bool)
        ensures
            writable == self@.writable,
    {
        self.writable
    }

    /// How far the transaction has come.
    pub fn state(&self) -> (state: State)
        ensures
            state == self@.state,
    {
        self.state
    }

    /// Why the transaction does not write, if it does not.
    fn check_write(&self) -> (result: Result<(), Error>)
        ensures
            match result {
                Ok(_) => self@.write_fault() is None,
                Err(e) => self@.write_fault() == Some(e@),
            },
    {
        if self.state != State::Open {
            Err(Error::Internal)
        } else if !self.writable {
            Err(Error::Unsupported)
        } else {
            Ok(())
        }
    }

    /// The value that the transaction sees under `key`: what it wrote there itself, or
    /// else what the store held when the transaction began.
    pub fn get(&self, key: &[u8]) -> (result: Result<Option<Vec<u8>>, Error>)
        requires
            self.wf(),
        ensures
            match result {
                Ok(Some(v)) => self@.state == State::Open && self@.data.contains_key(key@)
                    && self@.data[key@] == v@,
                Ok(None) => self@.state == State::Open && !self@.data.contains_key(key@),
                Err(e) => self@.state != State::Open && e@ == ErrorView::Internal,
            },
    {
        if self.state != State::Open {
            return Err(Error::Internal);
        }
        match self.data.get(key) {
            Some(value) => {
                proof {
                    lemma_bytes_view(*value);
                }
                Ok(Some(copy_bytes(value.as_slice())))
            },
            None => Ok(None),
        }
    }

    /// Puts `value` under `key`, whether or not a value is there.
    pub fn set(&mut self, key: Vec<u8>, value: Vec<u8>) -> (result: Result<(), Error>)
        requires
            old(self).wf(),
        ensures
            final(self).wf(),
            match result {
                Ok(_) => old(self)@.write_fault() is None && final(self)@ == old(self)@.set(
                    key@,
                    value@,
                ),
                Err(e) => old(self)@.write_fault() == Some(e@) && final(self)@ == old(self)@,
            },
    {
        match self.check_write() {
            Ok(_) => {},
            Err(e) => return Err(e),
        }
        proof {
            lemma_map_with(self.data.entries(), key@, value@);
            lemma_map_with(self.writes.entries(), key@, Some(value@));
            lemma_map_without(self.cache.entries(), key@);
            lemma_bytes_view(value);
        }
        self.cache.remove(key.as_slice());
        let written = copy_bytes(value.as_slice());
        proof {
            lemma_some_bytes_view(written);
        }
        self.writes.set(copy_bytes(key.as_slice()), Some(written));
        self.data.set(key, value);
        Ok(())
    }

    /// Puts `value` under `key`, under which no value may be.
    pub fn put(&mut self, key: Vec<u8>, value: Vec<u8>) -> (result: Result<(), Error>)
        requires
            old(self).wf(),
        ensures
            final(self).wf(),
            match result {
                Ok(_) => old(self)@.write_fault() is None && !old(self)@.data.contains_key(key@)
                    && final(self)@ == old(self)@.set(key@, value@),
                Err(e) => final(self)@ == old(self)@ && match old(self)@.write_fault() {
                    Some(fault) => e@ == fault,
                    None => old(self)@.data.contains_key(key@) && e@
                        == ErrorView::AlreadyExists,
                },
            },
    {
        match self.check_write() {
            Ok(_) => {},
            Err(e) => return Err(e),
        }
        if self.data.contains_key(key.as_slice()) {
            return Err(Error::AlreadyExists);
        }
        self.set(key, value)
    }

    /// Deletes `key`.
    pub fn del(&mut self, key: &[u8]) -> (result: Result<(), Error>)
        requires
            old(self).wf(),
        ensures
            final(self).wf(),
            match result {
                Ok(_) => old(self)@.write_fault() is None && final(self)@ == old(self)@.del(
                    key@,
                ),
                Err(e) => old(self)@.write_fault() == Some(e@) && final(self)@ == old(self)@,
            },
    {
        match self.check_write() {
            Ok(_) => {},
            Err(e) => return Err(e),
        }
        proof {
            lemma_map_without(self.data.entries(), key@);
            lemma_map_with(self.writes.entries(), key@, None::<Seq<u8>>);
            lemma_map_without(self.cache.entries(), key@);
        }
        self.cache.remove(key);
        assert(None::<Vec<u8>>.deep_view() == None::<Seq<u8>>);
        self.writes.set(copy_bytes(key), None);
        self.data.remove(key);
        Ok(())
    }

    /// The entries that the transaction sees from `start` up to `end`, in the order of the
    /// keys, and not more than `limit` of them.
    pub fn getr(&self, start: &[u8], end: &[u8], limit: u32) -> (result: Result<
        Vec<(Vec<u8>, Vec<u8>)>,
        Error,
    >)
        requires
            self.wf(),
        ensures
            match result {
                Ok(found) => self@.state == State::Open && scanned(
                    self@.data,
                    start@,
                    end@,
                    limit as nat,
                    pairs_view(found@),
                ),
                Err(e) => self@.state != State::Open && e@ == ErrorView::Internal,
            },
    {
        if self.state != State::Open {
            return Err(Error::Internal);
        }
        let ghost entries = self.data.entries();
        let from = self.data.lower_bound(start);
        let count = self.data.len();
        let mut found: Vec<(Vec<u8>, Vec<u8>)> = Vec::new();
        let mut i = from;
        proof {
            crate::kvs::table::lemma_lower_bound_splits(entries, start@);
            assert(pairs_view(found@) =~= entries.subrange(from as int, from as int));
        }
        while i < count && found.len() < limit as usize && crate::order::bytes_less(
            self.data.key_at(i).as_slice(),
            end,
        )
            invariant
                from <= i <= count,
                count == entries.len(),
                entries == self.data.entries(),
                self.data.wf(),
                found@.len() == i - from,
                found@.len() <= limit,
                pairs_view(found@) == entries.subrange(from as int, i as int),
                forall|j: int| from <= j < i ==> lex_lt(#[trigger] entries[j].0, end@),
            decreases count - i,
        {
            let value = self.data.value_at(i);
            proof {
                lemma_bytes_view(*value);
            }
            let ghost before = pairs_view(found@);
            found.push((copy_bytes(self.data.key_at(i).as_slice()), copy_bytes(value.as_slice())));
            proof {
                assert(pairs_view(found@) =~= before.push(entries[i as int]));
                assert(entries.subrange(from as int, i + 1) =~= before.push(entries[i as int]));
            }
            i += 1;
        }
        proof {
            let out = pairs_view(found@);
            let data = self@.data;
            assert forall|a: int, b: int| 0 <= a < b < out.len() implies lex_lt(
                out[a].0,
                out[b].0,
            ) by {
                assert(out[a] == entries[from + a]);
                assert(out[b] == entries[from + b]);
            }
            assert forall|j: int| 0 <= j < out.len() implies {
                let entry = #[trigger] out[j];
                &&& lex_le(start@, entry.0)
                &&& lex_lt(entry.0, end@)
                &&& data.contains_key(entry.0)
                &&& data[entry.0] == entry.1
            } by {
                assert(out[j] == entries[from + j]);
                lemma_value_of_entry(entries, from + j);
                crate::order::lemma_lex_total(start@, entries[from + j].0);
            }
            assert forall|key: Seq<u8>| #[trigger]
                data.contains_key(key) && lex_le(start@, key) && lex_lt(key, end@) implies (
            exists|j: int| 0 <= j < out.len() && out[j].0 == key) || (out.len() == limit && (
            limit == 0 || lex_lt(out.last().0, key))) by {
                let at = lower_bound(entries, key);
                crate::kvs::table::lemma_lower_bound_splits(entries, key);
                assert(entries[at].0 == key);
                if at < from {
                    assert(lex_lt(entries[at].0, start@));
                    crate::order::lemma_lex_asymmetric(start@, key);
                    lemma_lex_irreflexive_local(key);
                }
                if at < i {
                    assert(out[at - from] == entries[at]);
                } else {
                    if i < count && out.len() < limit {
                        assert(!lex_lt(entries[i as int].0, end@));
                        if at > i {
                            assert(lex_lt(entries[i as int].0, entries[at].0));
                            crate::order::lemma_lex_transitive(entries[i as int].0, key, end@);
                        }
                    } else if limit > 0 {
                        assert(out.last() == entries[i - 1]);
                        assert(lex_lt(entries[i - 1].0, entries[at].0));
                    }
                }
            }
        }
        Ok(found)
    }

    /// Deletes the keys that the transaction sees from `start` up to `end`, and not more
    /// than `limit` of them.
    pub fn delr(&mut self, start: &[u8], end: &[u8], limit: u32) -> (result: Result<(), Error>)
        requires
            old(self).wf(),
        ensures
            final(self).wf(),
            match result {
                Ok(_) => old(self)@.write_fault() is None && exists|found: Seq<(Seq<u8>, Seq<u8>)>|
                    scanned(old(self)@.data, start@, end@, limit as nat, found) && final(self)@
                        == deleted(old(self)@, found),
                Err(e) => old(self)@.write_fault() == Some(e@) && final(self)@ == old(self)@,
            },
    {
        match self.check_write() {
            Ok(_) => {},
            Err(e) => return Err(e),
        }
        let found = match self.getr(start, end, limit) {
            Ok(found) => found,
            Err(e) => return Err(e),
        };
        let ghost all = pairs_view(found@);
        let mut i: usize = 0;
        proof {
            assert(all.take(0) =~= Seq::<(Seq<u8>, Seq<u8>)>::empty());
        }
        while i < found.len()
            invariant
                i <= found@.len(),
                all == pairs_view(found@),
                self.wf(),
                self@.write_fault() is None,
                self@ == deleted(old(self)@, all.take(i as int)),
            decreases found@.len() - i,
        {
            proof {
                assert(all.take(i + 1).drop_last() =~= all.take(i as int));
                assert(all.take(i + 1).last() == all[i as int]);
            }
            match self.del(found[i].0.as_slice()) {
                Ok(_) => {},
                Err(e) => return Err(e),
            }
            i += 1;
        }
        proof {
            assert(all.take(i as int) =~= all);
        }
        Ok(())
    }

    /// The value that the transaction sees under `key`, which it keeps for later reads.
    pub fn get_cached(&mut self, key: &[u8]) -> (result: Result<Option<Vec<u8>>, Error>)
        requires
            old(self).wf(),
        ensures
            final(self).wf(),
            match result {
                Ok(Some(v)) => old(self)@.state == State::Open && old(self)@.data.contains_key(
                    key@,
                ) && old(self)@.data[key@] == v@ && final(self)@ == (TxView {
                    cache: old(self)@.cache.insert(key@, v@),
                    ..old(self)@
                }),
                Ok(None) => old(self)@.state == State::Open && !old(self)@.data.contains_key(
                    key@,
                ) && final(self)@ == old(self)@,
                Err(e) => old(self)@.state != State::Open && e@ == ErrorView::Internal && final(self)@ == old(self)@,
            },
    {
        if self.state != State::Open {
            return Err(Error::Internal);
        }
        if let Some(held) = self.cache.get(key) {
            proof {
                lemma_bytes_view(*held);
                assert(self@.cache.contains_key(key@));
                assert(self@.cache[key@] == held@);
                assert(self@.cache.insert(key@, held@) =~= self@.cache);
            }
            return Ok(Some(copy_bytes(held.as_slice())));
        }
        match self.data.get(key) {
            Some(value) => {
                let found = copy_bytes(value.as_slice());
                let kept = copy_bytes(value.as_slice());
                proof {
                    lemma_bytes_view(*value);
                    lemma_bytes_view(kept);
                    lemma_map_with(self.cache.entries(), key@, kept@);
                }
                self.cache.set(copy_bytes(key), kept);
                Ok(Some(found))
            },
            None => Ok(None),
        }
    }

    /// Forgets all values kept for later reads.
    pub fn clear_cache(&mut self)
        requires
            old(self).wf(),
        ensures
            final(self).wf(),
            final(self)@ == (TxView { cache: Map::empty(), ..old(self)@ }),
    {
        self.cache = Table::new();
        assert(self@.cache =~= Map::<Seq<u8>, Seq<u8>>::empty());
    }

    /// Forgets the values kept for later reads under the keys that start with `prefix`.
    pub fn clr(&mut self, prefix: &[u8]) -> (result: Result<(), Error>)
        requires
            old(self).wf(),
        ensures
            final(self).wf(),
            match result {
                Ok(_) => old(self)@.state == State::Open && final(self)@ == (TxView {
                    cache: old(self)@.cache.remove_keys(
                        Set::new(|key: Seq<u8>| is_prefix(prefix@, key)),
                    ),
                    ..old(self)@
                }),
                Err(e) => old(self)@.state != State::Open && e@ == ErrorView::Internal && final(self)@ == old(self)@,
            },
    {
        if self.state != State::Open {
            return Err(Error::Internal);
        }
        let ghost before = self@.cache;
        loop
            invariant
                self.wf(),
                self@ == (TxView { cache: self@.cache, ..old(self)@ }),
                before == old(self)@.cache,
                forall|key: Seq<u8>| #[trigger]
                    self@.cache.contains_key(key) ==> before.contains_key(key)
                        && self@.cache[key] == before[key],
                forall|key: Seq<u8>| #[trigger]
                    before.contains_key(key) && !is_prefix(prefix@, key)
                        ==> self@.cache.contains_key(key),
            ensures
                forall|key: Seq<u8>| #[trigger]
                    self@.cache.contains_key(key) ==> !is_prefix(prefix@, key),
            decreases self.cache.entries().len(),
        {
            let at = self.cache.lower_bound(prefix);
            let ghost entries = self.cache.entries();
            proof {
                crate::kvs::table::lemma_lower_bound_splits(entries, prefix@);
            }
            if at < self.cache.len() && starts_with(self.cache.key_at(at).as_slice(), prefix) {
                proof {
                    lemma_map_without(entries, entries[at as int].0);
                }
                self.cache.remove_at(at);
            } else {
                proof {
                    assert forall|key: Seq<u8>| #[trigger]
                        self@.cache.contains_key(key) implies !is_prefix(prefix@, key) by {
                        if is_prefix(prefix@, key) {
                            let j = lower_bound(entries, key);
                            crate::kvs::table::lemma_lower_bound_splits(entries, key);
                            assert(entries[j].0 == key);
                            lemma_prefix_comes_first(prefix@, key);
                            if j < at {
                                assert(lex_lt(entries[j].0, prefix@));
                                crate::order::lemma_lex_asymmetric(prefix@, key);
                                lemma_lex_irreflexive_local(key);
                            }
                            crate::order::lemma_lex_total(prefix@, entries[at as int].0);
                            if j > at {
                                assert(lex_lt(entries[at as int].0, entries[j].0));
                            }
                            lemma_between_has_prefix(prefix@, entries[at as int].0, key);
                        }
                    }
                }
                break ;
            }
        }
        proof {
            assert(self@.cache =~= before.remove_keys(
                Set::new(|key: Seq<u8>| is_prefix(prefix@, key)),
            ));
        }
        Ok(())
    }

    /// Drops what the transaction wrote. A transaction that is committed or cancelled
    /// already cannot be cancelled.
    pub fn cancel(&mut self) -> (result: Result<(), Error>)
        requires
            old(self).wf(),
        ensures
            final(self).wf(),
            match result {
                Ok(_) => (old(self)@.state == State::Open || old(self)@.state == State::Failed)
                    && final(self)@ == (TxView { state: State::Cancelled, ..old(self)@ }),
                Err(e) => old(self)@.state != State::Open && old(self)@.state != State::Failed
                    && e@ == ErrorView::Internal && final(self)@ == old(self)@,
            },
    {
        match self.state {
            State::Open | State::Failed => {
                self.state = State::Cancelled;
                Ok(())
            },
            _ => Err(Error::Internal),
        }
    }

    /// Whether a key that the transaction wrote was written by a commit since the
    /// transaction began.
    fn conflicts_with(&self, store: &Datastore) -> (conflict: bool)
        requires
            self.wf(),
            store.wf(),
        ensures
            conflict == conflicts(store@.versions, self@.snapshot, self@.writes),
    {
        let ghost writes = self.writes.entries();
        let count = self.writes.len();
        let mut i: usize = 0;
        while i < count
            invariant
                i <= count,
                count == writes.len(),
                writes == self.writes.entries(),
                self.writes.wf(),
                store.versions.wf(),
                forall|j: int|
                    0 <= j < i ==> !(store@.versions.contains_key(#[trigger] writes[j].0)
                        && store@.versions[writes[j].0] > self.snapshot),
            decreases count - i,
        {
            let key = self.writes.key_at(i);
            if let Some(version) = store.versions.get(key.as_slice()) {
                if *version > self.snapshot {
                    proof {
                        lemma_value_of_entry(writes, i as int);
                        assert(self@.writes.contains_key(writes[i as int].0));
                        assert(store@.versions[writes[i as int].0] > self@.snapshot);
                    }
                    return true;
                }
            }
            i += 1;
        }
        proof {
            assert forall|key: Seq<u8>|
                self@.writes.contains_key(key) && store@.versions.contains_key(key) implies !(
            #[trigger] store@.versions[key] > self@.snapshot) by {
                let j = lower_bound(writes, key);
                crate::kvs::table::lemma_lower_bound_splits(writes, key);
                assert(value_of(writes, key) is Some);
                assert(writes[j].0 == key);
            }
        }
        false
    }

    /// Puts what the transaction wrote into the store, as the commit `sequence`.
    fn apply_to(&self, store: &mut Datastore, sequence: u64)
        requires
            self.wf(),
            old(store).wf(),
            sequence == old(store)@.sequence + 1,
        ensures
            final(store).wf(),
            final(store)@ == old(store)@.committed(self@.writes),
    {
        let ghost writes = self.writes.entries();
        let ghost before = store@;
        let count = self.writes.len();
        let mut i: usize = 0;
        store.sequence = sequence;
        proof {
            assert(as_map(writes.take(0)) =~= Map::<Seq<u8>, Option<Seq<u8>>>::empty());
            assert(store.data.map() =~= applied(before.data, as_map(writes.take(0))));
            assert(store.versions.map() =~= stamped(
                before.versions,
                as_map(writes.take(0)),
                sequence,
            ));
        }
        while i < count
            invariant
                i <= count,
                count == writes.len(),
                writes == self.writes.entries(),
                self.writes.wf(),
                store.data.wf(),
                store.versions.wf(),
                store.sequence == sequence,
                sequence == before.sequence + 1,
                before.wf(),
                store.data.map() == applied(before.data, as_map(writes.take(i as int))),
                store.versions.map() == stamped(
                    before.versions,
                    as_map(writes.take(i as int)),
                    sequence,
                ),
            decreases count - i,
        {
            let key = self.writes.key_at(i);
            let value = self.writes.value_at(i);
            proof {
                let read = writes.take(i as int);
                let entry = writes[i as int];
                assert forall|j: int| 0 <= j < read.len() implies lex_lt(
                    #[trigger] read[j].0,
                    entry.0,
                ) by {
                    assert(read[j] == writes[j]);
                }
                assert(ascending(read)) by {
                    assert forall|a: int, b: int| 0 <= a < b < read.len() implies lex_lt(
                        read[a].0,
                        read[b].0,
                    ) by {
                        assert(read[a] == writes[a]);
                        assert(read[b] == writes[b]);
                    }
                }
                crate::kvs::table::lemma_lower_bound_is(read, entry.0, read.len() as int);
                assert(crate::kvs::table::with(read, entry.0, entry.1) =~= writes.take(i + 1));
                lemma_map_with(read, entry.0, entry.1);
                lemma_map_with(store.versions.entries(), entry.0, sequence);
                lemma_map_with(store.data.entries(), entry.0, entry.1->Some_0);
                lemma_map_without(store.data.entries(), entry.0);
            }
            let ghost data_before = store.data.map();
            let ghost versions_before = store.versions.map();
            match value {
                Some(bytes) => {
                    proof {
                        lemma_bytes_view(*bytes);
                    }
                    let written = copy_bytes(bytes.as_slice());
                    proof {
                        lemma_bytes_view(written);
                    }
                    store.data.set(copy_bytes(key.as_slice()), written);
                },
                None => {
                    store.data.remove(key.as_slice());
                },
            }
            store.versions.set(copy_bytes(key.as_slice()), sequence);
            proof {
                let read = writes.take(i as int);
                let entry = writes[i as int];
                assert(store.data.map() =~= applied(
                    before.data,
                    as_map(read).insert(entry.0, entry.1),
                ));
                assert(store.versions.map() =~= stamped(
                    before.versions,
                    as_map(read).insert(entry.0, entry.1),
                    sequence,
                ));
            }
            i += 1;
        }
        proof {
            assert(writes.take(i as int) =~= writes);
        }
    }

    /// Puts what the transaction wrote into the store, unless a key that it wrote was
    /// written by a commit since the transaction began. A transaction that could not
    /// commit is cancelled, and the store stays as it was.
    pub fn commit(&mut self, store: &mut Datastore) -> (result: Result<(), Error>)
        requires
            old(self).wf(),
            old(store).wf(),
        ensures
            final(self).wf(),
            final(store).wf(),
            final(store)@ == store_after_commit(old(store)@, old(self)@),
            final(self)@ == tx_after_commit(old(store)@, old(self)@),
            match result {
                Ok(_) => commit_fault(old(store)@, old(self)@) is None,
                Err(e) => commit_fault(old(store)@, old(self)@) == Some(e@),
            },
    {
        if self.state != State::Open {
            return Err(Error::Internal);
        }
        if self.writes.len() == 0 {
            proof {
                assert forall|key: Seq<u8>| !self@.writes.contains_key(key) by {}
            }
            self.state = State::Committed;
            return Ok(());
        }
        proof {
            lemma_value_of_entry(self.writes.entries(), 0);
            assert(self@.writes.contains_key(self.writes.entries()[0].0));
        }
        if self.conflicts_with(store) {
            self.state = State::Cancelled;
            return Err(Error::Conflict);
        }
        if store.sequence == u64::MAX {
            self.state = State::Cancelled;
            return Err(Error::Internal);
        }
        let sequence = store.sequence + 1;
        self.apply_to(store, sequence);
        self.state = State::Committed;
        Ok(())
    }

    /// Marks the transaction as failed: from now on it can only be cancelled.
    pub fn fail(&mut self)
        requires
            old(self).wf(),
        ensures
            final(self).wf(),
            final(self)@ == if old(self)@.state == State::Open {
                TxView { state: State::Failed, ..old(self)@ }
            } else {
                old(self)@
            },
    {
        if self.state == State::Open {
            self.state = State::Failed;
        }
    }
}

} // verus!
