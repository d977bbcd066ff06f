//! The values that statements compute with.

use vstd::prelude::*;
use vstd::utf8::encode_utf8;
use vstd::utf8::encode_utf8_decode_utf8;
use crate::array::duplicate_items;
use crate::number::Number;
use crate::number::NumberView;
use crate::order::bytes_less;
use crate::order::lemma_lex_asymmetric;
use crate::order::lemma_lex_total;
use crate::order::lemma_lex_transitive;
use crate::order::lex_lt;
use crate::strings::same_text;
use crate::time::Datetime;
use crate::time::Duration;
use crate::time::timestamp_in_range;
use crate::time::NANOS_PER_SEC;

verus! {

/// What a `RecordIdKey` stands for.
pub enum KeyView {
    String(Seq<char>),
    Integer(i64),
    Object(Seq<(Seq<char>, ValueView)>),
    Array(Seq<ValueView>),
}

/// What a `Value` stands for: the same tree over mathematical sequences.
#[allow(inconsistent_fields)]
pub enum ValueView {
    Nothing,
    Null,
    Bool(bool),
    Number(NumberView),
    String(Seq<char>),
    Duration { secs: u64, nanos: u32 },
    Datetime { secs: i64, nanos: u32 },
    Uuid(Seq<u8>),
    Array(Seq<ValueView>),
    Object(Seq<(Seq<char>, ValueView)>),
    Bytes(Seq<u8>),
    RecordId { table: Seq<char>, key: KeyView },
}

/// The order of object keys: that of their UTF-8 bytes.
pub open spec fn key_lt(a: Seq<char>, b: Seq<char>) -> bool {
    lex_lt(encode_utf8(a), encode_utf8(b))
}

/// Each key comes strictly before the next, so no key occurs twice.
pub open spec fn keys_ascend(entries: Seq<(Seq<char>, ValueView)>) -> bool {
    forall|i: int, j: int| 0 <= i < j < entries.len() ==> key_lt(entries[i].0, entries[j].0)
}

/// The number of entries at the front whose keys come before `key`: where `key` stands in
/// ascending entries, or would be put.
pub open spec fn rank(entries: Seq<(Seq<char>, ValueView)>, key: Seq<char>) -> int
    decreases entries.len(),
{
    if entries.len() == 0 {
        0
    } else if key_lt(entries[0].0, key) {
        1 + rank(entries.skip(1), key)
    } else {
        0
    }
}

/// The value under `key`, if ascending entries hold one.
pub open spec fn lookup(entries: Seq<(Seq<char>, ValueView)>, key: Seq<char>) -> Option<
    ValueView,
> {
    let i = rank(entries, key);
    if i < entries.len() && entries[i].0 == key {
        Some(entries[i].1)
    } else {
        None
    }
}

/// Ascending entries with `value` under `key`: in place of the old value, if there was one.
pub open spec fn inserted(
    entries: Seq<(Seq<char>, ValueView)>,
    key: Seq<char>,
    value: ValueView,
) -> Seq<(Seq<char>, ValueView)> {
    let i = rank(entries, key);
    if i < entries.len() && entries[i].0 == key {
        entries.update(i, (key, value))
    } else {
        entries.insert(i, (key, value))
    }
}

/// Ascending entries without the entry under `key`.
pub open spec fn removed(entries: Seq<(Seq<char>, ValueView)>, key: Seq<char>) -> Seq<
    (Seq<char>, ValueView),
> {
    let i = rank(entries, key);
    if i < entries.len() && entries[i].0 == key {
        entries.remove(i)
    } else {
        entries
    }
}

impl KeyView {
    pub open spec fn wf(self) -> bool
        decreases self,
    {
        match self {
            KeyView::String(s) => encode_utf8(s).len() <= usize::MAX,
            KeyView::Integer(_) => true,
            KeyView::Object(entries) => {
                &&& entries.len() <= usize::MAX
                &&& keys_ascend(entries)
                &&& forall|i: int|
                    0 <= i < entries.len() ==> encode_utf8(#[trigger] entries[i].0).len()
                        <= usize::MAX
                &&& forall|i: int| 0 <= i < entries.len() ==> (#[trigger] entries[i]).1.wf()
            },
            KeyView::Array(items) => {
                &&& items.len() <= usize::MAX
                &&& forall|i: int| 0 <= i < items.len() ==> (#[trigger] items[i]).wf()
            },
        }
    }
}

impl ValueView {
    /// What every value holds to: numbers, times and identifiers are valid, lengths fit the
    /// machine, and the keys of each object ascend.
    pub open spec fn wf(self) -> bool
        decreases self,
    {
        match self {
            ValueView::Nothing => true,
            ValueView::Null => true,
            ValueView::Bool(_) => true,
            ValueView::Number(n) => n.wf(),
            ValueView::String(s) => encode_utf8(s).len() <= usize::MAX,
            ValueView::Duration { secs, nanos } => nanos < NANOS_PER_SEC,
            ValueView::Datetime { secs, nanos } => timestamp_in_range(secs, nanos),
            ValueView::Uuid(bytes) => bytes.len() == 16,
            ValueView::Array(items) => {
                &&& items.len() <= usize::MAX
                &&& forall|i: int| 0 <= i < items.len() ==> (#[trigger] items[i]).wf()
            },
            ValueView::Object(entries) => {
                &&& entries.len() <= usize::MAX
                &&& keys_ascend(entries)
                &&& forall|i: int|
                    0 <= i < entries.len() ==> encode_utf8(#[trigger] entries[i].0).len()
                        <= usize::MAX
                &&& forall|i: int| 0 <= i < entries.len() ==> (#[trigger] entries[i]).1.wf()
            },
            ValueView::Bytes(bytes) => bytes.len() <= usize::MAX,
            ValueView::RecordId { table, key } => encode_utf8(table).len() <= usize::MAX
                && key.wf(),
        }
    }
}

/// A string of bytes.
#[derive(Debug)]
pub struct Bytes {
    data: Vec<u8>,
}

impl View for Bytes {
    type V = Seq<u8>;

    closed spec fn view(&self) -> Seq<u8> {
        self.data@
    }
}

impl Bytes {
    pub fn new(data: Vec<u8>) -> (bytes: Bytes)
        ensures
            bytes@ == data@,
    {
        Bytes { data }
    }

    pub fn as_slice(&self) -> (data: &[u8])
        ensures
            data@ == self@,
    {
        self.data.as_slice()
    }

    pub fn into_inner(self) -> (data: Vec<u8>)
        ensures
            data@ == self@,
    {
        self.data
    }
}

/// A universally unique identifier: sixteen bytes.
#[derive(Clone, Copy, Debug)]
pub struct Uuid {
    bytes: [u8; 16],
}

impl View for Uuid {
    type V = Seq<u8>;

    closed spec fn view(&self) -> Seq<u8> {
        self.bytes@
    }
}

impl Uuid {
    pub fn from_bytes(bytes: [u8; 16]) -> (uuid: Uuid)
        ensures
            uuid@ == bytes@,
    {
        Uuid { bytes }
    }

    pub fn as_bytes(&self) -> (bytes: &[u8; 16])
        ensures
            bytes@ == self@,
    {
        &self.bytes
    }

}

/// A map from keys to values, in the order of the keys.
#[derive(Debug)]
pub struct Object {
    entries: Vec<(String, Value)>,
}

/// The key of a `RecordId`.
#[derive(Debug)]
pub enum RecordIdKey {
    /// A string record id, like in `user:tkwse1j5o0anqjxonvzx`.
    String(String),
    /// A integer record id like in `temperature:17493`
    Integer(i64),
    /// An object record id like in `weather:{ location: 'London', date: d'2022-08-29T08:03:39' }`.
    Object(Object),
    /// An array record id like in `temperature:['London', d'2022-08-29T08:03:39']`.
    Array(Vec<Value>),
}

/// Struct representing a record id.
///
/// Record id's consist of a table name and a key.
/// For example the record id `user:tkwse1j5o0anqjxonvzx` has the table `user` and the key `tkwse1j5o0anqjxonvzx`.
#[derive(Debug)]
pub struct RecordId {
    table: String,
    key: RecordIdKey,
}

#[derive(Debug)]
pub enum Value {
    Nothing,
    Null,
    Bool(bool),
    Number(Number),
    String(String),
    Duration(Duration),
    Datetime(Datetime),
    Uuid(Uuid),
    Array(Vec<Value>),
    Object(Object),
    Bytes(Bytes),
    RecordId(RecordId),
}

/// What a vector of values stands for.
pub open spec fn items_view(items: Seq<Value>) -> Seq<ValueView>
    decreases items,
{
    Seq::new(
        items.len(),
        |i: int|
            if 0 <= i < items.len() {
                items[i]@
            } else {
                ValueView::Nothing
            },
    )
}

/// What a vector of entries stands for.
pub open spec fn entries_view(entries: Seq<(String, Value)>) -> Seq<(Seq<char>, ValueView)>
    decreases entries,
{
    Seq::new(
        entries.len(),
        |i: int|
            if 0 <= i < entries.len() {
                (entries[i].0@, entries[i].1@)
            } else {
                (Seq::empty(), ValueView::Nothing)
            },
    )
}

impl View for Object {
    type V = Seq<(Seq<char>, ValueView)>;

    closed spec fn view(&self) -> Seq<(Seq<char>, ValueView)>
        decreases self,
    {
        entries_view(self.entries@)
    }
}

impl View for RecordIdKey {
    type V = KeyView;

    open spec fn view(&self) -> KeyView
        decreases self,
    {
        match self {
            RecordIdKey::String(s) => KeyView::String(s@),
            RecordIdKey::Integer(i) => KeyView::Integer(*i),
            RecordIdKey::Object(o) => KeyView::Object(o@),
            RecordIdKey::Array(a) => KeyView::Array(items_view(a@)),
        }
    }
}

impl View for RecordId {
    type V = (Seq<char>, KeyView);

    closed spec fn view(&self) -> (Seq<char>, KeyView)
        decreases self,
    {
        (self.table@, self.key@)
    }
}

impl View for Value {
    type V = ValueView;

    open spec fn view(&self) -> ValueView
        decreases self,
    {
        match self {
            Value::Nothing => ValueView::Nothing,
            Value::Null => ValueView::Null,
            Value::Bool(b) => ValueView::Bool(*b),
            Value::Number(n) => ValueView::Number(n@),
            Value::String(s) => ValueView::String(s@),
            Value::Duration(d) => ValueView::Duration { secs: d@.0, nanos: d@.1 },
            Value::Datetime(d) => ValueView::Datetime { secs: d@.0, nanos: d@.1 },
            Value::Uuid(u) => ValueView::Uuid(u@),
            Value::Array(a) => ValueView::Array(items_view(a@)),
            Value::Object(o) => ValueView::Object(o@),
            Value::Bytes(b) => ValueView::Bytes(b@),
            Value::RecordId(r) => ValueView::RecordId { table: r@.0, key: r@.1 },
        }
    }
}

/// Of two different keys one comes before the other.
pub proof fn lemma_key_order_total(a: Seq<char>, b: Seq<char>)
    ensures
        a == b || key_lt(a, b) || key_lt(b, a),
{
    lemma_lex_total(encode_utf8(a), encode_utf8(b));
    encode_utf8_decode_utf8(a);
    encode_utf8_decode_utf8(b);
}

/// A prefix of entries whose keys all come before `key`, followed by one that does not,
/// is as long as the rank of `key`.
pub proof fn lemma_rank_is(entries: Seq<(Seq<char>, ValueView)>, key: Seq<char>, n: int)
    requires
        0 <= n <= entries.len(),
        forall|j: int| 0 <= j < n ==> key_lt(#[trigger] entries[j].0, key),
        n < entries.len() ==> !key_lt(entries[n].0, key),
    ensures
        rank(entries, key) == n,
    decreases entries.len(),
{
    if entries.len() > 0 && n > 0 {
        let tail = entries.skip(1);
        assert(key_lt(entries[0].0, key));
        assert forall|j: int| 0 <= j < n - 1 implies key_lt(#[trigger] tail[j].0, key) by {
            assert(tail[j] == entries[j + 1]);
        }
        lemma_rank_is(tail, key, n - 1);
    }
}

/// The rank of `key` lies within the entries; before it the keys come before `key`, and
/// from it on, in ascending entries, none does.
pub proof fn lemma_rank_splits(entries: Seq<(Seq<char>, ValueView)>, key: Seq<char>)
    requires
        keys_ascend(entries),
    ensures
        0 <= rank(entries, key) <= entries.len(),
        forall|j: int| 0 <= j < rank(entries, key) ==> key_lt(#[trigger] entries[j].0, key),
        forall|j: int|
            rank(entries, key) <= j < entries.len() ==> !key_lt(#[trigger] entries[j].0, key),
        forall|j: int|
            rank(entries, key) <= j < entries.len() && entries[j].0 != key ==> key_lt(
                key,
                #[trigger] entries[j].0,
            ),
        forall|j: int|
            rank(entries, key) < j < entries.len() ==> key_lt(key, #[trigger] entries[j].0),
    decreases entries.len(),
{
    if entries.len() > 0 {
        let tail = entries.skip(1);
        assert forall|i: int, j: int| 0 <= i < j < tail.len() implies key_lt(
            tail[i].0,
            tail[j].0,
        ) by {
            assert(tail[i] == entries[i + 1]);
            assert(tail[j] == entries[j + 1]);
        }
        lemma_rank_splits(tail, key);
        let r = rank(entries, key);
        if key_lt(entries[0].0, key) {
            assert forall|j: int| 0 <= j < r implies key_lt(#[trigger] entries[j].0, key) by {
                if j > 0 {
                    assert(tail[j - 1] == entries[j]);
                }
            }
            assert forall|j: int| r <= j < entries.len() implies !key_lt(
                #[trigger] entries[j].0,
                key,
            ) by {
                assert(tail[j - 1] == entries[j]);
            }
        } else {
            assert forall|j: int| r <= j < entries.len() implies !key_lt(
                #[trigger] entries[j].0,
                key,
            ) by {
                if j > 0 && key_lt(entries[j].0, key) {
                    assert(key_lt(entries[0].0, entries[j].0));
                    lemma_lex_transitive(
                        encode_utf8(entries[0].0),
                        encode_utf8(entries[j].0),
                        encode_utf8(key),
                    );
                }
            }
        }
        assert forall|j: int| r <= j < entries.len() && entries[j].0 != key implies key_lt(
            key,
            #[trigger] entries[j].0,
        ) by {
            lemma_key_order_total(key, entries[j].0);
        }
        assert forall|j: int| r < j < entries.len() implies key_lt(
            key,
            #[trigger] entries[j].0,
        ) by {
            lemma_key_order_total(key, entries[j].0);
            if entries[j].0 == key {
                assert(key_lt(entries[r].0, entries[j].0));
            }
        }
    }
}

/// Putting an entry into ascending entries leaves them ascending.
pub proof fn lemma_inserted_ascends(
    entries: Seq<(Seq<char>, ValueView)>,
    key: Seq<char>,
    value: ValueView,
)
    requires
        keys_ascend(entries),
    ensures
        keys_ascend(inserted(entries, key, value)),
{
    lemma_rank_splits(entries, key);
    let r = rank(entries, key);
    let after = inserted(entries, key, value);
    assert forall|i: int, j: int| 0 <= i < j < after.len() implies key_lt(
        after[i].0,
        after[j].0,
    ) by {
        if r < entries.len() && entries[r].0 == key {
            assert(after[i].0 == entries[i].0);
            assert(after[j].0 == entries[j].0);
        } else {
            if j < r {
                assert(after[i] == entries[i] && after[j] == entries[j]);
            } else if j == r {
                assert(after[i] == entries[i]);
            } else if i < r {
                assert(after[i] == entries[i] && after[j] == entries[j - 1]);
            } else if i == r {
                assert(after[j] == entries[j - 1]);
            } else {
                assert(after[i] == entries[i - 1] && after[j] == entries[j - 1]);
            }
        }
    }
}

/// Taking an entry out of ascending entries leaves them ascending.
pub proof fn lemma_removed_ascends(entries: Seq<(Seq<char>, ValueView)>, key: Seq<char>)
    requires
        keys_ascend(entries),
    ensures
        keys_ascend(removed(entries, key)),
{
    lemma_rank_splits(entries, key);
    let r = rank(entries, key);
    let after = removed(entries, key);
    assert forall|i: int, j: int| 0 <= i < j < after.len() implies key_lt(
        after[i].0,
        after[j].0,
    ) by {
        if r < entries.len() && entries[r].0 == key {
            if j < r {
                assert(after[i] == entries[i] && after[j] == entries[j]);
            } else if i < r {
                assert(after[i] == entries[i] && after[j] == entries[j + 1]);
            } else {
                assert(after[i] == entries[i + 1] && after[j] == entries[j + 1]);
            }
        }
    }
}

/// After an entry was put under a key, that key holds its value and each other key holds
/// what it held.
pub proof fn lemma_lookup_inserted(
    entries: Seq<(Seq<char>, ValueView)>,
    key: Seq<char>,
    value: ValueView,
    other: Seq<char>,
)
    requires
        keys_ascend(entries),
    ensures
        lookup(inserted(entries, key, value), key) == Some(value),
        other != key ==> lookup(inserted(entries, key, value), other) == lookup(entries, other),
{
    lemma_rank_splits(entries, key);
    lemma_rank_splits(entries, other);
    lemma_inserted_ascends(entries, key, value);
    let r = rank(entries, key);
    let after = inserted(entries, key, value);
    let replaced = r < entries.len() && entries[r].0 == key;
    assert(after[r] == (key, value));
    assert(rank(after, key) == r) by {
        assert forall|j: int| 0 <= j < r implies key_lt(#[trigger] after[j].0, key) by {
            assert(after[j] == entries[j]);
        }
        lemma_lex_asymmetric(encode_utf8(key), encode_utf8(key));
        lemma_rank_is(after, key, r);
    }
    if other != key {
        let q = rank(entries, other);
        lemma_key_order_total(key, other);
        if key_lt(key, other) {
            // `other` stands behind `key`
            lemma_lex_asymmetric(encode_utf8(key), encode_utf8(other));
            assert(r <= q) by {
                if q < r {
                    assert(key_lt(entries[q].0, key));
                    lemma_lex_transitive(
                        encode_utf8(entries[q].0),
                        encode_utf8(key),
                        encode_utf8(other),
                    );
                }
            }
            if replaced {
                assert(q > r) by {
                    if q == r {
                        assert(!key_lt(entries[r].0, other));
                    }
                }
                assert forall|j: int| 0 <= j < q implies key_lt(#[trigger] after[j].0, other) by {
                    if j != r {
                        assert(after[j] == entries[j]);
                    }
                }
                if q < entries.len() {
                    assert(after[q] == entries[q]);
                }
                lemma_rank_is(after, other, q);
            } else {
                assert forall|j: int| 0 <= j < q + 1 implies key_lt(
                    #[trigger] after[j].0,
                    other,
                ) by {
                    if j < r {
                        assert(after[j] == entries[j]);
                    } else if j > r {
                        assert(after[j] == entries[j - 1]);
                    }
                }
                if q < entries.len() {
                    assert(after[q + 1] == entries[q]);
                }
                lemma_rank_is(after, other, q + 1);
            }
        } else {
            // `other` stands before `key`
            lemma_lex_asymmetric(encode_utf8(key), encode_utf8(other));
            assert(q <= r) by {
                if r < q {
                    assert(key_lt(entries[r].0, other));
                    if replaced {
                    } else {
                        lemma_key_order_total(key, entries[r].0);
                        lemma_lex_transitive(
                            encode_utf8(key),
                            encode_utf8(entries[r].0),
                            encode_utf8(other),
                        );
                    }
                }
            }
            assert forall|j: int| 0 <= j < q implies key_lt(#[trigger] after[j].0, other) by {
                assert(after[j] == entries[j]);
            }
            if q < r {
                assert(after[q] == entries[q]);
            }
            lemma_rank_is(after, other, q);
        }
    }
}

impl Object {
    /// The view goes entry by entry.
    proof fn lemma_view(&self)
        ensures
            self@.len() == self.entries.len(),
            forall|i: int|
                0 <= i < self.entries.len() ==> #[trigger] self@[i] == (
                    self.entries[i].0@,
                    self.entries[i].1@,
                ),
    {
        reveal_with_fuel(entries_view, 2);
        assert(self@ == entries_view(self.entries@));
    }

    /// The keys ascend, and every value under them is well-formed.
    pub open spec fn wf(&self) -> bool {
        ValueView::Object(self@).wf()
    }

    pub fn new() -> (object: Object)
        ensures
            object@ == Seq::<(Seq<char>, ValueView)>::empty(),
            object.wf(),
    {
        let object = Object { entries: Vec::new() };
        proof {
            object.lemma_view();
        }
        assert(object@ =~= Seq::empty());
        object
    }

    pub fn clear(&mut self)
        ensures
            final(self)@ == Seq::<(Seq<char>, ValueView)>::empty(),
            final(self).wf(),
    {
        self.entries.clear();
        proof {
            self.lemma_view();
        }
        assert(self@ =~= Seq::empty());
    }

    pub fn len(&self) -> (len: usize)
        ensures
            len == self@.len(),
    {
        proof {
            self.lemma_view();
        }
        self.entries.len()
    }

    /// The key of the entry at `index`, counted in the order of the keys.
    pub fn key_at(&self, index: usize) -> (key: &str)
        requires
            index < self@.len(),
        ensures
            key@ == self@[index as int].0,
    {
        proof {
            self.lemma_view();
        }
        self.entries[index].0.as_str()
    }

    /// The value of the entry at `index`, counted in the order of the keys.
    pub fn value_at(&self, index: usize) -> (value: &Value)
        requires
            index < self@.len(),
        ensures
            value@ == self@[index as int].1,
            decreases_to!(self => value),
    {
        proof {
            self.lemma_view();
        }
        &self.entries[index].1
    }

    /// Where `key` stands or would be put, and whether it stands there.
    fn find(&self, key: &str) -> (at: (usize, bool))
        ensures
            at.0 == rank(self@, key@),
            at.0 <= self@.len(),
            at.1 == (at.0 < self@.len() && self@[at.0 as int].0 == key@),
            encode_utf8(key@).len() <= usize::MAX,
    {
        let key_len = key.as_bytes().len();
        assert(encode_utf8(key@).len() == key_len);
        proof {
            self.lemma_view();
        }
        let mut i: usize = 0;
        while i < self.entries.len() && bytes_less(
            self.entries[i].0.as_str().as_bytes(),
            key.as_bytes(),
        )
            invariant
                i <= self.entries.len(),
                self@.len() == self.entries.len(),
                forall|j: int|
                    0 <= j < self.entries.len() ==> #[trigger] self@[j] == (
                        self.entries[j].0@,
                        self.entries[j].1@,
                    ),
                forall|j: int| 0 <= j < i ==> key_lt(#[trigger] self@[j].0, key@),
            decreases self.entries.len() - i,
        {
            i += 1;
        }
        proof {
            lemma_rank_is(self@, key@, i as int);
        }
        let found = i < self.entries.len() && same_text(self.entries[i].0.as_str(), key);
        (i, found)
    }

    pub fn get(&self, key: &str) -> (value: Option<&Value>)
        ensures
            match value {
                Some(v) => lookup(self@, key@) == Some(v@),
                None => lookup(self@, key@) is None,
            },
    {
        let (i, found) = self.find(key);
        proof {
            self.lemma_view();
        }
        if found {
            Some(&self.entries[i].1)
        } else {
            None
        }
    }

    pub fn contains_key(&self, key: &str) -> (contains: bool)
        ensures
            contains == lookup(self@, key@) is Some,
    {
        let (_, found) = self.find(key);
        found
    }

    /// Puts `value` under `key` and returns the value that was there.
    pub fn insert(&mut self, key: String, value: Value) -> (before: Option<Value>)
        requires
            old(self).wf(),
            value.wf(),
        ensures
            final(self)@ == inserted(old(self)@, key@, value@),
            final(self).wf(),
            match before {
                Some(v) => lookup(old(self)@, key@) == Some(v@),
                None => lookup(old(self)@, key@) is None,
            },
    {
        let (i, found) = self.find(key.as_str());
        proof {
            lemma_inserted_ascends(self@, key@, value@);
        }
        let ghost before_entries = self@;
        let ghost before = *self;
        let ghost key_view = key@;
        let ghost value_view = value@;
        proof {
            self.lemma_view();
        }
        let before_value = if found {
            let mut entry = (key, value);
            std::mem::swap(&mut self.entries[i], &mut entry);
            Some(entry.1)
        } else {
            self.entries.insert(i, (key, value));
            None
        };
        proof {
            self.lemma_view();
            assert(self@ =~= inserted(before_entries, key_view, value_view));
            let after = self@;
            assert forall|j: int| 0 <= j < after.len() implies encode_utf8(
                #[trigger] after[j].0,
            ).len() <= usize::MAX && after[j].1.wf() by {
                if j == i {
                    assert(after[j] == (key_view, value_view));
                } else if found || j < i {
                    assert(after[j] == before_entries[j]);
                } else {
                    assert(after[j] == before_entries[j - 1]);
                }
            }
        }
        before_value
    }

    /// Puts `value` under `key` behind all entries, where `key` comes after every key.
    pub fn push_greatest(&mut self, key: String, value: Value)
        requires
            old(self).wf(),
            value.wf(),
            old(self)@.len() > 0 ==> key_lt(old(self)@.last().0, key@),
        ensures
            final(self)@ == old(self)@.push((key@, value@)),
            final(self).wf(),
    {
        let ghost before_entries = self@;
        let ghost key_view = key@;
        let ghost value_view = value@;
        let key_len = key.as_str().as_bytes().len();
        proof {
            self.lemma_view();
        }
        self.entries.push((key, value));
        proof {
            self.lemma_view();
            let after = self@;
            assert(after =~= before_entries.push((key_view, value_view)));
            assert forall|i: int, j: int| 0 <= i < j < after.len() implies key_lt(
                after[i].0,
                after[j].0,
            ) by {
                if j == after.len() - 1 {
                    if i < j - 1 {
                        assert(key_lt(before_entries[i].0, before_entries[j - 1].0));
                        lemma_lex_transitive(
                            encode_utf8(before_entries[i].0),
                            encode_utf8(before_entries[j - 1].0),
                            encode_utf8(key_view),
                        );
                    }
                } else {
                    assert(key_lt(before_entries[i].0, before_entries[j].0));
                }
            }
            assert forall|j: int| 0 <= j < after.len() implies encode_utf8(
                #[trigger] after[j].0,
            ).len() <= usize::MAX && after[j].1.wf() by {
                if j < after.len() - 1 {
                    assert(after[j] == before_entries[j]);
                }
            }
        }
    }

    pub fn remove(&mut self, key: &str) -> (value: Option<Value>)
        requires
            old(self).wf(),
        ensures
            final(self)@ == removed(old(self)@, key@),
            final(self).wf(),
            match value {
                Some(v) => lookup(old(self)@, key@) == Some(v@),
                None => lookup(old(self)@, key@) is None,
            },
    {
        match self.remove_entry(key) {
            Some(entry) => Some(entry.1),
            None => None,
        }
    }

    pub fn remove_entry(&mut self, key: &str) -> (entry: Option<(String, Value)>)
        requires
            old(self).wf(),
        ensures
            final(self)@ == removed(old(self)@, key@),
            final(self).wf(),
            match entry {
                Some(e) => e.0@ == key@ && lookup(old(self)@, key@) == Some(e.1@),
                None => lookup(old(self)@, key@) is None,
            },
    {
        let (i, found) = self.find(key);
        proof {
            lemma_removed_ascends(self@, key@);
        }
        let ghost before_entries = self@;
        proof {
            self.lemma_view();
        }
        if found {
            let entry = self.entries.remove(i);
            proof {
                self.lemma_view();
                assert(self@ =~= removed(before_entries, key@));
                let after = self@;
                assert forall|j: int| 0 <= j < after.len() implies encode_utf8(
                    #[trigger] after[j].0,
                ).len() <= usize::MAX && after[j].1.wf() by {
                    if j < i {
                        assert(after[j] == before_entries[j]);
                    } else {
                        assert(after[j] == before_entries[j + 1]);
                    }
                }
            }
            Some(entry)
        } else {
            None
        }
    }
}

impl Object {
    /// Takes the entry with the greatest key out, where there is an entry.
    pub fn pop_greatest(&mut self) -> (entry: Option<(String, Value)>)
        requires
            old(self).wf(),
        ensures
            final(self).wf(),
            match entry {
                Some(e) => old(self)@.len() > 0 && (e.0@, e.1@) == old(self)@.last() && final(self)@ == old(self)@.drop_last() && e.1.wf(),
                None => old(self)@.len() == 0 && final(self)@ == old(self)@,
            },
    {
        let ghost before_entries = self@;
        proof {
            self.lemma_view();
        }
        let entry = self.entries.pop();
        proof {
            self.lemma_view();
            if entry is Some {
                let after = self@;
                assert(after =~= before_entries.drop_last());
                assert forall|j: int| 0 <= j < after.len() implies encode_utf8(
                    #[trigger] after[j].0,
                ).len() <= usize::MAX && after[j].1.wf() by {
                    assert(after[j] == before_entries[j]);
                }
                assert(before_entries[before_entries.len() - 1].1.wf());
            } else {
                assert(self@ =~= before_entries);
            }
        }
        entry
    }

    /// A copy of the object.
    pub fn duplicate(&self) -> (copy: Object)
        ensures
            copy@ == self@,
        decreases self, 1nat,
    {
        let mut entries: Vec<(String, Value)> = Vec::new();
        let mut i: usize = 0;
        while i < self.entries.len()
            invariant
                i <= self.entries@.len(),
                entries@.len() == i,
                forall|j: int|
                    0 <= j < i ==> (#[trigger] entries@[j]).0@ == self.entries@[j].0@
                        && entries@[j].1@ == self.entries@[j].1@,
            decreases self.entries@.len() - i,
        {
            let key = self.entries[i].0.clone();
            let value = self.entries[i].1.duplicate();
            entries.push((key, value));
            i += 1;
        }
        let copy = Object { entries };
        proof {
            copy.lemma_view();
            self.lemma_view();
            assert(copy@ =~= self@);
        }
        copy
    }
}

impl RecordIdKey {
    pub open spec fn wf(&self) -> bool {
        self@.wf()
    }

    /// A copy of the key.
    pub fn duplicate(&self) -> (copy: RecordIdKey)
        ensures
            copy@ == self@,
        decreases self, 2nat,
    {
        match self {
            RecordIdKey::String(s) => RecordIdKey::String(s.clone()),
            RecordIdKey::Integer(i) => RecordIdKey::Integer(*i),
            RecordIdKey::Object(object) => RecordIdKey::Object(object.duplicate()),
            RecordIdKey::Array(items) => RecordIdKey::Array(duplicate_items(items)),
        }
    }
}

impl Value {
    /// A copy of the value.
    pub fn duplicate(&self) -> (copy: Value)
        ensures
            copy@ == self@,
        decreases self, 0nat,
    {
        match self {
            Value::Nothing => Value::Nothing,
            Value::Null => Value::Null,
            Value::Bool(b) => Value::Bool(*b),
            Value::Number(n) => Value::Number(*n),
            Value::String(s) => Value::String(s.clone()),
            Value::Duration(d) => Value::Duration(*d),
            Value::Datetime(d) => Value::Datetime(*d),
            Value::Uuid(u) => Value::Uuid(*u),
            Value::Array(items) => Value::Array(duplicate_items(items)),
            Value::Object(object) => Value::Object(object.duplicate()),
            Value::Bytes(bytes) => {
                let mut data: Vec<u8> = Vec::new();
                data.extend_from_slice(bytes.as_slice());
                assert(data@ =~= bytes@);
                Value::Bytes(Bytes::new(data))
            },
            Value::RecordId(id) => Value::RecordId(
                RecordId { table: id.table.clone(), key: id.key.duplicate() },
            ),
        }
    }
}

impl RecordId {
    pub open spec fn wf(&self) -> bool {
        encode_utf8(self@.0).len() <= usize::MAX && self@.1.wf()
    }

    /// The record id of the record under `key` in `table`.
    pub fn from_table_key(table: String, key: RecordIdKey) -> (id: RecordId)
        ensures
            id@ == (table@, key@),
    {
        RecordId { table, key }
    }

    pub fn table(&self) -> (table: &str)
        ensures
            table@ == self@.0,
    {
        self.table.as_str()
    }

    pub fn key(&self) -> (key: &RecordIdKey)
        ensures
            key@ == self@.1,
            decreases_to!(self => key),
    {
        &self.key
    }
}

impl Value {
    pub open spec fn wf(&self) -> bool {
        self@.wf()
    }

    pub fn integer(v: i64) -> (value: Value)
        ensures
            value@ == ValueView::Number(NumberView::Integer(v)),
    {
        Value::Number(Number::Integer(v))
    }

    /// The float whose IEEE 754 double-precision form is `bits`.
    pub fn float(bits: u64) -> (value: Value)
        ensures
            value@ == ValueView::Number(NumberView::Float(bits)),
    {
        Value::Number(Number::Float(bits))
    }

    pub fn decimal(v: crate::number::Decimal) -> (value: Value)
        ensures
            value@ == ValueView::Number(NumberView::Decimal(v@)),
    {
        Value::Number(Number::Decimal(v))
    }
}

} // verus!
