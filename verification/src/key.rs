//! The layout of keys in the key-value store.
//!
//! A key starts with a byte that tells its category. Behind it stand the names that lead
//! to what the key stands for: namespace, database, table, and so on. A name is written as
//! its UTF-8 bytes, a zero byte inside it as the two bytes 0 and 255, and a single zero
//! byte to end it. Numbers are written in eight bytes, most significant first. So keys
//! sort as the names and numbers in them do, and all keys of a category that share the
//! names before the last stand next to each other.

use vstd::prelude::*;
use vstd::utf8::encode_utf8;
use crate::codec::key_wire;
use crate::value::KeyView;
use crate::value::RecordIdKey;

verus! {

/// The category of the keys under which namespaces are defined.
pub const NAMESPACE: u8 = 1;

/// The category of the keys under which databases are defined.
pub const DATABASE: u8 = 2;

/// The category of the keys under which tables are defined.
pub const TABLE: u8 = 3;

/// The category of the keys under which the fields of tables are defined.
pub const FIELD: u8 = 4;

/// The category of the keys under which the indexes of tables are defined.
pub const INDEX: u8 = 5;

/// The category of the keys under which records are kept.
pub const RECORD: u8 = 6;

/// The category of the keys under which users are defined.
pub const USER: u8 = 7;

/// The category of the keys under which tokens are defined.
pub const TOKEN: u8 = 8;

/// The category of the keys under which changes to tables are kept.
pub const CHANGEFEED: u8 = 9;

/// Bytes with each zero byte written as the two bytes 0 and 255.
pub open spec fn escaped(bytes: Seq<u8>) -> Seq<u8>
    decreases bytes.len(),
{
    if bytes.len() == 0 {
        Seq::empty()
    } else if bytes[0] == 0 {
        seq![0u8, 255u8] + escaped(bytes.skip(1))
    } else {
        seq![bytes[0]] + escaped(bytes.skip(1))
    }
}

/// A byte string in a key: its bytes, zero bytes escaped, and a zero byte at the end.
pub open spec fn bytes_part(bytes: Seq<u8>) -> Seq<u8> {
    escaped(bytes) + seq![0u8]
}

/// A name in a key.
pub open spec fn text_part(text: Seq<char>) -> Seq<u8> {
    bytes_part(encode_utf8(text))
}

/// The `width` low bytes of `n`, most significant first.
pub open spec fn be_bytes(n: nat, width: nat) -> Seq<u8>
    decreases width,
{
    if width == 0 {
        Seq::empty()
    } else {
        be_bytes(n / 256, (width - 1) as nat).push((n % 256) as u8)
    }
}

/// An unsigned number in a key: eight bytes, most significant first.
pub open spec fn u64_part(n: u64) -> Seq<u8> {
    be_bytes(n as nat, 8)
}

/// A signed number in a key: moved up by 2 to the power 63, so that negative numbers
/// come first, and then written as an unsigned number.
pub open spec fn i64_part(n: i64) -> Seq<u8> {
    be_bytes((n + 0x8000_0000_0000_0000) as nat, 8)
}

/// The key of a record inside a key of the store: a byte for its kind, and then a whole
/// number, a text, or the wire form of an array or an object as a byte string.
pub open spec fn id_part(id: KeyView) -> Seq<u8> {
    match id {
        KeyView::Integer(i) => seq![1u8] + i64_part(i),
        KeyView::String(s) => seq![2u8] + text_part(s),
        KeyView::Array(_) => seq![3u8] + bytes_part(key_wire(id)),
        KeyView::Object(_) => seq![4u8] + bytes_part(key_wire(id)),
    }
}

/// The level at which a user or a token is defined.
pub enum Level {
    Root,
    Namespace(Seq<char>),
    Database(Seq<char>, Seq<char>),
}

/// A level in a key: a byte for its kind, and the names that lead to it.
pub open spec fn level_part(level: Level) -> Seq<u8> {
    match level {
        Level::Root => seq![0u8],
        Level::Namespace(ns) => seq![1u8] + text_part(ns),
        Level::Database(ns, db) => seq![2u8] + text_part(ns) + text_part(db),
    }
}

/// What a key of the store stands for.
pub enum Key {
    Namespace { ns: Seq<char> },
    Database { ns: Seq<char>, db: Seq<char> },
    Table { ns: Seq<char>, db: Seq<char>, tb: Seq<char> },
    Field { ns: Seq<char>, db: Seq<char>, tb: Seq<char>, fd: Seq<char> },
    Index { ns: Seq<char>, db: Seq<char>, tb: Seq<char>, ix: Seq<char> },
    Record { ns: Seq<char>, db: Seq<char>, tb: Seq<char>, id: KeyView },
    User { level: Level, user: Seq<char> },
    Token { level: Level, token: Seq<char> },
    ChangeFeed { ns: Seq<char>, db: Seq<char>, ts: u64, tb: Seq<char> },
}

/// Keys that stand next to each other in the store: those of one category that share
/// the names before the last.
pub enum Category {
    Namespaces,
    Databases { ns: Seq<char> },
    Tables { ns: Seq<char>, db: Seq<char> },
    Fields { ns: Seq<char>, db: Seq<char>, tb: Seq<char> },
    Indexes { ns: Seq<char>, db: Seq<char>, tb: Seq<char> },
    Records { ns: Seq<char>, db: Seq<char>, tb: Seq<char> },
    Users { level: Level },
    Tokens { level: Level },
    ChangeFeeds { ns: Seq<char>, db: Seq<char> },
}

impl Category {
    /// What all keys of the category start with: the byte of the category and the names
    /// that they share.
    pub open spec fn prefix(self) -> Seq<u8> {
        match self {
            Category::Namespaces => seq![NAMESPACE],
            Category::Databases { ns } => seq![DATABASE] + text_part(ns),
            Category::Tables { ns, db } => seq![TABLE] + text_part(ns) + text_part(db),
            Category::Fields { ns, db, tb } => seq![FIELD] + text_part(ns) + text_part(db)
                + text_part(tb),
            Category::Indexes { ns, db, tb } => seq![INDEX] + text_part(ns) + text_part(db)
                + text_part(tb),
            Category::Records { ns, db, tb } => seq![RECORD] + text_part(ns) + text_part(db)
                + text_part(tb),
            Category::Users { level } => seq![USER] + level_part(level),
            Category::Tokens { level } => seq![TOKEN] + level_part(level),
            Category::ChangeFeeds { ns, db } => seq![CHANGEFEED] + text_part(ns) + text_part(db),
        }
    }

    /// The first byte string behind all keys of the category.
    pub open spec fn suffix(self) -> Seq<u8> {
        self.prefix() + seq![255u8]
    }
}

impl Key {
    /// The category that the key belongs to.
    pub open spec fn category(self) -> Category {
        match self {
            Key::Namespace { .. } => Category::Namespaces,
            Key::Database { ns, .. } => Category::Databases { ns },
            Key::Table { ns, db, .. } => Category::Tables { ns, db },
            Key::Field { ns, db, tb, .. } => Category::Fields { ns, db, tb },
            Key::Index { ns, db, tb, .. } => Category::Indexes { ns, db, tb },
            Key::Record { ns, db, tb, .. } => Category::Records { ns, db, tb },
            Key::User { level, .. } => Category::Users { level },
            Key::Token { level, .. } => Category::Tokens { level },
            Key::ChangeFeed { ns, db, .. } => Category::ChangeFeeds { ns, db },
        }
    }

    /// What sets the key apart within its category, as it is written in the key.
    pub open spec fn last_part(self) -> Seq<u8> {
        match self {
            Key::Namespace { ns } => text_part(ns),
            Key::Database { db, .. } => text_part(db),
            Key::Table { tb, .. } => text_part(tb),
            Key::Field { fd, .. } => text_part(fd),
            Key::Index { ix, .. } => text_part(ix),
            Key::Record { id, .. } => id_part(id),
            Key::User { user, .. } => text_part(user),
            Key::Token { token, .. } => text_part(token),
            Key::ChangeFeed { ts, tb, .. } => seq![0u8] + u64_part(ts) + text_part(tb),
        }
    }

    /// The bytes of the key.
    pub open spec fn encode(self) -> Seq<u8> {
        self.category().prefix() + self.last_part()
    }
}

/// Appends a byte string as it stands in a key.
fn push_bytes(bytes: &[u8], out: &mut Vec<u8>)
    ensures
        final(out)@ == old(out)@ + bytes_part(bytes@),
{
    let mut i: usize = 0;
    proof {
        assert(bytes@.skip(0) =~= bytes@);
    }
    while i < bytes.len()
        invariant
            i <= bytes@.len(),
            out@ + escaped(bytes@.skip(i as int)) == old(out)@ + escaped(bytes@),
        decreases bytes@.len() - i,
    {
        let ghost before = out@;
        let ghost rest = bytes@.skip(i as int);
        let byte = bytes[i];
        out.push(byte);
        if byte == 0 {
            out.push(255);
        }
        proof {
            assert(rest.skip(1) =~= bytes@.skip(i + 1));
            assert(out@ + escaped(bytes@.skip(i + 1)) =~= before + escaped(rest));
        }
        i += 1;
    }
    out.push(0);
    assert(out@ =~= old(out)@ + bytes_part(bytes@));
}

/// Appends a name as it stands in a key.
fn push_text(text: &str, out: &mut Vec<u8>)
    ensures
        final(out)@ == old(out)@ + text_part(text@),
{
    push_bytes(text.as_bytes(), out);
}

/// Appends the eight bytes of `n`, most significant first.
fn push_u64(n: u64, out: &mut Vec<u8>)
    ensures
        final(out)@ == old(out)@ + u64_part(n),
{
    let n1 = n / 256;
    let n2 = n1 / 256;
    let n3 = n2 / 256;
    let n4 = n3 / 256;
    let n5 = n4 / 256;
    let n6 = n5 / 256;
    let n7 = n6 / 256;
    out.push((n7 % 256) as u8);
    out.push((n6 % 256) as u8);
    out.push((n5 % 256) as u8);
    out.push((n4 % 256) as u8);
    out.push((n3 % 256) as u8);
    out.push((n2 % 256) as u8);
    out.push((n1 % 256) as u8);
    out.push((n % 256) as u8);
    proof {
        reveal_with_fuel(be_bytes, 9);
        assert(out@ =~= old(out)@ + u64_part(n));
    }
}

/// Appends the key of a record as it stands in a key of the store.
fn push_id(id: &RecordIdKey, out: &mut Vec<u8>)
    ensures
        final(out)@ == old(out)@ + id_part(id@),
{
    match id {
        RecordIdKey::Integer(i) => {
            out.push(1);
            let moved = if *i < 0 {
                (*i + 0x7fff_ffff_ffff_ffff + 1) as u64
            } else {
                *i as u64 + 0x8000_0000_0000_0000
            };
            push_u64(moved, out);
            assert(out@ =~= old(out)@ + id_part(id@));
        },
        RecordIdKey::String(s) => {
            out.push(2);
            push_text(s.as_str(), out);
            assert(out@ =~= old(out)@ + id_part(id@));
        },
        RecordIdKey::Array(_) => {
            out.push(3);
            let mut wire: Vec<u8> = Vec::new();
            id.serialize_revisioned(&mut wire);
            assert(wire@ =~= key_wire(id@));
            push_bytes(wire.as_slice(), out);
            assert(out@ =~= old(out)@ + id_part(id@));
        },
        RecordIdKey::Object(_) => {
            out.push(4);
            let mut wire: Vec<u8> = Vec::new();
            id.serialize_revisioned(&mut wire);
            assert(wire@ =~= key_wire(id@));
            push_bytes(wire.as_slice(), out);
            assert(out@ =~= old(out)@ + id_part(id@));
        },
    }
}

/// The key under which the namespace `ns` is defined.
pub fn kv(ns: &str) -> (key: Vec<u8>)
    ensures
        key@ == (Key::Namespace { ns: ns@ }).encode(),
{
    let mut key: Vec<u8> = Vec::new();
    key.push(NAMESPACE);
    push_text(ns, &mut key);
    assert(key@ =~= (Key::Namespace { ns: ns@ }).encode());
    key
}

/// The key under which the database `db` of the namespace `ns` is defined.
pub fn ns(namespace: &str, db: &str) -> (key: Vec<u8>)
    ensures
        key@ == (Key::Database { ns: namespace@, db: db@ }).encode(),
{
    let mut key: Vec<u8> = Vec::new();
    key.push(DATABASE);
    push_text(namespace, &mut key);
    push_text(db, &mut key);
    assert(key@ =~= (Key::Database { ns: namespace@, db: db@ }).encode());
    key
}

/// The key under which the table `tb` is defined.
pub fn tb(ns: &str, db: &str, table: &str) -> (key: Vec<u8>)
    ensures
        key@ == (Key::Table { ns: ns@, db: db@, tb: table@ }).encode(),
{
    let mut key: Vec<u8> = Vec::new();
    key.push(TABLE);
    push_text(ns, &mut key);
    push_text(db, &mut key);
    push_text(table, &mut key);
    assert(key@ =~= (Key::Table { ns: ns@, db: db@, tb: table@ }).encode());
    key
}

/// What the keys of a category at the level of a table start with.
fn table_level(category: u8, ns: &str, db: &str, tb: &str) -> (key: Vec<u8>)
    ensures
        key@ == seq![category] + text_part(ns@) + text_part(db@) + text_part(tb@),
{
    let mut key: Vec<u8> = Vec::new();
    key.push(category);
    push_text(ns, &mut key);
    push_text(db, &mut key);
    push_text(tb, &mut key);
    assert(key@ =~= seq![category] + text_part(ns@) + text_part(db@) + text_part(tb@));
    key
}

/// The key under which the record with the key `id` of the table `tb` is kept.
pub fn record(ns: &str, db: &str, tb: &str, id: &RecordIdKey) -> (key: Vec<u8>)
    ensures
        key@ == (Key::Record { ns: ns@, db: db@, tb: tb@, id: id@ }).encode(),
{
    let mut key = table_level(RECORD, ns, db, tb);
    push_id(id, &mut key);
    key
}

/// The key under which the field `fd` of the table `tb` is defined.
pub fn field(ns: &str, db: &str, tb: &str, fd: &str) -> (key: Vec<u8>)
    ensures
        key@ == (Key::Field { ns: ns@, db: db@, tb: tb@, fd: fd@ }).encode(),
{
    let mut key = table_level(FIELD, ns, db, tb);
    push_text(fd, &mut key);
    key
}

/// The first key of the fields of the table `tb`.
pub fn fields_prefix(ns: &str, db: &str, tb: &str) -> (key: Vec<u8>)
    ensures
        key@ == (Category::Fields { ns: ns@, db: db@, tb: tb@ }).prefix(),
{
    table_level(FIELD, ns, db, tb)
}

/// The first byte string behind the keys of the fields of the table `tb`.
pub fn fields_suffix(ns: &str, db: &str, tb: &str) -> (key: Vec<u8>)
    ensures
        key@ == (Category::Fields { ns: ns@, db: db@, tb: tb@ }).suffix(),
{
    let mut key = table_level(FIELD, ns, db, tb);
    key.push(255);
    key
}

/// The first key of what is kept of the field `fd` of the table `tb`: the key of the
/// field itself.
pub fn field_prefix(ns: &str, db: &str, tb: &str, fd: &str) -> (key: Vec<u8>)
    ensures
        key@ == (Key::Field { ns: ns@, db: db@, tb: tb@, fd: fd@ }).encode(),
{
    field(ns, db, tb, fd)
}

/// The first byte string behind what is kept of the field `fd` of the table `tb`.
pub fn field_suffix(ns: &str, db: &str, tb: &str, fd: &str) -> (key: Vec<u8>)
    ensures
        key@ == (Key::Field { ns: ns@, db: db@, tb: tb@, fd: fd@ }).encode() + seq![0u8],
{
    let mut key = field(ns, db, tb, fd);
    key.push(0);
    key
}

/// The key under which the index `ix` of the table `tb` is defined.
pub fn index(ns: &str, db: &str, tb: &str, ix: &str) -> (key: Vec<u8>)
    ensures
        key@ == (Key::Index { ns: ns@, db: db@, tb: tb@, ix: ix@ }).encode(),
{
    let mut key = table_level(INDEX, ns, db, tb);
    push_text(ix, &mut key);
    key
}

/// The first key of the indexes of the table `tb`.
pub fn indexes_prefix(ns: &str, db: &str, tb: &str) -> (key: Vec<u8>)
    ensures
        key@ == (Category::Indexes { ns: ns@, db: db@, tb: tb@ }).prefix(),
{
    table_level(INDEX, ns, db, tb)
}

/// The first byte string behind the keys of the indexes of the table `tb`.
pub fn indexes_suffix(ns: &str, db: &str, tb: &str) -> (key: Vec<u8>)
    ensures
        key@ == (Category::Indexes { ns: ns@, db: db@, tb: tb@ }).suffix(),
{
    let mut key = table_level(INDEX, ns, db, tb);
    key.push(255);
    key
}

/// The first key of the records of the table `tb`.
pub fn records_prefix(ns: &str, db: &str, tb: &str) -> (key: Vec<u8>)
    ensures
        key@ == (Category::Records { ns: ns@, db: db@, tb: tb@ }).prefix(),
{
    table_level(RECORD, ns, db, tb)
}

/// The first byte string behind the keys of the records of the table `tb`.
pub fn records_suffix(ns: &str, db: &str, tb: &str) -> (key: Vec<u8>)
    ensures
        key@ == (Category::Records { ns: ns@, db: db@, tb: tb@ }).suffix(),
{
    let mut key = table_level(RECORD, ns, db, tb);
    key.push(255);
    key
}

/// The key under which a change to the table `tb` at the time `ts` is kept.
pub fn changefeed(ns: &str, db: &str, ts: u64, tb: &str) -> (key: Vec<u8>)
    ensures
        key@ == (Key::ChangeFeed { ns: ns@, db: db@, ts, tb: tb@ }).encode(),
{
    let mut key: Vec<u8> = Vec::new();
    key.push(CHANGEFEED);
    push_text(ns, &mut key);
    push_text(db, &mut key);
    key.push(0);
    push_u64(ts, &mut key);
    push_text(tb, &mut key);
    assert(key@ =~= (Key::ChangeFeed { ns: ns@, db: db@, ts, tb: tb@ }).encode());
    key
}

/// The first key of the changes to the database `db`.
pub fn changefeed_prefix(ns: &str, db: &str) -> (key: Vec<u8>)
    ensures
        key@ == (Category::ChangeFeeds { ns: ns@, db: db@ }).prefix(),
{
    let mut key: Vec<u8> = Vec::new();
    key.push(CHANGEFEED);
    push_text(ns, &mut key);
    push_text(db, &mut key);
    assert(key@ =~= (Category::ChangeFeeds { ns: ns@, db: db@ }).prefix());
    key
}

/// The first byte string behind the keys of the changes to the database `db`.
pub fn changefeed_suffix(ns: &str, db: &str) -> (key: Vec<u8>)
    ensures
        key@ == (Category::ChangeFeeds { ns: ns@, db: db@ }).suffix(),
{
    let mut key = changefeed_prefix(ns, db);
    key.push(255);
    key
}

/// The key under which the user `user` is defined at the root.
pub fn root_user(user: &str) -> (key: Vec<u8>)
    ensures
        key@ == (Key::User { level: Level::Root, user: user@ }).encode(),
{
    let mut key: Vec<u8> = Vec::new();
    key.push(USER);
    key.push(0);
    push_text(user, &mut key);
    assert(key@ =~= (Key::User { level: Level::Root, user: user@ }).encode());
    key
}

/// The key under which the user `user` of the namespace `ns` is defined.
pub fn namespace_user(ns: &str, user: &str) -> (key: Vec<u8>)
    ensures
        key@ == (Key::User { level: Level::Namespace(ns@), user: user@ }).encode(),
{
    let mut key: Vec<u8> = Vec::new();
    key.push(USER);
    key.push(1);
    push_text(ns, &mut key);
    push_text(user, &mut key);
    assert(key@ =~= (Key::User { level: Level::Namespace(ns@), user: user@ }).encode());
    key
}

/// The key under which the user `user` of the database `db` is defined.
pub fn database_user(ns: &str, db: &str, user: &str) -> (key: Vec<u8>)
    ensures
        key@ == (Key::User { level: Level::Database(ns@, db@), user: user@ }).encode(),
{
    let mut key: Vec<u8> = Vec::new();
    key.push(USER);
    key.push(2);
    push_text(ns, &mut key);
    push_text(db, &mut key);
    push_text(user, &mut key);
    assert(key@ =~= (Key::User { level: Level::Database(ns@, db@), user: user@ }).encode());
    key
}

/// The key under which the token `token` of the namespace `ns` is defined.
pub fn namespace_token(ns: &str, token: &str) -> (key: Vec<u8>)
    ensures
        key@ == (Key::Token { level: Level::Namespace(ns@), token: token@ }).encode(),
{
    let mut key: Vec<u8> = Vec::new();
    key.push(TOKEN);
    key.push(1);
    push_text(ns, &mut key);
    push_text(token, &mut key);
    assert(key@ =~= (Key::Token { level: Level::Namespace(ns@), token: token@ }).encode());
    key
}

/// The key under which the token `token` of the database `db` is defined.
pub fn database_token(ns: &str, db: &str, token: &str) -> (key: Vec<u8>)
    ensures
        key@ == (Key::Token { level: Level::Database(ns@, db@), token: token@ }).encode(),
{
    let mut key: Vec<u8> = Vec::new();
    key.push(TOKEN);
    key.push(2);
    push_text(ns, &mut key);
    push_text(db, &mut key);
    push_text(token, &mut key);
    assert(key@ =~= (Key::Token { level: Level::Database(ns@, db@), token: token@ }).encode());
    key
}

} // verus!
