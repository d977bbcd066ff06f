//! What holds of the layout of keys: keys sort as what they stand for, and the keys of a
//! category, and no others, lie between the two ends of the category.

use vstd::prelude::*;
use vstd::utf8::encode_utf8;
use vstd::utf8::encode_utf8_decode_utf8;
use vstd::utf8::encode_utf8_valid_utf8;
use crate::key::bytes_part;
use crate::key::be_bytes;
use crate::key::escaped;
use crate::key::i64_part;
use crate::key::u64_part;
use crate::key::level_part;
use crate::key::text_part;
use crate::key::Category;
use crate::key::Key;
use crate::key::Level;
use crate::order::is_prefix;
use crate::order::lemma_lex_common_prefix;
use crate::order::lemma_lex_irreflexive;
use crate::order::lex_le;
use crate::order::lex_lt;

verus! {

/// Whether bytes may follow a name in a key: there are none, or the first is not 255.
pub open spec fn may_follow(tail: Seq<u8>) -> bool {
    tail.len() == 0 || tail[0] < 255
}

/// A byte string lies between `prefix` and `prefix` followed by the byte 255 exactly when
/// it starts with `prefix` and what follows may follow a name.
pub proof fn lemma_range_is_prefix(prefix: Seq<u8>, key: Seq<u8>)
    ensures
        (lex_le(prefix, key) && lex_lt(key, prefix + seq![255u8])) <==> (is_prefix(prefix, key)
            && may_follow(key.skip(prefix.len() as int))),
    decreases prefix.len(),
{
    if prefix.len() == 0 {
        assert(prefix + seq![255u8] =~= seq![255u8]);
        assert(key.skip(0) =~= key);
        assert(key.subrange(0, 0) =~= prefix);
        if key.len() == 0 {
            assert(key =~= prefix);
        } else {
            assert(lex_lt(prefix, key));
            if key[0] == 255 {
                assert(!lex_lt(key.skip(1), seq![255u8].skip(1)));
            }
        }
    } else if key.len() == 0 {
        assert(!(prefix =~= key));
    } else {
        let p = prefix.skip(1);
        let k = key.skip(1);
        lemma_range_is_prefix(p, k);
        assert((prefix + seq![255u8]).skip(1) =~= p + seq![255u8]);
        if prefix.len() <= key.len() {
            assert(k.skip(p.len() as int) =~= key.skip(prefix.len() as int));
        }
        if prefix[0] == key[0] {
            if is_prefix(p, k) {
                assert forall|i: int| 0 <= i < prefix.len() implies key.subrange(
                    0,
                    prefix.len() as int,
                )[i] == prefix[i] by {
                    if i > 0 {
                        assert(k.subrange(0, p.len() as int)[i - 1] == k[i - 1]);
                        assert(p[i - 1] == prefix[i]);
                    }
                }
                assert(key.subrange(0, prefix.len() as int) =~= prefix);
            }
            if is_prefix(prefix, key) {
                assert(k.subrange(0, p.len() as int) =~= p);
            }
            if prefix == key {
                assert(p =~= k);
            }
            if p == k {
                assert(prefix =~= seq![prefix[0]] + p);
                assert(key =~= seq![key[0]] + k);
            }
        } else {
            if is_prefix(prefix, key) {
                assert(key.subrange(0, prefix.len() as int)[0] == prefix[0]);
            }
        }
    }
}

/// Escaped bytes start with the byte that the bytes start with.
pub proof fn lemma_escaped_first(bytes: Seq<u8>)
    ensures
        bytes.len() == 0 ==> escaped(bytes).len() == 0,
        bytes.len() > 0 ==> escaped(bytes).len() > 0 && escaped(bytes)[0] == bytes[0],
{
}

/// Names sort in keys as their bytes sort: where the bytes of one name come before those
/// of another, so does what is written for it, whatever follows the two.
pub proof fn lemma_bytes_part_order(x: Seq<u8>, y: Seq<u8>, after_x: Seq<u8>, after_y: Seq<u8>)
    requires
        lex_lt(x, y),
        may_follow(after_x),
    ensures
        lex_lt(bytes_part(x) + after_x, bytes_part(y) + after_y),
    decreases x.len(),
{
    let a = bytes_part(x) + after_x;
    let b = bytes_part(y) + after_y;
    lemma_escaped_first(x);
    lemma_escaped_first(y);
    assert(b[0] == y[0]);
    if x.len() == 0 {
        assert(a =~= seq![0u8] + after_x);
        assert(a[0] == 0);
        if y[0] == 0 {
            assert(a.skip(1) =~= after_x);
            assert(escaped(y) == seq![0u8, 255u8] + escaped(y.skip(1)));
            assert(b[1] == 255);
            assert(b.skip(1)[0] == 255);
            assert(lex_lt(a.skip(1), b.skip(1)));
        }
        assert(lex_lt(a, b));
    } else if x[0] != y[0] {
        assert(a[0] == x[0]);
        assert(lex_lt(a, b));
    } else {
        let first = if x[0] == 0 {
            seq![0u8, 255u8]
        } else {
            seq![x[0]]
        };
        lemma_bytes_part_order(x.skip(1), y.skip(1), after_x, after_y);
        assert(a =~= first + (bytes_part(x.skip(1)) + after_x));
        assert(b =~= first + (bytes_part(y.skip(1)) + after_y));
        lemma_lex_common_prefix(
            first,
            bytes_part(x.skip(1)) + after_x,
            bytes_part(y.skip(1)) + after_y,
        );
    }
}

/// A name can be read off a key in one way only: where two names, each followed by
/// something, are written alike, the names are the same, and so is what follows them.
pub proof fn lemma_bytes_part_unique(x: Seq<u8>, y: Seq<u8>, after_x: Seq<u8>, after_y: Seq<u8>)
    requires
        bytes_part(x) + after_x == bytes_part(y) + after_y,
        may_follow(after_x),
        may_follow(after_y),
    ensures
        x == y,
        after_x == after_y,
    decreases x.len() + y.len(),
{
    let a = bytes_part(x) + after_x;
    let b = bytes_part(y) + after_y;
    lemma_escaped_first(x);
    lemma_escaped_first(y);
    if x.len() == 0 && y.len() == 0 {
        assert(a.skip(1) =~= after_x);
        assert(b.skip(1) =~= after_y);
        assert(x =~= y);
    } else if x.len() == 0 {
        assert(a =~= seq![0u8] + after_x);
        assert(b[0] == y[0]);
        assert(a.skip(1) =~= after_x);
        assert(b[1] == 255);
        assert(a[1] == after_x[0]);
    } else if y.len() == 0 {
        assert(b =~= seq![0u8] + after_y);
        assert(a[0] == x[0]);
        assert(b.skip(1) =~= after_y);
        assert(a[1] == 255);
        assert(b[1] == after_y[0]);
    } else {
        assert(a[0] == x[0]);
        assert(b[0] == y[0]);
        let first = if x[0] == 0 {
            seq![0u8, 255u8]
        } else {
            seq![x[0]]
        };
        let rest_a = bytes_part(x.skip(1)) + after_x;
        let rest_b = bytes_part(y.skip(1)) + after_y;
        assert(a =~= first + rest_a);
        assert(b =~= first + rest_b);
        assert(rest_a =~= a.skip(first.len() as int));
        assert(rest_b =~= b.skip(first.len() as int));
        lemma_bytes_part_unique(x.skip(1), y.skip(1), after_x, after_y);
        assert(x =~= seq![x[0]] + x.skip(1));
        assert(y =~= seq![y[0]] + y.skip(1));
    }
}

/// What is written for a name is not empty and may follow a name.
pub proof fn lemma_text_part_follows(text: Seq<char>)
    ensures
        text_part(text).len() > 0,
        may_follow(text_part(text)),
        forall|tail: Seq<u8>| may_follow(#[trigger] (text_part(text) + tail)),
{
    let bytes = encode_utf8(text);
    lemma_escaped_first(bytes);
    encode_utf8_valid_utf8(text);
    assert forall|tail: Seq<u8>| may_follow(#[trigger] (text_part(text) + tail)) by {
        assert((text_part(text) + tail)[0] == text_part(text)[0]);
    }
}

/// A name can be read off a key in one way only.
pub proof fn lemma_text_part_unique(
    x: Seq<char>,
    y: Seq<char>,
    after_x: Seq<u8>,
    after_y: Seq<u8>,
)
    requires
        text_part(x) + after_x == text_part(y) + after_y,
        may_follow(after_x),
        may_follow(after_y),
    ensures
        x == y,
        after_x == after_y,
{
    lemma_bytes_part_unique(encode_utf8(x), encode_utf8(y), after_x, after_y);
    encode_utf8_decode_utf8(x);
    encode_utf8_decode_utf8(y);
}

/// Names sort in keys as their UTF-8 bytes sort, in both directions.
pub proof fn lemma_text_part_order(x: Seq<char>, y: Seq<char>)
    ensures
        lex_lt(text_part(x), text_part(y)) <==> lex_lt(encode_utf8(x), encode_utf8(y)),
{
    let bx = encode_utf8(x);
    let by = encode_utf8(y);
    let empty = Seq::<u8>::empty();
    assert(text_part(x) + empty =~= text_part(x));
    assert(text_part(y) + empty =~= text_part(y));
    if lex_lt(bx, by) {
        lemma_bytes_part_order(bx, by, empty, empty);
    } else {
        crate::order::lemma_lex_total(bx, by);
        if bx == by {
            lemma_lex_irreflexive(text_part(x));
        } else {
            lemma_bytes_part_order(by, bx, empty, empty);
            crate::order::lemma_lex_asymmetric(text_part(x), text_part(y));
        }
    }
}

/// The byte that the keys of a category start with.
pub open spec fn category_byte(category: Category) -> u8 {
    match category {
        Category::Namespaces => crate::key::NAMESPACE,
        Category::Databases { .. } => crate::key::DATABASE,
        Category::Tables { .. } => crate::key::TABLE,
        Category::Fields { .. } => crate::key::FIELD,
        Category::Indexes { .. } => crate::key::INDEX,
        Category::Records { .. } => crate::key::RECORD,
        Category::Users { .. } => crate::key::USER,
        Category::Tokens { .. } => crate::key::TOKEN,
        Category::ChangeFeeds { .. } => crate::key::CHANGEFEED,
    }
}

/// What the keys of a category start with, behind their first byte.
pub open spec fn category_names(category: Category) -> Seq<u8> {
    match category {
        Category::Namespaces => Seq::empty(),
        Category::Databases { ns } => text_part(ns),
        Category::Tables { ns, db } => text_part(ns) + text_part(db),
        Category::Fields { ns, db, tb } => text_part(ns) + text_part(db) + text_part(tb),
        Category::Indexes { ns, db, tb } => text_part(ns) + text_part(db) + text_part(tb),
        Category::Records { ns, db, tb } => text_part(ns) + text_part(db) + text_part(tb),
        Category::Users { level } => level_part(level),
        Category::Tokens { level } => level_part(level),
        Category::ChangeFeeds { ns, db } => text_part(ns) + text_part(db),
    }
}

/// The keys of a category start with the byte of the category and the names that they
/// share.
pub proof fn lemma_prefix_parts(category: Category)
    ensures
        category.prefix() == seq![category_byte(category)] + category_names(category),
{
    assert(category.prefix() =~= seq![category_byte(category)] + category_names(category));
}

/// What sets a key apart within its category is not empty and may follow a name.
pub proof fn lemma_last_part_follows(key: Key)
    ensures
        key.last_part().len() > 0,
        may_follow(key.last_part()),
{
    match key {
        Key::Namespace { ns } => lemma_text_part_follows(ns),
        Key::Database { db, .. } => lemma_text_part_follows(db),
        Key::Table { tb, .. } => lemma_text_part_follows(tb),
        Key::Field { fd, .. } => lemma_text_part_follows(fd),
        Key::Index { ix, .. } => lemma_text_part_follows(ix),
        Key::Record { id, .. } => {},
        Key::User { user, .. } => lemma_text_part_follows(user),
        Key::Token { token, .. } => lemma_text_part_follows(token),
        Key::ChangeFeed { .. } => {},
    }
}

/// Every key lies between the two ends of its category.
pub proof fn lemma_key_in_range(key: Key)
    ensures
        lex_le(key.category().prefix(), key.encode()),
        lex_lt(key.encode(), key.category().suffix()),
{
    let prefix = key.category().prefix();
    lemma_last_part_follows(key);
    assert(key.encode().subrange(0, prefix.len() as int) =~= prefix);
    assert(key.encode().skip(prefix.len() as int) =~= key.last_part());
    lemma_range_is_prefix(prefix, key.encode());
}

/// Three names can be read off a key in one way only.
pub proof fn lemma_three_names_unique(
    a: (Seq<char>, Seq<char>, Seq<char>),
    b: (Seq<char>, Seq<char>, Seq<char>),
    after_a: Seq<u8>,
    after_b: Seq<u8>,
)
    requires
        text_part(a.0) + text_part(a.1) + text_part(a.2) + after_a == text_part(b.0) + text_part(
            b.1,
        ) + text_part(b.2) + after_b,
        may_follow(after_a),
        may_follow(after_b),
    ensures
        a == b,
        after_a == after_b,
{
    let rest_a1 = text_part(a.1) + (text_part(a.2) + after_a);
    let rest_b1 = text_part(b.1) + (text_part(b.2) + after_b);
    lemma_text_part_follows(a.1);
    lemma_text_part_follows(b.1);
    lemma_text_part_follows(a.2);
    lemma_text_part_follows(b.2);
    assert(text_part(a.0) + text_part(a.1) + text_part(a.2) + after_a =~= text_part(a.0)
        + rest_a1);
    assert(text_part(b.0) + text_part(b.1) + text_part(b.2) + after_b =~= text_part(b.0)
        + rest_b1);
    lemma_text_part_unique(a.0, b.0, rest_a1, rest_b1);
    lemma_text_part_unique(a.1, b.1, text_part(a.2) + after_a, text_part(b.2) + after_b);
    lemma_text_part_unique(a.2, b.2, after_a, after_b);
}

/// Two names can be read off a key in one way only.
pub proof fn lemma_two_names_unique(
    a: (Seq<char>, Seq<char>),
    b: (Seq<char>, Seq<char>),
    after_a: Seq<u8>,
    after_b: Seq<u8>,
)
    requires
        text_part(a.0) + text_part(a.1) + after_a == text_part(b.0) + text_part(b.1) + after_b,
        may_follow(after_a),
        may_follow(after_b),
    ensures
        a == b,
        after_a == after_b,
{
    lemma_text_part_follows(a.1);
    lemma_text_part_follows(b.1);
    assert(text_part(a.0) + text_part(a.1) + after_a =~= text_part(a.0) + (text_part(a.1)
        + after_a));
    assert(text_part(b.0) + text_part(b.1) + after_b =~= text_part(b.0) + (text_part(b.1)
        + after_b));
    lemma_text_part_unique(a.0, b.0, text_part(a.1) + after_a, text_part(b.1) + after_b);
    lemma_text_part_unique(a.1, b.1, after_a, after_b);
}

/// A level can be read off a key in one way only.
pub proof fn lemma_level_unique(a: Level, b: Level, after_a: Seq<u8>, after_b: Seq<u8>)
    requires
        level_part(a) + after_a == level_part(b) + after_b,
        may_follow(after_a),
        may_follow(after_b),
    ensures
        a == b,
        after_a == after_b,
{
    let whole_a = level_part(a) + after_a;
    let whole_b = level_part(b) + after_b;
    assert(whole_a[0] == level_part(a)[0]);
    assert(whole_b[0] == level_part(b)[0]);
    match (a, b) {
        (Level::Root, Level::Root) => {
            assert(whole_a.skip(1) =~= after_a);
            assert(whole_b.skip(1) =~= after_b);
        },
        (Level::Namespace(x), Level::Namespace(y)) => {
            assert(whole_a.skip(1) =~= text_part(x) + after_a);
            assert(whole_b.skip(1) =~= text_part(y) + after_b);
            lemma_text_part_unique(x, y, after_a, after_b);
        },
        (Level::Database(x0, x1), Level::Database(y0, y1)) => {
            assert(whole_a.skip(1) =~= text_part(x0) + text_part(x1) + after_a);
            assert(whole_b.skip(1) =~= text_part(y0) + text_part(y1) + after_b);
            lemma_two_names_unique((x0, x1), (y0, y1), after_a, after_b);
        },
        _ => {},
    }
}

/// The names that the keys of a category share can be read off a key in one way only.
pub proof fn lemma_category_names_unique(
    a: Category,
    b: Category,
    after_a: Seq<u8>,
    after_b: Seq<u8>,
)
    requires
        category_byte(a) == category_byte(b),
        category_names(a) + after_a == category_names(b) + after_b,
        may_follow(after_a),
        may_follow(after_b),
    ensures
        a == b,
        after_a == after_b,
{
    match (a, b) {
        (Category::Namespaces, Category::Namespaces) => {
            assert(category_names(a) + after_a =~= after_a);
            assert(category_names(b) + after_b =~= after_b);
        },
        (Category::Databases { ns: x }, Category::Databases { ns: y }) => {
            lemma_text_part_unique(x, y, after_a, after_b);
        },
        (Category::Tables { ns: x0, db: x1 }, Category::Tables { ns: y0, db: y1 }) => {
            lemma_two_names_unique((x0, x1), (y0, y1), after_a, after_b);
        },
        (Category::ChangeFeeds { ns: x0, db: x1 }, Category::ChangeFeeds { ns: y0, db: y1 }) => {
            lemma_two_names_unique((x0, x1), (y0, y1), after_a, after_b);
        },
        (
            Category::Fields { ns: x0, db: x1, tb: x2 },
            Category::Fields { ns: y0, db: y1, tb: y2 },
        ) => {
            lemma_three_names_unique((x0, x1, x2), (y0, y1, y2), after_a, after_b);
        },
        (
            Category::Indexes { ns: x0, db: x1, tb: x2 },
            Category::Indexes { ns: y0, db: y1, tb: y2 },
        ) => {
            lemma_three_names_unique((x0, x1, x2), (y0, y1, y2), after_a, after_b);
        },
        (
            Category::Records { ns: x0, db: x1, tb: x2 },
            Category::Records { ns: y0, db: y1, tb: y2 },
        ) => {
            lemma_three_names_unique((x0, x1, x2), (y0, y1, y2), after_a, after_b);
        },
        (Category::Users { level: x }, Category::Users { level: y }) => {
            lemma_level_unique(x, y, after_a, after_b);
        },
        (Category::Tokens { level: x }, Category::Tokens { level: y }) => {
            lemma_level_unique(x, y, after_a, after_b);
        },
        _ => {},
    }
}

/// No key of another category lies between the two ends of a category: a key that lies
/// there belongs to the category.
pub proof fn lemma_range_holds_category(category: Category, key: Key)
    requires
        lex_le(category.prefix(), key.encode()),
        lex_lt(key.encode(), category.suffix()),
    ensures
        key.category() == category,
{
    let prefix = category.prefix();
    let bytes = key.encode();
    lemma_range_is_prefix(prefix, bytes);
    let rest = bytes.skip(prefix.len() as int);
    assert(bytes =~= prefix + rest);
    lemma_prefix_parts(category);
    lemma_prefix_parts(key.category());
    lemma_last_part_follows(key);
    let a = seq![category_byte(category)] + category_names(category) + rest;
    let b = seq![category_byte(key.category())] + category_names(key.category())
        + key.last_part();
    assert(a == b);
    assert(a[0] == category_byte(category));
    assert(b[0] == category_byte(key.category()));
    assert(a.skip(1) =~= category_names(category) + rest);
    assert(b.skip(1) =~= category_names(key.category()) + key.last_part());
    lemma_category_names_unique(category, key.category(), rest, key.last_part());
}

/// Within a category keys sort as what sets them apart sorts.
pub proof fn lemma_key_order(a: Key, b: Key)
    requires
        a.category() == b.category(),
    ensures
        lex_lt(a.encode(), b.encode()) <==> lex_lt(a.last_part(), b.last_part()),
{
    lemma_lex_common_prefix(a.category().prefix(), a.last_part(), b.last_part());
}

/// The bytes of a number, most significant first, are as many as asked for.
pub proof fn lemma_be_bytes_len(n: nat, width: nat)
    ensures
        be_bytes(n, width).len() == width,
    decreases width,
{
    if width > 0 {
        lemma_be_bytes_len(n / 256, (width - 1) as nat);
    }
}

/// 256 to the power `width`.
pub open spec fn radix(width: nat) -> nat
    decreases width,
{
    if width == 0 {
        1
    } else {
        256 * radix((width - 1) as nat)
    }
}

/// Numbers written in as many bytes, most significant first, sort as the numbers do.
pub proof fn lemma_be_bytes_order(m: nat, n: nat, width: nat)
    requires
        m < radix(width),
        n < radix(width),
    ensures
        lex_lt(be_bytes(m, width), be_bytes(n, width)) <==> m < n,
        m == n <==> be_bytes(m, width) == be_bytes(n, width),
    decreases width,
{
    if width == 0 {
    } else {
        let w = (width - 1) as nat;
        lemma_be_bytes_order(m / 256, n / 256, w);
        lemma_be_bytes_len(m / 256, w);
        lemma_be_bytes_len(n / 256, w);
        let hm = be_bytes(m / 256, w);
        let hn = be_bytes(n / 256, w);
        let lm = seq![(m % 256) as u8];
        let ln = seq![(n % 256) as u8];
        assert(be_bytes(m, width) =~= hm + lm);
        assert(be_bytes(n, width) =~= hn + ln);
        if hm == hn {
            lemma_lex_common_prefix(hm, lm, ln);
            assert(lex_lt(lm, ln) <==> m % 256 < n % 256) by {
                assert(lm.skip(1) =~= Seq::<u8>::empty());
                assert(ln.skip(1) =~= Seq::<u8>::empty());
                assert(!lex_lt(lm.skip(1), ln.skip(1)));
                assert(lm[0] == (m % 256) as u8);
                assert(ln[0] == (n % 256) as u8);
            }
            if be_bytes(m, width) == be_bytes(n, width) {
                assert((hm + lm)[w as int] == (hn + ln)[w as int]);
            }
        } else {
            crate::order::lemma_lex_total(hm, hn);
            if lex_lt(hm, hn) {
                lemma_lex_prefix_decides(hm, hn, lm, ln);
                crate::order::lemma_lex_asymmetric(hm + lm, hn + ln);
            } else {
                lemma_lex_prefix_decides(hn, hm, ln, lm);
                crate::order::lemma_lex_asymmetric(hm + lm, hn + ln);
            }
            if be_bytes(m, width) == be_bytes(n, width) {
                assert((hm + lm).subrange(0, w as int) =~= hm);
                assert((hn + ln).subrange(0, w as int) =~= hn);
            }
        }
    }
}

/// Of byte strings of one length, the first that differ decide the order, whatever
/// follows them.
pub proof fn lemma_lex_prefix_decides(a: Seq<u8>, b: Seq<u8>, after_a: Seq<u8>, after_b: Seq<u8>)
    requires
        a.len() == b.len(),
        lex_lt(a, b),
    ensures
        lex_lt(a + after_a, b + after_b),
    decreases a.len(),
{
    if a.len() > 0 {
        assert((a + after_a)[0] == a[0]);
        assert((b + after_b)[0] == b[0]);
        if a[0] == b[0] {
            lemma_lex_prefix_decides(a.skip(1), b.skip(1), after_a, after_b);
            assert((a + after_a).skip(1) =~= a.skip(1) + after_a);
            assert((b + after_b).skip(1) =~= b.skip(1) + after_b);
        }
    }
}

/// The keys of records with whole numbers as keys sort as the numbers do.
pub proof fn lemma_integer_ids_order(i: i64, j: i64)
    ensures
        lex_lt(i64_part(i), i64_part(j)) <==> i < j,
{
    reveal_with_fuel(radix, 9);
    lemma_be_bytes_order(
        (i + 0x8000_0000_0000_0000) as nat,
        (j + 0x8000_0000_0000_0000) as nat,
        8,
    );
}

/// Times sort in keys as the times do.
pub proof fn lemma_times_order(s: u64, t: u64)
    ensures
        lex_lt(u64_part(s), u64_part(t)) <==> s < t,
{
    reveal_with_fuel(radix, 9);
    lemma_be_bytes_order(s as nat, t as nat, 8);
}

} // verus!
