//! Statements that define and remove what a table is made of.

use vstd::prelude::*;
use vstd::string::StringExecFns;
use crate::ast::Base;
use crate::ast::BaseView;
use crate::ast::Ident;
use crate::ast::Idiom;
use crate::ast::PartView;
use crate::dbs::Action;
use crate::dbs::Options;
use crate::dbs::ResourceKind;
use crate::err::Error;
use crate::err::ErrorView;
use crate::fmt::idiom_text;
use crate::fmt::name_text;
use crate::fmt::push_name;
use crate::key::Key;
use crate::kvs::tx::deleted;
use crate::kvs::tx::scanned;
use crate::kvs::tx::Transaction;
use crate::kvs::tx::TxView;
use crate::value::Value;
use crate::value::ValueView;

verus! {

/// `REMOVE FIELD name ON what`
#[derive(Debug)]
pub struct RemoveFieldStatement {
    pub name: Idiom,
    pub what: Ident,
}

impl View for RemoveFieldStatement {
    type V = (Seq<PartView>, Seq<char>);

    open spec fn view(&self) -> (Seq<PartView>, Seq<char>) {
        (self.name@, self.what@)
    }
}

/// The key under which the field that a statement removes is defined.
pub open spec fn field_key(ns: Seq<char>, db: Seq<char>, statement: (Seq<PartView>, Seq<char>)) -> Seq<u8> {
    (Key::Field { ns, db, tb: statement.1, fd: idiom_text(statement.0) }).encode()
}

/// The transaction after the statement removed the field from it: the key of the field
/// is deleted where the transaction saw it, and nothing is kept for later reads of the
/// fields of the table.
pub open spec fn field_removed(
    tx: TxView,
    ns: Seq<char>,
    db: Seq<char>,
    statement: (Seq<PartView>, Seq<char>),
) -> TxView {
    let key = field_key(ns, db, statement);
    let without = if tx.data.contains_key(key) {
        TxView { cache: Map::empty(), ..tx }.del(key)
    } else {
        TxView { cache: Map::empty(), ..tx }
    };
    without
}

impl RemoveFieldStatement {
    /// Why the statement does not run with these options in this transaction: who runs
    /// it may not edit fields; no namespace or database is chosen; or the transaction
    /// does not write.
    pub open spec fn fault(&self, opt: &Options, tx: TxView) -> Option<ErrorView> {
        if !opt.allows(Action::Edit, ResourceKind::Field, BaseView::Db) {
            Some(ErrorView::PermissionDenied)
        } else if opt.ns is None || opt.db is None {
            Some(ErrorView::NotFound)
        } else {
            tx.write_fault()
        }
    }

    /// Process this type returning a computed simple Value
    pub fn compute(&self, opt: &Options, txn: &mut Transaction) -> (result: Result<Value, Error>)
        requires
            old(txn).wf(),
        ensures
            final(txn).wf(),
            match result {
                Ok(value) => self.fault(opt, old(txn)@) is None && value@ == ValueView::Nothing
                    && final(txn)@ == field_removed(
                    old(txn)@,
                    opt.ns->Some_0@,
                    opt.db->Some_0@,
                    self@,
                ),
                Err(e) => self.fault(opt, old(txn)@) == Some(e@) && final(txn)@ == old(txn)@,
            },
    {
        // Allowed to run?
        match opt.is_allowed(Action::Edit, ResourceKind::Field, &Base::Db) {
            Ok(_) => {},
            Err(e) => return Err(e),
        }
        let ns = match opt.ns() {
            Ok(ns) => ns,
            Err(e) => return Err(e),
        };
        let db = match opt.db() {
            Ok(db) => db,
            Err(e) => return Err(e),
        };
        if !txn.is_open() {
            return Err(Error::Internal);
        }
        if !txn.is_writable() {
            return Err(Error::Unsupported);
        }
        // Clear the cache
        txn.clear_cache();
        // Delete the definition
        let fd = self.name.to_text();
        let start = crate::key::field_prefix(ns, db, self.what.as_str(), fd.as_str());
        let end = crate::key::field_suffix(ns, db, self.what.as_str(), fd.as_str());
        let ghost before = txn@;
        let ghost key = field_key(ns@, db@, self@);
        match txn.delr(start.as_slice(), end.as_slice(), 0xffff_ffff) {
            Ok(_) => {},
            Err(e) => return Err(e),
        }
        proof {
            let found = choose|found: Seq<(Seq<u8>, Seq<u8>)>|
                scanned(before.data, start@, end@, 0xffff_ffff, found) && txn@ == deleted(
                    before,
                    found,
                );
            lemma_scan_of_one(before.data, key, found);
            if found.len() == 1 {
                assert(found.drop_last() =~= Seq::<(Seq<u8>, Seq<u8>)>::empty());
                assert(deleted(before, found.drop_last()) == before);
                assert(found.last().0 == key);
                assert(deleted(before, found) == before.del(key));
            } else {
                assert(deleted(before, found) == before);
            }
        }
        // Clear the cache
        let prefix = crate::key::fields_prefix(ns, db, self.what.as_str());
        match txn.clr(prefix.as_slice()) {
            Ok(_) => {},
            Err(e) => return Err(e),
        }
        proof {
            assert(txn@.cache =~= Map::<Seq<u8>, Seq<u8>>::empty());
            assert(Map::<Seq<u8>, Seq<u8>>::empty().remove(key) =~= Map::<
                Seq<u8>,
                Seq<u8>,
            >::empty());
            assert(before == (TxView { cache: Map::empty(), ..old(txn)@ }));
            assert(txn@ == field_removed(old(txn)@, ns@, db@, self@));
        }
        // Ok all good
        Ok(Value::Nothing)
    }

    /// The statement as it is written.
    pub open spec fn text(&self) -> Seq<char> {
        "REMOVE FIELD "@ + idiom_text(self.name@) + " ON "@ + name_text(self.what@)
    }

    /// The statement as it is written.
    pub fn to_text(&self) -> (text: String)
        ensures
            text@ == self.text(),
    {
        let mut text = String::from_str("REMOVE FIELD ");
        let name = self.name.to_text();
        text.append(name.as_str());
        text.append(" ON ");
        push_name(self.what.as_str(), &mut text);
        text
    }
}

/// A scan from a key up to the key followed by a zero byte finds the entry under the key,
/// if there is one, and nothing else.
pub proof fn lemma_scan_of_one(
    data: Map<Seq<u8>, Seq<u8>>,
    key: Seq<u8>,
    found: Seq<(Seq<u8>, Seq<u8>)>,
)
    requires
        scanned(data, key, key + seq![0u8], 0xffff_ffff, found),
    ensures
        data.contains_key(key) ==> found.len() == 1 && found[0].0 == key,
        !data.contains_key(key) ==> found.len() == 0,
{
    let end = key + seq![0u8];
    assert forall|i: int| 0 <= i < found.len() implies (#[trigger] found[i]).0 == key by {
        lemma_only_key_between(key, found[i].0);
    }
    if found.len() > 1 {
        assert(crate::order::lex_lt(found[0].0, found[1].0));
        crate::order::lemma_lex_irreflexive(key);
    }
    if data.contains_key(key) {
        crate::order::lemma_lex_extension(key, seq![0u8]);
        assert(data.contains_key(key) && crate::order::lex_le(key, key) && crate::order::lex_lt(
            key,
            end,
        ));
        if found.len() == 0 {
        }
        if found.len() == 1 && found[0].0 != key {
        }
    } else {
        if found.len() > 0 {
            assert(data.contains_key(found[0].0));
        }
    }
}

/// The only byte string from a key up to the key followed by a zero byte is the key.
pub proof fn lemma_only_key_between(key: Seq<u8>, other: Seq<u8>)
    requires
        crate::order::lex_le(key, other),
        crate::order::lex_lt(other, key + seq![0u8]),
    ensures
        other == key,
    decreases key.len(),
{
    let end = key + seq![0u8];
    if key.len() == 0 {
        assert(end =~= seq![0u8]);
        if other.len() > 0 {
            assert(!crate::order::lex_lt(other.skip(1), end.skip(1)));
        }
        assert(other =~= key);
    } else {
        if other.len() == 0 {
        } else if other[0] == key[0] {
            assert(end.skip(1) =~= key.skip(1) + seq![0u8]);
            if key == other {
            } else {
                lemma_only_key_between(key.skip(1), other.skip(1));
                assert(other =~= seq![other[0]] + other.skip(1));
                assert(key =~= seq![key[0]] + key.skip(1));
            }
        } else {
        }
    }
}

} // verus!
