use surrealdb::ast::Base;
use surrealdb::ast::Ident;
use surrealdb::ast::Idiom;
use surrealdb::ast::Part;
use surrealdb::dbs::Action;
use surrealdb::dbs::Auth;
use surrealdb::dbs::AuthLevel;
use surrealdb::dbs::Options;
use surrealdb::dbs::ResourceKind;
use surrealdb::dbs::Role;
use surrealdb::doc::CursorDoc;
use surrealdb::doc::Document;
use surrealdb::doc::RecordEvent;
use surrealdb::doc::RecordState;
use surrealdb::err::Error;
use surrealdb::key;
use surrealdb::kvs::tx::Datastore;
use surrealdb::kvs::tx::State;
use surrealdb::order::bytes_less;
use surrealdb::statements::RemoveFieldStatement;
use surrealdb::value::Object;
use surrealdb::value::RecordId;
use surrealdb::value::RecordIdKey;
use surrealdb::value::Value;

fn options() -> Options {
    let mut options = Options::new();
    options.ns = Some(String::from("test"));
    options.db = Some(String::from("test"));
    options
}

fn field_name(name: &str) -> Idiom {
    Idiom(vec![Part::Field(Ident(String::from(name)))])
}

fn wire(value: &Value) -> Vec<u8> {
    let mut out = Vec::new();
    value.serialize_revisioned(&mut out);
    out
}

#[test]
fn namespace_key_is_category_and_name() {
    assert_eq!(key::kv("ab"), vec![1, b'a', b'b', 0]);
    assert_eq!(key::ns("a", "b"), vec![2, b'a', 0, b'b', 0]);
    assert_eq!(key::tb("a", "b", "c"), vec![3, b'a', 0, b'b', 0, b'c', 0]);
    assert_eq!(key::field("a", "b", "c", "d"), vec![4, b'a', 0, b'b', 0, b'c', 0, b'd', 0]);
    assert_eq!(key::index("a", "b", "c", "d"), vec![5, b'a', 0, b'b', 0, b'c', 0, b'd', 0]);
}

#[test]
fn zero_bytes_in_names_are_escaped() {
    assert_eq!(key::kv("a\0b"), vec![1, b'a', 0, 255, b'b', 0]);
}

#[test]
fn ranges_are_prefix_and_prefix_with_255() {
    let prefix = key::fields_prefix("a", "b", "c");
    let suffix = key::fields_suffix("a", "b", "c");
    assert_eq!(prefix, vec![4, b'a', 0, b'b', 0, b'c', 0]);
    let mut expected = prefix.clone();
    expected.push(255);
    assert_eq!(suffix, expected);
    let prefix = key::records_prefix("a", "b", "c");
    let mut expected = prefix.clone();
    expected.push(255);
    assert_eq!(key::records_suffix("a", "b", "c"), expected);
    let prefix = key::indexes_prefix("a", "b", "c");
    let mut expected = prefix.clone();
    expected.push(255);
    assert_eq!(key::indexes_suffix("a", "b", "c"), expected);
    let prefix = key::changefeed_prefix("a", "b");
    let mut expected = prefix.clone();
    expected.push(255);
    assert_eq!(key::changefeed_suffix("a", "b"), expected);
}

#[test]
fn field_range_holds_the_field_alone() {
    let start = key::field_prefix("n", "d", "user", "age");
    let end = key::field_suffix("n", "d", "user", "age");
    assert_eq!(start, key::field("n", "d", "user", "age"));
    let other = key::field("n", "d", "user", "agent");
    assert!(bytes_less(&start, &end));
    assert!(!(bytes_less(&other, &end) && !bytes_less(&other, &start)));
}

#[test]
fn keys_order_as_their_names() {
    let names = ["", "a", "a\0", "a\0a", "aa", "ab", "b", "\u{e9}"];
    for i in 0..names.len() {
        for j in 0..names.len() {
            let a = key::field("n", "d", "t", names[i]);
            let b = key::field("n", "d", "t", names[j]);
            assert_eq!(bytes_less(&a, &b), names[i].as_bytes() < names[j].as_bytes(), "{} {}", i, j);
            assert_eq!(a < b, names[i].as_bytes() < names[j].as_bytes());
        }
    }
}

#[test]
fn integer_ids_order_as_numbers() {
    let ids = [i64::MIN, -256, -1, 0, 1, 255, 256, i64::MAX];
    for i in 0..ids.len() {
        for j in 0..ids.len() {
            let a = key::record("n", "d", "t", &RecordIdKey::Integer(ids[i]));
            let b = key::record("n", "d", "t", &RecordIdKey::Integer(ids[j]));
            assert_eq!(bytes_less(&a, &b), ids[i] < ids[j], "{} {}", ids[i], ids[j]);
        }
    }
}

#[test]
fn changefeed_keys_order_by_time() {
    let times = [0u64, 1, 255, 256, 1 << 40, u64::MAX];
    for i in 0..times.len() {
        for j in 0..times.len() {
            let a = key::changefeed("n", "d", times[i], "zzz");
            let b = key::changefeed("n", "d", times[j], "a");
            if i != j {
                assert_eq!(bytes_less(&a, &b), times[i] < times[j]);
            }
        }
    }
}

#[test]
fn no_key_of_another_category_lies_in_a_range() {
    let prefix = key::fields_prefix("n", "d", "t");
    let suffix = key::fields_suffix("n", "d", "t");
    let inside = |k: &Vec<u8>| !bytes_less(k, &prefix) && bytes_less(k, &suffix);
    assert!(inside(&key::field("n", "d", "t", "")));
    assert!(inside(&key::field("n", "d", "t", "\u{10ffff}")));
    assert!(!inside(&key::field("n", "d", "t2", "a")));
    assert!(!inside(&key::field("n", "d", "", "t")));
    assert!(!inside(&key::index("n", "d", "t", "a")));
    assert!(!inside(&key::tb("n", "d", "t")));
    assert!(!inside(&key::record("n", "d", "t", &RecordIdKey::Integer(1))));
    assert!(!inside(&key::kv("n")));
    assert!(!inside(&key::root_user("n")));
    assert!(!inside(&key::namespace_user("n", "d")));
    assert!(!inside(&key::database_user("n", "d", "t")));
    assert!(!inside(&key::namespace_token("n", "t")));
    assert!(!inside(&key::database_token("n", "d", "t")));
    assert!(!inside(&key::changefeed("n", "d", 4, "t")));
}

#[test]
fn transaction_reads_its_own_writes() {
    let store = Datastore::new();
    let mut tx = store.begin(true);
    assert_eq!(tx.get(b"a").unwrap(), None);
    tx.set(b"a".to_vec(), b"1".to_vec()).unwrap();
    assert_eq!(tx.get(b"a").unwrap(), Some(b"1".to_vec()));
    tx.set(b"a".to_vec(), b"2".to_vec()).unwrap();
    assert_eq!(tx.get(b"a").unwrap(), Some(b"2".to_vec()));
    tx.del(b"a").unwrap();
    assert_eq!(tx.get(b"a").unwrap(), None);
}

#[test]
fn only_committed_state_is_seen() {
    let mut store = Datastore::new();
    let mut writer = store.begin(true);
    writer.set(b"a".to_vec(), b"1".to_vec()).unwrap();
    let reader = store.begin(false);
    assert_eq!(reader.get(b"a").unwrap(), None);
    writer.commit(&mut store).unwrap();
    assert_eq!(writer.state(), State::Committed);
    assert_eq!(reader.get(b"a").unwrap(), None);
    let later = store.begin(false);
    assert_eq!(later.get(b"a").unwrap(), Some(b"1".to_vec()));
    assert_eq!(store.get(b"a"), Some(b"1".to_vec()));
}

#[test]
fn transactions_over_disjoint_keys_both_commit() {
    let mut store = Datastore::new();
    let mut one = store.begin(true);
    let mut two = store.begin(true);
    one.set(b"a".to_vec(), b"1".to_vec()).unwrap();
    two.set(b"b".to_vec(), b"2".to_vec()).unwrap();
    assert!(one.commit(&mut store).is_ok());
    assert!(two.commit(&mut store).is_ok());
    assert_eq!(store.get(b"a"), Some(b"1".to_vec()));
    assert_eq!(store.get(b"b"), Some(b"2".to_vec()));
}

#[test]
fn overlapping_writes_conflict() {
    let mut store = Datastore::new();
    let mut one = store.begin(true);
    let mut two = store.begin(true);
    one.set(b"a".to_vec(), b"1".to_vec()).unwrap();
    two.set(b"a".to_vec(), b"2".to_vec()).unwrap();
    two.set(b"b".to_vec(), b"2".to_vec()).unwrap();
    assert!(one.commit(&mut store).is_ok());
    let second = two.commit(&mut store);
    assert!(matches!(second, Err(Error::Conflict)));
    assert!(second.unwrap_err().is_retriable());
    assert_eq!(two.state(), State::Cancelled);
    assert_eq!(store.get(b"a"), Some(b"1".to_vec()));
    assert_eq!(store.get(b"b"), None);
}

#[test]
fn put_on_a_key_that_is_there_fails() {
    let mut store = Datastore::new();
    let mut tx = store.begin(true);
    let key = key::record("n", "d", "t", &RecordIdKey::Integer(1));
    tx.put(key.clone(), b"v=1".to_vec()).unwrap();
    let again = tx.put(key.clone(), b"v=2".to_vec());
    assert!(matches!(again, Err(Error::AlreadyExists)));
    assert_eq!(tx.get(&key).unwrap(), Some(b"v=1".to_vec()));
    tx.cancel().unwrap();
    assert_eq!(tx.state(), State::Cancelled);
    assert!(matches!(tx.commit(&mut store), Err(_)));
    let later = store.begin(false);
    assert_eq!(later.get(&key).unwrap(), None);
    let start = key::records_prefix("n", "d", "t");
    let end = key::records_suffix("n", "d", "t");
    assert!(later.getr(&start, &end, 10).unwrap().is_empty());
}

#[test]
fn created_record_is_read_back() {
    let mut store = Datastore::new();
    let mut tx = store.begin(true);
    let mut body = Object::new();
    body.insert(String::from("name"), Value::String(String::from("Alice")));
    body.insert(String::from("age"), Value::integer(30));
    let key = key::record("n", "d", "user", &RecordIdKey::String(String::from("alice")));
    tx.put(key.clone(), wire(&Value::Object(body))).unwrap();
    tx.commit(&mut store).unwrap();
    let reader = store.begin(false);
    let bytes = reader.get(&key).unwrap().unwrap();
    let (value, rest) = Value::deserialize_revisioned(&bytes).unwrap();
    assert!(rest.is_empty());
    match value {
        Value::Object(body) => {
            assert_eq!(body.len(), 2);
            assert_eq!(format!("{:?}", body.get("name")), format!("{:?}", Some(&Value::String(String::from("Alice")))));
        }
        other => panic!("{:?}", other),
    }
}

#[test]
fn read_only_transaction_does_not_write() {
    let store = Datastore::new();
    let mut tx = store.begin(false);
    assert!(!tx.is_writable());
    assert!(tx.is_open());
    assert!(tx.set(b"a".to_vec(), b"1".to_vec()).is_err());
    assert!(tx.put(b"a".to_vec(), b"1".to_vec()).is_err());
    assert!(tx.del(b"a").is_err());
    assert_eq!(tx.get(b"a").unwrap(), None);
}

#[test]
fn closed_transaction_refuses_work() {
    let mut store = Datastore::new();
    let mut tx = store.begin(true);
    tx.commit(&mut store).unwrap();
    assert!(!tx.is_open());
    assert!(matches!(tx.get(b"a"), Err(Error::Internal)));
    assert!(tx.set(b"a".to_vec(), b"1".to_vec()).is_err());
    assert!(tx.cancel().is_err());
    assert!(tx.commit(&mut store).is_err());
}

#[test]
fn scan_is_in_order_and_limited() {
    let mut store = Datastore::new();
    let mut tx = store.begin(true);
    for k in [b"c", b"a", b"e", b"b", b"d"] {
        tx.set(k.to_vec(), k.to_vec()).unwrap();
    }
    let found = tx.getr(b"b", b"e", 10).unwrap();
    let keys: Vec<Vec<u8>> = found.into_iter().map(|(k, _)| k).collect();
    assert_eq!(keys, vec![b"b".to_vec(), b"c".to_vec(), b"d".to_vec()]);
    let found = tx.getr(b"a", b"z", 2).unwrap();
    assert_eq!(found.len(), 2);
    assert_eq!(found[0].0, b"a".to_vec());
    assert_eq!(found[1].0, b"b".to_vec());
    tx.delr(b"b", b"d", 10).unwrap();
    let found = tx.getr(b"a", b"z", 10).unwrap();
    let keys: Vec<Vec<u8>> = found.into_iter().map(|(k, _)| k).collect();
    assert_eq!(keys, vec![b"a".to_vec(), b"d".to_vec(), b"e".to_vec()]);
    tx.commit(&mut store).unwrap();
    assert_eq!(store.get(b"b"), None);
    assert_eq!(store.get(b"d"), Some(b"d".to_vec()));
}

#[test]
fn cache_is_kept_until_cleared() {
    let mut store = Datastore::new();
    let mut setup = store.begin(true);
    setup.set(b"tb:a".to_vec(), b"1".to_vec()).unwrap();
    setup.commit(&mut store).unwrap();
    let mut tx = store.begin(true);
    assert_eq!(tx.get_cached(b"tb:a").unwrap(), Some(b"1".to_vec()));
    tx.set(b"tb:a".to_vec(), b"2".to_vec()).unwrap();
    assert_eq!(tx.get(b"tb:a").unwrap(), Some(b"2".to_vec()));
    tx.clr(b"tb:").unwrap();
    assert_eq!(tx.get_cached(b"tb:a").unwrap(), Some(b"2".to_vec()));
    tx.clear_cache();
    assert_eq!(tx.get_cached(b"tb:a").unwrap(), Some(b"2".to_vec()));
}

#[test]
fn remove_field_leaves_the_range_empty() {
    let mut store = Datastore::new();
    let mut setup = store.begin(true);
    setup.set(key::field("test", "test", "user", "age"), b"int".to_vec()).unwrap();
    setup.set(key::field("test", "test", "user", "agent"), b"string".to_vec()).unwrap();
    setup.set(key::field("test", "test", "user", "name"), b"string".to_vec()).unwrap();
    setup.commit(&mut store).unwrap();
    let mut tx = store.begin(true);
    let statement = RemoveFieldStatement { name: field_name("age"), what: Ident(String::from("user")) };
    let result = statement.compute(&options(), &mut tx).unwrap();
    assert!(matches!(result, Value::Nothing));
    let start = key::field_prefix("test", "test", "user", "age");
    let end = key::field_suffix("test", "test", "user", "age");
    assert!(tx.getr(&start, &end, 10).unwrap().is_empty());
    let all = tx.getr(&key::fields_prefix("test", "test", "user"), &key::fields_suffix("test", "test", "user"), 10).unwrap();
    let keys: Vec<Vec<u8>> = all.into_iter().map(|(k, _)| k).collect();
    assert_eq!(keys, vec![key::field("test", "test", "user", "agent"), key::field("test", "test", "user", "name")]);
    tx.commit(&mut store).unwrap();
    assert_eq!(store.get(&key::field("test", "test", "user", "age")), None);
}

#[test]
fn remove_field_needs_a_database() {
    let store = Datastore::new();
    let mut tx = store.begin(true);
    let statement = RemoveFieldStatement { name: field_name("age"), what: Ident(String::from("user")) };
    let mut opt = options();
    opt.db = None;
    assert!(matches!(statement.compute(&opt, &mut tx), Err(Error::NotFound)));
    let mut opt = options();
    opt.auth_enabled = true;
    opt.auth = Auth { level: AuthLevel::Database, role: Role::Viewer };
    assert!(matches!(statement.compute(&opt, &mut tx), Err(Error::PermissionDenied)));
    let mut reader = store.begin(false);
    assert!(statement.compute(&options(), &mut reader).is_err());
}

#[test]
fn remove_field_is_written_out() {
    let statement = RemoveFieldStatement { name: field_name("age"), what: Ident(String::from("user")) };
    assert_eq!(statement.to_text(), "REMOVE FIELD age ON user");
}

#[test]
fn options_without_names_are_not_found() {
    let opt = Options::new();
    assert!(matches!(opt.ns(), Err(Error::NotFound)));
    assert!(matches!(opt.db(), Err(Error::NotFound)));
    let opt = options();
    assert_eq!(opt.ns().unwrap(), "test");
    assert_eq!(opt.db().unwrap(), "test");
}

#[test]
fn viewers_may_not_edit() {
    let mut opt = options();
    opt.auth_enabled = true;
    opt.auth = Auth { level: AuthLevel::Root, role: Role::Viewer };
    assert!(opt.is_allowed(Action::View, ResourceKind::Field, &Base::Db).is_ok());
    assert!(matches!(opt.is_allowed(Action::Edit, ResourceKind::Field, &Base::Db), Err(Error::PermissionDenied)));
    opt.auth = Auth { level: AuthLevel::Root, role: Role::Owner };
    assert!(opt.is_allowed(Action::Edit, ResourceKind::Field, &Base::Db).is_ok());
    opt.auth = Auth { level: AuthLevel::Database, role: Role::Owner };
    assert!(opt.is_allowed(Action::Edit, ResourceKind::Field, &Base::Db).is_ok());
    assert!(opt.is_allowed(Action::Edit, ResourceKind::Field, &Base::Root).is_err());
    opt.auth = Auth { level: AuthLevel::Anonymous, role: Role::Owner };
    assert!(opt.is_allowed(Action::View, ResourceKind::Field, &Base::Db).is_err());
}

#[test]
fn record_without_a_body_is_ignored() {
    let id = RecordId::from_table_key(String::from("t"), RecordIdKey::Integer(1));
    let doc = Document { id: Some(id), initial: CursorDoc { doc: None }, current: CursorDoc { doc: None } };
    assert!(matches!(doc.empty(), Err(Error::Ignore)));
    let id = RecordId::from_table_key(String::from("t"), RecordIdKey::Integer(1));
    let doc = Document { id: Some(id), initial: CursorDoc { doc: None }, current: CursorDoc { doc: Some(Value::Null) } };
    assert!(doc.empty().is_ok());
    let doc = Document { id: None, initial: CursorDoc { doc: None }, current: CursorDoc { doc: None } };
    assert!(doc.empty().is_ok());
}

#[test]
fn record_steps_follow_the_machine() {
    let loaded = RecordState::Loaded;
    assert_eq!(loaded.step(RecordEvent::Looked { exists: false }), Some(RecordState::Missing));
    assert_eq!(loaded.step(RecordEvent::Looked { exists: true }), Some(RecordState::Current));
    assert_eq!(RecordState::Missing.step(RecordEvent::Create), Some(RecordState::Updated));
    assert_eq!(RecordState::Current.step(RecordEvent::Mutate), Some(RecordState::Updated));
    assert_eq!(RecordState::Current.step(RecordEvent::Delete), Some(RecordState::Deleted));
    assert_eq!(RecordState::Updated.step(RecordEvent::Commit), Some(RecordState::Done));
    assert_eq!(RecordState::Updated.step(RecordEvent::Delete), Some(RecordState::Done));
    assert_eq!(RecordState::Deleted.step(RecordEvent::Commit), Some(RecordState::Done));
    assert_eq!(RecordState::Done.step(RecordEvent::Commit), None);
    assert_eq!(RecordState::Missing.step(RecordEvent::Mutate), None);
    assert_eq!(RecordState::Loaded.step(RecordEvent::Create), None);
}

#[test]
fn errors_have_codes() {
    assert_eq!(Error::Conflict.code(), "Conflict");
    assert_eq!(Error::AlreadyExists.code(), "AlreadyExists");
    assert_eq!(Error::InvalidUrl(String::from("x")).code(), "InvalidUrl");
    assert!(Error::Conflict.is_retriable());
    assert!(!Error::Timeout.is_retriable());
    assert!(!Error::Internal.is_retriable());
}

#[test]
fn statement_within_its_time_commits() {
    let mut store = Datastore::new();
    let mut tx = store.begin(true);
    tx.set(b"a".to_vec(), b"1".to_vec()).unwrap();
    let timeout = Some(surrealdb::ast::Timeout(surrealdb::time::Duration::from_secs(5)));
    let elapsed = surrealdb::time::Duration::from_secs(5);
    assert!(surrealdb::exec::conclude(&mut tx, &mut store, elapsed, timeout).is_ok());
    assert_eq!(tx.state(), State::Committed);
    assert_eq!(store.get(b"a"), Some(b"1".to_vec()));
}

#[test]
fn statement_out_of_time_commits_nothing() {
    let mut store = Datastore::new();
    let mut tx = store.begin(true);
    tx.set(b"a".to_vec(), b"1".to_vec()).unwrap();
    let timeout = Some(surrealdb::ast::Timeout(surrealdb::time::Duration::from_secs(5)));
    let elapsed = surrealdb::time::Duration::new(5, 1).unwrap();
    let result = surrealdb::exec::conclude(&mut tx, &mut store, elapsed, timeout);
    assert!(matches!(result, Err(Error::Timeout)));
    assert_eq!(tx.state(), State::Cancelled);
    assert_eq!(store.get(b"a"), None);
    assert_eq!(store.sequence(), 0);
}

#[test]
fn statement_without_timeout_commits() {
    let mut store = Datastore::new();
    let mut tx = store.begin(true);
    tx.set(b"a".to_vec(), b"1".to_vec()).unwrap();
    let elapsed = surrealdb::time::Duration::from_secs(u64::MAX);
    assert!(surrealdb::exec::conclude(&mut tx, &mut store, elapsed, None).is_ok());
    assert!(surrealdb::exec::check_deadline(elapsed, None).is_ok());
    assert_eq!(store.get(b"a"), Some(b"1".to_vec()));
}

#[test]
fn conflicts_are_tried_again() {
    assert!(surrealdb::exec::runs_again(&Error::Conflict, 0, 3));
    assert!(surrealdb::exec::runs_again(&Error::Conflict, 2, 3));
    assert!(!surrealdb::exec::runs_again(&Error::Conflict, 3, 3));
    assert!(!surrealdb::exec::runs_again(&Error::Timeout, 0, 3));
}
