use surrealdb::convert::ConversionError;
use surrealdb::err::Error;
use surrealdb::fmt;
use surrealdb::fnc;
use surrealdb::fnc::Args;
use surrealdb::http;
use surrealdb::http::Body;
use surrealdb::http::Content;
use surrealdb::http::Decoded;
use surrealdb::http::Method;
use surrealdb::http::NetTargets;
use surrealdb::middleware::InvocationContext;
use surrealdb::middleware::InvokeMiddleware;
use surrealdb::number::Decimal;
use surrealdb::reader::BytesReader;
use surrealdb::reader::CharError;
use surrealdb::time::Datetime;
use surrealdb::time::Duration;
use surrealdb::upgrade::next_port;
use surrealdb::upgrade::use_params;
use surrealdb::upgrade::verdict;
use surrealdb::upgrade::writes_results;
use surrealdb::upgrade::NamesFault;
use surrealdb::upgrade::ResultsMode;
use surrealdb::upgrade::RunFailure;
use surrealdb::upgrade::TestGrade;
use surrealdb::upgrade::Config;
use surrealdb::upgrade::DsVersion;
use surrealdb::upgrade::Task;
use surrealdb::upgrade::TestCase;
use surrealdb::upgrade::TestSet;
use surrealdb::upgrade::UpgradeBackend;
use surrealdb::upgrade::Version;
use surrealdb::value::Bytes;
use surrealdb::value::Object;
use surrealdb::value::RecordId;
use surrealdb::value::RecordIdKey;
use surrealdb::value::Uuid;
use surrealdb::value::Value;

fn show<T: std::fmt::Debug>(v: &T) -> String {
    format!("{:?}", v)
}

fn text(v: &str) -> Value {
    Value::String(String::from(v))
}

fn context() -> InvocationContext {
    InvocationContext {
        request_body_max: None,
        request_body_raw: false,
        response_body_raw: false,
        response_headers: Vec::new(),
        timeout: None,
    }
}

fn invoke(name: &str, args: Vec<Value>, context: &mut InvocationContext) -> Result<(), Error> {
    let name = String::from(name);
    (&name, &args).invoke(context)
}

fn case(path: &str) -> TestCase {
    TestCase { path: String::from(path), upgrade: true, wip: false, has_results: true }
}

#[test]
fn conversion_error_names_both_types() {
    let error = ConversionError::new("Bool", "bool");
    assert_eq!(error.message(), "failed to convert into `bool` from value with type `\"Bool\"`\n");
    let error = Value::integer(1).try_into_bool().unwrap_err();
    assert_eq!(error.message(), "failed to convert into `bool` from value with type `\"Bool\"`\n");
}

#[test]
fn values_give_what_they_hold() {
    assert_eq!(Value::Bool(true).as_bool(), Some(&true));
    assert_eq!(Value::Null.as_bool(), None);
    assert_eq!(Value::Bool(false).into_bool(), Some(false));
    assert!(Value::integer(5).as_number().is_some());
    assert!(Value::integer(5).into_number().is_some());
    assert!(text("x").as_number().is_none());
    assert!(Value::Uuid(Uuid::from_bytes([1; 16])).as_uuid().is_some());
    assert!(Value::Uuid(Uuid::from_bytes([1; 16])).into_uuid().is_some());
    let instant = Datetime::from_timestamp(5, 0).unwrap();
    assert_eq!(Value::Datetime(instant).as_datetime(), Some(&instant));
    assert_eq!(Value::Datetime(instant).into_dateime(), Some(instant));
    assert_eq!(Value::Duration(Duration::from_secs(1)).as_duration(), Some(&Duration::from_secs(1)));
    assert_eq!(Value::Duration(Duration::from_secs(1)).into_duration(), Some(Duration::from_secs(1)));
    assert!(Value::Bytes(Bytes::new(vec![1])).as_bytes().is_some());
    assert_eq!(Value::Bytes(Bytes::new(vec![1])).into_bytes().unwrap().into_inner(), vec![1]);
    let id = RecordId::from_table_key(String::from("t"), RecordIdKey::Integer(1));
    assert!(Value::RecordId(id).as_record_id().is_some());
    assert!(Value::Nothing.into_record_id().is_none());
}

#[test]
fn values_say_why_they_do_not_hold_it() {
    assert!(Value::Bool(true).try_into_bool().unwrap());
    assert!(Value::Null.try_into_number().is_err());
    assert!(Value::Null.try_into_uuid().is_err());
    assert!(Value::Null.try_into_datetime().is_err());
    assert!(Value::Null.try_into_duration().is_err());
    assert!(Value::Null.try_into_bytes().is_err());
    assert!(Value::Null.try_into_record_id().is_err());
    assert!(Value::Duration(Duration::from_secs(1)).try_into_duration().is_ok());
}

#[test]
fn values_name_their_kind() {
    assert_eq!(Value::Nothing.kind(), "None");
    assert_eq!(Value::integer(1).kind(), "Number");
    assert_eq!(Value::Object(Object::new()).kind(), "Object");
}

#[test]
fn object_keeps_its_keys_in_order() {
    let mut object = Object::new();
    assert_eq!(object.len(), 0);
    assert!(object.insert(String::from("b"), Value::integer(2)).is_none());
    assert!(object.insert(String::from("a"), Value::integer(1)).is_none());
    assert!(object.insert(String::from("c"), Value::integer(3)).is_none());
    let before = object.insert(String::from("b"), Value::integer(20));
    assert_eq!(show(&before), show(&Some(Value::integer(2))));
    assert_eq!(object.len(), 3);
    assert_eq!(object.key_at(0), "a");
    assert_eq!(object.key_at(1), "b");
    assert_eq!(object.key_at(2), "c");
    assert_eq!(show(object.value_at(1)), show(&Value::integer(20)));
    assert!(object.contains_key("a"));
    assert!(!object.contains_key("d"));
    assert_eq!(show(&object.get("c")), show(&Some(&Value::integer(3))));
    assert!(object.get("").is_none());
    assert_eq!(show(&object.remove("a")), show(&Some(Value::integer(1))));
    assert!(object.remove("a").is_none());
    let entry = object.remove_entry("c").unwrap();
    assert_eq!(entry.0, "c");
    assert_eq!(object.len(), 1);
    object.push_greatest(String::from("z"), Value::Null);
    assert_eq!(object.key_at(1), "z");
    let popped = object.pop_greatest().unwrap();
    assert_eq!(popped.0, "z");
    let copy = object.duplicate();
    assert_eq!(show(&copy), show(&object));
    object.clear();
    assert_eq!(object.len(), 0);
    assert!(object.pop_greatest().is_none());
}

#[test]
fn record_id_gives_its_parts() {
    let id = RecordId::from_table_key(String::from("user"), RecordIdKey::String(String::from("alice")));
    assert_eq!(id.table(), "user");
    assert_eq!(show(id.key()), show(&RecordIdKey::String(String::from("alice"))));
}

#[test]
fn times_are_checked() {
    assert!(Duration::new(0, 999_999_999).is_some());
    assert!(Duration::new(0, 1_000_000_000).is_none());
    assert_eq!(Duration::new(5, 7).unwrap().secs(), 5);
    assert_eq!(Duration::new(5, 7).unwrap().subsec_nanos(), 7);
    assert!(Datetime::from_timestamp(0, 0).is_some());
    assert!(Datetime::from_timestamp(i64::MAX, 0).is_none());
    assert!(Datetime::from_timestamp(i64::MIN, 0).is_none());
    assert_eq!(Datetime::from_timestamp(0, 0).unwrap().to_text(), "1970-01-01T00:00:00Z");
}

#[test]
fn decimals_are_kept_as_laid_out() {
    let d = Decimal::from_text("1.50").unwrap();
    assert_eq!(d.to_text(), "1.50");
    assert_eq!(Decimal::from_bytes(d.to_bytes()).to_bytes(), d.to_bytes());
    assert!(Decimal::from_canonical_bytes(d.to_bytes()).is_some());
    let mut bytes = d.to_bytes();
    bytes[0] = 1;
    assert!(Decimal::from_canonical_bytes(bytes).is_none());
    assert_eq!(Decimal::from_bytes(bytes).to_bytes(), d.to_bytes());
    assert!(Decimal::from_text("one").is_none());
    assert_eq!(Decimal::from_integer(-5).to_text(), "-5");
    assert_eq!(Decimal::from_integer(-5).to_bytes(), [0, 0, 0, 128, 5, 0, 0, 0, 0, 0, 0, 0, 0, 0, 0, 0]);
    assert_eq!(Decimal::from_integer(i64::MIN).to_text(), "-9223372036854775808");
    assert_eq!(Decimal::from_integer(258).to_integer(), Some(258));
    assert_eq!(Decimal::from_text("79228162514264337593543950335").unwrap().to_integer(), None);
    assert!(Decimal::from_wide(79228162514264337593543950335).is_some());
    assert!(Decimal::from_wide(79228162514264337593543950336).is_none());
    assert!(Decimal::from_wide(-79228162514264337593543950336).is_none());
    assert!(Decimal::from_integer(0).is_zero());
    assert!(Decimal::from_text("0.00").unwrap().is_zero());
    assert!(!Decimal::from_text("0.01").unwrap().is_zero());
    assert_eq!(Decimal::from_integer(1).order(&Decimal::from_integer(2)), -1);
    assert_eq!(Decimal::from_integer(2).order(&Decimal::from_integer(2)), 0);
    assert_eq!(Decimal::from_integer(3).order(&Decimal::from_integer(2)), 1);
}

#[test]
fn numbers_are_written_in_decimal() {
    let mut out = String::new();
    fmt::push_decimal(0, &mut out);
    out.push(' ');
    fmt::push_decimal(u64::MAX, &mut out);
    out.push(' ');
    fmt::push_signed(i64::MIN, &mut out);
    out.push(' ');
    fmt::push_signed(42, &mut out);
    assert_eq!(out, "0 18446744073709551615 -9223372036854775808 42");
}

#[test]
fn reader_reads_characters() {
    let mut reader = BytesReader::new("a\u{e9}\u{20ac}\u{1f600}".as_bytes());
    assert_eq!(reader.len(), 10);
    assert_eq!(reader.peek(), Some(b'a'));
    assert_eq!(reader.next(), Some(b'a'));
    let start = reader.next().unwrap();
    assert_eq!(reader.complete_char(start), Ok('\u{e9}'));
    let start = reader.next().unwrap();
    assert_eq!(reader.complete_char(start), Ok('\u{20ac}'));
    let start = reader.next().unwrap();
    assert_eq!(reader.complete_char(start), Ok('\u{1f600}'));
    assert!(reader.is_empty());
    assert_eq!(reader.next(), None);
    assert_eq!(reader.offset(), 10);
    reader.backup(1);
    assert_eq!(reader.offset(), 1);
    reader.advance(2);
    assert_eq!(reader.offset(), 3);
    assert_eq!(reader.full().len(), 10);
}

#[test]
fn reader_refuses_broken_characters() {
    let mut reader = BytesReader::new(&[0xc3]);
    let start = reader.next().unwrap();
    assert_eq!(reader.complete_char(start), Err(CharError::Eof));
    let mut reader = BytesReader::new(&[0xc3, 0x41]);
    let start = reader.next().unwrap();
    assert_eq!(reader.complete_char(start), Err(CharError::Unicode));
    let mut reader = BytesReader::new(&[0x80]);
    assert_eq!(reader.next_continue_byte(), Ok(0x80));
    let mut reader = BytesReader::new(&[0x41]);
    assert_eq!(reader.next_continue_byte(), Err(CharError::Unicode));
}

#[test]
fn arity_is_checked_before_the_call() {
    let called = fnc::check(&(), "count", vec![Value::integer(1)], Args::One, |_, args| Ok(Value::integer(args.len() as i64)));
    assert_eq!(show(&called.unwrap()), show(&Value::integer(1)));
    let refused = fnc::check(&(), "count", vec![], Args::One, |_, _| Ok(Value::Null));
    match refused {
        Err(Error::InvalidArguments { name, message }) => {
            assert_eq!(name, "count");
            assert_eq!(message, "The function expects 1 argument.");
        }
        other => panic!("{:?}", other),
    }
    assert!(Args::Zero.takes(0));
    assert!(!Args::Zero.takes(1));
    assert!(Args::Any.takes(77));
    assert!(Args::NoneTwo.takes(2));
    assert!(!Args::NoneTwo.takes(1));
    assert!(Args::OneTwoThree.takes(3));
    assert!(!Args::OneTwoThree.takes(0));
    assert_eq!(Args::NoneOneTwo.message(), "The function expects 0, 1, or 2 arguments.");
}

#[test]
fn middleware_sets_the_context() {
    let mut ctx = context();
    invoke("api::req::max_body", vec![Value::integer(1024)], &mut ctx).unwrap();
    assert_eq!(ctx.request_body_max, Some(1024));
    invoke("api::req::raw_body", vec![], &mut ctx).unwrap();
    assert!(ctx.request_body_raw);
    invoke("api::req::raw_body", vec![Value::Bool(false)], &mut ctx).unwrap();
    assert!(!ctx.request_body_raw);
    invoke("api::res::raw_body", vec![Value::Bool(true)], &mut ctx).unwrap();
    assert!(ctx.response_body_raw);
    invoke("api::timeout", vec![Value::Duration(Duration::from_secs(5))], &mut ctx).unwrap();
    assert_eq!(ctx.timeout, Some(Duration::from_secs(5)));
    invoke("api::res::header", vec![text("a"), text("1")], &mut ctx).unwrap();
    invoke("api::res::header", vec![text("b"), text("2")], &mut ctx).unwrap();
    invoke("api::res::header", vec![text("a"), text("3")], &mut ctx).unwrap();
    let mut headers = ctx.response_headers.clone();
    headers.sort();
    assert_eq!(headers, vec![(String::from("a"), String::from("3")), (String::from("b"), String::from("2"))]);
    invoke("api::res::header", vec![text("a")], &mut ctx).unwrap();
    assert_eq!(ctx.response_headers, vec![(String::from("b"), String::from("2"))]);
    let mut more = Object::new();
    more.insert(String::from("c"), text("4"));
    invoke("api::res::headers", vec![Value::Object(more)], &mut ctx).unwrap();
    assert_eq!(ctx.response_headers.len(), 2);
}

#[test]
fn unknown_middleware_is_refused() {
    let mut ctx = context();
    match invoke("api::nothing", vec![], &mut ctx) {
        Err(Error::InvalidFunction { name, message }) => {
            assert_eq!(name, "api::nothing");
            assert_eq!(message, "unknown middleware");
        }
        other => panic!("{:?}", other),
    }
}

#[test]
fn middleware_refuses_wrong_arguments() {
    let mut ctx = context();
    assert!(matches!(invoke("api::req::max_body", vec![], &mut ctx), Err(Error::InvalidFunction { .. })));
    assert!(matches!(invoke("api::req::max_body", vec![Value::integer(-1)], &mut ctx), Err(Error::InvalidFunction { .. })));
    assert!(matches!(invoke("api::timeout", vec![Value::integer(1)], &mut ctx), Err(Error::InvalidFunction { .. })));
    assert!(matches!(invoke("api::res::raw_body", vec![Value::integer(1)], &mut ctx), Err(Error::InvalidFunction { .. })));
    let mut bad = Object::new();
    bad.insert(String::from("c"), Value::integer(4));
    assert!(matches!(invoke("api::res::headers", vec![Value::Object(bad)], &mut ctx), Err(Error::InvalidFunction { .. })));
    assert_eq!(show(&ctx), show(&context()));
}

#[test]
fn task_is_named_by_test_and_versions() {
    let set = TestSet { tests: vec![case("a/b.surql"), case("c.surql")] };
    let from = DsVersion::Version(Version { major: 1, minor: 5, patch: 6 });
    let to = DsVersion::Path(String::from("/src/surrealdb"));
    let task = Task::new(from, to, 1, String::from("/tmp/x"));
    assert_eq!(task.name(&set), "c.surql 1.5.6 => /src/surrealdb");
    assert_eq!(task.test(), 1);
    assert_eq!(task.path(), "/tmp/x");
    assert!(matches!(task.to(), DsVersion::Path(_)));
    assert!(matches!(task.from(), DsVersion::Version(_)));
}

#[test]
fn versions_are_written_and_ordered() {
    let old = Version { major: 1, minor: 5, patch: 6 };
    let new = Version { major: 2, minor: 0, patch: 0 };
    assert_eq!(old.to_text(), "1.5.6");
    assert_eq!(Version { major: 10, minor: 0, patch: 123 }.to_text(), "10.0.123");
    assert!(new.is_at_least(&old));
    assert!(new.is_at_least(&new));
    assert!(!old.is_at_least(&new));
    assert!(DsVersion::Version(old).upgrades_to(&DsVersion::Version(new)));
    assert!(!DsVersion::Version(new).upgrades_to(&DsVersion::Version(old)));
    assert!(!DsVersion::Version(new).upgrades_to(&DsVersion::Version(new)));
    assert!(DsVersion::Version(new).upgrades_to(&DsVersion::Path(String::from("x"))));
}

#[test]
fn surrealkv_starts_with_version_two() {
    let versions = vec![
        DsVersion::Path(String::from("x")),
        DsVersion::Version(Version { major: 2, minor: 1, patch: 0 }),
        DsVersion::Version(Version { major: 1, minor: 9, patch: 9 }),
    ];
    assert_eq!(UpgradeBackend::SurrealKv.first_without(&versions), Some(2));
    assert_eq!(UpgradeBackend::RocksDb.first_without(&versions), None);
    assert_eq!(UpgradeBackend::Foundation.first_without(&versions), None);
}

#[test]
fn config_takes_jobs_before_parallelism() {
    let config = Config::new(String::from("tests"), Some(3), Some(5), None, UpgradeBackend::RocksDb);
    assert_eq!(config.jobs, 3);
    assert!(!config.download_permission);
    let config = Config::new(String::from("tests"), None, Some(5), Some(true), UpgradeBackend::RocksDb);
    assert_eq!(config.jobs, 5);
    assert!(config.download_permission);
    let config = Config::new(String::from("tests"), None, None, None, UpgradeBackend::SurrealKv);
    assert_eq!(config.jobs, 1);
    assert_eq!(config.test_path, "tests");
    assert_eq!(config.backend, UpgradeBackend::SurrealKv);
}

#[test]
fn ports_are_reused_first() {
    let mut reuse = vec![9000, 9001];
    let mut last = 9002;
    let free = |p: u16| p % 2 == 1;
    assert_eq!(next_port(&mut reuse, &mut last, &free), Some(9001));
    assert_eq!(next_port(&mut reuse, &mut last, &free), Some(9000));
    assert_eq!(next_port(&mut reuse, &mut last, &free), Some(9003));
    assert_eq!(last, 9003);
    let mut last = u16::MAX - 1;
    let none = |_: u16| false;
    assert_eq!(next_port(&mut reuse, &mut last, &none), None);
    assert_eq!(last, u16::MAX);
}

#[test]
fn uri_is_checked() {
    assert!(http::uri_is_valid("https://surrealdb.com/docs?x=1"));
    assert!(http::uri_is_valid("http://127.0.0.1:8000"));
    assert!(!http::uri_is_valid("surrealdb.com"));
    assert!(!http::uri_is_valid(""));
    assert!(!http::uri_is_valid("http://"));
}

#[test]
fn request_carries_the_user_agent_first() {
    let mut opts = Object::new();
    opts.insert(String::from("x-b"), text("2"));
    opts.insert(String::from("x-a"), text("1"));
    let request = http::get(&NetTargets::All, "https://example.com/a", &opts).unwrap();
    assert_eq!(request.method, Method::Get);
    assert_eq!(request.uri, "https://example.com/a");
    assert_eq!(
        request.headers,
        vec![
            (String::from("User-Agent"), String::from("SurrealDB")),
            (String::from("x-a"), String::from("1")),
            (String::from("x-b"), String::from("2")),
        ]
    );
    assert!(matches!(request.body, Body::Empty));
}

#[test]
fn request_body_goes_by_the_value() {
    let opts = Object::new();
    let request = http::post(&NetTargets::All, "https://example.com", Value::Bytes(Bytes::new(vec![1, 2])), &opts).unwrap();
    assert_eq!(request.method, Method::Post);
    assert_eq!(show(&request.body), show(&Body::Raw(vec![1, 2])));
    let request = http::put(&NetTargets::All, "https://example.com", Value::integer(5), &opts).unwrap();
    assert_eq!(request.method, Method::Put);
    assert_eq!(show(&request.body), show(&Body::Json(Value::integer(5))));
    let request = http::patch(&NetTargets::All, "https://example.com", Value::Nothing, &opts).unwrap();
    assert_eq!(request.method, Method::Patch);
    assert!(matches!(request.body, Body::Empty));
    let request = http::delete(&NetTargets::All, "https://example.com", &opts).unwrap();
    assert_eq!(request.method, Method::Delete);
    assert!(matches!(request.body, Body::Empty));
    let request = http::head(&NetTargets::All, "https://example.com", &opts).unwrap();
    assert_eq!(request.method, Method::Head);
}

#[test]
fn request_to_a_bad_url_is_refused() {
    let opts = Object::new();
    match http::get(&NetTargets::All, "not a url", &opts) {
        Err(Error::InvalidUrl(uri)) => assert_eq!(uri, "not a url"),
        other => panic!("{:?}", other),
    }
    let mut opts = Object::new();
    opts.insert(String::from("x"), Value::Array(vec![]));
    assert!(matches!(http::get(&NetTargets::All, "https://example.com", &opts), Err(Error::Conversion)));
    let mut opts = Object::new();
    opts.insert(String::from("x"), Value::integer(1));
    opts.insert(String::from("y"), Value::Bool(true));
    let request = http::get(&NetTargets::All, "https://example.com", &opts).unwrap();
    assert_eq!(request.headers[1], (String::from("x"), String::from("1")));
    assert_eq!(request.headers[2], (String::from("y"), String::from("true")));
}

#[test]
fn request_goes_to_allowed_hosts_only() {
    let opts = Object::new();
    let hosts = NetTargets::Hosts(vec![String::from("example.com")]);
    assert!(http::get(&hosts, "https://example.com/a", &opts).is_ok());
    assert!(http::get(&hosts, "https://EXAMPLE.com:8080/a", &opts).is_ok());
    assert!(matches!(http::get(&hosts, "https://example.org/a", &opts), Err(Error::PermissionDenied)));
    assert!(matches!(http::get(&hosts, "data:text/plain,x", &opts), Err(Error::PermissionDenied)));
    assert!(matches!(http::get(&NetTargets::Nothing, "https://example.com", &opts), Err(Error::PermissionDenied)));
    assert!(hosts.check_allowed_net("https://example.com").is_ok());
}

#[test]
fn answer_is_read_by_its_content_type() {
    assert_eq!(http::content(Some("application/json; charset=utf-8")), Content::Json);
    assert_eq!(http::content(Some("application/octet-stream")), Content::Bytes);
    assert_eq!(http::content(Some("text/plain")), Content::Text);
    assert_eq!(http::content(Some("image/png")), Content::Nothing);
    assert_eq!(http::content(Some("Application/json")), Content::Nothing);
    assert_eq!(http::content(None), Content::Nothing);
    let decoded = http::decode_response(200, Some("text/plain"), b"hi".to_vec()).unwrap();
    assert_eq!(show(&decoded), show(&Decoded::Value(text("hi"))));
    let decoded = http::decode_response(204, Some("application/octet-stream"), vec![0, 255]).unwrap();
    assert_eq!(show(&decoded), show(&Decoded::Value(Value::Bytes(Bytes::new(vec![0, 255])))));
    let decoded = http::decode_response(299, None, b"hi".to_vec()).unwrap();
    assert_eq!(show(&decoded), show(&Decoded::Value(Value::Nothing)));
    let decoded = http::decode_response(200, Some("application/json"), b"{\"a\": [1, true]}".to_vec()).unwrap();
    assert!(matches!(decoded, Decoded::Json(_)));
    assert!(matches!(http::decode_response(200, Some("application/json"), b"{".to_vec()), Err(Error::Parse)));
    assert!(matches!(http::decode_response(200, Some("text/plain"), vec![0xff]), Err(Error::Deserialization)));
}

#[test]
fn failed_answer_gives_the_reason() {
    match http::decode_response(404, Some("text/plain"), b"hi".to_vec()) {
        Err(Error::Http(reason)) => assert_eq!(reason, "Not Found"),
        other => panic!("{:?}", other),
    }
    match http::decode_head(500) {
        Err(Error::Http(reason)) => assert_eq!(reason, "Internal Server Error"),
        other => panic!("{:?}", other),
    }
    match http::decode_head(599) {
        Err(Error::Http(reason)) => assert_eq!(reason, ""),
        other => panic!("{:?}", other),
    }
    match http::decode_head(199) {
        Err(Error::Http(_)) => {}
        other => panic!("{:?}", other),
    }
    assert!(matches!(http::decode_head(200), Ok(Value::Nothing)));
    assert!(matches!(http::decode_head(300), Err(Error::Http(_))));
}

#[test]
fn body_is_encoded_by_kind() {
    assert!(matches!(http::encode_body(Value::Nothing), Body::Empty));
    assert!(matches!(http::encode_body(Value::Null), Body::Empty));
    assert!(matches!(http::encode_body(Value::Bool(false)), Body::Json(_)));
    assert!(matches!(http::encode_body(Value::Bytes(Bytes::new(vec![]))), Body::Raw(_)));
}

#[test]
fn tests_are_selected_for_the_run() {
    let test = case("upgrade/basic.surql");
    assert!(surrealdb::upgrade::selected(&test, None, false, false));
    assert!(surrealdb::upgrade::selected(&test, Some("basic"), true, false));
    assert!(surrealdb::upgrade::selected(&test, Some(""), true, false));
    assert!(surrealdb::upgrade::selected(&test, Some("upgrade/basic.surql"), true, false));
    assert!(!surrealdb::upgrade::selected(&test, Some("other"), false, false));
    assert!(!surrealdb::upgrade::selected(&test, Some("upgrade/basic.surqlx"), false, false));
    assert!(!surrealdb::upgrade::selected(&test, None, false, true));
    let wip = TestCase { path: String::from("a"), upgrade: true, wip: true, has_results: false };
    assert!(surrealdb::upgrade::selected(&wip, None, false, true));
    assert!(!surrealdb::upgrade::selected(&wip, None, true, false));
    let plain = TestCase { path: String::from("a"), upgrade: false, wip: false, has_results: false };
    assert!(!surrealdb::upgrade::selected(&plain, None, false, false));
    assert!(surrealdb::upgrade::contains_bytes(b"abcabd", b"abd"));
    assert!(surrealdb::upgrade::contains_bytes(b"", b""));
    assert!(!surrealdb::upgrade::contains_bytes(b"ab", b"abc"));
    assert!(!surrealdb::upgrade::contains_bytes(b"aab", b"aba"));
}

#[test]
fn runs_go_from_earlier_to_later_versions() {
    let v1 = Version { major: 1, minor: 0, patch: 0 };
    let v2 = Version { major: 2, minor: 0, patch: 0 };
    let from = vec![DsVersion::Version(v2), DsVersion::Version(v1), DsVersion::Path(String::from("old"))];
    let to = vec![DsVersion::Version(v2), DsVersion::Path(String::from("new"))];
    let planned = surrealdb::upgrade::plan(&from, &to, &vec![4, 7]);
    let shown: Vec<String> = planned
        .iter()
        .map(|(from, to, test)| Task::new(from.duplicate(), to.duplicate(), 0, String::new()).name(&TestSet { tests: vec![case(&test.to_string())] }))
        .collect();
    assert_eq!(
        shown,
        vec![
            "4 2.0.0 => new",
            "7 2.0.0 => new",
            "4 1.0.0 => 2.0.0",
            "7 1.0.0 => 2.0.0",
            "4 1.0.0 => new",
            "7 1.0.0 => new",
            "4 old => 2.0.0",
            "7 old => 2.0.0",
            "4 old => new",
            "7 old => new",
        ]
    );
    assert!(surrealdb::upgrade::plan(&from, &to, &vec![]).is_empty());
    assert!(surrealdb::upgrade::plan(&vec![], &to, &vec![1]).is_empty());
}

#[test]
fn run_fails_where_a_test_failed() {
    assert_eq!(verdict(0, &vec![]), Ok(()));
    assert_eq!(verdict(0, &vec![TestGrade::Success, TestGrade::Warning]), Ok(()));
    assert_eq!(verdict(0, &vec![TestGrade::Success, TestGrade::Failed]), Err(RunFailure::NotAllSuccessful));
    assert_eq!(verdict(2, &vec![TestGrade::Failed]), Err(RunFailure::NotAllLoaded));
    assert_eq!(verdict(1, &vec![]), Err(RunFailure::NotAllLoaded));
}

#[test]
fn results_are_written_by_mode() {
    assert!(!writes_results(ResultsMode::Default, TestGrade::Failed, true, false));
    assert!(writes_results(ResultsMode::Accept, TestGrade::Success, true, false));
    assert!(!writes_results(ResultsMode::Accept, TestGrade::Failed, false, false));
    assert!(!writes_results(ResultsMode::Accept, TestGrade::Success, true, true));
    assert!(writes_results(ResultsMode::Overwrite, TestGrade::Failed, false, false));
    assert!(writes_results(ResultsMode::Overwrite, TestGrade::Warning, false, false));
    assert!(!writes_results(ResultsMode::Overwrite, TestGrade::Success, true, false));
    assert!(!writes_results(ResultsMode::Overwrite, TestGrade::Failed, false, true));
}

#[test]
fn names_are_chosen_before_a_test() {
    assert_eq!(use_params(Some("n"), Some("d")), Ok(vec![String::from("n"), String::from("d")]));
    assert_eq!(use_params(Some("n"), None), Ok(vec![String::from("n")]));
    assert_eq!(use_params(None, None), Ok(vec![]));
    assert_eq!(use_params(None, Some("d")), Err(NamesFault::DatabaseWithoutNamespace));
}

#[test]
fn client_starts_requests() {
    let client = http::Client::new();
    let request = client.get("https://example.com").unwrap();
    assert_eq!(request.method, Method::Get);
    assert_eq!(request.uri, "https://example.com");
    assert!(request.headers.is_empty());
    assert!(matches!(request.body, Body::Empty));
    assert_eq!(client.post("https://example.com").unwrap().method, Method::Post);
    assert_eq!(client.head("https://example.com").unwrap().method, Method::Head);
    assert_eq!(client.put("https://example.com").unwrap().method, Method::Put);
    assert_eq!(client.patch("https://example.com").unwrap().method, Method::Patch);
    assert_eq!(client.delete("https://example.com").unwrap().method, Method::Delete);
    match client.get("nowhere") {
        Err(Error::InvalidUrl(url)) => assert_eq!(url, "nowhere"),
        other => panic!("{:?}", other),
    }
    assert!(client.request(Method::Get, "").is_err());
}
