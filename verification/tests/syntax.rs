use surrealdb::ast::Data;
use surrealdb::ast::Expr;
use surrealdb::ast::Id;
use surrealdb::ast::Ident;
use surrealdb::ast::Idiom;
use surrealdb::ast::Operator;
use surrealdb::ast::Output;
use surrealdb::ast::Part;
use surrealdb::err::Error;
use surrealdb::eval::Scope;
use surrealdb::lexer;
use surrealdb::lexer::Lexer;
use surrealdb::lexer::NumberLiteral;
use surrealdb::parser::ParseErrorKind;
use surrealdb::parser::Parser;
use surrealdb::parser::MAX_DEPTH;
use surrealdb::rpc;
use surrealdb::rpc::RpcError;
use surrealdb::time::Duration;
use surrealdb::token;
use surrealdb::token::Keyword;
use surrealdb::token::Span;
use surrealdb::token::Token;
use surrealdb::token::TokenKind;
use surrealdb::value::Object;
use surrealdb::value::Value;

fn kinds(source: &str) -> Vec<TokenKind> {
    let mut lexer = Lexer::new(source);
    let mut kinds = Vec::new();
    loop {
        let token = lexer.next_token();
        kinds.push(token.kind);
        if token.is_eof() || token.is_invalid() {
            return kinds;
        }
    }
}

fn parse(source: &str) -> Expr {
    Parser::new(source).parse_value().unwrap()
}

fn show<T: std::fmt::Debug>(v: &T) -> String {
    format!("{:?}", v)
}

fn whole(i: i64) -> Expr {
    Expr::Number(NumberLiteral::Integer(i))
}

fn binary(left: Expr, op: Operator, right: Expr) -> Expr {
    Expr::Binary(Box::new(left), op, Box::new(right))
}

fn field(name: &str) -> Expr {
    Expr::Idiom(Idiom(vec![Part::Field(Ident(String::from(name)))]))
}

fn scope() -> Scope {
    Scope { doc: Value::Nothing, params: Object::new() }
}

fn compute(source: &str) -> Result<Value, Error> {
    scope().compute(&parse(source))
}

#[test]
fn empty_span_is_empty() {
    assert!(Span::empty().is_empty());
    assert!(!Span { offset: 1, len: 2 }.is_empty());
    assert_eq!(Span::empty(), Span { offset: 0, len: 0 });
}

#[test]
fn invalid_token_is_invalid() {
    assert!(Token::invalid().is_invalid());
    assert!(!Token::invalid().is_eof());
    assert_eq!(Token::invalid().span, Span::empty());
}

#[test]
fn operators_have_their_text() {
    assert_eq!(token::Operator::Not.as_str(), "'!'");
    assert_eq!(token::Operator::Equal.as_str(), "'='");
    assert_eq!(TokenKind::Operator(token::Operator::Not).as_str(), "'!'");
    assert_eq!(TokenKind::Star.as_str(), "'*'");
    assert_eq!(token::GeometryName::Point.as_str(), "point");
    assert_eq!(token::DistanceKind::Euclidean.as_str(), "EUCLIDEAN");
    assert_eq!(TokenKind::Eof.as_str(), "Eof");
}

#[test]
fn identifiers_may_be_keywords() {
    assert!(TokenKind::Identifier.can_be_identifier());
    assert!(TokenKind::Keyword(Keyword::Select).can_be_identifier());
    assert!(!TokenKind::Number.can_be_identifier());
    assert!(!TokenKind::Strand.can_be_identifier());
}

#[test]
fn keywords_are_recognised_in_any_case() {
    assert_eq!(kinds("select"), vec![TokenKind::Keyword(Keyword::Select), TokenKind::Eof]);
    assert_eq!(kinds("SELECT"), vec![TokenKind::Keyword(Keyword::Select), TokenKind::Eof]);
    assert_eq!(kinds("SeLeCt"), vec![TokenKind::Keyword(Keyword::Select), TokenKind::Eof]);
    assert_eq!(kinds("selected"), vec![TokenKind::Identifier, TokenKind::Eof]);
    assert_eq!(kinds("_a1"), vec![TokenKind::Identifier, TokenKind::Eof]);
}

#[test]
fn whitespace_is_skipped() {
    assert_eq!(kinds("  \t\n"), vec![TokenKind::Eof]);
    assert_eq!(kinds(""), vec![TokenKind::Eof]);
    assert_eq!(kinds(" a \n b "), vec![TokenKind::Identifier, TokenKind::Identifier, TokenKind::Eof]);
}

#[test]
fn tokens_have_spans() {
    let mut lexer = Lexer::new("ab  cde");
    let first = lexer.next_token();
    let second = lexer.next_token();
    assert_eq!(first.span, Span { offset: 0, len: 2 });
    assert_eq!(second.span, Span { offset: 4, len: 3 });
    assert_eq!(lexer.strings, vec![String::from("ab"), String::from("cde")]);
    assert_eq!(first.data_index.unwrap().index(), 0);
    assert_eq!(second.data_index.unwrap().index(), 1);
}

#[test]
fn numbers_are_lexed_into_the_table() {
    let mut lexer = Lexer::new("12 -3 1.5 2e3 7dec 9f 99999999999999999999");
    let mut seen = Vec::new();
    loop {
        let token = lexer.next_token();
        if token.is_eof() {
            break;
        }
        assert_eq!(token.kind, TokenKind::Number, "{:?}", lexer.error);
        seen.push(token);
    }
    assert_eq!(seen.len(), 7);
    assert_eq!(show(&lexer.numbers[0]), show(&NumberLiteral::Integer(12)));
    assert_eq!(show(&lexer.numbers[1]), show(&NumberLiteral::Integer(-3)));
    assert_eq!(show(&lexer.numbers[2]), show(&NumberLiteral::Float(String::from("1.5"))));
    assert_eq!(show(&lexer.numbers[3]), show(&NumberLiteral::Float(String::from("2e3"))));
    assert_eq!(show(&lexer.numbers[4]), show(&NumberLiteral::Decimal(String::from("7"))));
    assert_eq!(show(&lexer.numbers[5]), show(&NumberLiteral::Float(String::from("9"))));
    assert_eq!(show(&lexer.numbers[6]), show(&NumberLiteral::Decimal(String::from("99999999999999999999"))));
}

#[test]
fn strings_are_unescaped() {
    let mut lexer = Lexer::new(r#""a\nb" 'c\'d' "\u{e9}\t\\""#);
    assert_eq!(lexer.next_token().kind, TokenKind::Strand);
    assert_eq!(lexer.next_token().kind, TokenKind::Strand);
    assert_eq!(lexer.next_token().kind, TokenKind::Strand);
    assert_eq!(lexer.strings, vec![String::from("a\nb"), String::from("c'd"), String::from("\u{e9}\t\\")]);
}

#[test]
fn bad_escape_is_an_error() {
    let mut lexer = Lexer::new(r#""a\qb""#);
    assert!(lexer.next_token().is_invalid());
    assert_eq!(lexer.error, Some(lexer::Error::InvalidEscapeCharacter('q')));
}

#[test]
fn open_string_is_an_error() {
    let mut lexer = Lexer::new("\"abc");
    assert!(lexer.next_token().is_invalid());
    assert_eq!(lexer.error, Some(lexer::Error::ExpectedEnd('"')));
}

#[test]
fn durations_are_summed() {
    let mut lexer = Lexer::new("7d12h 1s500ms 3w 2y 5ns 4µs 6us 9m");
    for _ in 0..8 {
        assert_eq!(lexer.next_token().kind, TokenKind::Duration, "{:?}", lexer.error);
    }
    assert_eq!(lexer.durations[0], Duration::from_secs(7 * 86400 + 12 * 3600));
    assert_eq!(lexer.durations[1], Duration::new(1, 500_000_000).unwrap());
    assert_eq!(lexer.durations[2], Duration::from_secs(3 * 604800));
    assert_eq!(lexer.durations[3], Duration::from_secs(2 * 31536000));
    assert_eq!(lexer.durations[4], Duration::new(0, 5).unwrap());
    assert_eq!(lexer.durations[5], Duration::new(0, 4000).unwrap());
    assert_eq!(lexer.durations[6], Duration::new(0, 6000).unwrap());
    assert_eq!(lexer.durations[7], Duration::from_secs(540));
}

#[test]
fn bad_duration_is_an_error() {
    let mut lexer = Lexer::new("7q");
    assert!(lexer.next_token().is_invalid());
    assert!(lexer.error.is_some());
}

#[test]
fn datetimes_are_read() {
    let mut lexer = Lexer::new("d'2023-11-14T22:13:20Z' d\"1970-01-01T00:00:00.5+00:00\"");
    assert_eq!(lexer.next_token().kind, TokenKind::DateTime, "{:?}", lexer.error);
    assert_eq!(lexer.next_token().kind, TokenKind::DateTime, "{:?}", lexer.error);
    assert_eq!(lexer.datetime[0].timestamp(), 1_700_000_000);
    assert_eq!(lexer.datetime[1].timestamp(), 0);
    assert_eq!(lexer.datetime[1].timestamp_subsec_nanos(), 500_000_000);
}

#[test]
fn bad_datetime_is_an_error() {
    let mut lexer = Lexer::new("d'2023-02-30T00:00:00Z'");
    assert!(lexer.next_token().is_invalid());
    assert_eq!(lexer.error, Some(lexer::Error::DateTime));
}

#[test]
fn uuids_are_read() {
    let mut lexer = Lexer::new("u'01234567-89ab-cdef-0001-02030405feff'");
    assert_eq!(lexer.next_token().kind, TokenKind::Uuid, "{:?}", lexer.error);
    assert_eq!(lexer.uuid[0].as_bytes(), &[0x01, 0x23, 0x45, 0x67, 0x89, 0xab, 0xcd, 0xef, 0, 1, 2, 3, 4, 5, 0xfe, 0xff]);
    let mut lexer = Lexer::new("u'01234567-89ab-cdef-0001-02030405fef'");
    assert!(lexer.next_token().is_invalid());
    assert_eq!(lexer.error, Some(lexer::Error::Uuid));
}

#[test]
fn parameters_are_read() {
    let mut lexer = Lexer::new("$name");
    assert_eq!(lexer.next_token().kind, TokenKind::Parameter);
    assert_eq!(lexer.strings, vec![String::from("name")]);
}

#[test]
fn unexpected_character_is_an_error() {
    let mut lexer = Lexer::new("\u{1}");
    assert!(lexer.next_token().is_invalid());
    assert_eq!(lexer.error, Some(lexer::Error::UnexpectedCharacter('\u{1}')));
}

#[test]
fn lexer_steps_back() {
    let mut lexer = Lexer::new("ab cd");
    let first = lexer.next_token();
    let second = lexer.next_token();
    lexer.backup_before(second.span);
    let again = lexer.next_token();
    assert_eq!(again.span, second.span);
    lexer.backup_after(first.span);
    let again = lexer.next_token();
    assert_eq!(again.span, second.span);
}

#[test]
fn lexer_eats_a_byte() {
    let mut lexer = Lexer::new("ab");
    assert!(!lexer.eat(b'b'));
    assert!(lexer.eat(b'a'));
    assert!(lexer.eat_when(|b| b == b'b'));
    assert!(!lexer.eat_when(|_| true));
}

#[test]
fn modulo_parses_and_computes() {
    let expr = parse("8 % 3");
    assert_eq!(show(&expr), show(&binary(whole(8), Operator::Rem, whole(3))));
    assert_eq!(show(&compute("8 % 3").unwrap()), show(&Value::integer(2)));
}

#[test]
fn multiplication_binds_before_addition() {
    let expr = parse("1 + 2 * 3");
    let expected = binary(whole(1), Operator::Add, binary(whole(2), Operator::Mul, whole(3)));
    assert_eq!(show(&expr), show(&expected));
    assert_eq!(show(&compute("1 + 2 * 3").unwrap()), show(&Value::integer(7)));
    assert_eq!(show(&compute("(1 + 2) * 3").unwrap()), show(&Value::integer(9)));
    assert_eq!(show(&compute("10 - 4 - 3").unwrap()), show(&Value::integer(3)));
    assert_eq!(show(&compute("2 ** 10").unwrap()), show(&Value::integer(1024)));
    assert_eq!(show(&compute("7 / 2").unwrap()), show(&Value::integer(3)));
}

#[test]
fn comparison_binds_before_and() {
    let expr = parse("a > 1 AND b < 2");
    let expected = binary(
        binary(field("a"), Operator::MoreThan, whole(1)),
        Operator::And,
        binary(field("b"), Operator::LessThan, whole(2)),
    );
    assert_eq!(show(&expr), show(&expected));
}

#[test]
fn literals_parse() {
    assert_eq!(show(&parse("NONE")), show(&Expr::Nothing));
    assert_eq!(show(&parse("NULL")), show(&Expr::Null));
    assert_eq!(show(&parse("true")), show(&Expr::Bool(true)));
    assert_eq!(show(&parse("'x'")), show(&Expr::Strand(String::from("x"))));
    assert_eq!(show(&parse("$p")), show(&Expr::Param(String::from("p"))));
    assert_eq!(show(&parse("[1, 2]")), show(&Expr::Array(vec![whole(1), whole(2)])));
    assert_eq!(show(&parse("[]")), show(&Expr::Array(vec![])));
    assert_eq!(show(&parse("{a: 1, 'b': 2}")), show(&Expr::Object(vec![(String::from("a"), whole(1)), (String::from("b"), whole(2))])));
    assert_eq!(show(&parse("user:alice")), show(&Expr::Thing(Ident(String::from("user")), Id::String(String::from("alice")))));
    assert_eq!(show(&parse("t:1")), show(&Expr::Thing(Ident(String::from("t")), Id::Number(1))));
    assert_eq!(show(&parse("-a")), show(&Expr::Unary(Operator::Neg, Box::new(field("a")))));
    assert_eq!(show(&parse("1h")), show(&Expr::Duration(Duration::from_secs(3600))));
}

#[test]
fn paths_parse() {
    let expr = parse("a.b[3][*][$]");
    let expected = Expr::Idiom(Idiom(vec![
        Part::Field(Ident(String::from("a"))),
        Part::Field(Ident(String::from("b"))),
        Part::Index(3),
        Part::All,
        Part::Last,
    ]));
    assert_eq!(show(&expr), show(&expected));
}

#[test]
fn paths_are_written_as_they_parse() {
    for source in ["a", "a.b", "a.b[3]", "a[*].b", "a[$]", "a->b", "a<-b", "a<->b.c"] {
        let mut parser = Parser::new(source);
        let idiom = parser.parse_plain_idiom().unwrap();
        assert_eq!(idiom.to_text(), source);
        let text = idiom.to_text();
        let again = Parser::new(&text).parse_plain_idiom().unwrap();
        assert_eq!(show(&again), show(&idiom));
    }
}

#[test]
fn missing_operand_is_unexpected() {
    let error = Parser::new("1 +").parse_value().unwrap_err();
    assert!(matches!(error.kind, ParseErrorKind::Unexpected { .. }));
    assert_eq!(error.at, Span { offset: 2, len: 1 });
    let error = Parser::new("").parse_value().unwrap_err();
    assert!(matches!(error.kind, ParseErrorKind::Unexpected { found: TokenKind::Eof, .. }));
    assert_eq!(error.at, Span { offset: 0, len: 1 });
}

#[test]
fn lexer_fault_is_surfaced() {
    assert_eq!(lexer::Error::from_char_error(surrealdb::reader::CharError::Eof), lexer::Error::UnexpectedEof);
    let error = Parser::new("1 + \"abc").parse_value().unwrap_err();
    assert_eq!(error.kind, ParseErrorKind::InvalidToken(lexer::Error::ExpectedEnd('"')));
}

#[test]
fn nesting_is_limited() {
    let mut source = String::new();
    for _ in 0..(MAX_DEPTH + 1) {
        source.push('[');
    }
    let error = Parser::new(&source).parse_value().unwrap_err();
    assert_eq!(error.kind, ParseErrorKind::TooDeep);
    let mut source = String::new();
    for _ in 0..20 {
        source.push('[');
    }
    source.push('1');
    for _ in 0..20 {
        source.push(']');
    }
    assert!(Parser::new(&source).parse_value().is_ok());
}

#[test]
fn update_statement_parses() {
    let mut parser = Parser::new("UPDATE ONLY user:bob SET age = 9, n += 1 WHERE age > 18 RETURN NONE TIMEOUT 5s PARALLEL");
    let statement = parser.parse_update_stmt().unwrap();
    assert!(statement.only);
    assert!(statement.parallel);
    assert_eq!(show(&statement.what.0), show(&vec![Expr::Thing(Ident(String::from("user")), Id::String(String::from("bob")))]));
    match &statement.data {
        Some(Data::SetExpression(list)) => {
            assert_eq!(list.len(), 2);
            assert_eq!(list[0].0.to_text(), "age");
            assert_eq!(list[0].1, Operator::Equal);
            assert_eq!(show(&list[0].2), show(&whole(9)));
            assert_eq!(list[1].0.to_text(), "n");
            assert_eq!(list[1].1, Operator::Inc);
            assert_eq!(show(&list[1].2), show(&whole(1)));
        }
        other => panic!("{:?}", other),
    }
    assert_eq!(show(&statement.cond.as_ref().unwrap().0), show(&binary(field("age"), Operator::MoreThan, whole(18))));
    assert!(matches!(statement.output, Some(Output::Nothing)));
    assert_eq!(statement.timeout.unwrap().0, Duration::from_secs(5));
}

#[test]
fn plain_update_statement_parses() {
    let statement = Parser::new("update person").parse_update_stmt().unwrap();
    assert!(!statement.only);
    assert!(!statement.parallel);
    assert!(statement.data.is_none());
    assert!(statement.cond.is_none());
    assert!(statement.output.is_none());
    assert!(statement.timeout.is_none());
    assert_eq!(show(&statement.what.0), show(&vec![field("person")]));
}

#[test]
fn update_needs_its_keyword() {
    let error = Parser::new("SELECT a").parse_update_stmt().unwrap_err();
    assert!(matches!(error.kind, ParseErrorKind::Unexpected { .. }));
    assert_eq!(error.at, Span { offset: 0, len: 6 });
}

#[test]
fn try_parse_leaves_the_input_where_the_keyword_is_absent() {
    let mut parser = Parser::new("WHERE a");
    assert!(parser.try_parse_data().unwrap().is_none());
    assert!(parser.try_parse_output().unwrap().is_none());
    assert!(parser.try_parse_timeout().unwrap().is_none());
    assert!(parser.try_parse_fetch().unwrap().is_none());
    assert!(parser.try_parse_group().unwrap().is_none());
    assert!(parser.try_parse_distance().unwrap().is_none());
    assert_eq!(parser.position, 0);
    let cond = parser.try_parse_condition().unwrap().unwrap();
    assert_eq!(show(&cond.0), show(&field("a")));
}

#[test]
fn parts_of_statements_parse() {
    let fetch = Parser::new("FETCH a, b.c").try_parse_fetch().unwrap().unwrap();
    assert_eq!(fetch.0.len(), 2);
    assert_eq!(fetch.0[1].0.to_text(), "b.c");
    let group = Parser::new("GROUP BY a").try_parse_group().unwrap().unwrap();
    assert_eq!(group.0[0].0.to_text(), "a");
    let group = Parser::new("GROUP a, b").try_parse_group().unwrap().unwrap();
    assert_eq!(group.0.len(), 2);
    let timeout = Parser::new("TIMEOUT 1m").try_parse_timeout().unwrap().unwrap();
    assert_eq!(timeout.0, Duration::from_secs(60));
    assert!(Parser::new("TIMEOUT x").try_parse_timeout().is_err());
    assert!(matches!(Parser::new("RETURN DIFF").try_parse_output().unwrap(), Some(Output::Diff)));
    assert!(matches!(Parser::new("RETURN BEFORE").try_parse_output().unwrap(), Some(Output::Before)));
    assert!(matches!(Parser::new("RETURN AFTER").try_parse_output().unwrap(), Some(Output::After)));
    assert!(matches!(Parser::new("RETURN NULL").try_parse_output().unwrap(), Some(Output::Null)));
    assert!(matches!(Parser::new("RETURN a, b AS c").try_parse_output().unwrap(), Some(Output::Fields(_))));
    assert!(matches!(Parser::new("UNSET a, b").try_parse_data().unwrap(), Some(Data::UnsetExpression(_))));
    assert!(matches!(Parser::new("CONTENT {a: 1}").try_parse_data().unwrap(), Some(Data::ContentExpression(_))));
    assert!(matches!(Parser::new("MERGE {a: 1}").try_parse_data().unwrap(), Some(Data::MergeExpression(_))));
    assert!(matches!(Parser::new("PATCH [1]").try_parse_data().unwrap(), Some(Data::PatchExpression(_))));
    assert!(matches!(Parser::new("REPLACE {a: 1}").try_parse_data().unwrap(), Some(Data::ReplaceExpression(_))));
}

#[test]
fn custom_function_names_parse() {
    let name = Parser::new("fn::a::b").parse_custom_function_name().unwrap();
    assert_eq!(name.0, "a::b");
    assert!(Parser::new("a::b").parse_custom_function_name().is_err());
}

#[test]
fn expressions_compute() {
    assert_eq!(show(&compute("[1, 2] + [3]").unwrap()), show(&Value::Array(vec![Value::integer(1), Value::integer(2), Value::integer(3)])));
    assert_eq!(show(&compute("1 = 1").unwrap()), show(&Value::Bool(true)));
    assert_eq!(show(&compute("1 != 1").unwrap()), show(&Value::Bool(false)));
    assert_eq!(show(&compute("'a' < 'b'").unwrap()), show(&Value::Bool(true)));
    assert_eq!(show(&compute("2 >= 3").unwrap()), show(&Value::Bool(false)));
    assert_eq!(show(&compute("!0").unwrap()), show(&Value::Bool(true)));
    assert_eq!(show(&compute("-(5)").unwrap()), show(&Value::integer(-5)));
    assert_eq!(show(&compute("NONE ?? 2").unwrap()), show(&compute("2").unwrap()));
    assert_eq!(show(&compute("0 || 7").unwrap()), show(&Value::integer(7)));
    assert_eq!(show(&compute("3 || 7").unwrap()), show(&Value::integer(3)));
    assert_eq!(show(&compute("0 && 7").unwrap()), show(&Value::integer(0)));
    assert_eq!(show(&compute("3 && 7").unwrap()), show(&Value::integer(7)));
    assert!(matches!(compute("1 / 0"), Err(Error::Arithmetic)));
    assert!(matches!(compute("1.5 + 1"), Err(Error::Unsupported)));
    assert!(matches!(compute("'a' + 1"), Err(Error::Unsupported)));
}

#[test]
fn right_side_is_left_out_where_the_left_decides() {
    assert_eq!(show(&compute("0 && 1 / 0").unwrap()), show(&Value::integer(0)));
    assert_eq!(show(&compute("1 || 1 / 0").unwrap()), show(&Value::integer(1)));
    assert!(matches!(compute("1 && 1 / 0"), Err(Error::Arithmetic)));
}

#[test]
fn objects_compute_with_sorted_keys() {
    let value = compute("{b: 1, a: 2, b: 3}").unwrap();
    let mut expected = Object::new();
    expected.insert(String::from("a"), Value::integer(2));
    expected.insert(String::from("b"), Value::integer(3));
    assert_eq!(show(&value), show(&Value::Object(expected)));
}

#[test]
fn names_stand_for_fields_and_parameters() {
    let mut doc = Object::new();
    doc.insert(String::from("age"), Value::integer(20));
    let mut inner = Object::new();
    inner.insert(String::from("tags"), Value::Array(vec![Value::integer(5), Value::integer(6)]));
    doc.insert(String::from("meta"), Value::Object(inner));
    let mut params = Object::new();
    params.insert(String::from("least"), Value::integer(18));
    let scope = Scope { doc: Value::Object(doc), params };
    assert_eq!(show(&scope.compute(&parse("age")).unwrap()), show(&Value::integer(20)));
    assert_eq!(show(&scope.compute(&parse("age > $least")).unwrap()), show(&Value::Bool(true)));
    assert_eq!(show(&scope.compute(&parse("meta.tags[1]")).unwrap()), show(&Value::integer(6)));
    assert_eq!(show(&scope.compute(&parse("meta.tags[$]")).unwrap()), show(&Value::integer(6)));
    assert_eq!(show(&scope.compute(&parse("meta.tags[9]")).unwrap()), show(&Value::Nothing));
    assert_eq!(show(&scope.compute(&parse("meta.none.x")).unwrap()), show(&Value::Nothing));
    assert_eq!(show(&scope.compute(&parse("$absent")).unwrap()), show(&Value::Nothing));
    assert!(scope.passes(&parse("age > 18")).unwrap());
    assert!(!scope.passes(&parse("height > 18")).unwrap());
    assert!(!scope.passes(&parse("NONE")).unwrap());
    assert!(!scope.passes(&parse("NULL")).unwrap());
}

#[test]
fn records_are_filtered_ordered_and_limited() {
    let mut records = Vec::new();
    for age in [40, 10, 30, 20] {
        let mut record = Object::new();
        record.insert(String::from("age"), Value::integer(age));
        records.push(Value::Object(record));
    }
    let cond = parse("age > 18");
    let mut kept: Vec<Value> = Vec::new();
    for record in records {
        let scope = Scope { doc: record, params: Object::new() };
        if scope.passes(&cond).unwrap() {
            kept.push(scope.doc);
        }
    }
    let by = parse("age");
    kept.sort_by(|a, b| {
        let left = Scope { doc: a.duplicate(), params: Object::new() }.compute(&by).unwrap();
        let right = Scope { doc: b.duplicate(), params: Object::new() }.compute(&by).unwrap();
        match surrealdb::algebra::order_values(&left, &right).unwrap() {
            surrealdb::float::Order::Less => std::cmp::Ordering::Less,
            surrealdb::float::Order::Equal => std::cmp::Ordering::Equal,
            surrealdb::float::Order::Greater => std::cmp::Ordering::Greater,
        }
    });
    kept.truncate(2);
    let mut first = Object::new();
    first.insert(String::from("age"), Value::integer(20));
    let mut second = Object::new();
    second.insert(String::from("age"), Value::integer(30));
    assert_eq!(show(&kept), show(&vec![Value::Object(first), Value::Object(second)]));
}

#[test]
fn message_parses_as_a_value() {
    let value = rpc::parse_value(b"{ method: 'ping' }").unwrap();
    assert_eq!(show(&value), show(&Expr::Object(vec![(String::from("method"), Expr::Strand(String::from("ping")))])));
    assert_eq!(rpc::parse_value(b"{ method: ").unwrap_err(), RpcError::ParseError);
    assert_eq!(rpc::parse_value(b"1 2").unwrap_err(), RpcError::ParseError);
    assert_eq!(rpc::parse_value(&[0xff, 0xfe]).unwrap_err(), RpcError::ParseError);
    assert_eq!(rpc::parse_value(b"").unwrap_err(), RpcError::ParseError);
}

#[test]
fn message_is_a_request() {
    let request = rpc::req(b"{ id: 7, method: 'select', params: ['user', 2] }").unwrap();
    assert_eq!(request.method, "select");
    assert_eq!(show(&request.id), show(&Some(whole(7))));
    assert_eq!(show(&request.params), show(&vec![Expr::Strand(String::from("user")), whole(2)]));
    let request = rpc::req(b"{ method: 'ping' }").unwrap();
    assert_eq!(request.method, "ping");
    assert!(request.id.is_none());
    assert!(request.params.is_empty());
    let request = rpc::req(b"{ method: 'ping', id: NULL }").unwrap();
    assert!(request.id.is_none());
}

#[test]
fn message_without_a_method_is_no_request() {
    assert_eq!(rpc::req(b"{ id: 7 }").unwrap_err(), RpcError::InvalidRequest);
    assert_eq!(rpc::req(b"{ method: 7 }").unwrap_err(), RpcError::InvalidRequest);
    assert_eq!(rpc::req(b"{ method: 'a', params: 7 }").unwrap_err(), RpcError::InvalidRequest);
    assert_eq!(rpc::req(b"{ method: 'a', id: [1] }").unwrap_err(), RpcError::InvalidRequest);
    assert_eq!(rpc::req(b"[1]").unwrap_err(), RpcError::InvalidRequest);
    assert_eq!(rpc::req(b"{").unwrap_err(), RpcError::ParseError);
}

#[test]
fn permissions_parse() {
    let permissions = Parser::new("NONE").parse_permission().unwrap();
    assert_eq!(show(&permissions), show(&surrealdb::ast::Permissions::none()));
    let permissions = Parser::new("FULL").parse_permission().unwrap();
    assert_eq!(show(&permissions), show(&surrealdb::ast::Permissions::full()));
    assert_eq!(show(&surrealdb::ast::Permissions::default()), show(&surrealdb::ast::Permissions::full()));
    let permissions = Parser::new("FOR select NONE, update WHERE a = 1").parse_permission().unwrap();
    assert!(matches!(permissions.select, surrealdb::ast::Permission::Nothing));
    assert!(matches!(permissions.create, surrealdb::ast::Permission::Full));
    assert!(matches!(permissions.update, surrealdb::ast::Permission::Specific(_)));
    assert!(matches!(permissions.delete, surrealdb::ast::Permission::Full));
    assert!(Parser::new("SOME").parse_permission().is_err());
    assert!(Parser::new("FOR fetch NONE").parse_permission().is_err());
    let mut permissions = surrealdb::ast::Permissions::full();
    Parser::new("delete NONE").parse_specific_permission(&mut permissions).unwrap();
    assert!(matches!(permissions.delete, surrealdb::ast::Permission::Nothing));
    assert!(matches!(Parser::new("FULL").parse_permission_value().unwrap(), surrealdb::ast::Permission::Full));
    assert!(Parser::new("ALL").parse_permission_value().is_err());
}

#[test]
fn bases_parse() {
    assert!(matches!(Parser::new("NAMESPACE").parse_base(false).unwrap(), surrealdb::ast::Base::Ns));
    assert!(matches!(Parser::new("DATABASE").parse_base(false).unwrap(), surrealdb::ast::Base::Db));
    assert!(matches!(Parser::new("ROOT").parse_base(false).unwrap(), surrealdb::ast::Base::Root));
    match Parser::new("SCOPE account").parse_base(true).unwrap() {
        surrealdb::ast::Base::Sc(name) => assert_eq!(name.0, "account"),
        other => panic!("{:?}", other),
    }
    assert!(Parser::new("SCOPE account").parse_base(false).is_err());
    assert!(Parser::new("TABLE").parse_base(true).is_err());
}

#[test]
fn changefeed_parses() {
    let feed = Parser::new("1h").parse_changefeed().unwrap();
    assert_eq!(feed.expiry, Duration::from_secs(3600));
    assert!(Parser::new("x").parse_changefeed().is_err());
}

#[test]
fn view_parses() {
    let view = Parser::new("SELECT a, b FROM person, animal WHERE a > 1 GROUP BY a").parse_view().unwrap();
    assert_eq!(view.expr.0.len(), 2);
    assert_eq!(view.what.0.len(), 2);
    assert_eq!(view.what.0[0].0, "person");
    assert_eq!(view.what.0[1].0, "animal");
    assert!(view.cond.is_some());
    assert_eq!(view.group.unwrap().0.len(), 1);
    let view = Parser::new("SELECT * FROM person").parse_view().unwrap();
    assert!(matches!(view.expr.0[0], surrealdb::ast::Field::All));
    assert!(view.cond.is_none());
    assert!(view.group.is_none());
    assert!(Parser::new("(SELECT * FROM person)").parse_view().is_err());
    assert!(Parser::new("SELECT * person").parse_view().is_err());
}

#[test]
fn distances_parse() {
    assert!(matches!(Parser::new("DISTANCE EUCLIDEAN").try_parse_distance().unwrap(), Some(surrealdb::ast::Distance::Euclidean)));
    assert!(matches!(Parser::new("DISTANCE MINKOWSKI 3").try_parse_distance().unwrap(), Some(surrealdb::ast::Distance::Minkowski(_))));
    assert!(Parser::new("DISTANCE far").try_parse_distance().is_err());
}

#[test]
fn parser_looks_ahead() {
    let mut parser = Parser::new("a . b");
    assert_eq!(parser.peek_kind(), TokenKind::Identifier);
    assert_eq!(parser.peek_kind_at(1), TokenKind::Dot);
    assert_eq!(parser.peek_kind_at(2), TokenKind::Identifier);
    assert_eq!(parser.peek_kind_at(3), TokenKind::Eof);
    assert_eq!(parser.peek_kind_at(9), TokenKind::Eof);
    assert_eq!(parser.peek().span, Span { offset: 0, len: 1 });
    assert_eq!(parser.source_text(), "a");
    assert!(!parser.eat(TokenKind::Dot));
    assert_eq!(parser.next().kind, TokenKind::Identifier);
    assert_eq!(parser.source_text(), ".");
    assert!(parser.eat(TokenKind::Dot));
    assert!(parser.expect(TokenKind::Dot, surrealdb::parser::Expected::Select).is_err());
    parser.pop_peek();
    assert_eq!(parser.peek_kind(), TokenKind::Eof);
    assert_eq!(parser.next().kind, TokenKind::Eof);
    assert_eq!(parser.next().kind, TokenKind::Eof);
    assert_eq!(parser.peek_kind(), TokenKind::Eof);
}

#[test]
fn basic_paths_parse() {
    let idiom = Parser::new("a.b[0]").parse_basic_idiom().unwrap();
    assert_eq!(idiom.to_text(), "a.b[0]");
    let mut parser = Parser::new("a.b c");
    let idiom = parser.parse_basic_idiom().unwrap();
    assert_eq!(idiom.to_text(), "a.b");
    assert_eq!(parser.peek_kind(), TokenKind::Identifier);
    let list = Parser::new("a, b.c").parse_idiom_list().unwrap();
    assert_eq!(list.len(), 2);
}

#[test]
fn data_index_names_its_position() {
    let index = token::DataIndex::from_index(7);
    assert_eq!(index.index(), 7);
    assert_eq!(token::DataIndex::from_index(0).index(), 0);
}

#[test]
fn number_that_runs_into_a_name_is_an_error() {
    let mut lexer = Lexer::new("12abc");
    assert!(lexer.next_token().is_invalid());
    assert_eq!(lexer.error, Some(lexer::Error::Number));
}

#[test]
fn surrounded_identifiers_are_read() {
    let mut lexer = Lexer::new("`a b` \u{27e8}c d\u{27e9}");
    assert_eq!(lexer.next_token().kind, TokenKind::Identifier, "{:?}", lexer.error);
    assert_eq!(lexer.next_token().kind, TokenKind::Identifier, "{:?}", lexer.error);
    assert_eq!(lexer.strings, vec![String::from("a b"), String::from("c d")]);
    let mut lexer = Lexer::new("`a b");
    assert!(lexer.next_token().is_invalid());
    assert!(lexer.error.is_some());
}

#[test]
fn symbols_are_read() {
    assert_eq!(
        kinds("( ) [ ] { } , ; : :: . .. ... -> <- <-> * ? $ / %"),
        vec![
            TokenKind::OpenDelim(token::Delim::Paren),
            TokenKind::CloseDelim(token::Delim::Paren),
            TokenKind::OpenDelim(token::Delim::Bracket),
            TokenKind::CloseDelim(token::Delim::Bracket),
            TokenKind::OpenDelim(token::Delim::Brace),
            TokenKind::CloseDelim(token::Delim::Brace),
            TokenKind::Comma,
            TokenKind::SemiColon,
            TokenKind::Colon,
            TokenKind::PathSeperator,
            TokenKind::Dot,
            TokenKind::DotDot,
            TokenKind::DotDotDot,
            TokenKind::ArrowRight,
            TokenKind::ArrowLeft,
            TokenKind::BiArrow,
            TokenKind::Star,
            TokenKind::Question,
            TokenKind::Dollar,
            TokenKind::ForwardSlash,
            TokenKind::Percent,
            TokenKind::Eof,
        ]
    );
}

#[test]
fn lexer_goes_on_as_an_iterator_would() {
    let mut lexer = Lexer::new("a b");
    assert!(lexer.next().is_some());
    assert!(lexer.next().is_some());
    assert!(lexer.next().is_none());
    assert_eq!(lexer.eof_token().kind, TokenKind::Eof);
    let mut lexer = Lexer::new("   a");
    lexer.eat_whitespace();
    assert_eq!(lexer.current_span(), Span { offset: 0, len: 3 });
    lexer.skip_offset();
    assert_eq!(lexer.current_span(), Span { offset: 3, len: 0 });
}

#[test]
fn assignments_keep_their_operators() {
    for (source, operator) in [("SET a = 1", Operator::Equal), ("SET a += 1", Operator::Inc), ("SET a -= 1", Operator::Dec), ("SET a +?= 1", Operator::Ext)] {
        match Parser::new(source).try_parse_data().unwrap() {
            Some(Data::SetExpression(list)) => {
                assert_eq!(list.len(), 1);
                assert_eq!(list[0].0.to_text(), "a");
                assert_eq!(list[0].1, operator, "{}", source);
                assert_eq!(show(&list[0].2), show(&whole(1)));
            }
            other => panic!("{:?}", other),
        }
    }
    assert!(Parser::new("SET a * 1").try_parse_data().is_err());
}

#[test]
fn character_cut_off_by_the_end_is_an_error() {
    let source = "a \u{2208}";
    let cut = &source.as_bytes()[..source.len() - 1];
    assert_eq!(rpc::parse_value(cut).unwrap_err(), RpcError::ParseError);
    let mut reader = surrealdb::reader::BytesReader::new(&[0xe2]);
    let start = reader.next().unwrap();
    assert_eq!(reader.complete_char(start), Err(surrealdb::reader::CharError::Eof));
    assert_eq!(
        lexer::Error::from_char_error(surrealdb::reader::CharError::Eof),
        lexer::Error::UnexpectedEof
    );
}

#[test]
fn characters_that_are_no_tokens_are_errors() {
    for c in ['\u{2219}', '\u{2026}', '\u{e9}', '\u{27e9}'] {
        let source = c.to_string();
        let mut lexer = Lexer::new(&source);
        assert!(lexer.next_token().is_invalid(), "{}", c);
        assert_eq!(lexer.error, Some(lexer::Error::UnexpectedCharacter(c)));
    }
}

#[test]
fn characters_that_are_operators_are_read() {
    assert_eq!(
        kinds("\u{220b} \u{220c} \u{2208} \u{2209} \u{2287} \u{2283} \u{2285} \u{2286} \u{2282} \u{2284} \u{d7} \u{f7}"),
        vec![
            TokenKind::Operator(token::Operator::Contains),
            TokenKind::Operator(token::Operator::NotContains),
            TokenKind::Operator(token::Operator::Inside),
            TokenKind::Operator(token::Operator::NotInside),
            TokenKind::Operator(token::Operator::ContainsAll),
            TokenKind::Operator(token::Operator::ContainsAny),
            TokenKind::Operator(token::Operator::ContainsNone),
            TokenKind::Operator(token::Operator::AllInside),
            TokenKind::Operator(token::Operator::AnyInside),
            TokenKind::Operator(token::Operator::NoneInside),
            TokenKind::Operator(token::Operator::Mult),
            TokenKind::Operator(token::Operator::Divide),
            TokenKind::Eof,
        ]
    );
}

fn raw_lexer(bytes: &[u8]) -> Lexer<'_> {
    Lexer {
        reader: surrealdb::reader::BytesReader::new(bytes),
        last_offset: 0,
        scratch: String::new(),
        numbers: Vec::new(),
        strings: Vec::new(),
        durations: Vec::new(),
        datetime: Vec::new(),
        uuid: Vec::new(),
        error: None,
    }
}

#[test]
fn source_that_ends_inside_a_character_is_an_error() {
    let mut lexer = raw_lexer(&[0xe2]);
    let token = lexer.next_token();
    assert!(token.is_invalid());
    assert!(!token.is_eof());
    assert_eq!(lexer.error, Some(lexer::Error::UnexpectedEof));
    let mut lexer = raw_lexer(&[b'a', b' ', 0xe2, 0x88]);
    assert_eq!(lexer.next_token().kind, TokenKind::Identifier);
    let token = lexer.next_token();
    assert!(token.is_invalid());
    assert_eq!(token.span.offset, 2);
    assert_eq!(lexer.error, Some(lexer::Error::UnexpectedEof));
}

#[test]
fn bytes_that_are_no_character_are_an_error() {
    let mut lexer = raw_lexer(&[0xff, b'a']);
    assert!(lexer.next_token().is_invalid());
    assert_eq!(lexer.error, Some(lexer::Error::InvalidUtf8));
    let mut lexer = raw_lexer(&[0xe2, b'a', b'b']);
    assert!(lexer.next_token().is_invalid());
    assert_eq!(lexer.error, Some(lexer::Error::InvalidUtf8));
}

#[test]
fn end_of_the_source_points_at_the_last_byte() {
    let mut lexer = Lexer::new("ab ");
    lexer.next_token();
    let end = lexer.next_token();
    assert!(end.is_eof());
    assert_eq!(end.span, Span { offset: 2, len: 1 });
    let mut lexer = Lexer::new("");
    assert_eq!(lexer.next_token().span, Span { offset: 0, len: 1 });
}

#[test]
fn decimals_compute() {
    fn text(source: &str) -> String {
        match compute(source).unwrap() {
            Value::Number(surrealdb::number::Number::Decimal(d)) => d.to_text(),
            other => panic!("{:?}", other),
        }
    }
    assert_eq!(text("1.5dec + 2"), "3.5");
    assert_eq!(text("2 + 1.5dec"), "3.5");
    assert_eq!(text("1dec - 3"), "-2");
    assert_eq!(text("2dec * 3.5dec"), "7.0");
    assert_eq!(text("7.5dec % 2dec"), "1.5");
    assert_eq!(text("1dec / 4"), "0.25");
    assert!(matches!(compute("1dec / 0"), Err(Error::Arithmetic)));
    assert!(matches!(compute("1dec % 0dec"), Err(Error::Arithmetic)));
    assert!(matches!(compute("79228162514264337593543950335dec + 1"), Err(Error::Arithmetic)));
    assert!(matches!(compute("2dec ** 2"), Err(Error::Unsupported)));
    assert!(matches!(compute("2dec + 1.5"), Err(Error::Unsupported)));
}

#[test]
fn remove_field_is_written_as_it_parses() {
    for source in ["REMOVE FIELD age ON user", "REMOVE FIELD a.b[0] ON t", "REMOVE FIELD a[*].c ON person"] {
        let statement = Parser::new(source).parse_remove_field_stmt().unwrap();
        let text = statement.to_text();
        assert_eq!(text, source);
        let again = Parser::new(&text).parse_remove_field_stmt().unwrap();
        assert_eq!(show(&again), show(&statement));
    }
    let statement = Parser::new("remove field age on table user").parse_remove_field_stmt().unwrap();
    assert_eq!(statement.to_text(), "REMOVE FIELD age ON user");
    assert_eq!(statement.what.0, "user");
}

#[test]
fn remove_field_needs_its_words() {
    let error = Parser::new("REMOVE age ON user").parse_remove_field_stmt().unwrap_err();
    assert_eq!(error.kind, ParseErrorKind::Unexpected { found: TokenKind::Identifier, expected: surrealdb::parser::Expected::Field });
    let error = Parser::new("DELETE FIELD age ON user").parse_remove_field_stmt().unwrap_err();
    assert!(matches!(error.kind, ParseErrorKind::Unexpected { expected: surrealdb::parser::Expected::Remove, .. }));
    let error = Parser::new("REMOVE FIELD age user").parse_remove_field_stmt().unwrap_err();
    assert!(matches!(error.kind, ParseErrorKind::Unexpected { expected: surrealdb::parser::Expected::On, .. }));
    assert!(Parser::new("REMOVE FIELD age ON").parse_remove_field_stmt().is_err());
    assert!(Parser::new("REMOVE FIELD ON user").parse_remove_field_stmt().is_err());
}

#[test]
fn names_that_cannot_stand_plain_are_written_between_delimiters() {
    for source in ["`a b`", "a.`b c`[0]", "\u{27e8}a`b\u{27e9}.c", "a->`b c`", "``", "`1a`", "`\u{e9}`"] {
        let idiom = Parser::new(source).parse_plain_idiom().unwrap();
        let text = idiom.to_text();
        assert_eq!(text, source);
        let again = Parser::new(&text).parse_plain_idiom().unwrap();
        assert_eq!(show(&again), show(&idiom));
    }
    let idiom = Parser::new("\u{27e8}a b\u{27e9}").parse_plain_idiom().unwrap();
    assert_eq!(idiom.to_text(), "`a b`");
    let statement = Parser::new("REMOVE FIELD `first name` ON `my table`").parse_remove_field_stmt().unwrap();
    assert_eq!(statement.what.0, "my table");
    let text = statement.to_text();
    assert_eq!(text, "REMOVE FIELD `first name` ON `my table`");
    let again = Parser::new(&text).parse_remove_field_stmt().unwrap();
    assert_eq!(show(&again), show(&statement));
    assert!(surrealdb::fmt::plain("a_1"));
    assert!(!surrealdb::fmt::plain(""));
    assert!(!surrealdb::fmt::plain("1a"));
    assert!(!surrealdb::fmt::plain("a-b"));
}
