//! Computing the value of an expression.
//!
//! An expression is computed against a record and the parameters of the statement. A
//! name stands for the field of the record, a parameter for its value, and what is not
//! there is nothing. `AND`, `OR` and the two operators that choose between their sides
//! compute the right side only where the left one does not decide. Computing with floats
//! is not done here: a float that is written out is refused as unsupported.

use vstd::prelude::*;
use crate::algebra::compare;
use crate::algebra::equal;
use crate::algebra::order_values;
use crate::arith::binary;
use crate::arith::binary_of;
use crate::arith::narrow;
use crate::arith::number_of;
use crate::ast::exprs_view;
use crate::ast::fields_view;
use crate::ast::Expr;
use crate::ast::ExprView;
use crate::ast::Id;
use crate::ast::IdView;
use crate::ast::Operator;
use crate::ast::Part;
use crate::ast::PartView;
use crate::cast::is_truthy;
use crate::cast::truthy;
use crate::err::Error;
use crate::err::ErrorView;
use crate::float::Order;
use crate::lexer::NumberLiteral;
use crate::lexer::NumberLiteralView;
use crate::number::decimal_canonical_form;
use crate::number::text_decimal;
use crate::number::Decimal;
use crate::number::Number;
use crate::number::NumberView;
use crate::time::timestamp_in_range;
use crate::time::Datetime;
use crate::time::Duration;
use crate::time::NANOS_PER_SEC;
use crate::value::inserted;
use crate::value::items_view;
use crate::value::lemma_rank_splits;
use crate::value::lookup;
use crate::value::rank;
use crate::value::KeyView;
use crate::value::Object;
use crate::value::RecordId;
use crate::value::RecordIdKey;
use crate::value::Value;
use crate::value::ValueView;

verus! {

/// The view of expressions goes item by item.
pub proof fn lemma_exprs_view(items: Seq<Expr>)
    ensures
        exprs_view(items).len() == items.len(),
        forall|i: int| 0 <= i < items.len() ==> #[trigger] exprs_view(items)[i] == items[i]@,
    decreases items.len(),
{
    reveal_with_fuel(exprs_view, 2);
    if items.len() > 0 {
        lemma_exprs_view(items.drop_last());
        assert(exprs_view(items) == exprs_view(items.drop_last()).push(items.last()@));
    } else {
        assert(exprs_view(items) == Seq::<ExprView>::empty());
    }
}

/// The view of the entries of an object goes entry by entry.
pub proof fn lemma_fields_view(entries: Seq<(String, Expr)>)
    ensures
        fields_view(entries).len() == entries.len(),
        forall|i: int|
            0 <= i < entries.len() ==> #[trigger] fields_view(entries)[i] == (
                entries[i].0@,
                entries[i].1@,
            ),
    decreases entries.len(),
{
    reveal_with_fuel(fields_view, 2);
    if entries.len() > 0 {
        lemma_fields_view(entries.drop_last());
        assert(fields_view(entries) == fields_view(entries.drop_last()).push(
            (entries.last().0@, entries.last().1@),
        ));
    } else {
        assert(fields_view(entries) == Seq::<(Seq<char>, ExprView)>::empty());
    }
}

/// Where one step of a path leads from a value: a field into an object, a place into an
/// array. What is not there is nothing. The other steps are not taken here.
pub open spec fn step(at: ValueView, part: PartView) -> Option<ValueView> {
    match part {
        PartView::Field(name) => Some(
            match at {
                ValueView::Object(entries) => match lookup(entries, name) {
                    Some(value) => value,
                    None => ValueView::Nothing,
                },
                _ => ValueView::Nothing,
            },
        ),
        PartView::Index(index) => Some(
            match at {
                ValueView::Array(items) => if index < items.len() {
                    items[index as int]
                } else {
                    ValueView::Nothing
                },
                _ => ValueView::Nothing,
            },
        ),
        PartView::Last => Some(
            match at {
                ValueView::Array(items) => if items.len() > 0 {
                    items.last()
                } else {
                    ValueView::Nothing
                },
                _ => ValueView::Nothing,
            },
        ),
        _ => None,
    }
}

/// Where a path leads from a value, if all its steps are taken here.
pub open spec fn followed(at: ValueView, parts: Seq<PartView>) -> Option<ValueView>
    decreases parts.len(),
{
    if parts.len() == 0 {
        Some(at)
    } else {
        match step(at, parts[0]) {
            Some(next) => followed(next, parts.skip(1)),
            None => None,
        }
    }
}

/// The value of a number as it is written. A float is not computed here, and a decimal
/// is what `rust_decimal` reads.
pub open spec fn literal_of(number: NumberLiteralView) -> Result<ValueView, ErrorView> {
    match number {
        NumberLiteralView::Integer(i) => Ok(ValueView::Number(NumberView::Integer(i))),
        NumberLiteralView::Float(_) => Err(ErrorView::Unsupported),
        NumberLiteralView::Decimal(text) => match text_decimal(text) {
            Some(bytes) => Ok(
                ValueView::Number(NumberView::Decimal(decimal_canonical_form(bytes))),
            ),
            None => Err(ErrorView::Conversion),
        },
    }
}

/// What an operator before a value makes of it: the minus sign turns an integer round,
/// and `!` says whether the value does not count as true.
pub open spec fn unary_of(op: Operator, v: ValueView) -> Result<ValueView, ErrorView> {
    match (op, v) {
        (Operator::Neg, ValueView::Number(NumberView::Integer(i))) => number_of(-i),
        (Operator::Not, _) => Ok(ValueView::Bool(!truthy(v))),
        _ => Err(ErrorView::Unsupported),
    }
}

/// Whether a value is there: it is neither nothing nor null.
pub open spec fn is_some(v: ValueView) -> bool {
    !(v is Nothing) && !(v is Null)
}

/// What an operator that compares says of two values; nothing for any other operator.
pub open spec fn compared(op: Operator, a: ValueView, b: ValueView) -> Option<bool> {
    match op {
        Operator::Equal => Some(equal(a, b)),
        Operator::Exact => Some(equal(a, b)),
        Operator::NotEqual => Some(!equal(a, b)),
        Operator::LessThan => Some(compare(a, b) == Some(Order::Less)),
        Operator::LessThanOrEqual => Some(
            compare(a, b) == Some(Order::Less) || compare(a, b) == Some(Order::Equal),
        ),
        Operator::MoreThan => Some(compare(a, b) == Some(Order::Greater)),
        Operator::MoreThanOrEqual => Some(
            compare(a, b) == Some(Order::Greater) || compare(a, b) == Some(Order::Equal),
        ),
        _ => None,
    }
}

/// What an operator makes of two values that were both computed.
pub open spec fn strict_of(op: Operator, a: ValueView, b: ValueView) -> Result<
    ValueView,
    ErrorView,
> {
    match compared(op, a, b) {
        Some(truth) => Ok(ValueView::Bool(truth)),
        None => binary_of(op, a, b),
    }
}

/// Whether the left side of an operator decides alone, so that the right side is not
/// computed.
pub open spec fn decides(op: Operator, a: ValueView) -> bool {
    match op {
        Operator::And => !truthy(a),
        Operator::Or => truthy(a),
        Operator::Tco => truthy(a),
        Operator::Nco => is_some(a),
        _ => false,
    }
}

/// Whether an operator may leave its right side out.
pub open spec fn chooses(op: Operator) -> bool {
    op == Operator::And || op == Operator::Or || op == Operator::Tco || op == Operator::Nco
}

/// The value of an expression against the record `doc` and the parameters `params`, or
/// the first error met.
pub open spec fn value_of(
    doc: ValueView,
    params: Seq<(Seq<char>, ValueView)>,
    expr: ExprView,
) -> Result<ValueView, ErrorView>
    decreases expr, 0nat,
{
    match expr {
        ExprView::Nothing => Ok(ValueView::Nothing),
        ExprView::Null => Ok(ValueView::Null),
        ExprView::Bool(b) => Ok(ValueView::Bool(b)),
        ExprView::Number(number) => literal_of(number),
        ExprView::Strand(text) => Ok(ValueView::String(text)),
        ExprView::Duration(secs, nanos) => if nanos < NANOS_PER_SEC {
            Ok(ValueView::Duration { secs, nanos })
        } else {
            Err(ErrorView::Conversion)
        },
        ExprView::Datetime(secs, nanos) => if timestamp_in_range(secs, nanos) {
            Ok(ValueView::Datetime { secs, nanos })
        } else {
            Err(ErrorView::Conversion)
        },
        ExprView::Uuid(bytes) => Ok(ValueView::Uuid(bytes)),
        ExprView::Param(name) => Ok(
            match lookup(params, name) {
                Some(value) => value,
                None => ValueView::Nothing,
            },
        ),
        ExprView::Idiom(parts) => match followed(doc, parts) {
            Some(value) => Ok(value),
            None => Err(ErrorView::Unsupported),
        },
        ExprView::Thing(table, id) => Ok(
            ValueView::RecordId {
                table,
                key: match id {
                    IdView::Number(n) => KeyView::Integer(n),
                    IdView::String(s) => KeyView::String(s),
                },
            },
        ),
        ExprView::Array(items) => match values_of(doc, params, items) {
            Ok(values) => Ok(ValueView::Array(values)),
            Err(e) => Err(e),
        },
        ExprView::Object(fields) => match entries_of(doc, params, fields) {
            Ok(entries) => Ok(ValueView::Object(entries)),
            Err(e) => Err(e),
        },
        ExprView::Unary(op, operand) => match value_of(doc, params, *operand) {
            Ok(v) => unary_of(op, v),
            Err(e) => Err(e),
        },
        ExprView::Binary(left, op, right) => match value_of(doc, params, *left) {
            Err(e) => Err(e),
            Ok(a) => if chooses(op) {
                if decides(op, a) {
                    Ok(a)
                } else {
                    value_of(doc, params, *right)
                }
            } else {
                match value_of(doc, params, *right) {
                    Err(e) => Err(e),
                    Ok(b) => strict_of(op, a, b),
                }
            },
        },
    }
}

/// The values of expressions, in their order, or the first error met.
pub open spec fn values_of(
    doc: ValueView,
    params: Seq<(Seq<char>, ValueView)>,
    items: Seq<ExprView>,
) -> Result<Seq<ValueView>, ErrorView>
    decreases items, 0nat,
{
    if items.len() == 0 {
        Ok(Seq::empty())
    } else {
        match values_of(doc, params, items.drop_last()) {
            Err(e) => Err(e),
            Ok(values) => match value_of(doc, params, items.last()) {
                Ok(value) => Ok(values.push(value)),
                Err(e) => Err(e),
            },
        }
    }
}

/// The entries that the fields of an object give, each put under its key in the order
/// in which they are written, or the first error met.
pub open spec fn entries_of(
    doc: ValueView,
    params: Seq<(Seq<char>, ValueView)>,
    fields: Seq<(Seq<char>, ExprView)>,
) -> Result<Seq<(Seq<char>, ValueView)>, ErrorView>
    decreases fields, 0nat,
{
    if fields.len() == 0 {
        Ok(Seq::empty())
    } else {
        match entries_of(doc, params, fields.drop_last()) {
            Err(e) => Err(e),
            Ok(entries) => match value_of(doc, params, fields.last().1) {
                Ok(value) => Ok(inserted(entries, fields.last().0, value)),
                Err(e) => Err(e),
            },
        }
    }
}

/// An error among the first expressions is the error of them all.
pub proof fn lemma_values_error(
    doc: ValueView,
    params: Seq<(Seq<char>, ValueView)>,
    items: Seq<ExprView>,
    upto: int,
)
    requires
        0 <= upto <= items.len(),
        values_of(doc, params, items.take(upto)) is Err,
    ensures
        values_of(doc, params, items) == values_of(doc, params, items.take(upto)),
    decreases items.len() - upto,
{
    if upto < items.len() {
        assert(items.take(upto + 1).drop_last() =~= items.take(upto));
        lemma_values_error(doc, params, items, upto + 1);
    } else {
        assert(items.take(upto) =~= items);
    }
}

/// An error among the first fields is the error of them all.
pub proof fn lemma_entries_error(
    doc: ValueView,
    params: Seq<(Seq<char>, ValueView)>,
    fields: Seq<(Seq<char>, ExprView)>,
    upto: int,
)
    requires
        0 <= upto <= fields.len(),
        entries_of(doc, params, fields.take(upto)) is Err,
    ensures
        entries_of(doc, params, fields) == entries_of(doc, params, fields.take(upto)),
    decreases fields.len() - upto,
{
    if upto < fields.len() {
        assert(fields.take(upto + 1).drop_last() =~= fields.take(upto));
        lemma_entries_error(doc, params, fields, upto + 1);
    } else {
        assert(fields.take(upto) =~= fields);
    }
}

/// What an expression is computed against.
#[derive(Debug)]
pub struct Scope {
    /// The record at hand.
    pub doc: Value,
    /// The parameters of the statement, by their names.
    pub params: Object,
}

/// Where one step of a path leads from a value. `nothing` is what stands for a field or
/// a place that is not there.
pub fn take_step<'a>(at: &'a Value, part: &Part, nothing: &'a Value) -> (next: Option<
    &'a Value,
>)
    requires
        at@.wf(),
        nothing@ == ValueView::Nothing,
    ensures
        match next {
            Some(value) => step(at@, part@) == Some(value@) && value@.wf(),
            None => step(at@, part@) is None,
        },
{
    match part {
        Part::Field(name) => match at {
            Value::Object(object) => {
                proof {
                    lemma_rank_splits(object@, name@);
                    let r = rank(object@, name@);
                    if r < object@.len() {
                        assert(object@[r].1.wf());
                    }
                }
                match object.get(name.as_str()) {
                    Some(value) => Some(value),
                    None => Some(nothing),
                }
            },
            _ => Some(nothing),
        },
        Part::Index(index) => match at {
            Value::Array(items) => if *index < items.len() as u64 {
                assert(items_view(items@)[*index as int] == items@[*index as int]@);
                Some(&items[*index as usize])
            } else {
                assert(items_view(items@).len() == items@.len());
                Some(nothing)
            },
            _ => Some(nothing),
        },
        Part::Last => match at {
            Value::Array(items) => if items.len() > 0 {
                assert(items_view(items@).last() == items@[items@.len() - 1]@);
                Some(&items[items.len() - 1])
            } else {
                assert(items_view(items@).len() == items@.len());
                Some(nothing)
            },
            _ => Some(nothing),
        },
        _ => None,
    }
}

/// Where a path leads from a value.
pub fn follow(doc: &Value, parts: &Vec<Part>) -> (found: Option<Value>)
    requires
        doc@.wf(),
    ensures
        match found {
            Some(value) => followed(doc@, parts@.map_values(|part: Part| part@)) == Some(value@)
                && value@.wf(),
            None => followed(doc@, parts@.map_values(|part: Part| part@)) is None,
        },
{
    let ghost path = parts@.map_values(|part: Part| part@);
    let nothing = Value::Nothing;
    let mut at: &Value = doc;
    let mut i: usize = 0;
    proof {
        assert(path.skip(0) =~= path);
    }
    while i < parts.len()
        invariant
            i <= parts@.len(),
            path == parts@.map_values(|part: Part| part@),
            at@.wf(),
            nothing@ == ValueView::Nothing,
            followed(at@, path.skip(i as int)) == followed(doc@, path),
        decreases parts@.len() - i,
    {
        proof {
            assert(path.skip(i as int)[0] == parts@[i as int]@);
            assert(path.skip(i as int).skip(1) =~= path.skip(i + 1));
        }
        match take_step(at, &parts[i], &nothing) {
            Some(next) => {
                at = next;
            },
            None => {
                return None;
            },
        }
        i += 1;
    }
    Some(at.duplicate())
}

/// The value of a number as it is written.
pub fn literal(number: &NumberLiteral) -> (result: Result<Value, Error>)
    ensures
        match result {
            Ok(value) => literal_of(number@) == Ok::<ValueView, ErrorView>(value@)
                && value@.wf(),
            Err(e) => literal_of(number@) == Err::<ValueView, ErrorView>(e@),
        },
{
    match number {
        NumberLiteral::Integer(i) => Ok(Value::Number(Number::Integer(*i))),
        NumberLiteral::Float(_) => Err(Error::Unsupported),
        NumberLiteral::Decimal(text) => match Decimal::from_text(text.as_str()) {
            Some(d) => Ok(Value::Number(Number::Decimal(d))),
            None => Err(Error::Conversion),
        },
    }
}

/// What an operator before a value makes of it.
pub fn unary(op: Operator, v: Value) -> (result: Result<Value, Error>)
    ensures
        match result {
            Ok(value) => unary_of(op, v@) == Ok::<ValueView, ErrorView>(value@) && value@.wf(),
            Err(e) => unary_of(op, v@) == Err::<ValueView, ErrorView>(e@),
        },
{
    match op {
        Operator::Neg => match v {
            Value::Number(Number::Integer(i)) => narrow(-(i as i128)),
            _ => Err(Error::Unsupported),
        },
        Operator::Not => Ok(Value::Bool(!is_truthy(&v))),
        _ => Err(Error::Unsupported),
    }
}

/// What an operator makes of two values that were both computed.
pub fn strict(op: Operator, a: Value, b: Value) -> (result: Result<Value, Error>)
    requires
        a@.wf(),
        b@.wf(),
    ensures
        match result {
            Ok(value) => strict_of(op, a@, b@) == Ok::<ValueView, ErrorView>(value@)
                && value@.wf(),
            Err(e) => strict_of(op, a@, b@) == Err::<ValueView, ErrorView>(e@),
        },
{
    match op {
        Operator::Equal | Operator::Exact => Ok(
            Value::Bool(
                match order_values(&a, &b) {
                    Some(Order::Equal) => true,
                    _ => false,
                },
            ),
        ),
        Operator::NotEqual => Ok(
            Value::Bool(
                match order_values(&a, &b) {
                    Some(Order::Equal) => false,
                    _ => true,
                },
            ),
        ),
        Operator::LessThan => Ok(
            Value::Bool(
                match order_values(&a, &b) {
                    Some(Order::Less) => true,
                    _ => false,
                },
            ),
        ),
        Operator::LessThanOrEqual => Ok(
            Value::Bool(
                match order_values(&a, &b) {
                    Some(Order::Less) => true,
                    Some(Order::Equal) => true,
                    _ => false,
                },
            ),
        ),
        Operator::MoreThan => Ok(
            Value::Bool(
                match order_values(&a, &b) {
                    Some(Order::Greater) => true,
                    _ => false,
                },
            ),
        ),
        Operator::MoreThanOrEqual => Ok(
            Value::Bool(
                match order_values(&a, &b) {
                    Some(Order::Greater) => true,
                    Some(Order::Equal) => true,
                    _ => false,
                },
            ),
        ),
        _ => binary(op, a, b),
    }
}

/// Whether the left side of an operator decides alone.
pub fn left_decides(op: Operator, a: &Value) -> (decided: Option<bool>)
    ensures
        match decided {
            Some(d) => chooses(op) && d == decides(op, a@),
            None => !chooses(op),
        },
{
    match op {
        Operator::And => Some(!is_truthy(a)),
        Operator::Or => Some(is_truthy(a)),
        Operator::Tco => Some(is_truthy(a)),
        Operator::Nco => Some(
            match a {
                Value::Nothing => false,
                Value::Null => false,
                _ => true,
            },
        ),
        _ => None,
    }
}

impl Scope {
    /// The record and the parameters are well-formed.
    pub open spec fn wf(&self) -> bool {
        self.doc@.wf() && self.params.wf()
    }

    /// The value of an expression that holds no other expression.
    pub fn compute_leaf(&self, expr: &Expr) -> (result: Result<Value, Error>)
        requires
            self.wf(),
            !(expr is Array),
            !(expr is Object),
            !(expr is Unary),
            !(expr is Binary),
        ensures
            match result {
                Ok(value) => value_of(self.doc@, self.params@, expr@) == Ok::<
                    ValueView,
                    ErrorView,
                >(value@) && value@.wf(),
                Err(e) => value_of(self.doc@, self.params@, expr@) == Err::<
                    ValueView,
                    ErrorView,
                >(e@),
            },
    {
        match expr {
            Expr::Nothing => Ok(Value::Nothing),
            Expr::Null => Ok(Value::Null),
            Expr::Bool(b) => Ok(Value::Bool(*b)),
            Expr::Number(number) => literal(number),
            Expr::Strand(text) => {
                let len = text.as_str().as_bytes().len();
                Ok(Value::String(text.clone()))
            },
            Expr::Duration(d) => match Duration::new(d.secs(), d.subsec_nanos()) {
                Some(d) => Ok(Value::Duration(d)),
                None => Err(Error::Conversion),
            },
            Expr::Datetime(d) => match Datetime::from_timestamp(
                d.timestamp(),
                d.timestamp_subsec_nanos(),
            ) {
                Some(d) => Ok(Value::Datetime(d)),
                None => Err(Error::Conversion),
            },
            Expr::Uuid(uuid) => {
                let bytes = uuid.as_bytes();
                assert(bytes@.len() == 16);
                Ok(Value::Uuid(*uuid))
            },
            Expr::Param(name) => {
                proof {
                    lemma_rank_splits(self.params@, name@);
                    let r = rank(self.params@, name@);
                    if r < self.params@.len() {
                        assert(self.params@[r].1.wf());
                    }
                }
                match self.params.get(name.as_str()) {
                    Some(value) => Ok(value.duplicate()),
                    None => Ok(Value::Nothing),
                }
            },
            Expr::Idiom(idiom) => match follow(&self.doc, &idiom.0) {
                Some(value) => Ok(value),
                None => Err(Error::Unsupported),
            },
            Expr::Thing(table, id) => {
                let len = table.as_str().as_bytes().len();
                let key = match id {
                    Id::Number(n) => RecordIdKey::Integer(*n),
                    Id::String(s) => {
                        let len = s.as_str().as_bytes().len();
                        RecordIdKey::String(s.clone())
                    },
                };
                assert(key@.wf());
                Ok(Value::RecordId(RecordId::from_table_key(table.0.clone(), key)))
            },
            _ => Err(Error::Internal),
        }
    }

    /// The value of two expressions with an operator between them.
    pub fn compute_binary(&self, expr: &Expr) -> (result: Result<Value, Error>)
        requires
            self.wf(),
            expr is Binary,
        ensures
            match result {
                Ok(value) => value_of(self.doc@, self.params@, expr@) == Ok::<
                    ValueView,
                    ErrorView,
                >(value@) && value@.wf(),
                Err(e) => value_of(self.doc@, self.params@, expr@) == Err::<
                    ValueView,
                    ErrorView,
                >(e@),
            },
        decreases expr, 0nat,
    {
        match expr {
            Expr::Binary(left, op, right) => {
                let a = match self.compute(&**left) {
                    Ok(a) => a,
                    Err(e) => return Err(e),
                };
                match left_decides(*op, &a) {
                    Some(true) => Ok(a),
                    Some(false) => self.compute(&**right),
                    None => {
                        let b = match self.compute(&**right) {
                            Ok(b) => b,
                            Err(e) => return Err(e),
                        };
                        strict(*op, a, b)
                    },
                }
            },
            _ => Err(Error::Internal),
        }
    }

    /// The value of an expression, or the first error met.
    pub fn compute(&self, expr: &Expr) -> (result: Result<Value, Error>)
        requires
            self.wf(),
        ensures
            match result {
                Ok(value) => value_of(self.doc@, self.params@, expr@) == Ok::<
                    ValueView,
                    ErrorView,
                >(value@) && value@.wf(),
                Err(e) => value_of(self.doc@, self.params@, expr@) == Err::<
                    ValueView,
                    ErrorView,
                >(e@),
            },
        decreases expr, 1nat,
    {
        match expr {
            Expr::Array(items) => match self.compute_items(items) {
                Ok(values) => Ok(Value::Array(values)),
                Err(e) => Err(e),
            },
            Expr::Object(fields) => match self.compute_fields(fields) {
                Ok(object) => Ok(Value::Object(object)),
                Err(e) => Err(e),
            },
            Expr::Unary(op, operand) => match self.compute(&**operand) {
                Ok(v) => unary(*op, v),
                Err(e) => Err(e),
            },
            Expr::Binary(_, _, _) => self.compute_binary(expr),
            _ => self.compute_leaf(expr),
        }
    }

    /// The values of expressions, in their order, or the first error met.
    pub fn compute_items(&self, items: &Vec<Expr>) -> (result: Result<Vec<Value>, Error>)
        requires
            self.wf(),
        ensures
            match result {
                Ok(values) => values_of(self.doc@, self.params@, exprs_view(items@)) == Ok::<
                    Seq<ValueView>,
                    ErrorView,
                >(items_view(values@)) && ValueView::Array(items_view(values@)).wf(),
                Err(e) => values_of(self.doc@, self.params@, exprs_view(items@)) == Err::<
                    Seq<ValueView>,
                    ErrorView,
                >(e@),
            },
        decreases items, 0nat,
    {
        let ghost all = exprs_view(items@);
        let mut values: Vec<Value> = Vec::new();
        let mut i: usize = 0;
        proof {
            lemma_exprs_view(items@);
            assert(all.take(0) =~= Seq::<ExprView>::empty());
            assert(items_view(values@) =~= Seq::<ValueView>::empty());
        }
        while i < items.len()
            invariant
                i <= items@.len(),
                self.wf(),
                all == exprs_view(items@),
                all.len() == items@.len(),
                forall|j: int| 0 <= j < items@.len() ==> #[trigger] all[j] == items@[j]@,
                values@.len() == i,
                values_of(self.doc@, self.params@, all.take(i as int)) == Ok::<
                    Seq<ValueView>,
                    ErrorView,
                >(items_view(values@)),
                forall|j: int| 0 <= j < i ==> (#[trigger] values@[j])@.wf(),
            decreases items@.len() - i,
        {
            proof {
                assert(all.take(i + 1).drop_last() =~= all.take(i as int));
                assert(all.take(i + 1).last() == items@[i as int]@);
            }
            let ghost before = items_view(values@);
            match self.compute(&items[i]) {
                Ok(value) => {
                    values.push(value);
                    proof {
                        assert(items_view(values@) =~= before.push(value@));
                    }
                },
                Err(e) => {
                    proof {
                        lemma_values_error(self.doc@, self.params@, all, i + 1);
                    }
                    return Err(e);
                },
            }
            i += 1;
        }
        proof {
            assert(all.take(i as int) =~= all);
            assert forall|j: int| 0 <= j < values@.len() implies (#[trigger] items_view(
                values@,
            )[j]).wf() by {
                assert(items_view(values@)[j] == values@[j]@);
            }
        }
        let count = values.len();
        Ok(values)
    }

    /// The object that fields give, or the first error met.
    pub fn compute_fields(&self, fields: &Vec<(String, Expr)>) -> (result: Result<
        Object,
        Error,
    >)
        requires
            self.wf(),
        ensures
            match result {
                Ok(object) => entries_of(self.doc@, self.params@, fields_view(fields@)) == Ok::<
                    Seq<(Seq<char>, ValueView)>,
                    ErrorView,
                >(object@) && object.wf(),
                Err(e) => entries_of(self.doc@, self.params@, fields_view(fields@)) == Err::<
                    Seq<(Seq<char>, ValueView)>,
                    ErrorView,
                >(e@),
            },
        decreases fields, 0nat,
    {
        let ghost all = fields_view(fields@);
        let mut object = Object::new();
        let mut i: usize = 0;
        proof {
            lemma_fields_view(fields@);
            assert(all.take(0) =~= Seq::<(Seq<char>, ExprView)>::empty());
        }
        while i < fields.len()
            invariant
                i <= fields@.len(),
                self.wf(),
                all == fields_view(fields@),
                all.len() == fields@.len(),
                forall|j: int|
                    0 <= j < fields@.len() ==> #[trigger] all[j] == (
                        fields@[j].0@,
                        fields@[j].1@,
                    ),
                object.wf(),
                entries_of(self.doc@, self.params@, all.take(i as int)) == Ok::<
                    Seq<(Seq<char>, ValueView)>,
                    ErrorView,
                >(object@),
            decreases fields@.len() - i,
        {
            proof {
                assert(all.take(i + 1).drop_last() =~= all.take(i as int));
                assert(all.take(i + 1).last() == (fields@[i as int].0@, fields@[i as int].1@));
            }
            match self.compute(&fields[i].1) {
                Ok(value) => {
                    object.insert(fields[i].0.clone(), value);
                },
                Err(e) => {
                    proof {
                        lemma_entries_error(self.doc@, self.params@, all, i + 1);
                    }
                    return Err(e);
                },
            }
            i += 1;
        }
        proof {
            assert(all.take(i as int) =~= all);
        }
        Ok(object)
    }

    /// Whether a condition lets the record through: its value counts as true. An error
    /// in computing it is handed on.
    pub fn passes(&self, cond: &Expr) -> (result: Result<bool, Error>)
        requires
            self.wf(),
        ensures
            match result {
                Ok(through) => value_of(self.doc@, self.params@, cond@) matches Ok(value)
                    && through == truthy(value),
                Err(e) => value_of(self.doc@, self.params@, cond@) == Err::<
                    ValueView,
                    ErrorView,
                >(e@),
            },
    {
        match self.compute(cond) {
            Ok(value) => Ok(is_truthy(&value)),
            Err(e) => Err(e),
        }
    }
}

} // verus!
