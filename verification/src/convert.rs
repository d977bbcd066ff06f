//! Getting at what a value holds, where it holds what was asked for.

use vstd::prelude::*;
use vstd::string::StringExecFns;
use crate::number::Number;
use crate::time::Datetime;
use crate::time::Duration;
use crate::value::Bytes;
use crate::value::RecordId;
use crate::value::Uuid;
use crate::value::Value;
use crate::value::ValueView;

verus! {

/// A value did not hold what it was to be turned into.
#[derive(Clone, Copy, Debug)]
pub struct ConversionError {
    from: &'static str,
    expected: &'static str,
}

impl ConversionError {
    /// The kind of value that holds what was asked for.
    pub closed spec fn from_kind(self) -> Seq<char> {
        self.from@
    }

    /// The type that the value was to be turned into.
    pub closed spec fn expected_type(self) -> Seq<char> {
        self.expected@
    }

    /// What the error says: the type asked for between backticks, and the kind of the
    /// value between backticks and quotes, with a line feed at the end.
    pub open spec fn text(self) -> Seq<char> {
        "failed to convert into `"@ + self.expected_type() + "` from value with type `\""@
            + self.from_kind() + "\"`\n"@
    }

    /// The error for a value that is not of the kind `from`, which holds an `expected`.
    pub fn new(from: &'static str, expected: &'static str) -> (error: ConversionError)
        ensures
            error.from_kind() == from@,
            error.expected_type() == expected@,
    {
        ConversionError { from, expected }
    }

    /// What the error says.
    pub fn message(&self) -> (message: String)
        ensures
            message@ == self.text(),
    {
        let mut message = String::from_str("failed to convert into `");
        message.append(self.expected);
        message.append("` from value with type `\"");
        message.append(self.from);
        message.append("\"`\n");
        message
    }
}

/// The name of the kind of a value.
pub open spec fn kind_name(value: ValueView) -> Seq<char> {
    match value {
        ValueView::Nothing => "None"@,
        ValueView::Null => "Null"@,
        ValueView::Bool(_) => "Bool"@,
        ValueView::Number(_) => "Number"@,
        ValueView::String(_) => "String"@,
        ValueView::Duration { .. } => "Duration"@,
        ValueView::Datetime { .. } => "Datetime"@,
        ValueView::Uuid(_) => "Uuid"@,
        ValueView::Array(_) => "Array"@,
        ValueView::Object(_) => "Object"@,
        ValueView::Bytes(_) => "Bytes"@,
        ValueView::RecordId { .. } => "RecordId"@,
    }
}

impl Value {
    /// The name of the kind of the value.
    pub fn kind(&self) -> (name: &'static str)
        ensures
            name@ == kind_name(self@),
    {
        match self {
            Value::Nothing => "None",
            Value::Null => "Null",
            Value::Bool(_) => "Bool",
            Value::Number(_) => "Number",
            Value::String(_) => "String",
            Value::Duration(_) => "Duration",
            Value::Datetime(_) => "Datetime",
            Value::Uuid(_) => "Uuid",
            Value::Array(_) => "Array",
            Value::Object(_) => "Object",
            Value::Bytes(_) => "Bytes",
            Value::RecordId(_) => "RecordId",
        }
    }

    /// Get a reference to the internal bool if the value is of that type
    pub fn as_bool(&self) -> (found: Option<&bool>)
        ensures
            match found {
                Some(x) => self@ == ValueView::Bool(*x),
                None => !(self@ is Bool),
            },
    {
        match self {
            Value::Bool(x) => Some(x),
            _ => None,
        }
    }

    /// Convert the value to bool if the value is of that type
    pub fn into_bool(self) -> (found: Option<bool>)
        ensures
            match found {
                Some(x) => self@ == ValueView::Bool(x),
                None => !(self@ is Bool),
            },
    {
        match self {
            Value::Bool(x) => Some(x),
            _ => None,
        }
    }

    /// Get a reference to the internal Number if the value is of that type
    pub fn as_number(&self) -> (found: Option<&Number>)
        ensures
            match found {
                Some(x) => self@ == ValueView::Number(x@),
                None => !(self@ is Number),
            },
    {
        match self {
            Value::Number(x) => Some(x),
            _ => None,
        }
    }

    /// Convert the value to Number if the value is of that type
    pub fn into_number(self) -> (found: Option<Number>)
        ensures
            match found {
                Some(x) => self@ == ValueView::Number(x@),
                None => !(self@ is Number),
            },
    {
        match self {
            Value::Number(x) => Some(x),
            _ => None,
        }
    }

    /// Get a reference to the internal Uuid if the value is of that type
    pub fn as_uuid(&self) -> (found: Option<&Uuid>)
        ensures
            match found {
                Some(x) => self@ == ValueView::Uuid(x@),
                None => !(self@ is Uuid),
            },
    {
        match self {
            Value::Uuid(x) => Some(x),
            _ => None,
        }
    }

    /// Convert the value to Uuid if the value is of that type
    pub fn into_uuid(self) -> (found: Option<Uuid>)
        ensures
            match found {
                Some(x) => self@ == ValueView::Uuid(x@),
                None => !(self@ is Uuid),
            },
    {
        match self {
            Value::Uuid(x) => Some(x),
            _ => None,
        }
    }

    /// Get a reference to the internal Datetime if the value is of that type
    pub fn as_datetime(&self) -> (found: Option<&Datetime>)
        ensures
            match found {
                Some(x) => self@ == (ValueView::Datetime { secs: x@.0, nanos: x@.1 }),
                None => !(self@ is Datetime),
            },
    {
        match self {
            Value::Datetime(x) => Some(x),
            _ => None,
        }
    }

    /// Convert the value to Datetime if the value is of that type
    pub fn into_dateime(self) -> (found: Option<Datetime>)
        ensures
            match found {
                Some(x) => self@ == (ValueView::Datetime { secs: x@.0, nanos: x@.1 }),
                None => !(self@ is Datetime),
            },
    {
        match self {
            Value::Datetime(x) => Some(x),
            _ => None,
        }
    }

    /// Get a reference to the internal Duration if the value is of that type
    pub fn as_duration(&self) -> (found: Option<&Duration>)
        ensures
            match found {
                Some(x) => self@ == (ValueView::Duration { secs: x@.0, nanos: x@.1 }),
                None => !(self@ is Duration),
            },
    {
        match self {
            Value::Duration(x) => Some(x),
            _ => None,
        }
    }

    /// Convert the value to Duration if the value is of that type
    pub fn into_duration(self) -> (found: Option<Duration>)
        ensures
            match found {
                Some(x) => self@ == (ValueView::Duration { secs: x@.0, nanos: x@.1 }),
                None => !(self@ is Duration),
            },
    {
        match self {
            Value::Duration(x) => Some(x),
            _ => None,
        }
    }

    /// Get a reference to the internal Bytes if the value is of that type
    pub fn as_bytes(&self) -> (found: Option<&Bytes>)
        ensures
            match found {
                Some(x) => self@ == ValueView::Bytes(x@),
                None => !(self@ is Bytes),
            },
    {
        match self {
            Value::Bytes(x) => Some(x),
            _ => None,
        }
    }

    /// Convert the value to Bytes if the value is of that type
    pub fn into_bytes(self) -> (found: Option<Bytes>)
        ensures
            match found {
                Some(x) => self@ == ValueView::Bytes(x@),
                None => !(self@ is Bytes),
            },
    {
        match self {
            Value::Bytes(x) => Some(x),
            _ => None,
        }
    }

    /// Get a reference to the internal RecordId if the value is of that type
    pub fn as_record_id(&self) -> (found: Option<&RecordId>)
        ensures
            match found {
                Some(x) => self@ == (ValueView::RecordId { table: x@.0, key: x@.1 }),
                None => !(self@ is RecordId),
            },
    {
        match self {
            Value::RecordId(x) => Some(x),
            _ => None,
        }
    }

    /// Convert the value to RecordId if the value is of that type
    pub fn into_record_id(self) -> (found: Option<RecordId>)
        ensures
            match found {
                Some(x) => self@ == (ValueView::RecordId { table: x@.0, key: x@.1 }),
                None => !(self@ is RecordId),
            },
    {
        match self {
            Value::RecordId(x) => Some(x),
            _ => None,
        }
    }

    /// The bool that the value holds, or why it holds none.
    pub fn try_into_bool(self) -> (result: Result<bool, ConversionError>)
        ensures
            match result {
                Ok(x) => self@ == ValueView::Bool(x),
                Err(e) => !(self@ is Bool) && e.from_kind() == "Bool"@
                    && e.expected_type() == "bool"@,
            },
    {
        match self {
            Value::Bool(x) => Ok(x),
            _ => Err(ConversionError::new("Bool", "bool")),
        }
    }

    /// The number that the value holds, or why it holds none.
    pub fn try_into_number(self) -> (result: Result<Number, ConversionError>)
        ensures
            match result {
                Ok(x) => self@ == ValueView::Number(x@),
                Err(e) => !(self@ is Number) && e.from_kind() == "Number"@
                    && e.expected_type() == "Number"@,
            },
    {
        match self {
            Value::Number(x) => Ok(x),
            _ => Err(ConversionError::new("Number", "Number")),
        }
    }

    /// The uuid that the value holds, or why it holds none.
    pub fn try_into_uuid(self) -> (result: Result<Uuid, ConversionError>)
        ensures
            match result {
                Ok(x) => self@ == ValueView::Uuid(x@),
                Err(e) => !(self@ is Uuid) && e.from_kind() == "Uuid"@
                    && e.expected_type() == "Uuid"@,
            },
    {
        match self {
            Value::Uuid(x) => Ok(x),
            _ => Err(ConversionError::new("Uuid", "Uuid")),
        }
    }

    /// The instant that the value holds, or why it holds none.
    pub fn try_into_datetime(self) -> (result: Result<Datetime, ConversionError>)
        ensures
            match result {
                Ok(x) => self@ == (ValueView::Datetime { secs: x@.0, nanos: x@.1 }),
                Err(e) => !(self@ is Datetime) && e.from_kind() == "Datetime"@
                    && e.expected_type() == "Datetime"@,
            },
    {
        match self {
            Value::Datetime(x) => Ok(x),
            _ => Err(ConversionError::new("Datetime", "Datetime")),
        }
    }

    /// The duration that the value holds, or why it holds none.
    pub fn try_into_duration(self) -> (result: Result<Duration, ConversionError>)
        ensures
            match result {
                Ok(x) => self@ == (ValueView::Duration { secs: x@.0, nanos: x@.1 }),
                Err(e) => !(self@ is Duration) && e.from_kind() == "Duration"@
                    && e.expected_type() == "Duration"@,
            },
    {
        match self {
            Value::Duration(x) => Ok(x),
            _ => Err(ConversionError::new("Duration", "Duration")),
        }
    }

    /// The bytes that the value holds, or why it holds none.
    pub fn try_into_bytes(self) -> (result: Result<Bytes, ConversionError>)
        ensures
            match result {
                Ok(x) => self@ == ValueView::Bytes(x@),
                Err(e) => !(self@ is Bytes) && e.from_kind() == "Bytes"@
                    && e.expected_type() == "Bytes"@,
            },
    {
        match self {
            Value::Bytes(x) => Ok(x),
            _ => Err(ConversionError::new("Bytes", "Bytes")),
        }
    }

    /// The record id that the value holds, or why it holds none.
    pub fn try_into_record_id(self) -> (result: Result<RecordId, ConversionError>)
        ensures
            match result {
                Ok(x) => self@ == (ValueView::RecordId { table: x@.0, key: x@.1 }),
                Err(e) => !(self@ is RecordId) && e.from_kind() == "RecordId"@
                    && e.expected_type() == "RecordId"@,
            },
    {
        match self {
            Value::RecordId(x) => Ok(x),
            _ => Err(ConversionError::new("RecordId", "RecordId")),
        }
    }
}

} // verus!
