//! Requests as they come over the wire in the text format.

use vstd::prelude::*;
use vstd::utf8::valid_utf8;
use crate::ast::exprs_view;
use crate::ast::fields_view;
use crate::ast::Expr;
use crate::ast::ExprView;
use crate::parser::lexes_to;
use crate::parser::Input;
use crate::parser::Parser;
use crate::strings::same_text;
use crate::strings::text_from_utf8;
use crate::token::TokenKind;

verus! {

/// Why a request was not taken.
#[derive(Clone, Copy, PartialEq, Eq, Structural, Debug)]
pub enum RpcError {
    /// The bytes are no value.
    ParseError,
    /// The value is no request.
    InvalidRequest,
}

/// What a request stands for.
pub struct RequestView {
    pub id: Option<ExprView>,
    pub method: Seq<char>,
    pub params: Seq<ExprView>,
}

/// A request: what it is called, the arguments, and an id by which the answer is told
/// apart.
#[derive(Debug)]
pub struct Request {
    pub id: Option<Expr>,
    pub method: String,
    pub params: Vec<Expr>,
}

impl View for Request {
    type V = RequestView;

    open spec fn view(&self) -> RequestView {
        RequestView {
            id: match self.id {
                Some(id) => Some(id@),
                None => None,
            },
            method: self.method@,
            params: exprs_view(self.params@),
        }
    }
}

impl Input {
    /// The value that the whole input stands for: a value at the start, and the end of
    /// the source behind it.
    pub open spec fn whole_value(self) -> Option<ExprView> {
        match self.value(0) {
            Ok((value, next)) => if self.kind_at(next) == TokenKind::Eof {
                Some(value)
            } else {
                None
            },
            Err(_) => None,
        }
    }
}

/// The value under the key `key` that comes last among the entries.
pub open spec fn last_under(entries: Seq<(Seq<char>, ExprView)>, key: Seq<char>) -> Option<
    ExprView,
>
    decreases entries.len(),
{
    if entries.len() == 0 {
        None
    } else if entries.last().0 == key {
        Some(entries.last().1)
    } else {
        last_under(entries.drop_last(), key)
    }
}

/// Whether a value may be the id of a request: nothing, a number, a string, a uuid or a
/// date-time.
pub open spec fn may_be_id(value: ExprView) -> bool {
    value is Nothing || value is Null || value is Number || value is Strand || value is Uuid
        || value is Datetime
}

/// The request that a value stands for: an object with a string under `method`, under
/// `params` an array or nothing, and under `id` what may be an id or nothing.
pub open spec fn request_of(value: ExprView) -> Option<RequestView> {
    match value {
        ExprView::Object(entries) => match last_under(entries, "method"@) {
            Some(ExprView::Strand(method)) => {
                let id = last_under(entries, "id"@);
                let params = last_under(entries, "params"@);
                if (id matches Some(found) ==> may_be_id(found)) && (params matches Some(
                    found,
                ) ==> found is Array) {
                    Some(
                        RequestView {
                            id: match id {
                                Some(ExprView::Nothing) => None,
                                Some(ExprView::Null) => None,
                                other => other,
                            },
                            method,
                            params: match params {
                                Some(ExprView::Array(items)) => items,
                                _ => Seq::empty(),
                            },
                        },
                    )
                } else {
                    None
                }
            },
            _ => None,
        },
        _ => None,
    }
}

impl<'a> Parser<'a> {
    /// Parses a value that is all that the source holds.
    pub fn parse_whole_value(&mut self) -> (result: Result<Expr, RpcError>)
        requires
            old(self).wf(),
            old(self).pos() == 0,
        ensures
            final(self).wf(),
            final(self).input() == old(self).input(),
            match result {
                Ok(value) => old(self).input().whole_value() == Some(value@),
                Err(e) => old(self).input().whole_value() is None && e == RpcError::ParseError,
            },
    {
        let value = match self.parse_value() {
            Ok(value) => value,
            Err(_) => return Err(RpcError::ParseError),
        };
        if self.peek_kind() == TokenKind::Eof {
            Ok(value)
        } else {
            Err(RpcError::ParseError)
        }
    }
}

/// Whether the bytes can be lexed at all: they are UTF-8, and no more than `u32::MAX`.
pub open spec fn lexable(bytes: Seq<u8>) -> bool {
    valid_utf8(bytes) && bytes.len() <= u32::MAX
}

/// Whether the bytes spell the value `value` and nothing else: what the lexer makes of
/// them is a value at the start with the end of the source behind it.
pub open spec fn reads_as(bytes: Seq<u8>, value: ExprView) -> bool {
    lexable(bytes) && exists|input: Input| #[trigger]
        lexes_to(bytes, input) && input.whole_value() == Some(value)
}

/// Whether the bytes spell no value: they cannot be lexed, or what the lexer makes of
/// them is no value with the end of the source behind it.
pub open spec fn reads_as_nothing(bytes: Seq<u8>) -> bool {
    !lexable(bytes) || exists|input: Input| #[trigger]
        lexes_to(bytes, input) && input.whole_value() is None
}

/// Parses the bytes of a message as a value. The bytes must be UTF-8, no more than
/// `u32::MAX` of them, and spell one value and nothing else.
pub fn parse_value(val: &[u8]) -> (result: Result<Expr, RpcError>)
    ensures
        match result {
            Ok(value) => reads_as(val@, value@),
            Err(e) => e == RpcError::ParseError && reads_as_nothing(val@),
        },
{
    if val.len() > 0xffff_ffff {
        return Err(RpcError::ParseError);
    }
    let mut copy: Vec<u8> = Vec::new();
    copy.extend_from_slice(val);
    assert(copy@ =~= val@);
    let text = match text_from_utf8(copy) {
        Some(text) => text,
        None => return Err(RpcError::ParseError),
    };
    proof {
        vstd::utf8::decode_utf8_encode_utf8(val@);
    }
    let mut parser = Parser::new(text.as_str());
    let ghost input = parser.input();
    let result = parser.parse_whole_value();
    proof {
        assert(lexes_to(val@, input));
    }
    result
}

/// The three keys of a request are three names.
proof fn lemma_names_differ()
    ensures
        "method"@ != "id"@,
        "method"@ != "params"@,
        "id"@ != "params"@,
{
    reveal_strlit("method");
    reveal_strlit("id");
    reveal_strlit("params");
    assert("method"@[0] == 'm');
    assert("params"@[0] == 'p');
    assert("method"@.len() == 6);
    assert("id"@.len() == 2);
    assert("params"@.len() == 6);
}

/// The request that a value stands for.
pub fn request_from(value: Expr) -> (result: Result<Request, RpcError>)
    ensures
        match result {
            Ok(request) => request_of(value@) == Some(request@),
            Err(e) => request_of(value@) is None && e == RpcError::InvalidRequest,
        },
{
    let ghost value_view = value@;
    let mut entries = match value {
        Expr::Object(entries) => entries,
        _ => return Err(RpcError::InvalidRequest),
    };
    let ghost all = fields_view(entries@);
    assert(value_view == ExprView::Object(all));
    let mut method: Option<Expr> = None;
    let mut id: Option<Expr> = None;
    let mut params: Option<Expr> = None;
    proof {
        lemma_names_differ();
    }
    while entries.len() > 0
        invariant
            "method"@ != "id"@,
            "method"@ != "params"@,
            "id"@ != "params"@,
            match method {
                Some(found) => last_under(all, "method"@) == Some(found@),
                None => last_under(all, "method"@) == last_under(
                    fields_view(entries@),
                    "method"@,
                ),
            },
            match id {
                Some(found) => last_under(all, "id"@) == Some(found@),
                None => last_under(all, "id"@) == last_under(fields_view(entries@), "id"@),
            },
            match params {
                Some(found) => last_under(all, "params"@) == Some(found@),
                None => last_under(all, "params"@) == last_under(
                    fields_view(entries@),
                    "params"@,
                ),
            },
        decreases entries@.len(),
    {
        let ghost before = entries@;
        let entry = entries.pop().unwrap();
        proof {
            assert(before.drop_last() =~= entries@);
            assert(fields_view(before).last() == (entry.0@, entry.1@));
            assert(fields_view(before).drop_last() =~= fields_view(entries@));
        }
        if method.is_none() && same_text(entry.0.as_str(), "method") {
            method = Some(entry.1);
        } else if id.is_none() && same_text(entry.0.as_str(), "id") {
            id = Some(entry.1);
        } else if params.is_none() && same_text(entry.0.as_str(), "params") {
            params = Some(entry.1);
        }
    }
    proof {
        assert(fields_view(entries@) =~= Seq::<(Seq<char>, ExprView)>::empty());
    }
    let method = match method {
        Some(Expr::Strand(method)) => method,
        _ => return Err(RpcError::InvalidRequest),
    };
    let id = match id {
        None => None,
        Some(Expr::Nothing) => None,
        Some(Expr::Null) => None,
        Some(found) => {
            match &found {
                Expr::Number(_) | Expr::Strand(_) | Expr::Uuid(_) | Expr::Datetime(_) => {},
                _ => return Err(RpcError::InvalidRequest),
            }
            Some(found)
        },
    };
    let params = match params {
        None => {
            let none: Vec<Expr> = Vec::new();
            assert(exprs_view(none@) =~= Seq::<ExprView>::empty());
            none
        },
        Some(Expr::Array(items)) => items,
        Some(_) => return Err(RpcError::InvalidRequest),
    };
    Ok(Request { id, method, params })
}

/// The request that the whole input stands for.
pub open spec fn whole_request(input: Input) -> Option<RequestView> {
    match input.whole_value() {
        Some(value) => request_of(value),
        None => None,
    }
}

/// Whether the bytes spell the request `request`: they spell a value, and the value
/// stands for the request.
pub open spec fn reads_as_request(bytes: Seq<u8>, request: RequestView) -> bool {
    lexable(bytes) && exists|input: Input| #[trigger]
        lexes_to(bytes, input) && whole_request(input) == Some(request)
}

/// Whether the bytes spell a value that stands for no request.
pub open spec fn reads_as_no_request(bytes: Seq<u8>) -> bool {
    lexable(bytes) && exists|input: Input| #[trigger]
        lexes_to(bytes, input) && input.whole_value() is Some && whole_request(input) is None
}

/// Parses the bytes of a message as a request. Bytes that spell no value are a parse
/// error, and a value that stands for no request is an invalid request.
pub fn req(val: &[u8]) -> (result: Result<Request, RpcError>)
    ensures
        match result {
            Ok(request) => reads_as_request(val@, request@),
            Err(RpcError::ParseError) => reads_as_nothing(val@),
            Err(RpcError::InvalidRequest) => reads_as_no_request(val@),
        },
{
    let value = match parse_value(val) {
        Ok(value) => value,
        Err(e) => return Err(e),
    };
    let ghost value_view = value@;
    let result = request_from(value);
    proof {
        let input = choose|input: Input| #[trigger]
            lexes_to(val@, input) && input.whole_value() == Some(value_view);
        assert(lexes_to(val@, input));
        assert(whole_request(input) == request_of(value_view));
    }
    result
}

} // verus!
