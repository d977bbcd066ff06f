//! The hooks by which the definition of an API endpoint shapes how a request is taken
//! and answered: the largest body, raw bodies, headers of the answer, and a timeout.

use vstd::prelude::*;
use vstd::string::StringExecFns;
use crate::err::Error;
use crate::err::ErrorView;
use crate::number::Number;
use crate::number::NumberView;
use crate::strings::same_text;
use crate::time::Duration;
use crate::value::Value;
use crate::value::ValueView;

verus! {

/// What an invocation context stands for.
pub struct ContextView {
    pub request_body_max: Option<u64>,
    pub request_body_raw: bool,
    pub response_body_raw: bool,
    pub response_headers: Seq<(Seq<char>, Seq<char>)>,
    pub timeout: Option<(u64, u32)>,
}

/// How a request to an API endpoint is taken and answered.
#[derive(Debug)]
pub struct InvocationContext {
    /// The most bytes that the body of the request may have.
    pub request_body_max: Option<u64>,
    /// Whether the body of the request is handed on as it came.
    pub request_body_raw: bool,
    /// Whether the body of the answer is sent as it is.
    pub response_body_raw: bool,
    /// The headers of the answer.
    pub response_headers: Vec<(String, String)>,
    /// How long the request may take.
    pub timeout: Option<Duration>,
}

/// What headers stand for.
pub open spec fn headers_view(headers: Seq<(String, String)>) -> Seq<(Seq<char>, Seq<char>)> {
    headers.map_values(|header: (String, String)| (header.0@, header.1@))
}

impl View for InvocationContext {
    type V = ContextView;

    open spec fn view(&self) -> ContextView {
        ContextView {
            request_body_max: self.request_body_max,
            request_body_raw: self.request_body_raw,
            response_body_raw: self.response_body_raw,
            response_headers: headers_view(self.response_headers@),
            timeout: match self.timeout {
                Some(timeout) => Some(timeout@),
                None => None,
            },
        }
    }
}

/// Headers without those of the name `name`.
pub open spec fn without_header(headers: Seq<(Seq<char>, Seq<char>)>, name: Seq<char>) -> Seq<
    (Seq<char>, Seq<char>),
>
    decreases headers.len(),
{
    if headers.len() == 0 {
        Seq::empty()
    } else if headers.last().0 == name {
        without_header(headers.drop_last(), name)
    } else {
        without_header(headers.drop_last(), name).push(headers.last())
    }
}

/// Headers with the header `name` set to `value`: in place of the headers of that name,
/// behind the others.
pub open spec fn with_header(
    headers: Seq<(Seq<char>, Seq<char>)>,
    name: Seq<char>,
    value: Seq<char>,
) -> Seq<(Seq<char>, Seq<char>)> {
    without_header(headers, name).push((name, value))
}

/// What a hook complains of where it is not called as it must be.
pub open spec fn complaint(name: Seq<char>) -> Seq<char> {
    if name == "api::req::max_body"@ {
        "Expected the largest number of bytes, a whole number that is not negative."@
    } else if name == "api::req::raw_body"@ || name == "api::res::raw_body"@ {
        "Expected no argument or a bool."@
    } else if name == "api::res::headers"@ {
        "Expected an object of strings."@
    } else if name == "api::res::header"@ {
        "Expected a name and, to set the header, a string."@
    } else if name == "api::timeout"@ {
        "Expected a duration."@
    } else {
        "unknown middleware"@
    }
}

/// The flag that a hook for raw bodies sets: the bool it is called with, or true where it
/// is called with nothing.
pub open spec fn raw_flag(args: Seq<ValueView>) -> Option<bool> {
    if args.len() == 0 {
        Some(true)
    } else if args.len() == 1 {
        match args[0] {
            ValueView::Bool(raw) => Some(raw),
            ValueView::Nothing => Some(true),
            _ => None,
        }
    } else {
        None
    }
}

/// The headers with each entry of an object set as a header, where all values of the
/// object are strings.
pub open spec fn with_headers(
    headers: Seq<(Seq<char>, Seq<char>)>,
    entries: Seq<(Seq<char>, ValueView)>,
) -> Option<Seq<(Seq<char>, Seq<char>)>>
    decreases entries.len(),
{
    if entries.len() == 0 {
        Some(headers)
    } else {
        match (with_headers(headers, entries.drop_last()), entries.last().1) {
            (Some(set), ValueView::String(value)) => Some(
                with_header(set, entries.last().0, value),
            ),
            _ => None,
        }
    }
}

/// The first of the arguments, where there are `count` of them.
pub open spec fn first_of(args: Seq<ValueView>, count: nat) -> ValueView {
    if args.len() == count && count > 0 {
        args[0]
    } else {
        ValueView::Null
    }
}

/// The headers after the hook `api::res::header` was called with `args`: a name and a
/// string set the header, a name alone or with nothing removes it.
pub open spec fn header_hooked(
    args: Seq<ValueView>,
    headers: Seq<(Seq<char>, Seq<char>)>,
) -> Option<Seq<(Seq<char>, Seq<char>)>> {
    if args.len() == 2 {
        match (args[0], args[1]) {
            (ValueView::String(header), ValueView::String(value)) => Some(
                with_header(headers, header, value),
            ),
            (ValueView::String(header), ValueView::Nothing) => Some(
                without_header(headers, header),
            ),
            _ => None,
        }
    } else {
        match first_of(args, 1) {
            ValueView::String(header) => Some(without_header(headers, header)),
            _ => None,
        }
    }
}

/// The context after the hook `name` was called with `args`, or nothing where the hook is
/// not known or not called as it must be.
pub open spec fn hooked(name: Seq<char>, args: Seq<ValueView>, before: ContextView) -> Option<
    ContextView,
> {
    if name == "api::req::max_body"@ {
        match first_of(args, 1) {
            ValueView::Number(NumberView::Integer(max)) => if max >= 0 {
                Some(ContextView { request_body_max: Some(max as u64), ..before })
            } else {
                None
            },
            _ => None,
        }
    } else if name == "api::req::raw_body"@ {
        match raw_flag(args) {
            Some(raw) => Some(ContextView { request_body_raw: raw, ..before }),
            None => None,
        }
    } else if name == "api::res::raw_body"@ {
        match raw_flag(args) {
            Some(raw) => Some(ContextView { response_body_raw: raw, ..before }),
            None => None,
        }
    } else if name == "api::res::headers"@ {
        match first_of(args, 1) {
            ValueView::Object(entries) => match with_headers(before.response_headers, entries) {
                Some(headers) => Some(ContextView { response_headers: headers, ..before }),
                None => None,
            },
            _ => None,
        }
    } else if name == "api::res::header"@ {
        match header_hooked(args, before.response_headers) {
            Some(headers) => Some(ContextView { response_headers: headers, ..before }),
            None => None,
        }
    } else if name == "api::timeout"@ {
        match first_of(args, 1) {
            ValueView::Duration { secs, nanos } => Some(
                ContextView { timeout: Some((secs, nanos)), ..before },
            ),
            _ => None,
        }
    } else {
        None
    }
}

/// Something that can be called as a hook of an API endpoint.
pub trait InvokeMiddleware {
    /// Calls the hook, which changes `context`.
    fn invoke(self, context: &mut InvocationContext) -> Result<(), Error>;
}

/// The headers without those of the name `name`.
fn remove_header(headers: &mut Vec<(String, String)>, name: &str)
    ensures
        headers_view(final(headers)@) == without_header(headers_view(old(headers)@), name@),
{
    let ghost all = headers_view(headers@);
    let mut kept: Vec<(String, String)> = Vec::new();
    let mut i: usize = 0;
    proof {
        assert(all.take(0) =~= Seq::<(Seq<char>, Seq<char>)>::empty());
        assert(headers_view(kept@) =~= without_header(all.take(0), name@));
    }
    while i < headers.len()
        invariant
            i <= headers@.len(),
            all.len() == headers@.len(),
            forall|j: int| i <= j < headers@.len() ==> (
                (#[trigger] headers@[j]).0@,
                headers@[j].1@,
            ) == all[j],
            headers_view(kept@) == without_header(all.take(i as int), name@),
        decreases headers@.len() - i,
    {
        let ghost before = headers_view(kept@);
        proof {
            assert(all.take(i + 1).drop_last() =~= all.take(i as int));
            assert(all.take(i + 1).last() == all[i as int]);
        }
        if !same_text(headers[i].0.as_str(), name) {
            let mut taken = (String::new(), String::new());
            std::mem::swap(&mut headers[i], &mut taken);
            let ghost taken_view = (taken.0@, taken.1@);
            kept.push(taken);
            proof {
                assert(headers_view(kept@) =~= before.push(taken_view));
            }
        }
        i += 1;
    }
    proof {
        assert(all.take(i as int) =~= all);
    }
    *headers = kept;
}

/// Sets the header `name` to `value`.
fn set_header(headers: &mut Vec<(String, String)>, name: &str, value: &str)
    ensures
        headers_view(final(headers)@) == with_header(headers_view(old(headers)@), name@, value@),
{
    remove_header(headers, name);
    let ghost before = headers_view(headers@);
    headers.push((String::from_str(name), String::from_str(value)));
    assert(headers_view(headers@) =~= before.push((name@, value@)));
}

/// A copy of the headers.
fn copy_headers(headers: &Vec<(String, String)>) -> (copy: Vec<(String, String)>)
    ensures
        headers_view(copy@) == headers_view(headers@),
{
    let mut copy: Vec<(String, String)> = Vec::new();
    let mut i: usize = 0;
    while i < headers.len()
        invariant
            i <= headers@.len(),
            copy@.len() == i,
            forall|j: int| 0 <= j < i ==> (#[trigger] copy@[j]).0@ == headers@[j].0@ && copy@[j].1@
                == headers@[j].1@,
        decreases headers@.len() - i,
    {
        copy.push((headers[i].0.clone(), headers[i].1.clone()));
        i += 1;
    }
    assert(headers_view(copy@) =~= headers_view(headers@));
    copy
}

/// The flag that a hook for raw bodies sets.
fn flag_of(args: &Vec<Value>) -> (flag: Option<bool>)
    ensures
        flag == raw_flag(crate::value::items_view(args@)),
{
    if args.len() == 0 {
        Some(true)
    } else if args.len() == 1 {
        match &args[0] {
            Value::Bool(raw) => Some(*raw),
            Value::Nothing => Some(true),
            _ => None,
        }
    } else {
        None
    }
}

/// The error for a hook that was not called as it must be, or that is not known.
fn refused(name: &str, message: &'static str) -> (error: Error)
    ensures
        error@ == (ErrorView::InvalidFunction { name: name@, message: message@ }),
{
    Error::InvalidFunction { name: String::from_str(name), message: String::from_str(message) }
}

impl<'a> InvokeMiddleware for (&'a String, &'a Vec<Value>) {
    /// Calls the hook that `self.0` names with the arguments `self.1`. A hook that is not
    /// known, or not called as it must be, leaves the context as it is.
    fn invoke(self, context: &mut InvocationContext) -> (result: Result<(), Error>)
        ensures
            match result {
                Ok(_) => hooked(self.0@, crate::value::items_view(self.1@), old(context)@)
                    == Some(final(context)@),
                Err(e) => hooked(self.0@, crate::value::items_view(self.1@), old(context)@)
                    is None && final(context)@ == old(context)@ && e@
                    == (ErrorView::InvalidFunction { name: self.0@, message: complaint(self.0@) }),
            },
    {
        let name = self.0.as_str();
        let args = self.1;
        let ghost views = crate::value::items_view(args@);
        if same_text(name, "api::req::max_body") {
            if args.len() == 1 {
                if let Value::Number(Number::Integer(max)) = &args[0] {
                    if *max >= 0 {
                        context.request_body_max = Some(*max as u64);
                        return Ok(());
                    }
                }
            }
            Err(
                refused(
                    name,
                    "Expected the largest number of bytes, a whole number that is not negative.",
                ),
            )
        } else if same_text(name, "api::req::raw_body") {
            match flag_of(args) {
                Some(raw) => {
                    context.request_body_raw = raw;
                    Ok(())
                },
                None => Err(refused(name, "Expected no argument or a bool.")),
            }
        } else if same_text(name, "api::res::raw_body") {
            match flag_of(args) {
                Some(raw) => {
                    context.response_body_raw = raw;
                    Ok(())
                },
                None => Err(refused(name, "Expected no argument or a bool.")),
            }
        } else if same_text(name, "api::res::headers") {
            if args.len() == 1 {
                if let Value::Object(object) = &args[0] {
                    let mut headers = copy_headers(&context.response_headers);
                    let count = object.len();
                    let ghost entries = object@;
                    let ghost start = headers_view(headers@);
                    let mut i: usize = 0;
                    proof {
                        assert(entries.take(0) =~= Seq::<(Seq<char>, ValueView)>::empty());
                    }
                    while i < count
                        invariant
                            i <= count,
                            count == entries.len(),
                            entries == object@,
                            args == self.1,
                            args@.len() == 1,
                            args@[0] == Value::Object(*object),
                            views == crate::value::items_view(args@),
                            start == old(context)@.response_headers,
                            *context == *old(context),
                            name@ == self.0@,
                            name@ == "api::res::headers"@,
                            name@ != "api::req::max_body"@,
                            name@ != "api::req::raw_body"@,
                            name@ != "api::res::raw_body"@,
                            with_headers(start, entries.take(i as int)) == Some(
                                headers_view(headers@),
                            ),
                        decreases count - i,
                    {
                        proof {
                            assert(entries.take(i + 1).drop_last() =~= entries.take(i as int));
                            assert(entries.take(i + 1).last() == entries[i as int]);
                        }
                        match object.value_at(i) {
                            Value::String(value) => {
                                set_header(&mut headers, object.key_at(i), value.as_str());
                            },
                            _ => {
                                proof {
                                    assert(!(entries[i as int].1 is String));
                                    assert(with_headers(start, entries.take(i + 1)) is None);
                                    lemma_with_headers_stays_none(start, entries, i + 1);
                                    assert(views[0] == args@[0]@);
                                    assert(first_of(views, 1) == ValueView::Object(entries));
                                }
                                return Err(refused(name, "Expected an object of strings."));
                            },
                        }
                        i += 1;
                    }
                    proof {
                        assert(entries.take(i as int) =~= entries);
                    }
                    context.response_headers = headers;
                    return Ok(());
                }
            }
            Err(refused(name, "Expected an object of strings."))
        } else if same_text(name, "api::res::header") {
            if args.len() == 2 {
                if let Value::String(header) = &args[0] {
                    match &args[1] {
                        Value::String(value) => {
                            set_header(
                                &mut context.response_headers,
                                header.as_str(),
                                value.as_str(),
                            );
                            return Ok(());
                        },
                        Value::Nothing => {
                            remove_header(&mut context.response_headers, header.as_str());
                            return Ok(());
                        },
                        _ => {},
                    }
                }
            } else if args.len() == 1 {
                if let Value::String(header) = &args[0] {
                    remove_header(&mut context.response_headers, header.as_str());
                    return Ok(());
                }
            }
            Err(refused(name, "Expected a name and, to set the header, a string."))
        } else if same_text(name, "api::timeout") {
            if args.len() == 1 {
                if let Value::Duration(timeout) = &args[0] {
                    context.timeout = Some(*timeout);
                    return Ok(());
                }
            }
            Err(refused(name, "Expected a duration."))
        } else {
            Err(refused(name, "unknown middleware"))
        }
    }
}

/// Once a value of an object is no string, no headers come of the object.
pub proof fn lemma_with_headers_stays_none(
    headers: Seq<(Seq<char>, Seq<char>)>,
    entries: Seq<(Seq<char>, ValueView)>,
    upto: int,
)
    requires
        0 <= upto <= entries.len(),
        with_headers(headers, entries.take(upto)) is None,
    ensures
        with_headers(headers, entries) is None,
    decreases entries.len() - upto,
{
    if upto < entries.len() {
        assert(entries.take(upto + 1).drop_last() =~= entries.take(upto));
        lemma_with_headers_stays_none(headers, entries, upto + 1);
    } else {
        assert(entries.take(upto) =~= entries);
    }
}

} // verus!
