//! Requests to other servers: what is sent, and what is made of the answer.
//!
//! What is decided here is decided on plain values. Sending a request and waiting for the
//! answer is left to the caller.

use vstd::prelude::*;
use vstd::string::StringExecFns;
use vstd::utf8::decode_utf8;
use vstd::utf8::encode_utf8;
use vstd::utf8::valid_utf8;
use crate::ast::Expr;
use crate::cast::text_of;
use crate::cast::to_text;
use crate::err::Error;
use crate::err::ErrorView;
use crate::kvs::tx::starts_with;
use crate::order::is_prefix;
use crate::rpc::parse_value;
use crate::rpc::reads_as;
use crate::rpc::reads_as_nothing;
use crate::strings::same_text;
use crate::strings::text_from_utf8;
use crate::value::Object;
use crate::value::Value;
use crate::value::ValueView;

verus! {

/// Whether the `url` crate parses the text as an absolute URL.
pub uninterp spec fn url_parses(uri: Seq<char>) -> bool;

/// The host of the URL that the `url` crate parses the text as, where it parses it and
/// the URL has a host.
pub uninterp spec fn url_host(uri: Seq<char>) -> Option<Seq<char>>;

/// The reason phrase that the `http` crate gives for a status code, where it knows the
/// code and has a phrase for it.
pub uninterp spec fn canonical_reason(status: u16) -> Option<Seq<char>>;

/// Calls `Url::parse` and says whether it parsed the text.
#[verifier::external_body]
fn parses_as_url(uri: &str) -> (parses: bool)
    ensures
        parses == url_parses(uri@),
{
    url::Url::parse(uri).is_ok()
}

/// Calls `Url::parse` and `Url::host_str`: the host of the URL, where the text is a URL
/// that has one.
#[verifier::external_body]
fn host_of_url(uri: &str) -> (host: Option<String>)
    ensures
        match host {
            Some(host) => url_host(uri@) == Some(host@),
            None => url_host(uri@) is None,
        },
{
    match url::Url::parse(uri) {
        Ok(url) => match url.host_str() {
            Some(host) => Some(host.to_owned()),
            None => None,
        },
        Err(_) => None,
    }
}

/// Calls `StatusCode::from_u16` and `StatusCode::canonical_reason`: the reason phrase of
/// the status code, where there is one.
#[verifier::external_body]
fn reason_of(status: u16) -> (reason: Option<String>)
    ensures
        match reason {
            Some(reason) => canonical_reason(status) == Some(reason@),
            None => canonical_reason(status) is None,
        },
{
    match http::StatusCode::from_u16(status) {
        Ok(code) => match code.canonical_reason() {
            Some(reason) => Some(reason.to_owned()),
            None => None,
        },
        Err(_) => None,
    }
}

/// What an error says of a status code: its reason phrase, or nothing at all where it
/// has none.
pub open spec fn reason_text(status: u16) -> Seq<char> {
    match canonical_reason(status) {
        Some(reason) => reason,
        None => Seq::empty(),
    }
}

/// What an error says of a status code.
pub fn reason(status: u16) -> (text: String)
    ensures
        text@ == reason_text(status),
{
    match reason_of(status) {
        Some(reason) => reason,
        None => {
            let text = String::from_str("");
            proof {
                reveal_strlit("");
                assert(text@ =~= Seq::<char>::empty());
            }
            text
        },
    }
}

/// Whether the text is a URL.
pub fn uri_is_valid(uri: &str) -> (valid: bool)
    ensures
        valid == url_parses(uri@),
{
    parses_as_url(uri)
}

/// How a request is made.
#[derive(Clone, Copy, PartialEq, Eq, Structural, Debug)]
pub enum Method {
    Head,
    Get,
    Put,
    Post,
    Patch,
    Delete,
}

impl Method {
    /// Whether a request that is made this way has a body.
    pub open spec fn has_body(self) -> bool {
        self == Method::Put || self == Method::Post || self == Method::Patch
    }
}

/// The servers that requests may go to.
#[derive(Debug)]
pub enum NetTargets {
    /// Requests may go to every server.
    All,
    /// Requests may go to no server.
    Nothing,
    /// Requests may go to the servers with these hosts.
    Hosts(Vec<String>),
}

/// What the servers that requests may go to stand for.
pub enum NetTargetsView {
    All,
    Nothing,
    Hosts(Seq<Seq<char>>),
}

impl View for NetTargets {
    type V = NetTargetsView;

    open spec fn view(&self) -> NetTargetsView {
        match self {
            NetTargets::All => NetTargetsView::All,
            NetTargets::Nothing => NetTargetsView::Nothing,
            NetTargets::Hosts(hosts) => NetTargetsView::Hosts(
                hosts@.map_values(|host: String| host@),
            ),
        }
    }
}

/// Whether a request may go to the server of the URL.
pub open spec fn net_allowed(targets: NetTargetsView, uri: Seq<char>) -> bool {
    match targets {
        NetTargetsView::All => true,
        NetTargetsView::Nothing => false,
        NetTargetsView::Hosts(hosts) => match url_host(uri) {
            Some(host) => hosts.contains(host),
            None => false,
        },
    }
}

impl NetTargets {
    /// Checks that a request may go to the server of the URL.
    pub fn check_allowed_net(&self, uri: &str) -> (result: Result<(), Error>)
        ensures
            match result {
                Ok(_) => net_allowed(self@, uri@),
                Err(e) => !net_allowed(self@, uri@) && e@ == ErrorView::PermissionDenied,
            },
    {
        match self {
            NetTargets::All => Ok(()),
            NetTargets::Nothing => Err(Error::PermissionDenied),
            NetTargets::Hosts(hosts) => {
                let host = match host_of_url(uri) {
                    Some(host) => host,
                    None => return Err(Error::PermissionDenied),
                };
                let ghost views = hosts@.map_values(|host: String| host@);
                let mut i: usize = 0;
                while i < hosts.len()
                    invariant
                        i <= hosts@.len(),
                        views == hosts@.map_values(|host: String| host@),
                        self@ == NetTargetsView::Hosts(views),
                        url_host(uri@) == Some(host@),
                        forall|j: int| 0 <= j < i ==> views[j] != host@,
                    decreases hosts@.len() - i,
                {
                    if same_text(hosts[i].as_str(), host.as_str()) {
                        assert(views[i as int] == host@);
                        assert(views.contains(host@));
                        return Ok(());
                    }
                    i += 1;
                }
                Err(Error::PermissionDenied)
            },
        }
    }
}

/// What the body of a request stands for.
pub enum BodyView {
    Empty,
    Raw(Seq<u8>),
    Json(ValueView),
}

/// The body of a request.
#[derive(Debug)]
pub enum Body {
    /// The request has no body.
    Empty,
    /// The body is these bytes, sent as `application/octet-stream`.
    Raw(Vec<u8>),
    /// The body is this value as JSON.
    Json(Value),
}

impl View for Body {
    type V = BodyView;

    open spec fn view(&self) -> BodyView {
        match self {
            Body::Empty => BodyView::Empty,
            Body::Raw(bytes) => BodyView::Raw(bytes@),
            Body::Json(value) => BodyView::Json(value@),
        }
    }
}

/// The body that a value is sent as: bytes as they are, nothing for no value, and every
/// other value as JSON.
pub open spec fn body_of(value: ValueView) -> BodyView {
    match value {
        ValueView::Bytes(bytes) => BodyView::Raw(bytes),
        ValueView::Nothing => BodyView::Empty,
        ValueView::Null => BodyView::Empty,
        _ => BodyView::Json(value),
    }
}

/// The body that a value is sent as.
pub fn encode_body(body: Value) -> (encoded: Body)
    ensures
        encoded@ == body_of(body@),
{
    match body {
        Value::Bytes(bytes) => Body::Raw(bytes.into_inner()),
        Value::Nothing => Body::Empty,
        Value::Null => Body::Empty,
        other => Body::Json(other),
    }
}

/// What a request stands for.
pub struct RequestView {
    pub method: Method,
    pub uri: Seq<char>,
    pub headers: Seq<(Seq<char>, Seq<char>)>,
    pub body: BodyView,
}

/// A request that is ready to be sent.
#[derive(Debug)]
pub struct Request {
    pub method: Method,
    pub uri: String,
    pub headers: Vec<(String, String)>,
    pub body: Body,
}

impl View for Request {
    type V = RequestView;

    open spec fn view(&self) -> RequestView {
        RequestView {
            method: self.method,
            uri: self.uri@,
            headers: crate::middleware::headers_view(self.headers@),
            body: self.body@,
        }
    }
}

/// The headers that the entries of an object give behind those set already: each value
/// as it is written, a string without quotes. Nothing, where a value cannot be written
/// here.
pub open spec fn headers_of(
    set: Seq<(Seq<char>, Seq<char>)>,
    entries: Seq<(Seq<char>, ValueView)>,
) -> Option<Seq<(Seq<char>, Seq<char>)>>
    decreases entries.len(),
{
    if entries.len() == 0 {
        Some(set)
    } else {
        match (headers_of(set, entries.drop_last()), text_of(entries.last().1)) {
            (Some(before), Some(value)) => Some(before.push((entries.last().0, value))),
            _ => None,
        }
    }
}

/// Why a request is not made: the text is no URL, requests may not go to its server, or
/// the value of a header cannot be written here.
pub open spec fn request_fault(
    targets: NetTargetsView,
    uri: Seq<char>,
    opts: Seq<(Seq<char>, ValueView)>,
) -> Option<ErrorView> {
    if !url_parses(uri) {
        Some(ErrorView::InvalidUrl(uri))
    } else if !net_allowed(targets, uri) {
        Some(ErrorView::PermissionDenied)
    } else if headers_of(seq![("User-Agent"@, "SurrealDB"@)], opts) is None {
        Some(ErrorView::Conversion)
    } else {
        None
    }
}

/// The request that is made in the way `method` to the URL `uri`, with the entries of
/// `opts` as headers behind the header `User-Agent`, and with `body` where a request that
/// is made this way has a body.
pub fn prepare(targets: &NetTargets, method: Method, uri: &str, body: Value, opts: &Object) -> (result:
    Result<Request, Error>)
    ensures
        match result {
            Ok(request) => request_fault(targets@, uri@, opts@) is None && request@
                == (RequestView {
                method,
                uri: uri@,
                headers: headers_of(seq![("User-Agent"@, "SurrealDB"@)], opts@)->Some_0,
                body: if method.has_body() {
                    body_of(body@)
                } else {
                    BodyView::Empty
                },
            }),
            Err(e) => request_fault(targets@, uri@, opts@) == Some(e@),
        },
{
    // Check if the URI is valid and allowed
    if !uri_is_valid(uri) {
        return Err(Error::InvalidUrl(String::from_str(uri)));
    }
    match targets.check_allowed_net(uri) {
        Ok(_) => {},
        Err(e) => return Err(e),
    }
    // Add the User-Agent header
    let mut headers: Vec<(String, String)> = Vec::new();
    headers.push((String::from_str("User-Agent"), String::from_str("SurrealDB")));
    let ghost first = seq![("User-Agent"@, "SurrealDB"@)];
    let ghost entries = opts@;
    proof {
        assert(crate::middleware::headers_view(headers@) =~= first);
        assert(entries.take(0) =~= Seq::<(Seq<char>, ValueView)>::empty());
    }
    // Add specified header values
    let count = opts.len();
    let mut i: usize = 0;
    while i < count
        invariant
            i <= count,
            count == entries.len(),
            entries == opts@,
            url_parses(uri@),
            net_allowed(targets@, uri@),
            first == seq![("User-Agent"@, "SurrealDB"@)],
            headers_of(first, entries.take(i as int)) == Some(
                crate::middleware::headers_view(headers@),
            ),
        decreases count - i,
    {
        proof {
            assert(entries.take(i + 1).drop_last() =~= entries.take(i as int));
            assert(entries.take(i + 1).last() == entries[i as int]);
        }
        match to_text(opts.value_at(i)) {
            Some(value) => {
                let ghost before = crate::middleware::headers_view(headers@);
                let ghost written = value@;
                headers.push((String::from_str(opts.key_at(i)), value));
                proof {
                    assert(crate::middleware::headers_view(headers@) =~= before.push(
                        (entries[i as int].0, written),
                    ));
                }
            },
            None => {
                proof {
                    assert(headers_of(first, entries.take(i + 1)) is None);
                    lemma_headers_of_stays_none(first, entries, i + 1);
                }
                return Err(Error::Conversion);
            },
        }
        i += 1;
    }
    proof {
        assert(entries.take(i as int) =~= entries);
    }
    // Submit the request body
    let body = match method {
        Method::Put | Method::Post | Method::Patch => encode_body(body),
        _ => Body::Empty,
    };
    Ok(Request { method, uri: String::from_str(uri), headers, body })
}

/// Once a value of an object cannot be written, no headers come of the object.
pub proof fn lemma_headers_of_stays_none(
    set: Seq<(Seq<char>, Seq<char>)>,
    entries: Seq<(Seq<char>, ValueView)>,
    upto: int,
)
    requires
        0 <= upto <= entries.len(),
        headers_of(set, entries.take(upto)) is None,
    ensures
        headers_of(set, entries) is None,
    decreases entries.len() - upto,
{
    if upto < entries.len() {
        assert(entries.take(upto + 1).drop_last() =~= entries.take(upto));
        lemma_headers_of_stays_none(set, entries, upto + 1);
    } else {
        assert(entries.take(upto) =~= entries);
    }
}

/// A `HEAD` request.
pub fn head(targets: &NetTargets, uri: &str, opts: &Object) -> (result: Result<Request, Error>)
    ensures
        match result {
            Ok(request) => request_fault(targets@, uri@, opts@) is None && request@.method
                == Method::Head && request@.uri == uri@ && request@.body is Empty
                && request@.headers == headers_of(
                seq![("User-Agent"@, "SurrealDB"@)],
                opts@,
            )->Some_0,
            Err(e) => request_fault(targets@, uri@, opts@) == Some(e@),
        },
{
    prepare(targets, Method::Head, uri, Value::Nothing, opts)
}

/// A `GET` request.
pub fn get(targets: &NetTargets, uri: &str, opts: &Object) -> (result: Result<Request, Error>)
    ensures
        match result {
            Ok(request) => request_fault(targets@, uri@, opts@) is None && request@.method
                == Method::Get && request@.uri == uri@ && request@.body is Empty
                && request@.headers == headers_of(
                seq![("User-Agent"@, "SurrealDB"@)],
                opts@,
            )->Some_0,
            Err(e) => request_fault(targets@, uri@, opts@) == Some(e@),
        },
{
    prepare(targets, Method::Get, uri, Value::Nothing, opts)
}

/// A `PUT` request.
pub fn put(targets: &NetTargets, uri: &str, body: Value, opts: &Object) -> (result: Result<
    Request,
    Error,
>)
    ensures
        match result {
            Ok(request) => request_fault(targets@, uri@, opts@) is None && request@.method
                == Method::Put && request@.uri == uri@ && request@.body == body_of(body@)
                && request@.headers == headers_of(
                seq![("User-Agent"@, "SurrealDB"@)],
                opts@,
            )->Some_0,
            Err(e) => request_fault(targets@, uri@, opts@) == Some(e@),
        },
{
    prepare(targets, Method::Put, uri, body, opts)
}

/// A `POST` request.
pub fn post(targets: &NetTargets, uri: &str, body: Value, opts: &Object) -> (result: Result<
    Request,
    Error,
>)
    ensures
        match result {
            Ok(request) => request_fault(targets@, uri@, opts@) is None && request@.method
                == Method::Post && request@.uri == uri@ && request@.body == body_of(body@)
                && request@.headers == headers_of(
                seq![("User-Agent"@, "SurrealDB"@)],
                opts@,
            )->Some_0,
            Err(e) => request_fault(targets@, uri@, opts@) == Some(e@),
        },
{
    prepare(targets, Method::Post, uri, body, opts)
}

/// A `PATCH` request.
pub fn patch(targets: &NetTargets, uri: &str, body: Value, opts: &Object) -> (result: Result<
    Request,
    Error,
>)
    ensures
        match result {
            Ok(request) => request_fault(targets@, uri@, opts@) is None && request@.method
                == Method::Patch && request@.uri == uri@ && request@.body == body_of(body@)
                && request@.headers == headers_of(
                seq![("User-Agent"@, "SurrealDB"@)],
                opts@,
            )->Some_0,
            Err(e) => request_fault(targets@, uri@, opts@) == Some(e@),
        },
{
    prepare(targets, Method::Patch, uri, body, opts)
}

/// A `DELETE` request.
pub fn delete(targets: &NetTargets, uri: &str, opts: &Object) -> (result: Result<Request, Error>)
    ensures
        match result {
            Ok(request) => request_fault(targets@, uri@, opts@) is None && request@.method
                == Method::Delete && request@.uri == uri@ && request@.body is Empty
                && request@.headers == headers_of(
                seq![("User-Agent"@, "SurrealDB"@)],
                opts@,
            )->Some_0,
            Err(e) => request_fault(targets@, uri@, opts@) == Some(e@),
        },
{
    prepare(targets, Method::Delete, uri, Value::Nothing, opts)
}

/// Whether a status code says that the request succeeded: it lies from 200 to 299.
pub open spec fn is_success(status: u16) -> bool {
    200 <= status < 300
}

/// What the body of an answer is read as.
#[derive(Clone, Copy, PartialEq, Eq, Structural, Debug)]
pub enum Content {
    /// A value as JSON.
    Json,
    /// Bytes.
    Bytes,
    /// Text.
    Text,
    /// Nothing is made of the body.
    Nothing,
}

/// What the body of an answer with this content type is read as: JSON where the type
/// starts with `application/json`, bytes where it starts with
/// `application/octet-stream`, and text where it starts with `text`.
pub open spec fn content_of(content_type: Option<Seq<char>>) -> Content {
    match content_type {
        Some(mime) => if is_prefix(encode_utf8("application/json"@), encode_utf8(mime)) {
            Content::Json
        } else if is_prefix(encode_utf8("application/octet-stream"@), encode_utf8(mime)) {
            Content::Bytes
        } else if is_prefix(encode_utf8("text"@), encode_utf8(mime)) {
            Content::Text
        } else {
            Content::Nothing
        },
        None => Content::Nothing,
    }
}

/// What the body of an answer with this content type is read as.
pub fn content(content_type: Option<&str>) -> (read_as: Content)
    ensures
        read_as == content_of(
            match content_type {
                Some(mime) => Some(mime@),
                None => None,
            },
        ),
{
    match content_type {
        Some(mime) => {
            let bytes = mime.as_bytes();
            if starts_with(bytes, "application/json".as_bytes()) {
                Content::Json
            } else if starts_with(bytes, "application/octet-stream".as_bytes()) {
                Content::Bytes
            } else if starts_with(bytes, "text".as_bytes()) {
                Content::Text
            } else {
                Content::Nothing
            }
        },
        None => Content::Nothing,
    }
}

/// What is made of an answer.
#[derive(Debug)]
pub enum Decoded {
    /// The value that the body spells, as it was parsed.
    Json(Expr),
    /// A value that needs no parsing.
    Value(Value),
}

/// What is made of the answer to a `HEAD` request: nothing where the request succeeded,
/// else an error with the reason phrase of the status.
pub fn decode_head(status: u16) -> (result: Result<Value, Error>)
    ensures
        match result {
            Ok(value) => is_success(status) && value@ == ValueView::Nothing,
            Err(e) => !is_success(status) && e@ == ErrorView::Http(reason_text(status)),
        },
{
    if 200 <= status && status < 300 {
        Ok(Value::Nothing)
    } else {
        Err(Error::Http(reason(status)))
    }
}

/// What is made of an answer. Where the request did not succeed, the error holds the
/// reason phrase of the status. Else the body is read as its content type says: as the
/// value that it spells, as bytes, as text, or not at all. A body that spells no value,
/// or is no text, is an error.
pub fn decode_response(status: u16, content_type: Option<&str>, body: Vec<u8>) -> (result: Result<
    Decoded,
    Error,
>)
    ensures
        !is_success(status) ==> match result {
            Ok(_) => false,
            Err(e) => e@ == ErrorView::Http(reason_text(status)),
        },
        is_success(status) ==> match content_of(
            match content_type {
                Some(mime) => Some(mime@),
                None => None,
            },
        ) {
            Content::Nothing => match result {
                Ok(Decoded::Value(value)) => value@ == ValueView::Nothing,
                _ => false,
            },
            Content::Bytes => match result {
                Ok(Decoded::Value(value)) => value@ == ValueView::Bytes(body@),
                _ => false,
            },
            Content::Text => match result {
                Ok(Decoded::Value(value)) => valid_utf8(body@) && value@ == ValueView::String(
                    decode_utf8(body@),
                ),
                Ok(_) => false,
                Err(e) => !valid_utf8(body@) && e@ == ErrorView::Deserialization,
            },
            Content::Json => match result {
                Ok(Decoded::Json(value)) => reads_as(body@, value@),
                Ok(_) => false,
                Err(e) => reads_as_nothing(body@) && e@ == ErrorView::Parse,
            },
        },
{
    if !(200 <= status && status < 300) {
        return Err(Error::Http(reason(status)));
    }
    match content(content_type) {
        Content::Json => match parse_value(body.as_slice()) {
            Ok(value) => Ok(Decoded::Json(value)),
            Err(_) => Err(Error::Parse),
        },
        Content::Bytes => Ok(Decoded::Value(Value::Bytes(crate::value::Bytes::new(body)))),
        Content::Text => match text_from_utf8(body) {
            Some(text) => Ok(Decoded::Value(Value::String(text))),
            None => Err(Error::Deserialization),
        },
        Content::Nothing => Ok(Decoded::Value(Value::Nothing)),
    }
}

/// A client for requests to other servers.
#[derive(Debug)]
pub struct Client {
    _private: (),
}

/// The request that a client starts in the way `method` to the URL `uri`: without headers
/// and without a body.
pub open spec fn started(method: Method, uri: Seq<char>) -> RequestView {
    RequestView { method, uri, headers: Seq::empty(), body: BodyView::Empty }
}

impl Client {
    /// Create a new http client with an all default config.
    pub fn new() -> (client: Client) {
        Client { _private: () }
    }

    /// Starts a request in the way `method`.
    ///
    /// Returns an error if the url is invalid.
    pub fn request(&self, method: Method, url: &str) -> (result: Result<Request, Error>)
        ensures
            match result {
                Ok(request) => url_parses(url@) && request@ == started(method, url@),
                Err(e) => !url_parses(url@) && e@ == ErrorView::InvalidUrl(url@),
            },
    {
        if !uri_is_valid(url) {
            return Err(Error::InvalidUrl(String::from_str(url)));
        }
        let headers: Vec<(String, String)> = Vec::new();
        proof {
            assert(crate::middleware::headers_view(headers@) =~= Seq::empty());
        }
        Ok(Request { method, uri: String::from_str(url), headers, body: Body::Empty })
    }

    /// Create a new get request.
    ///
    /// Returns an error if the url is invalid.
    pub fn get(&self, url: &str) -> (result: Result<Request, Error>)
        ensures
            match result {
                Ok(request) => url_parses(url@) && request@ == started(Method::Get, url@),
                Err(e) => !url_parses(url@) && e@ == ErrorView::InvalidUrl(url@),
            },
    {
        self.request(Method::Get, url)
    }

    /// Create a new post request.
    ///
    /// Returns an error if the url is invalid.
    pub fn post(&self, url: &str) -> (result: Result<Request, Error>)
        ensures
            match result {
                Ok(request) => url_parses(url@) && request@ == started(Method::Post, url@),
                Err(e) => !url_parses(url@) && e@ == ErrorView::InvalidUrl(url@),
            },
    {
        self.request(Method::Post, url)
    }

    /// Create a new head request.
    ///
    /// Returns an error if the url is invalid.
    pub fn head(&self, url: &str) -> (result: Result<Request, Error>)
        ensures
            match result {
                Ok(request) => url_parses(url@) && request@ == started(Method::Head, url@),
                Err(e) => !url_parses(url@) && e@ == ErrorView::InvalidUrl(url@),
            },
    {
        self.request(Method::Head, url)
    }

    /// Create a new put request.
    ///
    /// Returns an error if the url is invalid.
    pub fn put(&self, url: &str) -> (result: Result<Request, Error>)
        ensures
            match result {
                Ok(request) => url_parses(url@) && request@ == started(Method::Put, url@),
                Err(e) => !url_parses(url@) && e@ == ErrorView::InvalidUrl(url@),
            },
    {
        self.request(Method::Put, url)
    }

    /// Create a new patch request.
    ///
    /// Returns an error if the url is invalid.
    pub fn patch(&self, url: &str) -> (result: Result<Request, Error>)
        ensures
            match result {
                Ok(request) => url_parses(url@) && request@ == started(Method::Patch, url@),
                Err(e) => !url_parses(url@) && e@ == ErrorView::InvalidUrl(url@),
            },
    {
        self.request(Method::Patch, url)
    }

    /// Create a new delete request.
    ///
    /// Returns an error if the url is invalid.
    pub fn delete(&self, url: &str) -> (result: Result<Request, Error>)
        ensures
            match result {
                Ok(request) => url_parses(url@) && request@ == started(Method::Delete, url@),
                Err(e) => !url_parses(url@) && e@ == ErrorView::InvalidUrl(url@),
            },
    {
        self.request(Method::Delete, url)
    }
}

} // verus!
