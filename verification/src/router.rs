//! Routing: from a request to what the handler does next, and from the
//! outcome of a file operation to the response.
//!
//! The library does no file I/O. For a request under `/files/` it names the
//! operation; the caller performs it against its storage directory and
//! hands the outcome back.

use crate::decimal::{decimal_string, decimal_text};
use crate::gzip::{gzip_bytes, gzip_encoding};
use crate::request::{parse_bytes, HttpMethod, HttpRequest, RequestModel};
use crate::response::{HttpResponse, ResponseModel, StatusCode};
use crate::text::{
    after, before, chars_of, equals, first_index, lemma_first_index, split_at_first, string_of,
    strip_prefix, trim, trimmed,
};
use vstd::prelude::*;
use vstd::slice::slice_to_vec;
use vstd::utf8::encode_utf8;

verus! {

/// What a request asks for.
#[derive(Debug)]
pub enum Route {
    /// The target `/`.
    Root,
    /// The target `/user-agent`.
    UserAgent,
    /// `GET` of a target under `/files/`.
    Download { name: String },
    /// `POST` to a target under `/files/`.
    Upload { name: String },
    /// A target under `/echo/`.
    Echo { content: String },
    /// Any other target.
    Unknown,
}

/// What a route holds, as mathematical values.
pub enum RouteModel {
    Root,
    UserAgent,
    Download { name: Seq<char> },
    Upload { name: Seq<char> },
    Echo { content: Seq<char> },
    Unknown,
}

impl View for Route {
    type V = RouteModel;

    open spec fn view(&self) -> RouteModel {
        match self {
            Route::Root => RouteModel::Root,
            Route::UserAgent => RouteModel::UserAgent,
            Route::Download { name } => RouteModel::Download { name: name@ },
            Route::Upload { name } => RouteModel::Upload { name: name@ },
            Route::Echo { content } => RouteModel::Echo { content: content@ },
            Route::Unknown => RouteModel::Unknown,
        }
    }
}

/// Why a file operation failed.
#[derive(Clone, Copy, Debug, PartialEq, Eq, Structural)]
pub enum FileError {
    /// The file, or the directory it should be in, does not exist.
    NotFound,
    /// Any other failure.
    Other,
}

/// What the handler of a request does next.
#[derive(Debug)]
pub enum Action {
    /// Send this response.
    Respond(HttpResponse),
    /// Read the file `name` of the storage directory and delete it once it
    /// was read; then send `download_response` of the outcome.
    ReadFile { name: String },
    /// Create or truncate the file `name` of the storage directory and
    /// write `contents` to it; then send `upload_response` of the outcome.
    WriteFile { name: String, contents: Vec<u8> },
}

/// What an action holds, as mathematical values.
pub enum ActionModel {
    Respond(ResponseModel),
    ReadFile { name: Seq<char> },
    WriteFile { name: Seq<char>, contents: Seq<u8> },
}

impl View for Action {
    type V = ActionModel;

    open spec fn view(&self) -> ActionModel {
        match self {
            Action::Respond(response) => ActionModel::Respond(response@),
            Action::ReadFile { name } => ActionModel::ReadFile { name: name@ },
            Action::WriteFile { name, contents } => ActionModel::WriteFile {
                name: name@,
                contents: contents@,
            },
        }
    }
}

/// The route of a request with the method `method` and the target `uri`.
/// The first of these that fits decides: the targets `/` and `/user-agent`,
/// the prefix `/files/`, the prefix `/echo/`.
pub open spec fn route_of(method: HttpMethod, uri: Seq<char>) -> RouteModel {
    if uri == "/"@ {
        RouteModel::Root
    } else if uri == "/user-agent"@ {
        RouteModel::UserAgent
    } else if "/files/"@.is_prefix_of(uri) {
        match method {
            HttpMethod::GET => RouteModel::Download { name: uri.skip("/files/"@.len() as int) },
            HttpMethod::POST => RouteModel::Upload { name: uri.skip("/files/"@.len() as int) },
        }
    } else if "/echo/"@.is_prefix_of(uri) {
        RouteModel::Echo { content: uri.skip("/echo/"@.len() as int) }
    } else {
        RouteModel::Unknown
    }
}

/// Whether one of the items of `value`, which commas separate, is `gzip`
/// once it is trimmed.
pub open spec fn lists_gzip(value: Seq<char>) -> bool
    decreases value.len(),
{
    ||| trimmed(before(value, ',')) == "gzip"@
    ||| (first_index(value, ',') < value.len() && lists_gzip(after(value, ',')))
}

/// A response that has a status and nothing else.
pub open spec fn status_only(status: StatusCode) -> ResponseModel {
    ResponseModel { status, headers: Seq::empty(), body: None }
}

/// The response that carries `body` as plain text.
pub open spec fn text_reply(body: Seq<u8>) -> ResponseModel {
    ResponseModel {
        status: StatusCode::OK,
        headers: seq![("Content-Type"@, "text/plain"@)],
        body: Some(body),
    }
}

/// The response to `/user-agent` for the header value `agent`.
pub open spec fn user_agent_reply(agent: Seq<char>) -> ResponseModel {
    ResponseModel {
        status: StatusCode::OK,
        headers: seq![
            ("Content-Type"@, "text/plain"@),
            ("Content-Length"@, decimal_text(encode_utf8(agent).len())),
        ],
        body: Some(encode_utf8(agent)),
    }
}

/// The response that carries a compressed text: with the stream, where the
/// encoder gave one, and the status of a server error where it did not.
pub open spec fn gzip_reply(compressed: Option<Seq<u8>>) -> ResponseModel {
    match compressed {
        Some(stream) => ResponseModel {
            status: StatusCode::OK,
            headers: seq![("Content-Type"@, "text/plain"@), ("Content-Encoding"@, "gzip"@)],
            body: Some(stream),
        },
        None => status_only(StatusCode::InternalError),
    }
}

/// The response that echoes `content` to a request whose `accept-encoding`
/// is `accept`.
pub open spec fn echo_reply(content: Seq<char>, accept: Option<Seq<char>>) -> ResponseModel {
    if accept matches Some(value) && lists_gzip(value) {
        gzip_reply(gzip_encoding(encode_utf8(content)))
    } else {
        text_reply(encode_utf8(content))
    }
}

/// The status that reports a failed file operation.
pub open spec fn failure_status(error: FileError) -> StatusCode {
    match error {
        FileError::NotFound => StatusCode::NotFound,
        FileError::Other => StatusCode::InternalError,
    }
}

/// The response to a download, from the outcome of reading the file.
pub open spec fn download_reply(outcome: Result<Seq<u8>, FileError>) -> ResponseModel {
    match outcome {
        Ok(contents) => ResponseModel {
            status: StatusCode::OK,
            headers: seq![("Content-Type"@, "application/octet-stream"@)],
            body: Some(contents),
        },
        Err(error) => status_only(failure_status(error)),
    }
}

/// The response to an upload, from the outcome of writing the file.
pub open spec fn upload_reply(outcome: Result<(), FileError>) -> ResponseModel {
    match outcome {
        Ok(()) => status_only(StatusCode::Created),
        Err(error) => status_only(failure_status(error)),
    }
}

/// The value of the field `name` of `headers`, if there is one.
pub open spec fn field(headers: Map<Seq<char>, Seq<char>>, name: Seq<char>) -> Option<Seq<char>> {
    if headers.contains_key(name) {
        Some(headers[name])
    } else {
        None
    }
}

/// What the handler of `request` does next.
///
/// A request for `/user-agent` without that header is answered with the
/// status 404. An upload without a body writes nothing and is answered with
/// the status 200.
pub open spec fn action_for(request: RequestModel) -> ActionModel {
    match route_of(request.method, request.uri) {
        RouteModel::Root => ActionModel::Respond(status_only(StatusCode::OK)),
        RouteModel::UserAgent => match field(request.headers, "user-agent"@) {
            Some(agent) => ActionModel::Respond(user_agent_reply(agent)),
            None => ActionModel::Respond(status_only(StatusCode::NotFound)),
        },
        RouteModel::Download { name } => ActionModel::ReadFile { name },
        RouteModel::Upload { name } => match request.body {
            Some(contents) => ActionModel::WriteFile { name, contents },
            None => ActionModel::Respond(status_only(StatusCode::OK)),
        },
        RouteModel::Echo { content } => ActionModel::Respond(
            echo_reply(content, field(request.headers, "accept-encoding"@)),
        ),
        RouteModel::Unknown => ActionModel::Respond(status_only(StatusCode::NotFound)),
    }
}

/// What the handler does with the bytes `raw` of one read: nothing where
/// they hold no request, and else what the request asks for.
pub open spec fn reaction(raw: Seq<u8>) -> Option<ActionModel> {
    match parse_bytes(raw) {
        Ok(Some(request)) => Some(action_for(request)),
        _ => None,
    }
}

/// The route of a request with the method `method` and the target `uri`.
pub fn classify(method: HttpMethod, uri: &str) -> (route: Route)
    ensures
        route@ == route_of(method, uri@),
{
    let chars = chars_of(uri);
    if equals(chars.as_slice(), "/") {
        return Route::Root;
    }
    if equals(chars.as_slice(), "/user-agent") {
        return Route::UserAgent;
    }
    if let Some(name) = strip_prefix(chars.as_slice(), "/files/") {
        let name = string_of(name);
        return match method {
            HttpMethod::GET => Route::Download { name },
            HttpMethod::POST => Route::Upload { name },
        };
    }
    if let Some(content) = strip_prefix(chars.as_slice(), "/echo/") {
        return Route::Echo { content: string_of(content) };
    }
    Route::Unknown
}

/// Whether the value `value` of `accept-encoding` lists `gzip`.
pub fn accepts_gzip(value: &str) -> (b: bool)
    ensures
        b == lists_gzip(value@),
{
    let chars = chars_of(value);
    let mut rest: &[char] = chars.as_slice();
    loop
        invariant
            lists_gzip(value@) == lists_gzip(rest@),
        ensures
            !lists_gzip(value@),
        decreases rest@.len(),
    {
        let (item, tail) = split_at_first(rest, ',');
        if equals(trim(item), "gzip") {
            return true;
        }
        proof {
            lemma_first_index(rest@, ',');
        }
        match tail {
            Some(tail) => {
                rest = tail;
            },
            None => {
                break ;
            },
        }
    }
    false
}

/// A response that has the status `status` and nothing else.
pub fn status_response(status: StatusCode) -> (response: HttpResponse)
    ensures
        response@ == status_only(status),
{
    let response = HttpResponse { status, headers: Vec::new(), body: None };
    assert(response@.headers =~= Seq::empty());
    response
}

/// The response that carries `body` as plain text.
pub fn text_response(body: Vec<u8>) -> (response: HttpResponse)
    ensures
        response@ == text_reply(body@),
{
    let mut headers: Vec<(&'static str, String)> = Vec::new();
    headers.push(("Content-Type", "text/plain".to_owned()));
    let response = HttpResponse { status: StatusCode::OK, headers, body: Some(body) };
    assert(response@.headers =~= text_reply(body@).headers);
    response
}

/// The response to `/user-agent` for the header value `agent`.
pub fn user_agent_response(agent: &str) -> (response: HttpResponse)
    ensures
        response@ == user_agent_reply(agent@),
{
    let body = slice_to_vec(agent.as_bytes());
    let mut headers: Vec<(&'static str, String)> = Vec::new();
    headers.push(("Content-Type", "text/plain".to_owned()));
    headers.push(("Content-Length", decimal_string(body.len())));
    let response = HttpResponse { status: StatusCode::OK, headers, body: Some(body) };
    assert(response@.headers =~= user_agent_reply(agent@).headers);
    response
}

/// The response that carries a compressed text, from what the encoder
/// gave.
pub fn gzip_response(compressed: Option<Vec<u8>>) -> (response: HttpResponse)
    ensures
        response@ == gzip_reply(
            match compressed {
                Some(stream) => Some(stream@),
                None => None,
            },
        ),
{
    match compressed {
        Some(stream) => {
            let ghost model = gzip_reply(Some(stream@));
            let mut headers: Vec<(&'static str, String)> = Vec::new();
            headers.push(("Content-Type", "text/plain".to_owned()));
            headers.push(("Content-Encoding", "gzip".to_owned()));
            let response = HttpResponse { status: StatusCode::OK, headers, body: Some(stream) };
            assert(response@.headers =~= model.headers);
            response
        },
        None => status_response(StatusCode::InternalError),
    }
}

/// The response that echoes `content` to a request whose `accept-encoding`
/// is `accept`.
pub fn echo_response(content: &str, accept: Option<&String>) -> (response: HttpResponse)
    ensures
        response@ == echo_reply(
            content@,
            match accept {
                Some(value) => Some(value@),
                None => None,
            },
        ),
{
    let compress = match accept {
        Some(value) => accepts_gzip(value.as_str()),
        None => false,
    };
    if compress {
        gzip_response(gzip_bytes(content.as_bytes()))
    } else {
        text_response(slice_to_vec(content.as_bytes()))
    }
}

/// The response to a download, from the outcome of reading the file.
pub fn download_response(outcome: Result<Vec<u8>, FileError>) -> (response: HttpResponse)
    ensures
        response@ == download_reply(
            match outcome {
                Ok(contents) => Ok(contents@),
                Err(error) => Err(error),
            },
        ),
{
    match outcome {
        Ok(contents) => {
            let ghost model = download_reply(Ok(contents@));
            let mut headers: Vec<(&'static str, String)> = Vec::new();
            headers.push(("Content-Type", "application/octet-stream".to_owned()));
            let response = HttpResponse { status: StatusCode::OK, headers, body: Some(contents) };
            assert(response@.headers =~= model.headers);
            response
        },
        Err(FileError::NotFound) => status_response(StatusCode::NotFound),
        Err(FileError::Other) => status_response(StatusCode::InternalError),
    }
}

/// The response to an upload, from the outcome of writing the file.
pub fn upload_response(outcome: Result<(), FileError>) -> (response: HttpResponse)
    ensures
        response@ == upload_reply(outcome),
{
    match outcome {
        Ok(()) => status_response(StatusCode::Created),
        Err(FileError::NotFound) => status_response(StatusCode::NotFound),
        Err(FileError::Other) => status_response(StatusCode::InternalError),
    }
}

/// What the handler of `request` does next.
pub fn route(request: HttpRequest) -> (action: Action)
    ensures
        action@ == action_for(request@),
{
    let HttpRequest { method, uri, headers, body } = request;
    match classify(method, uri.as_str()) {
        Route::Root => Action::Respond(status_response(StatusCode::OK)),
        Route::UserAgent => match headers.get("user-agent") {
            Some(agent) => Action::Respond(user_agent_response(agent.as_str())),
            None => Action::Respond(status_response(StatusCode::NotFound)),
        },
        Route::Download { name } => Action::ReadFile { name },
        Route::Upload { name } => match body {
            Some(contents) => Action::WriteFile { name, contents },
            None => Action::Respond(status_response(StatusCode::OK)),
        },
        Route::Echo { content } => Action::Respond(
            echo_response(content.as_str(), headers.get("accept-encoding")),
        ),
        Route::Unknown => Action::Respond(status_response(StatusCode::NotFound)),
    }
}

/// What the handler does with the bytes `raw` of one read.
pub fn handle(raw: &[u8]) -> (action: Option<Action>)
    ensures
        match action {
            Some(action) => reaction(raw@) == Some(action@),
            None => reaction(raw@) is None,
        },
{
    match HttpRequest::parse(raw) {
        Ok(Some(request)) => Some(route(request)),
        _ => None,
    }
}

} // verus!
