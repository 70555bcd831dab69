//! Requests and how they are read from the bytes of one read of a
//! connection.

use crate::decimal::{numeral_value, parse_usize};
use crate::headers::Headers;
use crate::text::{
    after, after_first_word, before, blank, chars_of, equals, first_word, is_blank, split_at_first,
    split_word, string_of, trim, trimmed,
};
use vstd::prelude::*;
use vstd::slice::slice_to_vec;
use vstd::utf8::{decode_utf8, valid_utf8};

verus! {

/// The method of a request.
#[derive(Clone, Copy, Debug, PartialEq, Eq, Structural)]
pub enum HttpMethod {
    GET,
    POST,
}

/// Why the bytes of a read are no request.
#[derive(Clone, Copy, Debug, PartialEq, Eq, Structural)]
pub enum ParseError {
    /// The first line has fewer than two words.
    MalformedRequestLine,
    /// The first word of the first line is neither `GET` nor `POST`.
    UnsupportedMethod,
    /// A header line has no colon.
    MalformedHeader,
    /// The value of `content-length` is no number that fits.
    InvalidContentLength,
    /// A body is declared and the bytes hold no CR LF CR LF.
    HeaderTerminatorNotFound,
    /// Fewer bytes follow the header than the declared body has.
    IncompleteBody,
}

/// A request: method, target, header fields by lower-case name, and the
/// body where one is declared.
#[derive(Debug)]
pub struct HttpRequest {
    pub method: HttpMethod,
    pub uri: String,
    pub headers: Headers,
    pub body: Option<Vec<u8>>,
}

/// What a request holds, as mathematical values.
pub struct RequestModel {
    pub method: HttpMethod,
    pub uri: Seq<char>,
    pub headers: Map<Seq<char>, Seq<char>>,
    pub body: Option<Seq<u8>>,
}

impl View for HttpRequest {
    type V = RequestModel;

    open spec fn view(&self) -> RequestModel {
        RequestModel {
            method: self.method,
            uri: self.uri@,
            headers: self.headers@,
            body: match self.body {
                Some(body) => Some(body@),
                None => None,
            },
        }
    }
}

/// The text that the standard library's lossy decoding makes of bytes that
/// are not valid UTF-8.
pub uninterp spec fn lossy_text(bytes: Seq<u8>) -> Seq<char>;

/// The lower-case form that the standard library gives a text.
pub uninterp spec fn lowercase_of(text: Seq<char>) -> Seq<char>;

/// The text that `bytes` are read as: what they encode where they are valid
/// UTF-8, and else the lossy decoding.
pub open spec fn decoded(bytes: Seq<u8>) -> Seq<char> {
    if valid_utf8(bytes) {
        decode_utf8(bytes)
    } else {
        lossy_text(bytes)
    }
}

/// The method that `word` names.
pub open spec fn method_named(word: Seq<char>) -> Option<HttpMethod> {
    if word == "GET"@ {
        Some(HttpMethod::GET)
    } else if word == "POST"@ {
        Some(HttpMethod::POST)
    } else {
        None
    }
}

/// The field of a header line: the name before the first colon, trimmed and
/// in lower case, and the value after it, trimmed. None where the line has
/// no colon.
pub open spec fn header_field(line: Seq<char>) -> Option<(Seq<char>, Seq<char>)> {
    if line.contains(':') {
        Some((lowercase_of(trimmed(before(line, ':'))), trimmed(after(line, ':'))))
    } else {
        None
    }
}

/// The fields of the header lines at the front of `text`, in their order:
/// of the lines before the first blank one. None where one of them has no
/// colon. A carriage return before a line feed is white space, so trimming
/// takes it off a line.
pub open spec fn header_fields(text: Seq<char>) -> Option<Seq<(Seq<char>, Seq<char>)>>
    decreases text.len(),
{
    let line = before(text, '\n');
    if text.len() == 0 || blank(line) {
        Some(Seq::empty())
    } else {
        match header_field(line) {
            None => None,
            Some(field) => match header_fields(after(text, '\n')) {
                None => None,
                Some(rest) => Some(seq![field] + rest),
            },
        }
    }
}

/// The map that a sequence of fields makes: a later field replaces an
/// earlier one of the same name.
pub open spec fn field_map(fields: Seq<(Seq<char>, Seq<char>)>) -> Map<Seq<char>, Seq<char>>
    decreases fields.len(),
{
    if fields.len() == 0 {
        Map::empty()
    } else {
        field_map(fields.drop_last()).insert(fields.last().0, fields.last().1)
    }
}

/// Whether the four bytes CR LF CR LF stand at index `i` of `raw`.
pub open spec fn terminator_at(raw: Seq<u8>, i: int) -> bool {
    &&& 0 <= i
    &&& i + 4 <= raw.len()
    &&& raw[i] == 13
    &&& raw[i + 1] == 10
    &&& raw[i + 2] == 13
    &&& raw[i + 3] == 10
}

/// The index of the first CR LF CR LF in `raw`, or the length of `raw` where
/// it holds none.
pub open spec fn terminator_index(raw: Seq<u8>) -> nat
    decreases raw.len(),
{
    if raw.len() == 0 || terminator_at(raw, 0) {
        0
    } else {
        1 + terminator_index(raw.drop_first())
    }
}

/// Whether `raw` holds CR LF CR LF.
pub open spec fn has_terminator(raw: Seq<u8>) -> bool {
    terminator_index(raw) < raw.len()
}

/// `terminator_index(raw)` is the one index before which no CR LF CR LF
/// begins and at which, if it is inside `raw`, one does.
pub proof fn lemma_terminator_index_is(raw: Seq<u8>, n: int)
    requires
        0 <= n <= raw.len(),
        forall|j: int| 0 <= j < n ==> !terminator_at(raw, j),
        n < raw.len() ==> terminator_at(raw, n),
    ensures
        terminator_index(raw) == n,
    decreases raw.len(),
{
    if n > 0 {
        let rest = raw.drop_first();
        assert forall|j: int| 0 <= j < n - 1 implies !terminator_at(rest, j) by {
            assert(!terminator_at(raw, j + 1));
        }
        if n < raw.len() {
            assert(terminator_at(raw, n));
            assert(terminator_at(rest, n - 1));
        }
        assert(!terminator_at(raw, 0));
        lemma_terminator_index_is(rest, n - 1);
    }
}

/// The body of `length` bytes that follows the first CR LF CR LF of `raw`.
pub open spec fn delimited_body(raw: Seq<u8>, length: nat) -> Result<Seq<u8>, ParseError> {
    if !has_terminator(raw) {
        Err(ParseError::HeaderTerminatorNotFound)
    } else {
        let start = terminator_index(raw) as int + 4;
        if start + length <= raw.len() {
            Ok(raw.subrange(start, start + length))
        } else {
            Err(ParseError::IncompleteBody)
        }
    }
}

/// The body that `headers` declare in `raw`: none without a field
/// `content-length`, and else as many bytes as its value says.
pub open spec fn declared_body(headers: Map<Seq<char>, Seq<char>>, raw: Seq<u8>) -> Result<
    Option<Seq<u8>>,
    ParseError,
> {
    if !headers.contains_key("content-length"@) {
        Ok(None)
    } else {
        match numeral_value(headers["content-length"@]) {
            Some(length) if length <= usize::MAX => match delimited_body(raw, length) {
                Ok(body) => Ok(Some(body)),
                Err(e) => Err(e),
            },
            _ => Err(ParseError::InvalidContentLength),
        }
    }
}

/// The request that the text `text` and the bytes `raw` that it was decoded
/// from hold. The first line gives method and target, the lines after it
/// the header fields, and `raw` the body.
pub open spec fn parse_text(text: Seq<char>, raw: Seq<u8>) -> Result<RequestModel, ParseError> {
    let line = before(text, '\n');
    let target = first_word(after_first_word(line));
    if target.len() == 0 {
        Err(ParseError::MalformedRequestLine)
    } else {
        match method_named(first_word(line)) {
            None => Err(ParseError::UnsupportedMethod),
            Some(method) => match header_fields(after(text, '\n')) {
                None => Err(ParseError::MalformedHeader),
                Some(fields) => match declared_body(field_map(fields), raw) {
                    Err(e) => Err(e),
                    Ok(body) => Ok(
                        RequestModel { method, uri: target, headers: field_map(fields), body },
                    ),
                },
            },
        }
    }
}

/// The request that the bytes `raw` of one read hold; none where nothing
/// was read.
pub open spec fn parse_bytes(raw: Seq<u8>) -> Result<Option<RequestModel>, ParseError> {
    if raw.len() == 0 {
        Ok(None)
    } else {
        match parse_text(decoded(raw), raw) {
            Ok(request) => Ok(Some(request)),
            Err(e) => Err(e),
        }
    }
}

/// `fields` in front of the fields `rest`, where there are any.
spec fn prepend(fields: Seq<(Seq<char>, Seq<char>)>, rest: Option<Seq<(Seq<char>, Seq<char>)>>)
    -> Option<Seq<(Seq<char>, Seq<char>)>> {
    match rest {
        Some(more) => Some(fields + more),
        None => None,
    }
}

/// `String::from_utf8_lossy` of the standard library. Bytes that are valid
/// UTF-8 come back as the text they encode; of other bytes the contract
/// only gives the result its name.
#[verifier::external_body]
fn decode_lossy(raw: &[u8]) -> (text: String)
    ensures
        text@ == (if valid_utf8(raw@) {
            decode_utf8(raw@)
        } else {
            lossy_text(raw@)
        }),
{
    String::from_utf8_lossy(raw).into_owned()
}

/// `str::to_lowercase` of the standard library. The contract gives the
/// result its name and says nothing more of it.
#[verifier::external_body]
fn lowercase(text: &str) -> (lower: String)
    ensures
        lower@ == lowercase_of(text@),
{
    text.to_lowercase()
}

/// The index of the first CR LF CR LF in `raw`, where it holds one.
pub fn find_terminator(raw: &[u8]) -> (r: Option<usize>)
    ensures
        match r {
            Some(i) => has_terminator(raw@) && i == terminator_index(raw@) && i + 4 <= raw@.len(),
            None => !has_terminator(raw@),
        },
{
    let mut i: usize = 0;
    while raw.len() >= 4 && i <= raw.len() - 4
        invariant
            i <= raw@.len(),
            forall|j: int| 0 <= j < i ==> !terminator_at(raw@, j),
        decreases raw@.len() - i,
    {
        if raw[i] == 13 && raw[i + 1] == 10 && raw[i + 2] == 13 && raw[i + 3] == 10 {
            proof {
                lemma_terminator_index_is(raw@, i as int);
            }
            return Some(i);
        }
        i += 1;
    }
    proof {
        lemma_terminator_index_is(raw@, raw@.len() as int);
    }
    None
}

/// The body of `length` bytes that follows the first CR LF CR LF of `raw`.
pub fn delimit_body(raw: &[u8], length: usize) -> (r: Result<Vec<u8>, ParseError>)
    ensures
        match r {
            Ok(body) => delimited_body(raw@, length as nat) == Ok::<Seq<u8>, ParseError>(body@),
            Err(e) => delimited_body(raw@, length as nat) == Err::<Seq<u8>, ParseError>(e),
        },
{
    match find_terminator(raw) {
        None => Err(ParseError::HeaderTerminatorNotFound),
        Some(i) => {
            let total = raw.len();
            let start = i + 4;
            if length <= total - start {
                Ok(slice_to_vec(&raw[start..start + length]))
            } else {
                Err(ParseError::IncompleteBody)
            }
        },
    }
}

/// The header fields of the lines at the front of `text`.
fn parse_headers(text: &[char]) -> (r: Option<Headers>)
    ensures
        match r {
            Some(headers) => header_fields(text@) matches Some(fields) && headers@ == field_map(
                fields,
            ),
            None => header_fields(text@) is None,
        },
{
    let mut headers = Headers::new();
    let mut rest: &[char] = text;
    let ghost mut seen: Seq<(Seq<char>, Seq<char>)> = Seq::empty();
    assert(seen + header_fields(text@).unwrap() =~= header_fields(text@).unwrap());
    loop
        invariant
            headers@ == field_map(seen),
            header_fields(text@) == prepend(seen, header_fields(rest@)),
        ensures
            header_fields(text@) == Some(seen),
            headers@ == field_map(seen),
        decreases rest@.len(),
    {
        if rest.len() == 0 {
            assert(seen + Seq::empty() =~= seen);
            break ;
        }
        let (line, tail) = split_at_first(rest, '\n');
        if is_blank(line) {
            assert(seen + Seq::empty() =~= seen);
            break ;
        }
        let (name, value) = split_at_first(line, ':');
        let value = match value {
            Some(value) => value,
            None => {
                return None;
            },
        };
        let trimmed_name = string_of(trim(name));
        let key = lowercase(trimmed_name.as_str());
        let value = string_of(trim(value));
        proof {
            let field = (key@, value@);
            assert(header_field(line@) == Some(field));
            assert(seen.push(field).drop_last() =~= seen);
            match header_fields(after(rest@, '\n')) {
                Some(more) => {
                    assert(seen + (seq![field] + more) =~= seen.push(field) + more);
                },
                None => {},
            }
            seen = seen.push(field);
        }
        headers.insert(key, value);
        rest =
        match tail {
            Some(tail) => tail,
            None => &rest[0..0],
        };
    }
    Some(headers)
}

impl HttpRequest {
    /// The request that the text `text` holds, with its body taken from
    /// `raw`, the bytes that `text` was decoded from.
    pub fn parse_decoded(text: &str, raw: &[u8]) -> (r: Result<HttpRequest, ParseError>)
        ensures
            match r {
                Ok(request) => parse_text(text@, raw@) == Ok::<RequestModel, ParseError>(request@),
                Err(e) => parse_text(text@, raw@) == Err::<RequestModel, ParseError>(e),
            },
    {
        let chars = chars_of(text);
        let (line, rest) = split_at_first(chars.as_slice(), '\n');
        let (word, after_word) = split_word(line);
        let (target, _) = split_word(after_word);
        if target.len() == 0 {
            return Err(ParseError::MalformedRequestLine);
        }
        let method = if equals(word, "GET") {
            HttpMethod::GET
        } else if equals(word, "POST") {
            HttpMethod::POST
        } else {
            return Err(ParseError::UnsupportedMethod);
        };
        let uri = string_of(target);
        let header_text: &[char] = match rest {
            Some(rest) => rest,
            None => &line[0..0],
        };
        let headers = match parse_headers(header_text) {
            Some(headers) => headers,
            None => {
                return Err(ParseError::MalformedHeader);
            },
        };
        let declared = match headers.get("content-length") {
            Some(value) => Some(chars_of(value.as_str())),
            None => None,
        };
        let body = match declared {
            None => None,
            Some(digits) => {
                let length = match parse_usize(digits.as_slice()) {
                    Some(length) => length,
                    None => {
                        return Err(ParseError::InvalidContentLength);
                    },
                };
                match delimit_body(raw, length) {
                    Ok(body) => Some(body),
                    Err(e) => {
                        return Err(e);
                    },
                }
            },
        };
        Ok(HttpRequest { method, uri, headers, body })
    }

    /// The request that the bytes `raw` of one read hold. Nothing read is
    /// no request and no error.
    pub fn parse(raw: &[u8]) -> (r: Result<Option<HttpRequest>, ParseError>)
        ensures
            match r {
                Ok(Some(request)) => parse_bytes(raw@) == Ok::<Option<RequestModel>, ParseError>(
                    Some(request@),
                ),
                Ok(None) => parse_bytes(raw@) == Ok::<Option<RequestModel>, ParseError>(None),
                Err(e) => parse_bytes(raw@) == Err::<Option<RequestModel>, ParseError>(e),
            },
    {
        if raw.len() == 0 {
            return Ok(None);
        }
        let text = decode_lossy(raw);
        match HttpRequest::parse_decoded(text.as_str(), raw) {
            Ok(request) => Ok(Some(request)),
            Err(e) => Err(e),
        }
    }
}

} // verus!
