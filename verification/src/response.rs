//! Responses and their encoding for the wire.

use crate::decimal::{decimal_string, decimal_text};
use crate::text::{chars_of, eq_ignoring_ascii_case, same_ignoring_ascii_case};
use vstd::prelude::*;
use vstd::utf8::encode_utf8;

verus! {

/// The status of a response.
#[derive(Clone, Copy, Debug, PartialEq, Eq, Structural)]
pub enum StatusCode {
    OK,
    Created,
    NotFound,
    InternalError,
}

impl StatusCode {
    /// The number of this status.
    pub open spec fn number(self) -> nat {
        match self {
            StatusCode::OK => 200,
            StatusCode::Created => 201,
            StatusCode::NotFound => 404,
            StatusCode::InternalError => 500,
        }
    }

    /// The reason phrase of this status.
    pub open spec fn phrase(self) -> Seq<char> {
        match self {
            StatusCode::OK => "OK"@,
            StatusCode::Created => "Created"@,
            StatusCode::NotFound => "Not Found"@,
            StatusCode::InternalError => "Internal Server Error"@,
        }
    }

    /// The number sent on the status line.
    pub fn code(&self) -> (c: u16)
        ensures
            c == self.number(),
    {
        match self {
            Self::OK => 200,
            Self::Created => 201,
            Self::NotFound => 404,
            Self::InternalError => 500,
        }
    }

    /// The reason phrase sent on the status line.
    pub fn reason(&self) -> (r: &'static str)
        ensures
            r@ == self.phrase(),
    {
        match self {
            Self::OK => "OK",
            Self::Created => "Created",
            Self::NotFound => "Not Found",
            Self::InternalError => "Internal Server Error",
        }
    }
}

/// A response: a status, header fields in the order in which they are
/// sent, and a body or none.
#[derive(Debug)]
pub struct HttpResponse {
    pub status: StatusCode,
    pub headers: Vec<(&'static str, String)>,
    pub body: Option<Vec<u8>>,
}

/// What a response holds, as mathematical values.
pub struct ResponseModel {
    pub status: StatusCode,
    pub headers: Seq<(Seq<char>, Seq<char>)>,
    pub body: Option<Seq<u8>>,
}

/// Whether `name` is the name `Content-Length`, in any case of its letters.
pub open spec fn names_content_length(name: Seq<char>) -> bool {
    same_ignoring_ascii_case(name, "content-length"@)
}

/// Whether one of `headers` is named `Content-Length`.
pub open spec fn has_content_length(headers: Seq<(Seq<char>, Seq<char>)>) -> bool {
    exists|i: int| 0 <= i < headers.len() && names_content_length((#[trigger] headers[i]).0)
}

/// The line that carries one header field.
pub open spec fn header_line(header: (Seq<char>, Seq<char>)) -> Seq<char> {
    header.0 + ": "@ + header.1 + "\r\n"@
}

/// The lines of `headers`, one after the other.
pub open spec fn header_lines(headers: Seq<(Seq<char>, Seq<char>)>) -> Seq<char>
    decreases headers.len(),
{
    if headers.len() == 0 {
        Seq::empty()
    } else {
        header_lines(headers.drop_last()) + header_line(headers.last())
    }
}

/// The status line of a response with the status `status`.
pub open spec fn status_line(status: StatusCode) -> Seq<char> {
    "HTTP/1.1 "@ + decimal_text(status.number()) + " "@ + status.phrase() + "\r\n"@
}

impl ResponseModel {
    /// The number of bytes in the body; 0 where there is none.
    pub open spec fn body_len(self) -> nat {
        match self.body {
            Some(body) => body.len(),
            None => 0,
        }
    }

    /// The bytes of the body; none where there is no body.
    pub open spec fn body_bytes(self) -> Seq<u8> {
        match self.body {
            Some(body) => body,
            None => Seq::empty(),
        }
    }

    /// The header fields that are sent: those of the response, followed by a
    /// `Content-Length` with the length of the body unless the response has
    /// a field of that name.
    pub open spec fn sent_headers(self) -> Seq<(Seq<char>, Seq<char>)> {
        if has_content_length(self.headers) {
            self.headers
        } else {
            self.headers.push(("Content-Length"@, decimal_text(self.body_len())))
        }
    }

    /// The text before the body: status line, header lines and an empty line.
    pub open spec fn head(self) -> Seq<char> {
        status_line(self.status) + header_lines(self.sent_headers()) + "\r\n"@
    }

    /// The bytes sent for this response: the head in UTF-8, then the body.
    pub open spec fn wire(self) -> Seq<u8> {
        encode_utf8(self.head()) + self.body_bytes()
    }
}

impl View for HttpResponse {
    type V = ResponseModel;

    open spec fn view(&self) -> ResponseModel {
        ResponseModel {
            status: self.status,
            headers: Seq::new(
                self.headers@.len(),
                |i: int| (self.headers@[i].0@, self.headers@[i].1@),
            ),
            body: match self.body {
                Some(body) => Some(body@),
                None => None,
            },
        }
    }
}

/// The encoding of a text is the encoding of its front part followed by
/// that of the rest.
pub proof fn lemma_encode_concat(a: Seq<char>, b: Seq<char>)
    ensures
        encode_utf8(a + b) == encode_utf8(a) + encode_utf8(b),
    decreases a.len(),
{
    if a.len() == 0 {
        assert(a + b =~= b);
        assert(encode_utf8(a) + encode_utf8(b) =~= encode_utf8(b));
    } else {
        assert((a + b).drop_first() =~= a.drop_first() + b);
        lemma_encode_concat(a.drop_first(), b);
        assert(encode_utf8(a + b) =~= encode_utf8(a) + encode_utf8(b));
    }
}

/// Appends the UTF-8 encoding of `piece` to `buffer`, which holds the
/// encoding of `text`.
fn put(buffer: &mut Vec<u8>, piece: &str, Ghost(text): Ghost<Seq<char>>)
    requires
        old(buffer)@ == encode_utf8(text),
    ensures
        final(buffer)@ == encode_utf8(text + piece@),
{
    buffer.extend_from_slice(piece.as_bytes());
    proof {
        lemma_encode_concat(text, piece@);
    }
}

impl HttpResponse {
    /// The bytes to send for this response.
    pub fn to_bytes(&self) -> (bytes: Vec<u8>)
        ensures
            bytes@ == self@.wire(),
    {
        let ghost model = self@;
        let mut buffer: Vec<u8> = Vec::new();
        let ghost mut text: Seq<char> = Seq::empty();
        put(&mut buffer, "HTTP/1.1 ", Ghost(text));
        proof {
            text = text + "HTTP/1.1 "@;
        }
        let code = decimal_string(self.status.code() as usize);
        put(&mut buffer, code.as_str(), Ghost(text));
        proof {
            text = text + code@;
        }
        put(&mut buffer, " ", Ghost(text));
        proof {
            text = text + " "@;
        }
        put(&mut buffer, self.status.reason(), Ghost(text));
        proof {
            text = text + self.status.phrase();
        }
        put(&mut buffer, "\r\n", Ghost(text));
        proof {
            text = text + "\r\n"@;
            assert(text =~= status_line(self.status));
        }
        let mut declared = false;
        let mut i: usize = 0;
        while i < self.headers.len()
            invariant
                i <= self.headers@.len(),
                model == self@,
                buffer@ == encode_utf8(text),
                text == status_line(model.status) + header_lines(model.headers.take(i as int)),
                declared == has_content_length(model.headers.take(i as int)),
            decreases self.headers@.len() - i,
        {
            let ghost seen = model.headers.take(i as int);
            let ghost more = model.headers.take(i as int + 1);
            let ghost start = text;
            let name: &str = self.headers[i].0;
            let name_chars = chars_of(name);
            put(&mut buffer, name, Ghost(text));
            proof {
                text = text + name@;
            }
            put(&mut buffer, ": ", Ghost(text));
            proof {
                text = text + ": "@;
            }
            put(&mut buffer, self.headers[i].1.as_str(), Ghost(text));
            proof {
                text = text + self.headers@[i as int].1@;
            }
            put(&mut buffer, "\r\n", Ghost(text));
            proof {
                text = text + "\r\n"@;
                assert(more.drop_last() =~= seen);
                assert(more.last() == model.headers[i as int]);
                assert(text =~= start + header_line(model.headers[i as int]));
                assert(text =~= status_line(model.status) + header_lines(more));
            }
            if eq_ignoring_ascii_case(name_chars.as_slice(), "content-length") {
                declared = true;
                assert(names_content_length(more[i as int].0));
            } else {
                assert forall|j: int| 0 <= j < more.len() && names_content_length(
                    (#[trigger] more[j]).0,
                ) implies has_content_length(seen) by {
                    assert(seen[j] == more[j]);
                }
            }
            proof {
                if has_content_length(seen) {
                    let j = choose|j: int|
                        0 <= j < seen.len() && names_content_length((#[trigger] seen[j]).0);
                    assert(more[j] == seen[j]);
                }
            }
            i += 1;
        }
        assert(model.headers.take(i as int) =~= model.headers);
        if !declared {
            let len = match &self.body {
                Some(body) => body.len(),
                None => 0,
            };
            let ghost start = text;
            let ghost extra = ("Content-Length"@, decimal_text(model.body_len()));
            put(&mut buffer, "Content-Length", Ghost(text));
            proof {
                text = text + "Content-Length"@;
            }
            put(&mut buffer, ": ", Ghost(text));
            proof {
                text = text + ": "@;
            }
            let digits = decimal_string(len);
            put(&mut buffer, digits.as_str(), Ghost(text));
            proof {
                text = text + digits@;
            }
            put(&mut buffer, "\r\n", Ghost(text));
            proof {
                text = text + "\r\n"@;
                let sent = model.headers.push(extra);
                assert(sent.drop_last() =~= model.headers);
                assert(sent.last() == extra);
                assert(text =~= start + header_line(extra));
                assert(text =~= status_line(model.status) + header_lines(sent));
            }
        }
        put(&mut buffer, "\r\n", Ghost(text));
        proof {
            text = text + "\r\n"@;
            assert(text =~= model.head());
        }
        if let Some(body) = &self.body {
            buffer.extend_from_slice(body.as_slice());
        }
        assert(buffer@ =~= model.wire());
        buffer
    }
}

impl Default for HttpResponse {
    /// The response `200 OK` without header fields and without a body.
    fn default() -> (response: Self)
        ensures
            response@ == (ResponseModel {
                status: StatusCode::OK,
                headers: Seq::empty(),
                body: None,
            }),
    {
        let response = HttpResponse { status: StatusCode::OK, headers: Vec::new(), body: None };
        assert(response@.headers =~= Seq::empty());
        response
    }
}

} // verus!
