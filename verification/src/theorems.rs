//! What holds of the pipeline as a whole: of the responses that are sent
//! and of the requests that are read.

use crate::decimal::{decimal_text, numeral_value};
use crate::request::{
    declared_body, decoded, field_map, header_field, header_fields, lemma_terminator_index_is,
    lowercase_of, method_named, parse_bytes, parse_text, terminator_at, HttpMethod, ParseError,
    RequestModel,
};
use crate::response::{
    has_content_length, header_line, header_lines, names_content_length, ResponseModel,
};
use crate::text::{
    after, after_first_word, before, blank, first_word, is_white_space, lemma_first_index,
    lemma_first_word_of, lemma_split_at, lemma_trimmed_padded, trimmed,
};
use vstd::utf8::{encode_utf8, encode_utf8_decode_utf8, encode_utf8_valid_utf8};
use crate::router::{
    action_for, download_reply, echo_reply, gzip_reply, status_only, text_reply, upload_reply,
    user_agent_reply, ActionModel, FileError,
};
use vstd::prelude::*;

verus! {

/// The values of the fields of `headers` that are named `Content-Length`,
/// in their order.
pub open spec fn content_lengths(headers: Seq<(Seq<char>, Seq<char>)>) -> Seq<Seq<char>>
    decreases headers.len(),
{
    if headers.len() == 0 {
        Seq::empty()
    } else {
        let rest = content_lengths(headers.drop_last());
        if names_content_length(headers.last().0) {
            rest.push(headers.last().1)
        } else {
            rest
        }
    }
}

/// Whether `response` is sent with exactly one `Content-Length`, which
/// gives the length of its body.
pub open spec fn declares_length(response: ResponseModel) -> bool {
    content_lengths(response.sent_headers()) == seq![decimal_text(response.body_len())]
}

/// There are values of `Content-Length` exactly where a field has that
/// name.
proof fn lemma_content_lengths_empty(headers: Seq<(Seq<char>, Seq<char>)>)
    ensures
        content_lengths(headers).len() == 0 <==> !has_content_length(headers),
    decreases headers.len(),
{
    if headers.len() > 0 {
        let front = headers.drop_last();
        lemma_content_lengths_empty(front);
        if has_content_length(front) {
            let i = choose|i: int|
                0 <= i < front.len() && names_content_length((#[trigger] front[i]).0);
            assert(headers[i] == front[i]);
        }
        if has_content_length(headers) && !names_content_length(headers.last().0) {
            let i = choose|i: int|
                0 <= i < headers.len() && names_content_length((#[trigger] headers[i]).0);
            assert(front[i] == headers[i]);
        }
    }
}

/// The names that the routes give their header fields, and whether they
/// are `Content-Length`.
proof fn lemma_names()
    ensures
        names_content_length("Content-Length"@),
        !names_content_length("Content-Type"@),
        !names_content_length("Content-Encoding"@),
{
    reveal_strlit("content-length");
    reveal_strlit("Content-Length");
    reveal_strlit("Content-Type");
    reveal_strlit("Content-Encoding");
}

/// Every response is sent with a `Content-Length`, and the header fields
/// of the response are sent as they are but for that one field at their
/// end. A response that has no such field of its own is sent with exactly
/// one, which gives the length of its body.
pub proof fn theorem_content_length_sent(response: ResponseModel)
    ensures
        has_content_length(response.sent_headers()),
        has_content_length(response.headers) ==> response.sent_headers() == response.headers,
        !has_content_length(response.headers) ==> {
            &&& response.sent_headers().drop_last() == response.headers
            &&& declares_length(response)
        },
{
    lemma_names();
    if !has_content_length(response.headers) {
        let sent = response.sent_headers();
        assert(sent.drop_last() =~= response.headers);
        assert(names_content_length(sent[sent.len() - 1].0));
        lemma_content_lengths_empty(response.headers);
        assert(content_lengths(sent) =~= seq![decimal_text(response.body_len())]);
    }
}

/// The one field of a response with one field.
proof fn lemma_one_field(name: Seq<char>, value: Seq<char>)
    ensures
        has_content_length(seq![(name, value)]) == names_content_length(name),
{
    let headers = seq![(name, value)];
    if names_content_length(name) {
        assert(names_content_length(headers[0].0));
    }
}

/// The two fields of a response with two fields.
proof fn lemma_two_fields(first: (Seq<char>, Seq<char>), second: (Seq<char>, Seq<char>))
    ensures
        has_content_length(seq![first, second]) == (names_content_length(first.0)
            || names_content_length(second.0)),
        !names_content_length(first.0) && names_content_length(second.0) ==> content_lengths(
            seq![first, second],
        ) == seq![second.1],
{
    let headers = seq![first, second];
    if names_content_length(first.0) {
        assert(names_content_length(headers[0].0));
    }
    if names_content_length(second.0) {
        assert(names_content_length(headers[1].0));
    }
    let front = headers.drop_last();
    assert(front =~= seq![first]);
    assert(front.drop_last() =~= Seq::<(Seq<char>, Seq<char>)>::empty());
    assert(content_lengths(front.drop_last()) =~= Seq::<Seq<char>>::empty());
    if !names_content_length(first.0) && names_content_length(second.0) {
        assert(content_lengths(front) =~= Seq::<Seq<char>>::empty());
        assert(content_lengths(headers) =~= seq![second.1]);
    }
}

/// A response with a status and nothing else declares the length 0.
proof fn lemma_status_only_declares_length(response: ResponseModel)
    requires
        response.headers == Seq::<(Seq<char>, Seq<char>)>::empty(),
    ensures
        declares_length(response),
{
    theorem_content_length_sent(response);
}

/// Whatever the request, the response to it is sent with exactly one
/// `Content-Length`, and that field gives the length of the body that is
/// sent, 0 where there is none.
pub proof fn theorem_response_declares_length(request: RequestModel)
    ensures
        action_for(request) matches ActionModel::Respond(response) ==> declares_length(response),
{
    lemma_names();
    match action_for(request) {
        ActionModel::Respond(response) => {
            if response.headers.len() == 0 {
                assert(response.headers =~= Seq::empty());
                lemma_status_only_declares_length(response);
            } else if response.headers.len() == 1 {
                lemma_one_field(response.headers[0].0, response.headers[0].1);
                assert(response.headers =~= seq![response.headers[0]]);
                theorem_content_length_sent(response);
            } else {
                assert(response.headers.len() == 2);
                lemma_two_fields(response.headers[0], response.headers[1]);
                assert(response.headers =~= seq![response.headers[0], response.headers[1]]);
                if names_content_length(response.headers[1].0) {
                    assert(names_content_length(response.headers[1].0));
                } else {
                    theorem_content_length_sent(response);
                }
            }
        },
        _ => {},
    }
}

/// Whatever the outcome of a file operation, the response to it is sent
/// with exactly one `Content-Length`, which gives the length of the body.
pub proof fn theorem_file_response_declares_length(
    read: Result<Seq<u8>, FileError>,
    written: Result<(), FileError>,
)
    ensures
        declares_length(download_reply(read)),
        declares_length(upload_reply(written)),
{
    lemma_names();
    let response = download_reply(read);
    if response.headers.len() == 1 {
        lemma_one_field(response.headers[0].0, response.headers[0].1);
        assert(response.headers =~= seq![response.headers[0]]);
    }
    theorem_content_length_sent(response);
    theorem_content_length_sent(upload_reply(written));
}

/// The name of `method` as it stands on a request line.
pub open spec fn method_name(method: HttpMethod) -> Seq<char> {
    match method {
        HttpMethod::GET => "GET"@,
        HttpMethod::POST => "POST"@,
    }
}

/// The head of a request as a client writes it: the request line, a line
/// for each header field and an empty line, each ended by CR LF.
pub open spec fn request_head(
    method: HttpMethod,
    uri: Seq<char>,
    fields: Seq<(Seq<char>, Seq<char>)>,
) -> Seq<char> {
    method_name(method) + " "@ + uri + " HTTP/1.1\r\n"@ + header_lines(fields) + "\r\n"@
}

/// Whether `uri` can stand on a request line: it is not empty and holds no
/// white space.
pub open spec fn orderly_target(uri: Seq<char>) -> bool {
    &&& uri.len() > 0
    &&& forall|i: int| 0 <= i < uri.len() ==> !is_white_space(#[trigger] uri[i])
}

/// Whether `field` can stand on a header line: its name holds no colon,
/// and neither name nor value holds a line feed.
pub open spec fn orderly_field(field: (Seq<char>, Seq<char>)) -> bool {
    &&& !field.0.contains(':')
    &&& !field.0.contains('\n')
    &&& !field.1.contains('\n')
}

/// Whether each of `fields` can stand on a header line.
pub open spec fn orderly_fields(fields: Seq<(Seq<char>, Seq<char>)>) -> bool {
    forall|i: int| 0 <= i < fields.len() ==> orderly_field(#[trigger] fields[i])
}

/// The form in which a request keeps the field `field` of a header line:
/// the name trimmed and in lower case, the value trimmed.
pub open spec fn kept_field(field: (Seq<char>, Seq<char>)) -> (Seq<char>, Seq<char>) {
    (lowercase_of(trimmed(field.0)), trimmed(field.1))
}

/// The forms in which a request keeps `fields`.
pub open spec fn kept_fields(fields: Seq<(Seq<char>, Seq<char>)>) -> Seq<(Seq<char>, Seq<char>)> {
    Seq::new(fields.len(), |i: int| kept_field(fields[i]))
}

/// The lines of some header fields are the line of the first field and
/// then the lines of the others.
proof fn lemma_header_lines_front(fields: Seq<(Seq<char>, Seq<char>)>)
    requires
        fields.len() > 0,
    ensures
        header_lines(fields) == header_line(fields.first()) + header_lines(fields.drop_first()),
    decreases fields.len(),
{
    let front = fields.drop_last();
    let tail = fields.drop_first();
    if fields.len() == 1 {
        assert(header_lines(front) =~= Seq::<char>::empty());
        assert(header_lines(tail) =~= Seq::<char>::empty());
        assert(header_lines(fields) =~= header_line(fields.first()) + header_lines(tail));
    } else {
        lemma_header_lines_front(front);
        assert(front.first() == fields.first());
        assert(front.drop_first() =~= tail.drop_last());
        assert(tail.last() == fields.last());
        assert(header_lines(fields) =~= header_line(fields.first()) + header_lines(tail));
    }
}

/// A map of fields has a name exactly where one of the fields has it.
proof fn lemma_field_map_names(fields: Seq<(Seq<char>, Seq<char>)>, name: Seq<char>)
    ensures
        field_map(fields).contains_key(name) <==> exists|i: int|
            0 <= i < fields.len() && (#[trigger] fields[i]).0 == name,
    decreases fields.len(),
{
    if fields.len() > 0 {
        let front = fields.drop_last();
        lemma_field_map_names(front, name);
        if field_map(front).contains_key(name) {
            let i = choose|i: int| 0 <= i < front.len() && (#[trigger] front[i]).0 == name;
            assert(fields[i] == front[i]);
        }
        if exists|i: int| 0 <= i < fields.len() && (#[trigger] fields[i]).0 == name {
            let i = choose|i: int| 0 <= i < fields.len() && (#[trigger] fields[i]).0 == name;
            if i < front.len() {
                assert(front[i] == fields[i]);
            }
        }
    }
}

/// The line of an orderly field, read back: the field in the form in which
/// it is kept, and then what the text after the line holds.
proof fn lemma_header_line_read(field: (Seq<char>, Seq<char>), rest: Seq<char>)
    requires
        orderly_field(field),
    ensures
        header_fields(header_line(field) + rest) == (match header_fields(rest) {
            Some(more) => Some(seq![kept_field(field)] + more),
            None => None,
        }),
{
    reveal_strlit(": ");
    reveal_strlit("\r\n");
    let text = header_line(field) + rest;
    let value_part = seq![' '] + field.1 + seq!['\r'];
    let line = field.0 + seq![':'] + value_part;
    assert(text =~= line + seq!['\n'] + rest);
    assert forall|i: int| 0 <= i < line.len() implies line[i] != '\n' by {
        if i < field.0.len() {
            assert(line[i] == field.0[i]);
        } else if i == field.0.len() {
        } else if i == field.0.len() + 1 {
        } else if i < field.0.len() + 2 + field.1.len() {
            assert(line[i] == field.1[i - field.0.len() - 2]);
        } else {
        }
    }
    lemma_split_at(line, '\n', rest);
    lemma_split_at(field.0, ':', value_part);
    lemma_first_index(line, ':');
    assert(line[field.0.len() as int] == ':');
    assert(!blank(line));
    assert(blank(seq![' ']));
    assert(blank(seq!['\r']));
    lemma_trimmed_padded(seq![' '], field.1, seq!['\r']);
    assert(header_field(line) == Some(kept_field(field)));
}

/// The lines of orderly fields and the empty line after them, read back:
/// the fields in the form in which they are kept, whatever follows.
proof fn lemma_header_lines_read(fields: Seq<(Seq<char>, Seq<char>)>, rest: Seq<char>)
    requires
        orderly_fields(fields),
    ensures
        header_fields(header_lines(fields) + "\r\n"@ + rest) == Some(kept_fields(fields)),
    decreases fields.len(),
{
    reveal_strlit("\r\n");
    let text = header_lines(fields) + "\r\n"@ + rest;
    if fields.len() == 0 {
        assert(text =~= seq!['\r'] + seq!['\n'] + rest);
        assert(!seq!['\r'].contains('\n'));
        lemma_split_at(seq!['\r'], '\n', rest);
        assert(blank(seq!['\r']));
        assert(kept_fields(fields) =~= Seq::empty());
    } else {
        let tail = fields.drop_first();
        let after_line = header_lines(tail) + "\r\n"@ + rest;
        lemma_header_lines_front(fields);
        assert(text =~= header_line(fields.first()) + after_line);
        assert(orderly_field(fields[0]));
        lemma_header_line_read(fields.first(), after_line);
        assert forall|i: int| 0 <= i < tail.len() implies orderly_field(#[trigger] tail[i]) by {
            assert(tail[i] == fields[i + 1]);
        }
        lemma_header_lines_read(tail, rest);
        assert(seq![kept_field(fields.first())] + kept_fields(tail) =~= kept_fields(fields));
    }
}

/// An orderly request line, read back: the method, the target, and the
/// text after the line.
proof fn lemma_request_line_read(method: HttpMethod, uri: Seq<char>, rest: Seq<char>)
    requires
        orderly_target(uri),
    ensures
        ({
            let text = method_name(method) + " "@ + uri + " HTTP/1.1\r\n"@ + rest;
            let line = before(text, '\n');
            &&& after(text, '\n') == rest
            &&& method_named(first_word(line)) == Some(method)
            &&& first_word(after_first_word(line)) == uri
        }),
{
    reveal_strlit("GET");
    reveal_strlit("POST");
    reveal_strlit(" ");
    reveal_strlit(" HTTP/1.1\r\n");
    let name = method_name(method);
    let text = name + " "@ + uri + " HTTP/1.1\r\n"@ + rest;
    let version = seq![' ', 'H', 'T', 'T', 'P', '/', '1', '.', '1', '\r'];
    let after_name = seq![' '] + uri + version;
    let line = name + after_name;
    assert(text =~= line + seq!['\n'] + rest);
    assert forall|i: int| 0 <= i < line.len() implies line[i] != '\n' by {
        if i < name.len() {
        } else if i == name.len() {
        } else if i < name.len() + 1 + uri.len() {
            assert(line[i] == uri[i - name.len() - 1]);
        } else {
            assert(line[i] == version[i - name.len() - 1 - uri.len()]);
        }
    }
    lemma_split_at(line, '\n', rest);
    let nothing = Seq::<char>::empty();
    assert(nothing + name + after_name =~= line);
    assert(after_name[0] == ' ');
    lemma_first_word_of(nothing, name, after_name);
    assert(blank(seq![' ']));
    assert(version[0] == ' ');
    lemma_first_word_of(seq![' '], uri, version);
    assert(name.len() == 3 <==> method == HttpMethod::GET);
}

/// A request head that a client writes in order is read as it was
/// written: whatever text follows the head, reading gives the method and
/// the target as they stand on the request line and the header fields by
/// their names, trimmed and in lower case, with their values, trimmed.
/// The body is what the fields declare in the bytes `raw`.
pub proof fn theorem_head_is_read(
    method: HttpMethod,
    uri: Seq<char>,
    fields: Seq<(Seq<char>, Seq<char>)>,
    rest: Seq<char>,
    raw: Seq<u8>,
)
    requires
        orderly_target(uri),
        orderly_fields(fields),
    ensures
        parse_text(request_head(method, uri, fields) + rest, raw) == (match declared_body(
            field_map(kept_fields(fields)),
            raw,
        ) {
            Ok(body) => Ok(
                RequestModel { method, uri, headers: field_map(kept_fields(fields)), body },
            ),
            Err(e) => Err(e),
        }),
{
    let text = request_head(method, uri, fields) + rest;
    let after_line = header_lines(fields) + "\r\n"@ + rest;
    assert(text =~= method_name(method) + " "@ + uri + " HTTP/1.1\r\n"@ + after_line);
    lemma_request_line_read(method, uri, after_line);
    lemma_header_lines_read(fields, rest);
}

/// The bytes of a request head that a client writes in order, without a
/// field that is kept as `content-length`, are read as a request without
/// a body that has the method, the target and the header fields that were
/// written.
pub proof fn theorem_request_round_trip(
    method: HttpMethod,
    uri: Seq<char>,
    fields: Seq<(Seq<char>, Seq<char>)>,
)
    requires
        orderly_target(uri),
        orderly_fields(fields),
        forall|i: int|
            0 <= i < fields.len() ==> kept_field(#[trigger] fields[i]).0 != "content-length"@,
    ensures
        parse_bytes(encode_utf8(request_head(method, uri, fields))) == Ok::<
            Option<RequestModel>,
            ParseError,
        >(
            Some(
                RequestModel {
                    method,
                    uri,
                    headers: field_map(kept_fields(fields)),
                    body: None,
                },
            ),
        ),
{
    let head = request_head(method, uri, fields);
    let raw = encode_utf8(head);
    encode_utf8_valid_utf8(head);
    encode_utf8_decode_utf8(head);
    assert(decoded(raw) == head);
    assert(raw.len() > 0) by {
        reveal_strlit("\r\n");
        assert(head.len() > 0);
        if raw.len() == 0 {
            assert(encode_utf8(Seq::<char>::empty()) =~= raw);
            encode_utf8_decode_utf8(Seq::<char>::empty());
        }
    }
    assert(head + Seq::<char>::empty() =~= head);
    theorem_head_is_read(method, uri, fields, Seq::empty(), raw);
    let kept = kept_fields(fields);
    lemma_field_map_names(kept, "content-length"@);
    if field_map(kept).contains_key("content-length"@) {
        let i = choose|i: int| 0 <= i < kept.len() && (#[trigger] kept[i]).0 == "content-length"@;
        assert(kept[i] == kept_field(fields[i]));
    }
}

/// Where the header fields declare a body of `length` bytes, the bytes
/// hold CR LF CR LF first at index `at`, and at least `length` bytes
/// follow it, the body is exactly the first `length` bytes after it.
pub proof fn theorem_body_follows_terminator(
    headers: Map<Seq<char>, Seq<char>>,
    raw: Seq<u8>,
    at: int,
    length: nat,
)
    requires
        headers.contains_key("content-length"@),
        numeral_value(headers["content-length"@]) == Some(length),
        length <= usize::MAX,
        terminator_at(raw, at),
        forall|j: int| 0 <= j < at ==> !terminator_at(raw, j),
        at + 4 + length <= raw.len(),
    ensures
        declared_body(headers, raw) == Ok::<Option<Seq<u8>>, ParseError>(
            Some(raw.subrange(at + 4, at + 4 + length)),
        ),
{
    lemma_terminator_index_is(raw, at);
}

} // verus!
