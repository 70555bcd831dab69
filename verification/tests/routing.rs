use flate2::read::GzDecoder;
use http_server::headers::Headers;
use http_server::request::{HttpMethod, HttpRequest};
use http_server::response::{HttpResponse, StatusCode};
use http_server::router::{
    accepts_gzip, classify, download_response, echo_response, gzip_response, handle, route,
    status_response, text_response, upload_response, user_agent_response, Action, FileError, Route,
};
use std::io::Read;

fn request(method: HttpMethod, uri: &str, fields: &[(&str, &str)], body: Option<&[u8]>) -> HttpRequest {
    let mut headers = Headers::new();
    for (name, value) in fields {
        headers.insert(name.to_string(), value.to_string());
    }
    HttpRequest { method, uri: uri.to_string(), headers, body: body.map(|b| b.to_vec()) }
}

fn response_of(action: Action) -> HttpResponse {
    match action {
        Action::Respond(response) => response,
        other => panic!("no response: {:?}", other),
    }
}

fn pairs(response: &HttpResponse) -> Vec<(String, String)> {
    response.headers.iter().map(|(name, value)| (name.to_string(), value.clone())).collect()
}

fn pair(name: &str, value: &str) -> (String, String) {
    (name.to_string(), value.to_string())
}

fn gunzip(bytes: &[u8]) -> Vec<u8> {
    let mut decoder = GzDecoder::new(bytes);
    let mut out = Vec::new();
    decoder.read_to_end(&mut out).unwrap();
    out
}

fn content_length_lines(bytes: &[u8]) -> Vec<String> {
    let end = bytes.windows(4).position(|w| w == b"\r\n\r\n").unwrap();
    let head = String::from_utf8(bytes[..end].to_vec()).unwrap();
    head.split("\r\n")
        .skip(1)
        .filter(|line| line.split(':').next().unwrap().eq_ignore_ascii_case("content-length"))
        .map(|line| line.split_once(':').unwrap().1.trim().to_string())
        .collect()
}

fn body_of(bytes: &[u8]) -> Vec<u8> {
    let end = bytes.windows(4).position(|w| w == b"\r\n\r\n").unwrap();
    bytes[end + 4..].to_vec()
}

/// Performs what the library asks for against files held in memory.
fn serve(files: &mut Vec<(String, Vec<u8>)>, raw: &[u8]) -> Option<HttpResponse> {
    match handle(raw)? {
        Action::Respond(response) => Some(response),
        Action::ReadFile { name } => {
            let outcome = match files.iter().position(|(held, _)| *held == name) {
                Some(i) => Ok(files.remove(i).1),
                None => Err(FileError::NotFound),
            };
            Some(download_response(outcome))
        }
        Action::WriteFile { name, contents } => {
            files.retain(|(held, _)| *held != name);
            files.push((name, contents));
            Some(upload_response(Ok(())))
        }
    }
}

#[test]
fn echo_without_accept_encoding() {
    let response = response_of(route(request(HttpMethod::GET, "/echo/hello", &[], None)));
    assert_eq!(response.status, StatusCode::OK);
    assert_eq!(response.body, Some(b"hello".to_vec()));
    assert_eq!(pairs(&response), vec![pair("Content-Type", "text/plain")]);
    assert_eq!(
        response.to_bytes(),
        b"HTTP/1.1 200 OK\r\nContent-Type: text/plain\r\nContent-Length: 5\r\n\r\nhello".to_vec()
    );
}

#[test]
fn echo_with_gzip() {
    let response = response_of(route(request(
        HttpMethod::GET,
        "/echo/hello",
        &[("accept-encoding", "gzip")],
        None,
    )));
    assert_eq!(response.status, StatusCode::OK);
    assert_eq!(
        pairs(&response),
        vec![pair("Content-Type", "text/plain"), pair("Content-Encoding", "gzip")]
    );
    let body = response.body.clone().unwrap();
    assert_ne!(body, b"hello".to_vec());
    assert_eq!(&body[..3], &[0x1f, 0x8b, 8]);
    assert_eq!(gunzip(&body), b"hello".to_vec());
    let bytes = response.to_bytes();
    assert_eq!(content_length_lines(&bytes), vec![body.len().to_string()]);
    assert_eq!(body_of(&bytes), body);
}

#[test]
fn echo_with_gzip_of_longer_texts() {
    for content in ["", "a", "hello world hello world hello world", "caf\u{e9} \u{1f600}"] {
        let long = content.repeat(50);
        for text in [content.to_string(), long] {
            let uri = format!("/echo/{}", text);
            let response =
                response_of(route(request(HttpMethod::GET, &uri, &[("accept-encoding", "gzip")], None)));
            assert_eq!(gunzip(&response.body.unwrap()), text.as_bytes().to_vec());
        }
    }
}

#[test]
fn gzip_of_the_same_text_is_the_same() {
    let first = echo_response("again and again", Some(&"gzip".to_string()));
    let second = echo_response("again and again", Some(&"gzip".to_string()));
    assert_eq!(first.body, second.body);
}

#[test]
fn echo_through_the_whole_pipeline() {
    let raw = b"GET /echo/hello HTTP/1.1\r\nHost: localhost\r\nAccept-Encoding: gzip\r\n\r\n";
    let response = response_of(handle(raw).unwrap());
    assert_eq!(
        pairs(&response),
        vec![pair("Content-Type", "text/plain"), pair("Content-Encoding", "gzip")]
    );
    assert_eq!(gunzip(&response.body.unwrap()), b"hello".to_vec());
    let raw = b"POST /echo/hello HTTP/1.1\r\nHost: localhost\r\n\r\n";
    let response = response_of(handle(raw).unwrap());
    assert_eq!(response.body, Some(b"hello".to_vec()));
}

#[test]
fn accept_encoding_is_matched_item_by_item() {
    assert!(accepts_gzip("gzip"));
    assert!(accepts_gzip(" gzip "));
    assert!(accepts_gzip("deflate, gzip"));
    assert!(accepts_gzip("gzip,deflate"));
    assert!(accepts_gzip("br,\tgzip\t,deflate"));
    assert!(accepts_gzip("invalid-1, gzip, invalid-2"));
    assert!(accepts_gzip("gzip,"));
    assert!(accepts_gzip(",gzip"));
    assert!(accepts_gzip("\u{a0}gzip\u{3000}"));
    assert!(!accepts_gzip(""));
    assert!(!accepts_gzip(","));
    assert!(!accepts_gzip("deflate"));
    assert!(!accepts_gzip("GZIP"));
    assert!(!accepts_gzip("Gzip"));
    assert!(!accepts_gzip("gzip;q=0.5"));
    assert!(!accepts_gzip("gzip deflate"));
    assert!(!accepts_gzip("x-gzip"));
    assert!(!accepts_gzip("gzi, p"));
    assert!(!accepts_gzip("deflate; gzip"));
}

#[test]
fn accepts_gzip_agrees_with_split_and_trim() {
    let samples = [
        "", "gzip", "a,b,c", " gzip ,x", "x, gzip", "x,gzip ,", ",,", "gzip,gzip", "g zip", "gzip\r",
        "identity, gzip;q=1", "\tgzip", "deflate,  gzip\t", "gzip\u{200b}",
    ];
    for sample in samples {
        let expected = sample.split(",").any(|item| item.trim() == "gzip");
        assert_eq!(accepts_gzip(sample), expected, "{:?}", sample);
    }
}

#[test]
fn echo_without_gzip_among_the_encodings() {
    for value in ["deflate", "gzip;q=0.5", "GZIP", "br, identity", ""] {
        let response = response_of(route(request(
            HttpMethod::GET,
            "/echo/hello",
            &[("accept-encoding", value)],
            None,
        )));
        assert_eq!(response.body, Some(b"hello".to_vec()));
        assert_eq!(pairs(&response), vec![pair("Content-Type", "text/plain")]);
    }
}

#[test]
fn echo_of_nothing_and_of_more() {
    let response = response_of(route(request(HttpMethod::GET, "/echo/", &[], None)));
    assert_eq!(response.status, StatusCode::OK);
    assert_eq!(response.body, Some(vec![]));
    let response = response_of(route(request(HttpMethod::POST, "/echo/a/b?c", &[], None)));
    assert_eq!(response.body, Some(b"a/b?c".to_vec()));
    let response = response_of(route(request(HttpMethod::GET, "/echo/caf\u{e9}", &[], None)));
    assert_eq!(response.body, Some("caf\u{e9}".as_bytes().to_vec()));
    assert_eq!(content_length_lines(&response.to_bytes()), vec!["5".to_string()]);
}

#[test]
fn file_is_stored_then_served_once() {
    let mut files: Vec<(String, Vec<u8>)> = Vec::new();
    let stored =
        serve(&mut files, b"POST /files/a.txt HTTP/1.1\r\nContent-Length: 3\r\n\r\nxyz").unwrap();
    assert_eq!(stored.status, StatusCode::Created);
    assert_eq!(stored.body, None);
    assert_eq!(stored.to_bytes(), b"HTTP/1.1 201 Created\r\nContent-Length: 0\r\n\r\n".to_vec());
    assert_eq!(files, vec![("a.txt".to_string(), b"xyz".to_vec())]);

    let first = serve(&mut files, b"GET /files/a.txt HTTP/1.1\r\n\r\n").unwrap();
    assert_eq!(first.status, StatusCode::OK);
    assert_eq!(first.body, Some(b"xyz".to_vec()));
    assert_eq!(pairs(&first), vec![pair("Content-Type", "application/octet-stream")]);
    assert_eq!(
        first.to_bytes(),
        b"HTTP/1.1 200 OK\r\nContent-Type: application/octet-stream\r\nContent-Length: 3\r\n\r\nxyz"
            .to_vec()
    );

    let second = serve(&mut files, b"GET /files/a.txt HTTP/1.1\r\n\r\n").unwrap();
    assert_eq!(second.status, StatusCode::NotFound);
    assert_eq!(second.body, None);
}

#[test]
fn missing_file_is_not_found() {
    let mut files: Vec<(String, Vec<u8>)> = Vec::new();
    let response = serve(&mut files, b"GET /files/missing.txt HTTP/1.1\r\n\r\n").unwrap();
    assert_eq!(response.status, StatusCode::NotFound);
    assert_eq!(response.to_bytes(), b"HTTP/1.1 404 Not Found\r\nContent-Length: 0\r\n\r\n".to_vec());
}

#[test]
fn unknown_target_is_not_found() {
    let response = response_of(route(request(HttpMethod::GET, "/nonexistent", &[], None)));
    assert_eq!(response.status, StatusCode::NotFound);
    assert_eq!(response.body, None);
    assert!(response.headers.is_empty());
    assert_eq!(response.to_bytes(), b"HTTP/1.1 404 Not Found\r\nContent-Length: 0\r\n\r\n".to_vec());
}

#[test]
fn user_agent_is_reflected() {
    let raw = b"GET /user-agent HTTP/1.1\r\nUser-Agent: test-client\r\n\r\n";
    let response = response_of(handle(raw).unwrap());
    assert_eq!(response.status, StatusCode::OK);
    assert_eq!(response.body, Some(b"test-client".to_vec()));
    assert_eq!(
        pairs(&response),
        vec![pair("Content-Type", "text/plain"), pair("Content-Length", "11")]
    );
    assert_eq!(
        response.to_bytes(),
        b"HTTP/1.1 200 OK\r\nContent-Type: text/plain\r\nContent-Length: 11\r\n\r\ntest-client"
            .to_vec()
    );
}

#[test]
fn user_agent_length_counts_bytes() {
    let response = user_agent_response("caf\u{e9} \u{1f600}");
    assert_eq!(response.body, Some("caf\u{e9} \u{1f600}".as_bytes().to_vec()));
    assert_eq!(
        pairs(&response),
        vec![pair("Content-Type", "text/plain"), pair("Content-Length", "10")]
    );
}

#[test]
fn user_agent_without_the_header_is_not_found() {
    let response = response_of(route(request(HttpMethod::GET, "/user-agent", &[], None)));
    assert_eq!(response.status, StatusCode::NotFound);
    assert_eq!(response.body, None);
    assert!(response.headers.is_empty());
    let response =
        response_of(route(request(HttpMethod::GET, "/user-agent", &[("host", "h")], None)));
    assert_eq!(response.status, StatusCode::NotFound);
}

#[test]
fn root_is_ok_for_every_method() {
    for method in [HttpMethod::GET, HttpMethod::POST] {
        let response = response_of(route(request(method, "/", &[], Some(b"x"))));
        assert_eq!(response.status, StatusCode::OK);
        assert_eq!(response.body, None);
        assert_eq!(response.to_bytes(), b"HTTP/1.1 200 OK\r\nContent-Length: 0\r\n\r\n".to_vec());
    }
}

#[test]
fn download_names_the_file() {
    match route(request(HttpMethod::GET, "/files/dir/a.txt", &[], None)) {
        Action::ReadFile { name } => assert_eq!(name, "dir/a.txt"),
        other => panic!("{:?}", other),
    }
    match route(request(HttpMethod::GET, "/files/", &[], None)) {
        Action::ReadFile { name } => assert_eq!(name, ""),
        other => panic!("{:?}", other),
    }
    match route(request(HttpMethod::GET, "/files/../secret", &[], Some(b"ignored"))) {
        Action::ReadFile { name } => assert_eq!(name, "../secret"),
        other => panic!("{:?}", other),
    }
}

#[test]
fn upload_names_the_file_and_hands_over_the_body() {
    match route(request(HttpMethod::POST, "/files/b.bin", &[], Some(&[0, 1, 255]))) {
        Action::WriteFile { name, contents } => {
            assert_eq!(name, "b.bin");
            assert_eq!(contents, vec![0, 1, 255]);
        }
        other => panic!("{:?}", other),
    }
    match route(request(HttpMethod::POST, "/files/empty", &[], Some(&[]))) {
        Action::WriteFile { name, contents } => {
            assert_eq!(name, "empty");
            assert_eq!(contents, Vec::<u8>::new());
        }
        other => panic!("{:?}", other),
    }
}

#[test]
fn upload_without_a_body_writes_nothing() {
    let response = response_of(route(request(HttpMethod::POST, "/files/a.txt", &[], None)));
    assert_eq!(response.status, StatusCode::OK);
    assert_eq!(response.body, None);
    assert!(response.headers.is_empty());
}

#[test]
fn routes_in_their_order() {
    assert!(matches!(classify(HttpMethod::GET, "/"), Route::Root));
    assert!(matches!(classify(HttpMethod::POST, "/"), Route::Root));
    assert!(matches!(classify(HttpMethod::GET, "/user-agent"), Route::UserAgent));
    assert!(matches!(classify(HttpMethod::POST, "/user-agent"), Route::UserAgent));
    assert!(matches!(classify(HttpMethod::GET, "/files/x"), Route::Download { .. }));
    assert!(matches!(classify(HttpMethod::POST, "/files/x"), Route::Upload { .. }));
    assert!(matches!(classify(HttpMethod::GET, "/echo/x"), Route::Echo { .. }));
    assert!(matches!(classify(HttpMethod::POST, "/echo/x"), Route::Echo { .. }));
    for uri in [
        "", "//", "/user-agent/", "/user-agent?x", "/User-Agent", "/files", "/echo", "/Echo/x",
        "/FILES/x", "x/echo/y", "/echoes", "/file/x", " /",
    ] {
        assert!(matches!(classify(HttpMethod::GET, uri), Route::Unknown), "{:?}", uri);
    }
}

#[test]
fn routes_carry_what_follows_the_prefix() {
    match classify(HttpMethod::GET, "/echo//files/x") {
        Route::Echo { content } => assert_eq!(content, "/files/x"),
        other => panic!("{:?}", other),
    }
    match classify(HttpMethod::POST, "/files//echo/x") {
        Route::Upload { name } => assert_eq!(name, "/echo/x"),
        other => panic!("{:?}", other),
    }
    match classify(HttpMethod::GET, "/files/n\u{e9}") {
        Route::Download { name } => assert_eq!(name, "n\u{e9}"),
        other => panic!("{:?}", other),
    }
}

#[test]
fn responses_to_file_outcomes() {
    let response = download_response(Ok(vec![1, 2, 3]));
    assert_eq!(response.status, StatusCode::OK);
    assert_eq!(response.body, Some(vec![1, 2, 3]));
    assert_eq!(pairs(&response), vec![pair("Content-Type", "application/octet-stream")]);
    let response = download_response(Ok(vec![]));
    assert_eq!(response.status, StatusCode::OK);
    assert_eq!(response.body, Some(vec![]));
    for (error, status) in
        [(FileError::NotFound, StatusCode::NotFound), (FileError::Other, StatusCode::InternalError)]
    {
        let response = download_response(Err(error));
        assert_eq!(response.status, status);
        assert_eq!(response.body, None);
        assert!(response.headers.is_empty());
        let response = upload_response(Err(error));
        assert_eq!(response.status, status);
        assert_eq!(response.body, None);
        assert!(response.headers.is_empty());
    }
    let response = upload_response(Ok(()));
    assert_eq!(response.status, StatusCode::Created);
    assert_eq!(response.body, None);
    assert!(response.headers.is_empty());
    assert_eq!(
        download_response(Err(FileError::Other)).to_bytes(),
        b"HTTP/1.1 500 Internal Server Error\r\nContent-Length: 0\r\n\r\n".to_vec()
    );
}

#[test]
fn responses_by_their_parts() {
    let response = status_response(StatusCode::Created);
    assert_eq!(response.status, StatusCode::Created);
    assert!(response.headers.is_empty());
    assert_eq!(response.body, None);
    let response = text_response(b"abc".to_vec());
    assert_eq!(response.status, StatusCode::OK);
    assert_eq!(pairs(&response), vec![pair("Content-Type", "text/plain")]);
    assert_eq!(response.body, Some(b"abc".to_vec()));
    let response = gzip_response(Some(vec![9, 9]));
    assert_eq!(response.status, StatusCode::OK);
    assert_eq!(
        pairs(&response),
        vec![pair("Content-Type", "text/plain"), pair("Content-Encoding", "gzip")]
    );
    assert_eq!(response.body, Some(vec![9, 9]));
    let response = gzip_response(None);
    assert_eq!(response.status, StatusCode::InternalError);
    assert!(response.headers.is_empty());
    assert_eq!(response.body, None);
}

#[test]
fn bytes_that_are_no_request_get_no_response() {
    assert!(handle(b"").is_none());
    assert!(handle(b"GET").is_none());
    assert!(handle(b"PUT / HTTP/1.1\r\n\r\n").is_none());
    assert!(handle(b"GET / HTTP/1.1\r\nbroken\r\n\r\n").is_none());
    assert!(handle(b"POST /files/a HTTP/1.1\r\nContent-Length: x\r\n\r\n").is_none());
    assert!(handle(b"POST /files/a HTTP/1.1\r\nContent-Length: 5\r\n\r\nabc").is_none());
    assert!(handle(b"POST /files/a HTTP/1.1\nContent-Length: 1\n\nabc").is_none());
}

#[test]
fn every_response_declares_the_length_of_its_body_once() {
    let mut files: Vec<(String, Vec<u8>)> = vec![("held".to_string(), b"12345".to_vec())];
    let requests: [&[u8]; 12] = [
        b"GET / HTTP/1.1\r\n\r\n",
        b"GET /user-agent HTTP/1.1\r\nUser-Agent: test-client\r\n\r\n",
        b"GET /user-agent HTTP/1.1\r\nUser-Agent:\r\n\r\n",
        b"GET /user-agent HTTP/1.1\r\n\r\n",
        b"GET /echo/hello HTTP/1.1\r\n\r\n",
        b"GET /echo/hello HTTP/1.1\r\nAccept-Encoding: gzip\r\n\r\n",
        b"GET /echo/ HTTP/1.1\r\nAccept-Encoding: br, gzip\r\n\r\n",
        b"POST /files/new HTTP/1.1\r\nContent-Length: 2\r\n\r\nab",
        b"POST /files/none HTTP/1.1\r\n\r\n",
        b"GET /files/held HTTP/1.1\r\n\r\n",
        b"GET /files/held HTTP/1.1\r\n\r\n",
        b"GET /nonexistent HTTP/1.1\r\n\r\n",
    ];
    for raw in requests {
        let response = serve(&mut files, raw).unwrap();
        let length = response.body.as_ref().map_or(0, |body| body.len());
        let bytes = response.to_bytes();
        assert_eq!(content_length_lines(&bytes), vec![length.to_string()]);
        assert_eq!(body_of(&bytes).len(), length);
    }
}
