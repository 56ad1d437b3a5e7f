use trillium_http::body::{encode_chunk, encode_chunked, encode_last_chunk, rendered_body};
use trillium_http::chunked::{decode_chunks, ChunkState};
use trillium_http::{
    utf8, Body, Conn, ConnectionStatus, Error, Finish, Headers, RequestBodyState,
};

const DATE: &[u8] = b"Sun, 18 Oct 2026 10:00:00 GMT";

fn conn(head: &[u8]) -> Conn {
    Conn::new(head, Vec::new()).unwrap()
}

fn conn_with_buffer(head: &[u8], buffer: &[u8]) -> Conn {
    Conn::new(head, buffer.to_vec()).unwrap()
}

fn contains(hay: &[u8], needle: &[u8]) -> bool {
    hay.windows(needle.len()).any(|w| w == needle)
}

#[test]
fn request_line_is_parsed() {
    let c = conn(b"GET /a/b?c&d=e HTTP/1.1\r\nHost: x\r\n\r\n");
    assert_eq!(c.path(), "/a/b?c&d=e");
    assert_eq!(c.querystring(), b"c&d=e".to_vec());
    assert_eq!(c.method(), b"GET");
    assert_eq!(c.host(), Some(b"x".to_vec()));
    assert_eq!(c.request_body_state(), RequestBodyState::Start);
    assert!(!c.is_secure());
}

#[test]
fn path_without_query_has_empty_querystring() {
    let c = conn(b"GET /a/b HTTP/1.1\r\n\r\n");
    assert_eq!(c.querystring(), Vec::<u8>::new());
    assert_eq!(c.host(), None);
}

#[test]
fn method_names_are_canonical() {
    let c = conn(b"get / HTTP/1.1\r\n\r\n");
    assert_eq!(c.method(), b"GET");
}

#[test]
fn unknown_method_is_refused() {
    let r = Conn::new(b"FROB / HTTP/1.1\r\n\r\n", Vec::new());
    assert_eq!(r.unwrap_err(), Error::UnrecognizedMethod("FROB".to_string()));
}

#[test]
fn versions_other_than_1_1_are_refused() {
    let r = Conn::new(b"GET / HTTP/1.0\r\n\r\n", Vec::new());
    assert_eq!(r.unwrap_err(), Error::UnsupportedVersion(0));
}

#[test]
fn incomplete_head_is_partial() {
    let r = Conn::new(b"GET / HTTP/1.1\r\nHost: x\r\n", Vec::new());
    assert_eq!(r.unwrap_err(), Error::PartialHead);
}

#[test]
fn garbage_head_is_refused_by_the_tokenizer() {
    let r = Conn::new(b"\x01\x02 / HTTP/1.1\r\n\r\n", Vec::new());
    assert_eq!(r.unwrap_err(), Error::Httparse);
}

#[test]
fn non_utf8_header_value_is_refused() {
    let r = Conn::new(b"GET / HTTP/1.1\r\nX-A: \xff\xfe\r\n\r\n", Vec::new());
    assert_eq!(r.unwrap_err(), Error::Utf8);
}

#[test]
fn request_headers_keep_every_value() {
    let c = conn(b"GET / HTTP/1.1\r\nAccept: a\r\naccept: b\r\nHost: h\r\n\r\n");
    let vals = c.request_headers().get(b"ACCEPT").unwrap();
    assert_eq!(vals, &vec![b"a".to_vec(), b"b".to_vec()]);
}

#[test]
fn fresh_response_has_status_line_length_and_date() {
    let mut c = conn(b"GET / HTTP/1.1\r\n\r\n");
    c.set_status(200);
    let head = c.head_bytes();
    assert!(head.starts_with(b"HTTP/1.1 200 OK\r\n"));
    assert!(contains(&head, b"content-length: 0\r\n"));
    assert!(contains(&head, b"\r\ndate: "));
    assert!(head.ends_with(b"\r\n\r\n"));
    assert!(c.response_headers().has(b"Date"));
}

#[test]
fn response_head_with_given_date_is_exact() {
    let mut c = conn(b"GET / HTTP/1.1\r\n\r\n");
    c.set_status(200);
    let head = c.head_bytes_with_date(DATE);
    let mut expected = b"HTTP/1.1 200 OK\r\ncontent-length: 0\r\ndate: ".to_vec();
    expected.extend_from_slice(DATE);
    expected.extend_from_slice(b"\r\n\r\n");
    assert_eq!(head, expected);
}

#[test]
fn unset_status_is_not_found() {
    let mut c = conn(b"GET / HTTP/1.1\r\n\r\n");
    assert_eq!(c.status(), None);
    let head = c.head_bytes_with_date(DATE);
    assert!(head.starts_with(b"HTTP/1.1 404 Not Found\r\n"));
}

#[test]
fn unknown_status_code_is_not_set() {
    let mut c = conn(b"GET / HTTP/1.1\r\n\r\n");
    c.set_status(299);
    assert_eq!(c.status(), None);
    c.set_status(101);
    assert_eq!(c.status(), Some(101));
}

#[test]
fn known_length_body_gets_content_length_only() {
    let mut c = conn(b"GET / HTTP/1.1\r\n\r\n");
    c.set_body(Body::from_bytes(b"hello".to_vec(), b"text/plain".to_vec()));
    assert_eq!(c.body_len(), Some(5));
    let head = c.head_bytes_with_date(DATE);
    assert!(contains(&head, b"content-length: 5\r\n"));
    assert!(!contains(&head, b"transfer-encoding"));
    assert!(contains(&head, b"content-type: text/plain\r\n"));
}

#[test]
fn streaming_body_gets_chunked_encoding_only() {
    let mut c = conn(b"GET / HTTP/1.1\r\n\r\n");
    c.set_body(Body::streaming(b"application/octet-stream".to_vec()));
    assert_eq!(c.body_len(), None);
    let head = c.head_bytes_with_date(DATE);
    assert!(contains(&head, b"transfer-encoding: chunked\r\n"));
    assert!(!contains(&head, b"content-length"));
}

#[test]
fn framing_set_by_the_application_is_kept() {
    let mut c = conn(b"GET / HTTP/1.1\r\n\r\n");
    c.insert_response_header(b"Transfer-Encoding", b"chunked");
    c.set_body(Body::from_bytes(b"abc".to_vec(), b"text/plain".to_vec()));
    let head = c.head_bytes_with_date(DATE);
    assert!(!contains(&head, b"content-length"));
    assert!(contains(&head, b"transfer-encoding: chunked\r\n"));
}

#[test]
fn date_set_by_the_application_is_kept() {
    let mut c = conn(b"GET / HTTP/1.1\r\n\r\n");
    c.insert_response_header(b"Date", b"yesterday");
    let head = c.head_bytes_with_date(DATE);
    assert!(contains(&head, b"date: yesterday\r\n"));
    assert!(!contains(&head, DATE));
}

#[test]
fn content_type_set_by_the_application_is_kept() {
    let mut c = conn(b"GET / HTTP/1.1\r\n\r\n");
    c.insert_response_header(b"Content-Type", b"text/html");
    c.set_body(Body::from_bytes(b"x".to_vec(), b"text/plain".to_vec()));
    assert_eq!(c.response_headers().get(b"content-type").unwrap(), &vec![b"text/html".to_vec()]);
}

#[test]
fn head_request_sends_no_body_but_declares_its_length() {
    let mut c = conn(b"HEAD / HTTP/1.1\r\n\r\n");
    c.set_status(200);
    c.set_body(Body::from_bytes(b"hello".to_vec(), b"text/plain".to_vec()));
    let e = c.encode_with_date(DATE);
    assert!(e.body.is_none());
    assert!(contains(&e.head, b"content-length: 5\r\n"));
}

#[test]
fn get_request_hands_out_the_body() {
    let mut c = conn(b"GET / HTTP/1.1\r\n\r\n");
    c.set_body(Body::from_bytes(b"hello".to_vec(), b"text/plain".to_vec()));
    let e = c.encode();
    match e.body {
        Some(Body::Fixed { bytes, .. }) => assert_eq!(bytes, b"hello".to_vec()),
        other => panic!("unexpected {:?}", other),
    }
    assert!(c.response_body().is_none());
}

#[test]
fn response_headers_are_written_in_name_order() {
    let mut a = conn(b"GET / HTTP/1.1\r\n\r\n");
    a.insert_response_header(b"X-Zeta", b"1");
    a.insert_response_header(b"accept-ranges", b"bytes");
    a.insert_response_header(b"Via", b"p");
    let mut b = conn(b"GET / HTTP/1.1\r\n\r\n");
    b.insert_response_header(b"via", b"p");
    b.insert_response_header(b"x-zeta", b"1");
    b.insert_response_header(b"Accept-Ranges", b"bytes");
    let ha = a.head_bytes_with_date(DATE);
    let hb = b.head_bytes_with_date(DATE);
    assert_eq!(ha, hb);
    let mut expected = b"HTTP/1.1 404 Not Found\r\naccept-ranges: bytes\r\ncontent-length: 0\r\ndate: ".to_vec();
    expected.extend_from_slice(DATE);
    expected.extend_from_slice(b"\r\nvia: p\r\nx-zeta: 1\r\n\r\n");
    assert_eq!(ha, expected);
}

#[test]
fn multiple_values_are_written_one_per_line() {
    let mut h = Headers::new();
    h.append(b"Set-Cookie", b"a=1");
    h.append(b"set-cookie", b"b=2");
    let mut out = Vec::new();
    h.write_lines(&mut out);
    assert_eq!(out, b"set-cookie: a=1\r\nset-cookie: b=2\r\n".to_vec());
}

#[test]
fn insert_replaces_all_values() {
    let mut h = Headers::new();
    h.append(b"A", b"1");
    h.append(b"a", b"2");
    h.insert(b"a", b"3");
    assert_eq!(h.get(b"A").unwrap(), &vec![b"3".to_vec()]);
    assert_eq!(h.len(), 1);
}

#[test]
fn connection_close_in_request_closes() {
    let c = conn(b"GET / HTTP/1.1\r\nConnection: close\r\n\r\n");
    assert!(c.should_close());
}

#[test]
fn connection_close_is_case_insensitive() {
    let c = conn(b"GET / HTTP/1.1\r\nconnection: CLOSE\r\n\r\n");
    assert!(c.should_close());
    let c = conn(b"GET / HTTP/1.1\r\nConnection: Close\r\n\r\n");
    assert!(c.should_close());
}

#[test]
fn connection_close_among_other_tokens_closes() {
    let c = conn(b"GET / HTTP/1.1\r\nConnection: keep-alive, Close\r\n\r\n");
    assert!(c.should_close());
    let c = conn(b"GET / HTTP/1.1\r\nConnection: close,upgrade\r\n\r\n");
    assert!(c.should_close());
}

#[test]
fn connection_close_in_response_closes() {
    let mut c = conn(b"GET / HTTP/1.1\r\n\r\n");
    assert!(!c.should_close());
    c.insert_response_header(b"Connection", b"close");
    assert!(c.should_close());
}

#[test]
fn keep_alive_does_not_close() {
    let c = conn(b"GET / HTTP/1.1\r\nConnection: keep-alive\r\n\r\n");
    assert!(!c.should_close());
    let c = conn(b"GET / HTTP/1.1\r\nConnection: closed\r\n\r\n");
    assert!(!c.should_close());
}

fn upgrade_conn(upgrade: bool, connection: Option<&str>, status: Option<u16>) -> Conn {
    let mut head = b"GET /ws HTTP/1.1\r\n".to_vec();
    if upgrade {
        head.extend_from_slice(b"Upgrade: websocket\r\n");
    }
    if let Some(v) = connection {
        head.extend_from_slice(format!("Connection: {}\r\n", v).as_bytes());
    }
    head.extend_from_slice(b"\r\n");
    let mut c = Conn::new(&head, Vec::new()).unwrap();
    if let Some(s) = status {
        c.set_status(s);
    }
    c
}

#[test]
fn upgrade_needs_all_three_conditions() {
    assert!(upgrade_conn(true, Some("Upgrade"), Some(101)).should_upgrade());
    assert!(upgrade_conn(true, Some("keep-alive, upgrade"), Some(101)).should_upgrade());
    assert!(!upgrade_conn(false, Some("Upgrade"), Some(101)).should_upgrade());
    assert!(!upgrade_conn(true, None, Some(101)).should_upgrade());
    assert!(!upgrade_conn(true, Some("keep-alive"), Some(101)).should_upgrade());
    assert!(!upgrade_conn(true, Some("Upgrade"), Some(200)).should_upgrade());
    assert!(!upgrade_conn(true, Some("Upgrade"), None).should_upgrade());
}

#[test]
fn finish_upgrades_with_the_buffered_bytes() {
    let mut head = b"GET /ws HTTP/1.1\r\nUpgrade: websocket\r\nConnection: Upgrade\r\n\r\n".to_vec();
    head.truncate(head.len());
    let mut c = conn_with_buffer(&head, b"frame");
    c.set_status(101);
    match c.finish() {
        Finish::Upgrade(u) => {
            assert_eq!(u.buffer, Some(b"frame".to_vec()));
            assert_eq!(u.path, "/ws");
            assert_eq!(u.method, b"GET".to_vec());
        }
        other => panic!("unexpected {:?}", other),
    }
}

#[test]
fn finish_prefers_closing_to_upgrading() {
    let mut c = conn(b"GET /ws HTTP/1.1\r\nUpgrade: websocket\r\nConnection: Upgrade\r\n\r\n");
    c.set_status(101);
    c.insert_response_header(b"Connection", b"close");
    assert!(matches!(c.finish(), Finish::Close));
}

#[test]
fn finish_reads_the_next_head_from_the_buffer() {
    let c = conn_with_buffer(b"GET / HTTP/1.1\r\n\r\n", b"GET /next");
    match c.finish() {
        Finish::Next(b) => assert_eq!(b, Some(b"GET /next".to_vec())),
        other => panic!("unexpected {:?}", other),
    }
    let c = conn(b"GET / HTTP/1.1\r\n\r\n");
    assert!(matches!(c.finish(), Finish::Next(None)));
}

#[test]
fn clean_close_before_next_head_ends_normally() {
    assert!(matches!(ConnectionStatus::from_next(Err(Error::ClosedByClient)), Ok(ConnectionStatus::Close)));
    assert!(matches!(ConnectionStatus::from_next(Err(Error::PartialHead)), Err(Error::PartialHead)));
    let c = conn(b"GET / HTTP/1.1\r\n\r\n");
    assert!(matches!(ConnectionStatus::from_next(Ok(c)), Ok(ConnectionStatus::Conn(_))));
}

#[test]
fn fixed_length_body_is_read_exactly() {
    let mut c = conn_with_buffer(b"POST / HTTP/1.1\r\nContent-Length: 5\r\n\r\n", b"he");
    let (send_continue, r) = c.initialize_request_body_state();
    assert!(!send_continue);
    assert!(r.is_ok());
    assert_eq!(c.request_body_state(), RequestBodyState::FixedLength { current_index: 0, total_length: 5 });
    let carried = c.take_buffer();
    assert_eq!(c.read_fixed(carried), b"he".to_vec());
    assert_eq!(c.request_body_state(), RequestBodyState::FixedLength { current_index: 2, total_length: 5 });
    assert_eq!(c.read_fixed(b"lloGET /".to_vec()), b"llo".to_vec());
    assert_eq!(c.request_body_state(), RequestBodyState::End);
    assert_eq!(c.read_fixed(b"x".to_vec()), Vec::<u8>::new());
    assert_eq!(c.take_buffer(), b"GET /x".to_vec());
}

#[test]
fn zero_length_body_ends_at_first_read() {
    let mut c = conn(b"POST / HTTP/1.1\r\nContent-Length: 0\r\n\r\n");
    assert!(c.initialize_request_body_state().1.is_ok());
    assert_eq!(c.read_fixed(Vec::new()), Vec::<u8>::new());
    assert_eq!(c.request_body_state(), RequestBodyState::End);
}

#[test]
fn no_framing_headers_means_no_body() {
    let mut c = conn(b"GET / HTTP/1.1\r\n\r\n");
    assert!(c.initialize_request_body_state().1.is_ok());
    assert_eq!(c.request_body_state(), RequestBodyState::End);
}

#[test]
fn content_length_with_chunked_is_refused_in_either_order() {
    let mut a = conn(b"POST / HTTP/1.1\r\nContent-Length: 3\r\nTransfer-Encoding: chunked\r\n\r\n");
    assert_eq!(a.initialize_request_body_state().1, Err(Error::UnexpectedHeader("content-length".to_string())));
    let mut b = conn(b"POST / HTTP/1.1\r\nTransfer-Encoding: gzip, Chunked\r\nContent-Length: 3\r\n\r\n");
    assert_eq!(b.initialize_request_body_state().1, Err(Error::UnexpectedHeader("content-length".to_string())));
    assert_eq!(b.request_body_state(), RequestBodyState::Start);
}

#[test]
fn malformed_content_length_is_refused() {
    let c = conn(b"POST / HTTP/1.1\r\nContent-Length: 12x\r\n\r\n");
    assert_eq!(c.request_content_length(), Err(Error::MalformedHeader("content-length".to_string())));
    let c = conn(b"POST / HTTP/1.1\r\nContent-Length:  42 \r\n\r\n");
    assert_eq!(c.request_content_length(), Ok(Some(42)));
    let c = conn(b"POST / HTTP/1.1\r\nContent-Length: 18446744073709551616\r\n\r\n");
    assert!(c.request_content_length().is_err());
    let c = conn(b"POST / HTTP/1.1\r\nContent-Length: 18446744073709551615\r\n\r\n");
    assert_eq!(c.request_content_length(), Ok(Some(u64::MAX)));
}

#[test]
fn expect_continue_is_reported_once() {
    let mut c = conn(b"POST / HTTP/1.1\r\nExpect: 100-Continue\r\nContent-Length: 1\r\n\r\n");
    assert!(c.needs_100_continue());
    assert_eq!(c.initialize_request_body_state(), (true, Ok(())));
    assert_eq!(c.initialize_request_body_state(), (false, Ok(())));
}

#[test]
fn chunked_body_is_decoded_and_ends() {
    let mut c = conn(b"POST / HTTP/1.1\r\nTransfer-Encoding: chunked\r\n\r\n");
    assert!(c.initialize_request_body_state().1.is_ok());
    assert_eq!(c.read_chunked(b"5\r\nhel".to_vec()).unwrap(), b"hel".to_vec());
    assert_eq!(c.read_chunked(b"lo\r\nA;ext=1\r\n0123456789\r\n0\r\n\r\nGET".to_vec()).unwrap(), b"lo0123456789".to_vec());
    assert_eq!(c.request_body_state(), RequestBodyState::End);
    assert_eq!(c.take_buffer(), b"GET".to_vec());
}

#[test]
fn chunked_body_with_trailers_ends() {
    let mut c = conn(b"POST / HTTP/1.1\r\nTransfer-Encoding: chunked\r\n\r\n");
    assert!(c.initialize_request_body_state().1.is_ok());
    assert_eq!(c.read_chunked(b"3\r\nabc\r\n0\r\nX-T: 1\r\n\r\n".to_vec()).unwrap(), b"abc".to_vec());
    assert_eq!(c.request_body_state(), RequestBodyState::End);
}

#[test]
fn malformed_chunk_is_an_error() {
    let mut c = conn(b"POST / HTTP/1.1\r\nTransfer-Encoding: chunked\r\n\r\n");
    assert!(c.initialize_request_body_state().1.is_ok());
    assert_eq!(c.read_chunked(b"zz\r\n".to_vec()), Err(Error::MalformedChunk));
    let mut c = conn(b"POST / HTTP/1.1\r\nTransfer-Encoding: chunked\r\n\r\n");
    assert!(c.initialize_request_body_state().1.is_ok());
    assert_eq!(c.read_chunked(b"2\r\nabX".to_vec()), Err(Error::MalformedChunk));
}

#[test]
fn chunked_encoding_round_trips_for_any_partition() {
    let payload = b"the quick brown fox jumps over the lazy dog".to_vec();
    for size in 1..payload.len() + 1 {
        let chunks: Vec<Vec<u8>> = payload.chunks(size).map(|c| c.to_vec()).collect();
        let wire = encode_chunked(&chunks);
        let mut decoded = Vec::new();
        let mut state = ChunkState::Size { value: 0, any: false };
        for piece in wire.chunks(3) {
            let (next, out, used) = decode_chunks(state, piece).unwrap();
            assert_eq!(used, piece.len());
            decoded.extend_from_slice(&out);
            state = next;
        }
        assert_eq!(state, ChunkState::Done);
        assert_eq!(decoded, payload);
    }
}

#[test]
fn chunks_are_framed_in_hex() {
    assert_eq!(encode_chunk(b"hello"), b"5\r\nhello\r\n".to_vec());
    assert_eq!(encode_chunk(&[7u8; 26]).starts_with(b"1A\r\n"), true);
    assert_eq!(encode_chunk(b""), Vec::<u8>::new());
    assert_eq!(encode_last_chunk(), b"0\r\n\r\n".to_vec());
    assert_eq!(encode_chunked(&vec![b"ab".to_vec(), Vec::new(), b"c".to_vec()]), b"2\r\nab\r\n1\r\nc\r\n0\r\n\r\n".to_vec());
}

#[test]
fn url_forms() {
    let c = conn(b"GET /a?b HTTP/1.1\r\nHost: example.com\r\n\r\n");
    assert_eq!(c.url_text(), Some(b"http://example.com/a?b".to_vec()));
    assert_eq!(c.url().unwrap().as_str(), "http://example.com/a?b");
    let c = conn(b"GET /a HTTP/1.1\r\n\r\n");
    assert_eq!(c.url_text(), Some(b"http://_/a".to_vec()));
    let c = conn(b"GET https://x.org/p HTTP/1.1\r\n\r\n");
    assert_eq!(c.url_text(), Some(b"https://x.org/p".to_vec()));
    let c = conn(b"CONNECT x.org:443 HTTP/1.1\r\n\r\n");
    assert_eq!(c.url_text(), Some(b"http://x.org:443/".to_vec()));
    let c = conn(b"OPTIONS * HTTP/1.1\r\n\r\n");
    assert_eq!(c.url_text(), None);
    assert_eq!(c.url().unwrap_err(), Error::UnexpectedURIFormat);
}

#[test]
fn utf8_reads_text_or_says_not_utf8() {
    assert_eq!(utf8(b"hello"), "hello");
    assert_eq!(utf8(&[0xff, 0xfe]), "not utf8");
    assert_eq!(utf8(b""), "");
}

#[test]
fn rendered_body_is_typed_by_extension() {
    let b = rendered_body("<p>hi</p>", Some("html"));
    assert_eq!(b.len(), Some(9));
    assert_eq!(b.mime(), &b"text/html".to_vec());
    let b = rendered_body("hi", Some(""));
    assert!(b.mime().starts_with(b"text/plain"));
    let b = rendered_body("hi", None);
    assert!(b.mime().starts_with(b"text/plain"));
}

#[test]
fn secure_flag_is_set_from_outside() {
    let mut c = conn(b"GET / HTTP/1.1\r\n\r\n");
    c.set_secure(true);
    assert!(c.is_secure());
}

#[test]
fn body_reads_follow_the_framing() {
    let mut c = conn(b"POST / HTTP/1.1\r\nContent-Length: 3\r\n\r\n");
    assert_eq!(c.read_body(b"abc".to_vec()), Ok(Vec::new()));
    assert_eq!(c.take_buffer(), b"abc".to_vec());
    assert!(c.initialize_request_body_state().1.is_ok());
    assert!(!c.body_complete());
    assert_eq!(c.read_body(b"abcd".to_vec()), Ok(b"abc".to_vec()));
    assert!(c.body_complete());
    assert_eq!(c.take_buffer(), b"d".to_vec());
    let mut c = conn(b"POST / HTTP/1.1\r\nTransfer-Encoding: chunked\r\n\r\n");
    assert!(c.initialize_request_body_state().1.is_ok());
    assert_eq!(c.read_body(b"1\r\nz\r\n0\r\n\r\n".to_vec()), Ok(b"z".to_vec()));
    assert!(c.body_complete());
}
