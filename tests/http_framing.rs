use fetch_engine::error::FetchError;
use fetch_engine::http::{find_header, frame_response, read_chunked, request_bytes, Chunked, Framing};

#[test]
fn chunked_body_is_joined() {
    let buf = b"4\r\nWiki\r\n5\r\npedia\r\n0\r\n\r\n";
    match read_chunked(buf, 0) {
        Chunked::Done(body, end) => {
            assert_eq!(body, b"Wikipedia".to_vec());
            assert_eq!(end, buf.len());
        }
        other => panic!("unexpected {:?}", other),
    }
}

#[test]
fn chunked_body_with_trailer_and_hex_sizes() {
    let buf = b"A\r\n0123456789\r\n1f\r\nabcdefghijklmnopqrstuvwxyz01234\r\n0\r\nX-Trailer: 1\r\n\r\n";
    match read_chunked(buf, 0) {
        Chunked::Done(body, _) => {
            assert_eq!(body, b"0123456789abcdefghijklmnopqrstuvwxyz01234".to_vec());
        }
        other => panic!("unexpected {:?}", other),
    }
}

#[test]
fn chunked_body_rejects_bad_size() {
    assert!(matches!(read_chunked(b"zz\r\nabc\r\n0\r\n\r\n", 0), Chunked::Invalid));
}

#[test]
fn chunked_body_waits_for_more() {
    assert!(matches!(read_chunked(b"4\r\nWi", 0), Chunked::Incomplete));
    assert!(matches!(read_chunked(b"4\r\nWiki\r\n0\r\n", 0), Chunked::Incomplete));
}

#[test]
fn content_length_frames_body() {
    let buf = b"HTTP/1.1 200 OK\r\nContent-Length: 5\r\nX-A: 1\r\n\r\nhelloEXTRA";
    match frame_response(buf, false) {
        Framing::Complete(r) => {
            assert_eq!(r.status, b"200".to_vec());
            assert_eq!(r.body, b"hello".to_vec());
            assert_eq!(find_header(&r.headers, b"x-a"), Some(b"1".to_vec()));
        }
        other => panic!("unexpected {:?}", other),
    }
}

#[test]
fn content_length_waits_for_body() {
    let buf = b"HTTP/1.1 200 OK\r\nContent-Length: 10\r\n\r\nhello";
    assert!(matches!(frame_response(buf, false), Framing::NeedMore));
    assert!(matches!(frame_response(buf, true), Framing::Failed(FetchError::ProtocolError)));
}

#[test]
fn bad_content_length_is_protocol_error() {
    let buf = b"HTTP/1.1 200 OK\r\nContent-Length: ten\r\n\r\nhello";
    assert!(matches!(frame_response(buf, false), Framing::Failed(FetchError::ProtocolError)));
}

#[test]
fn transfer_encoding_takes_priority() {
    let buf = b"HTTP/1.1 200 OK\r\nContent-Length: 2\r\nTransfer-Encoding: chunked\r\n\r\n4\r\nWiki\r\n0\r\n\r\n";
    match frame_response(buf, false) {
        Framing::Complete(r) => assert_eq!(r.body, b"Wiki".to_vec()),
        other => panic!("unexpected {:?}", other),
    }
}

#[test]
fn body_until_close() {
    let buf = b"HTTP/1.0 200 OK\r\nServer: x\r\n\r\nall of it";
    assert!(matches!(frame_response(buf, false), Framing::NeedMore));
    match frame_response(buf, true) {
        Framing::Complete(r) => assert_eq!(r.body, b"all of it".to_vec()),
        other => panic!("unexpected {:?}", other),
    }
}

#[test]
fn status_line_without_code_fails() {
    assert!(matches!(
        frame_response(b"HTTP/1.1\r\n\r\n", true),
        Framing::Failed(FetchError::ProtocolError)
    ));
}

#[test]
fn headers_are_lowercased_trimmed_and_last_wins() {
    let buf = b"HTTP/1.1 200 OK\r\nX-Name:  first \r\nno colon line\r\nx-name: second\r\nContent-Length: 0\r\n\r\n";
    match frame_response(buf, false) {
        Framing::Complete(r) => {
            assert_eq!(find_header(&r.headers, b"x-name"), Some(b"second".to_vec()));
            assert_eq!(r.headers.len(), 3);
            assert_eq!(r.headers[0], (b"x-name".to_vec(), b"first".to_vec()));
        }
        other => panic!("unexpected {:?}", other),
    }
}

#[test]
fn incomplete_head_needs_more() {
    assert!(matches!(frame_response(b"HTTP/1.1 200 OK\r\nA: b\r\n", false), Framing::NeedMore));
    assert!(matches!(frame_response(b"HTTP/1.1 2", false), Framing::NeedMore));
}

#[test]
fn request_has_fixed_header_order() {
    assert_eq!(
        request_bytes(b"example.org", b"/index.html"),
        b"GET /index.html HTTP/1.1\r\nHost: example.org\r\nConnection: keep-alive\r\nUser-Agent: Project P\r\nAccept-Encoding: gzip\r\n\r\n".to_vec()
    );
}
