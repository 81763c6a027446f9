//! HTTP heads and bodies.

use ipp_duplexd::exchange::{read_request, read_response, request_bytes};
use ipp_duplexd::http::{
    address, bad_size_line, blank_line, continue_text, read_body, request_head, BodyReader, Framing, Need,
    Progress, Reply, RequestHead, ResponseReader,
};
use ipp_duplexd::ipp::{self, parse_uri, Msg};
use std::io::{BufRead, Cursor, Read};

/// The same body read with the standard library's buffered readers.
fn read_with_std(
    reader: &mut Cursor<&[u8]>,
    content_length: Option<usize>,
    chunked: bool,
) -> Result<Vec<u8>, String> {
    let mut body = Vec::new();
    if chunked {
        loop {
            let mut l = String::new();
            reader.read_line(&mut l).map_err(|e| e.to_string())?;
            let size = usize::from_str_radix(l.trim().split(';').next().unwrap_or(""), 16)
                .map_err(|_| format!("bad chunk size line {l:?}"))?;
            if size == 0 {
                loop {
                    let mut t = String::new();
                    reader.read_line(&mut t).map_err(|e| e.to_string())?;
                    if t == "\r\n" || t == "\n" || t.is_empty() {
                        break;
                    }
                }
                break;
            }
            let mut chunk = vec![0u8; size];
            reader.read_exact(&mut chunk).map_err(|e| e.to_string())?;
            body.extend_from_slice(&chunk);
            let mut crlf = [0u8; 2];
            reader.read_exact(&mut crlf).map_err(|e| e.to_string())?;
        }
    } else if let Some(n) = content_length {
        body = vec![0u8; n];
        reader.read_exact(&mut body).map_err(|e| e.to_string())?;
    } else {
        reader.read_to_end(&mut body).map_err(|e| e.to_string())?;
    }
    Ok(body)
}

const BODIES: [&[u8]; 15] = [
    b"",
    b"hello",
    b"5\r\nhello\r\n0\r\n\r\nrest",
    b"5;ext=1\r\nhello\r\n6\r\n world\r\n0\r\nTrailer: x\r\n\r\nrest",
    b"A\nabcdefghij\r\n0\n\n",
    b"  a \r\n0123456789\r\n00\r\n",
    b"0\r\n",
    b"0",
    b"5\r\nhel",
    b"5\r\nhello",
    b"zz\r\nhello\r\n",
    b"\"\\\t\r\nhello\r\n",
    b"3\r\n\xff\xfe\xfd\r\n0\r\n\r\n",
    b"\xff\r\n",
    b"0\r\nX: \xff\r\n\r\n",
];

#[test]
fn bodies_as_the_standard_library_reads_them() {
    for input in BODIES {
        for (length, chunked) in [
            (None, false),
            (Some(0), false),
            (Some(3), false),
            (Some(5), false),
            (Some(500), false),
            (None, true),
            (Some(2), true),
        ] {
            let mut reader = Cursor::new(input);
            let expected = read_with_std(&mut reader, length, chunked);
            match (read_body(input, length, chunked), expected) {
                (Ok((body, used)), Ok(want)) => {
                    assert_eq!(body, want, "{input:?} {length:?} {chunked}");
                    assert_eq!(used as u64, reader.position(), "{input:?}");
                }
                (got, want) => {
                    assert_eq!(got.err(), want.err(), "{input:?} {length:?} {chunked}")
                }
            }
        }
    }
}

#[test]
fn chunks_are_joined() {
    let content: Vec<u8> = (0..300u32).map(|i| (i % 251) as u8).collect();
    let tail = b"POST / HTTP/1.1\r\n";
    for size in [1, 2, 7, 10, 16, 255, 299, 300] {
        for content_length in [None, Some(3)] {
            for style in 0..3 {
                let mut input = Vec::new();
                for chunk in content.chunks(size) {
                    let line = match style {
                        0 => format!("{:x}\r\n", chunk.len()),
                        1 => format!("{:X}\r\n", chunk.len()),
                        _ => format!("{:06x}\r\n", chunk.len()),
                    };
                    input.extend_from_slice(line.as_bytes());
                    input.extend_from_slice(chunk);
                    input.extend_from_slice(b"\r\n");
                }
                input.extend_from_slice(b"0\r\n\r\n");
                input.extend_from_slice(tail);
                let (body, used) = read_body(&input, content_length, true).unwrap();
                assert_eq!(body, content);
                assert_eq!(&input[used..], tail);
            }
        }
    }
    let (body, used) = read_body(b"0\r\n\r\nx", None, true).unwrap();
    assert!(body.is_empty());
    assert_eq!(used, 5);
}

#[test]
fn body_errors() {
    assert_eq!(
        read_body(b"zz\r\n", None, true).unwrap_err(),
        "bad chunk size line \"zz\\r\\n\""
    );
    assert_eq!(
        read_body(b"5\r\nab", None, true).unwrap_err(),
        "failed to fill whole buffer"
    );
    assert_eq!(
        read_body(b"\xff\n", None, true).unwrap_err(),
        "stream did not contain valid UTF-8"
    );
    assert_eq!(
        read_body(b"ab", Some(3), false).unwrap_err(),
        "failed to fill whole buffer"
    );
}

#[test]
fn size_line_without_a_size() {
    assert_eq!(bad_size_line("\"q\""), "bad chunk size line \"q\"");
}

#[test]
fn body_in_pieces() {
    let mut r = BodyReader::new(Framing {
        content_length: Some(3),
        chunked: true,
    });
    assert_eq!(r.need, Need::SizeLine);
    assert_eq!(r.on_line("4;x\r\n"), Ok(()));
    assert_eq!(r.need, Need::Chunk(4));
    r.on_bytes(b"abcd");
    assert_eq!(r.need, Need::ChunkEnd);
    r.on_bytes(b"\r\n");
    assert_eq!(
        r.on_line("nope\n"),
        Err("bad chunk size line \"nope\\n\"".to_string())
    );
    assert_eq!(r.on_line("0\r\n"), Ok(()));
    assert_eq!(r.need, Need::TrailerLine);
    assert_eq!(r.on_line("A: b\r\n"), Ok(()));
    assert_eq!(r.need, Need::TrailerLine);
    assert_eq!(r.on_line("\r\n"), Ok(()));
    assert_eq!(r.need, Need::Nothing);
    assert_eq!(r.body, b"abcd");

    let mut r = BodyReader::new(Framing {
        content_length: Some(2),
        chunked: false,
    });
    assert_eq!(r.need, Need::Exact(2));
    r.on_bytes(b"xy");
    assert_eq!((r.need, r.body), (Need::Nothing, b"xy".to_vec()));
    let mut r = BodyReader::new(Framing::new());
    assert_eq!(r.need, Need::Rest);
    r.on_bytes(b"all");
    assert_eq!((r.need, r.body), (Need::Nothing, b"all".to_vec()));
}

#[test]
fn framing_headers() {
    let mut f = Framing::new();
    f.header("Content-Length:  42 \r\n");
    assert_eq!(f.content_length, Some(42));
    f.header("CONTENT-LENGTH: x\r\n");
    assert_eq!(f.content_length, None);
    f.header("Transfer-Encoding: gzip\r\n");
    f.header("X-Transfer-Encoding: chunked\r\n");
    assert!(!f.chunked);
    f.header("Transfer-Encoding: gzip, Chunked\r\n");
    assert!(f.chunked);
    assert!(blank_line("\r\n") && blank_line("\n"));
    assert!(!blank_line("") && !blank_line(" \r\n"));
}

#[test]
fn request_heads() {
    let mut h = RequestHead::open("POST  /ipp/print HTTP/1.1\r\n").unwrap();
    assert_eq!((h.method.as_str(), h.path.as_str()), ("POST", "/ipp/print"));
    assert!(h.has_body() && h.keep_alive && !h.expect_continue);
    h.header("Expect: 100-Continue\r\n");
    h.header("Content-Length: 7\r\n");
    h.header("Connection: Keep-Alive\r\n");
    assert!(h.expect_continue && h.keep_alive);
    h.header("connection: CLOSE\r\n");
    assert!(!h.keep_alive);
    assert_eq!(h.framing.content_length, Some(7));
    assert!(RequestHead::open("GET\r\n").is_none());
    assert!(RequestHead::open("\r\n").is_none());
    assert!(!RequestHead::open("GET /").unwrap().has_body());
    assert_eq!(continue_text(), "HTTP/1.1 100 Continue\r\n\r\n");
}

#[test]
fn answers_in_bytes() {
    let r = Reply::new("200 OK", "text/plain", b"hi\n".to_vec());
    assert_eq!(
        r.encode(true),
        b"HTTP/1.1 200 OK\r\nContent-Type: text/plain\r\nContent-Length: 3\r\nConnection: keep-alive\r\n\r\nhi\n"
    );
    assert_eq!(
        r.encode(false),
        b"HTTP/1.1 200 OK\r\nContent-Type: text/plain\r\nContent-Length: 3\r\nConnection: close\r\n\r\nhi\n"
    );
}

#[test]
fn requests_in_bytes() {
    let target = parse_uri("ipp://printer:8631/ipp/print").unwrap();
    assert_eq!(address(&target), "printer:8631");
    assert_eq!(
        request_head(&target, 12),
        "POST /ipp/print HTTP/1.1\r\nHost: printer:8631\r\nContent-Type: application/ipp\r\nContent-Length: 12\r\nUser-Agent: ipp-duplexd/0.1\r\nConnection: close\r\n\r\n"
    );
    let msg = Msg::response(ipp::OK, 5);
    let bytes = request_bytes(&target, &msg);
    let (head, body) = read_request(&bytes).unwrap();
    assert_eq!((head.method.as_str(), head.path.as_str()), ("POST", "/ipp/print"));
    assert!(!head.keep_alive && !head.expect_continue);
    let (body, used) = body.unwrap();
    assert_eq!(body, msg.encode());
    assert_eq!(used, bytes.len());
}

#[test]
fn sequential_requests_on_one_connection() {
    let input = b"POST /a HTTP/1.1\r\nContent-Length: 2\r\n\r\nxyGET /flip HTTP/1.1\r\nConnection: close\r\n\r\n";
    let (head, body) = read_request(input).unwrap();
    assert_eq!(head.path, "/a");
    let (body, used) = body.unwrap();
    assert_eq!(body, b"xy");
    let (head, body) = read_request(&input[used..]).unwrap();
    assert_eq!((head.method.as_str(), head.path.as_str()), ("GET", "/flip"));
    assert!(!head.keep_alive);
    assert_eq!(body, Ok((vec![], input.len() - used)));
    assert!(read_request(b"").is_none());
    assert!(read_request(b"GET / HTTP/1.1\r\nHost: x\r\n").is_none());
    assert!(read_request(b"\xff / \r\n\r\n").is_none());
    let (_, body) = read_request(b"POST / HTTP/1.1\r\nContent-Length: 9\r\n\r\nx").unwrap();
    assert_eq!(body.unwrap_err(), "failed to fill whole buffer");
}

#[test]
fn responses_in_bytes() {
    let msg = Msg::response(ipp::ERR_BAD_REQUEST, 9);
    let reply = Reply::new("200 OK", "application/ipp", msg.encode());
    for keep_alive in [true, false] {
        let mut bytes = reply.encode(keep_alive);
        bytes.extend_from_slice(b"HTTP/1.1 next");
        let back = read_response(&bytes, "ipp://x").unwrap();
        assert_eq!(back.encode(), msg.encode());
    }
    let mut interim = b"HTTP/1.1 100 Continue\r\nA: b\r\n\r\n".to_vec();
    interim.extend_from_slice(&reply.encode(false));
    assert_eq!(
        read_response(&interim, "ipp://x").unwrap().encode(),
        msg.encode()
    );
    let mut until_end = b"HTTP/1.1 200 OK\n\n".to_vec();
    until_end.extend_from_slice(&msg.encode());
    assert_eq!(
        read_response(&until_end, "ipp://x").unwrap().encode(),
        msg.encode()
    );
}

#[test]
fn response_errors() {
    let err = |bytes: &[u8]| read_response(bytes, "ipp://h/p").unwrap_err();
    let refused = Reply::new("400 Bad Request", "text/plain", b"no".to_vec());
    assert_eq!(err(&refused.encode(false)), "http status 400 from ipp://h/p");
    assert_eq!(err(b""), "http status  from ipp://h/p");
    assert_eq!(
        err(b"HTTP/1.1 100 Continue\r\n"),
        "http status  from ipp://h/p"
    );
    assert_eq!(err(b"\xff\n"), "stream did not contain valid UTF-8");
    assert_eq!(err(b"HTTP/1.1 200 OK\r\n\r\nx"), "ipp message too short");
    assert_eq!(
        err(b"HTTP/1.1 200 OK\r\nContent-Length: 5\r\n\r\nx"),
        "failed to fill whole buffer"
    );
}

#[test]
fn response_head_line_by_line() {
    let mut r = ResponseReader::new();
    assert!(matches!(r.on_line("HTTP/1.1 200 OK\r\n", "u"), Progress::Line));
    assert!(matches!(
        r.on_line("Transfer-Encoding: chunked\r\n", "u"),
        Progress::Line
    ));
    match r.on_line("\r\n", "u") {
        Progress::Body(f) => assert!(f.chunked && f.content_length.is_none()),
        other => panic!("{other:?}"),
    }
}
