use sandbox_runtime::vm::http::{
    find_header_end, http_request, parse_head, write_request, Progress, Reply, ResponseReader,
};
use sandbox_runtime::vm::VmError;
use serde_json::Value;

fn read(reads: &[&[u8]]) -> Progress {
    let mut reader = ResponseReader::new();
    for bytes in reads {
        match reader.on_read(bytes) {
            Progress::More(next) => reader = next,
            other => return other,
        }
    }
    Progress::More(reader)
}

fn reply(progress: Progress) -> Reply {
    match progress {
        Progress::Done(reply) => reply,
        Progress::More(_) => panic!("more"),
        Progress::Failed(e) => panic!("{}", e.message()),
        Progress::Oversized => panic!("oversized"),
    }
}

#[test]
fn writes_a_request() {
    let request = write_request("PUT", "/vm", "{}");
    assert_eq!(
        request,
        b"PUT /vm HTTP/1.1\r\nHost: localhost\r\nContent-Type: application/json\r\n\
          Content-Length: 2\r\n\r\n{}"
            .to_vec()
    );
}

#[test]
fn announces_the_length_in_bytes() {
    let request = write_request("PUT", "/", "\u{e9}\u{3000}");
    let text = String::from_utf8(request.clone()).unwrap();
    let end = find_header_end(&request).unwrap();
    assert_eq!(parse_head(&text[..end]).content_length, 5);
    assert_eq!(request.len(), end + 4 + 5);
}

#[test]
fn null_is_sent_as_nothing() {
    let request = http_request("GET", "/", &Value::Null);
    assert_eq!(
        request,
        b"GET / HTTP/1.1\r\nHost: localhost\r\nContent-Type: application/json\r\n\
          Content-Length: 0\r\n\r\n"
            .to_vec()
    );
}

#[test]
fn other_documents_are_sent_as_text() {
    let request = http_request("PUT", "/", &Value::from("a\"b\n"));
    assert!(request.ends_with(b"Content-Length: 8\r\n\r\n\"a\\\"b\\n\""));
}

#[test]
fn finds_the_first_blank_line() {
    assert_eq!(find_header_end(b""), None);
    assert_eq!(find_header_end(b"\r\n\r"), None);
    assert_eq!(find_header_end(b"\r\n\r\n"), Some(0));
    assert_eq!(find_header_end(b"a\r\nb\r\n\r\nc\r\n\r\n"), Some(4));
    assert_eq!(find_header_end(b"\r\r\n\r\n"), Some(1));
}

#[test]
fn reads_the_status() {
    assert_eq!(parse_head("HTTP/1.1 204 No Content").status, 204);
    assert_eq!(parse_head("HTTP/1.1\t  +200").status, 200);
    assert_eq!(parse_head("HTTP/1.1\r\n200").status, 0);
    assert_eq!(parse_head("HTTP/1.1 abc").status, 0);
    assert_eq!(parse_head("HTTP/1.1 65536").status, 0);
    assert_eq!(parse_head("").status, 0);
}

#[test]
fn reads_the_content_length() {
    assert_eq!(parse_head("x\r\nContent-Length: 12").content_length, 12);
    assert_eq!(parse_head("x\r\nCONTENT-length:\t7 \r\nb: c").content_length, 7);
    assert_eq!(parse_head("x\r\nContent-Length : 7").content_length, 0);
    assert_eq!(parse_head("x\r\n Content-Length: 7").content_length, 0);
    assert_eq!(parse_head("x\r\nContent-Length: x\r\nContent-Length: 7").content_length, 0);
    assert_eq!(parse_head("x\r\nContent-Length: 5\r\nContent-Length: 7").content_length, 5);
    assert_eq!(parse_head("x\r\nContent-Length: 18446744073709551616").content_length, 0);
    assert_eq!(parse_head("x\r\nLength: 5").content_length, 0);
}

#[test]
fn reads_a_response() {
    let r = reply(read(&[b"HTTP/1.1 200 OK\r\nContent-Length: 9\r\n\r\n{\"a\": 12}"]));
    assert_eq!(r.status, 200);
    assert_eq!(r.body.to_string(), "{\"a\":12}");
}

#[test]
fn a_response_reads_back_as_it_was_written() {
    for reason in ["OK", "", "non trouv\u{e9}", "odd\r"] {
        let body = "{\"state\":\"Running\"}";
        let stream = format!(
            "HTTP/1.1 {} {}\r\nContent-Length: {}\r\n\r\n{} and more",
            65535,
            reason,
            body.len(),
            body
        );
        let r = reply(read(&[stream.as_bytes()]));
        assert_eq!(r.status, 65535);
        assert_eq!(r.body.to_string(), body);
    }
}

#[test]
fn needs_no_end_of_the_connection() {
    let r = reply(read(&[b"HTTP/1.1 204 No Content\r\nServer: api\r\n\r\n"]));
    assert_eq!(r.status, 204);
    assert!(r.body.is_null());
}

#[test]
fn how_a_response_is_cut_makes_no_difference() {
    let stream = b"HTTP/1.1 400 Bad Request\r\nContent-Length: 13\r\n\r\n{\"fault\": [1]} and more";
    let complete = stream.len() - 10;
    for first in 1..complete {
        for second in first + 1..=complete {
            let mut reads: Vec<&[u8]> = vec![&stream[..first], &stream[first..second]];
            if second < complete {
                assert!(matches!(read(&reads), Progress::More(_)));
                reads.push(&stream[second..]);
            }
            let r = reply(read(&reads));
            assert_eq!(r.status, 400);
            assert!(r.body.is_null());
        }
    }
}

#[test]
fn bytes_behind_the_body_are_left_out() {
    let r = reply(read(&[b"HTTP/1.1 200 OK\r\nContent-Length: 2\r\n\r\n12345"]));
    assert_eq!(r.body, Value::from(12u32));
}

#[test]
fn a_body_that_is_cut_short_is_taken_as_it_is() {
    let r = reply(read(&[b"HTTP/1.1 200 OK\r\nContent-Length: 9\r\n\r\n", b"12", b""]));
    assert_eq!(r.body, Value::from(12u32));
    let r = reply(read(&[b"HTTP/1.1 200 OK\r\nContent-Length: 9\r\n\r\n{\"a\"", b""]));
    assert!(r.body.is_null());
}

#[test]
fn a_connection_that_ends_in_the_headers_has_no_response() {
    for reads in [vec![&b""[..]], vec![&b"HTTP/1.1 200 OK\r\n"[..], &b""[..]]] {
        match read(&reads) {
            Progress::Failed(VmError::Timeout(what)) => assert_eq!(what, "HTTP response headers"),
            _ => panic!("a response"),
        }
    }
}

#[test]
fn a_body_beyond_all_memory_is_refused() {
    let head = b"HTTP/1.1 200 OK\r\nContent-Length: 18446744073709551615\r\n\r\n";
    assert!(matches!(read(&[head]), Progress::Oversized));
}

#[test]
fn headers_that_are_no_text_are_read_all_the_same() {
    let r = reply(read(&[b"HTTP/1.1 200 \xff\r\nX: \xfe\r\nContent-Length: 1\r\n\r\n7"]));
    assert_eq!(r.status, 200);
    assert_eq!(r.body, Value::from(7u32));
    let r = reply(read(&[b"HTTP/1.1\xc2\xa0200\r\n\r\n"]));
    assert_eq!(r.status, 200);
}

#[test]
fn deep_documents_are_no_documents() {
    let body = format!("{}{}", "[".repeat(200), "]".repeat(200));
    let stream = format!("HTTP/1.1 200 OK\r\nContent-Length: 400\r\n\r\n{}", body);
    assert!(reply(read(&[stream.as_bytes()])).body.is_null());
}
