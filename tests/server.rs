use rstp::cli::{bind_address, parse_args, same_text};
use rstp::report::{connection_report, peer_label};
use rstp::request::{
    is_white_space_char, parse_request, parse_request_text, split_words, Request,
};
use rstp::resolve::{
    file_to_read, resolve_error_document, resolve_requested, Resolved, ERROR_DOCUMENT,
    FALLBACK_MESSAGE,
};
use rstp::response::{decimal_text, response_header_text, serialize_response};

fn serve(raw: &[u8], requested: Option<&[u8]>, error_document: Option<&[u8]>) -> Vec<u8> {
    let request = parse_request(raw);
    let resolved = match resolve_requested(&request.path, requested.map(|b| b.to_vec())) {
        Some(r) => r,
        None => resolve_error_document(error_document.map(|b| b.to_vec())),
    };
    serialize_response(&resolved.mime, &resolved.content)
}

#[test]
fn root_target_serves_default_document() {
    assert_eq!(parse_request(b"GET / HTTP/1.1\r\nHost: x\r\n\r\n").path, "index.html");
    assert_eq!(parse_request(b"POST / HTTP/1.1\r\n\r\n").path, "index.html");
    assert_eq!(parse_request(b"HEAD / HTTP/1.1").path, "index.html");
    let r = parse_request(b"DELETE / HTTP/1.1\n");
    assert_eq!(r.method, "DELETE");
    assert_eq!(r.path, "index.html");
}

#[test]
fn method_and_path_are_taken_literally() {
    let r = parse_request(b"GET /index.html HTTP/1.1\r\n\r\n");
    assert_eq!(r.method, "GET");
    assert_eq!(r.path, "/index.html");
    let r = parse_request(b"get /a%20b?x=1 HTTP/1.0\r\n");
    assert_eq!(r.method, "get");
    assert_eq!(r.path, "/a%20b?x=1");
}

#[test]
fn short_request_lines_take_defaults() {
    let r = parse_request(b"\r\n\r\n");
    assert_eq!(r.method, "GET");
    assert_eq!(r.path, "index.html");
    let r = parse_request(b"   \t  \r\nGET /other HTTP/1.1\r\n");
    assert_eq!(r.method, "GET");
    assert_eq!(r.path, "index.html");
    let r = parse_request(b"FETCH\r\n");
    assert_eq!(r.method, "FETCH");
    assert_eq!(r.path, "index.html");
}

#[test]
fn empty_request_asks_for_error_document() {
    let r = parse_request(b"");
    assert_eq!(r.method, "GET");
    assert_eq!(r.path, "/error.html");
}

#[test]
fn invalid_utf8_counts_as_empty_request() {
    let r = parse_request(&[0x47, 0x45, 0x54, 0x20, 0xff, 0xfe]);
    assert_eq!(r.method, "GET");
    assert_eq!(r.path, "/error.html");
}

#[test]
fn unicode_white_space_separates_words() {
    let r = parse_request_text("GET\u{3000}/x\u{a0}HTTP/1.1");
    assert_eq!(r.method, "GET");
    assert_eq!(r.path, "/x");
    assert_eq!(split_words("  a\tbc \u{2028}d  "), vec!["a", "bc", "d"]);
    assert!(split_words(" \r\n ").is_empty());
    assert!(is_white_space_char('\u{85}'));
    assert!(!is_white_space_char('\u{200b}'));
    assert!(!is_white_space_char('x'));
}

#[test]
fn only_the_first_line_is_read() {
    let r = parse_request_text("A\nB /c D");
    assert_eq!(r.method, "A");
    assert_eq!(r.path, "index.html");
}

#[test]
fn request_paths_name_files_relative_to_working_directory() {
    assert_eq!(file_to_read("/index.html"), "index.html");
    assert_eq!(file_to_read("//a/b.txt"), "a/b.txt");
    assert_eq!(file_to_read("index.html"), "index.html");
    assert_eq!(file_to_read("/"), "");
}

#[test]
fn readable_file_is_served_with_its_type() {
    let r = resolve_requested("/index.html", Some(b"hello".to_vec())).unwrap();
    assert_eq!(r.file, "/index.html");
    assert_eq!(r.content, b"hello".to_vec());
    assert_eq!(r.mime, "text/html");
    let r = resolve_requested("img/logo.png", Some(vec![0x89, 0x50])).unwrap();
    assert_eq!(r.mime, "image/png");
    assert_eq!(r.content, vec![0x89, 0x50]);
    let r = resolve_requested("/data.unknownext", Some(vec![])).unwrap();
    assert_eq!(r.mime, "application/octet-stream");
    let r = resolve_requested("/README", Some(vec![1])).unwrap();
    assert_eq!(r.mime, "application/octet-stream");
}

#[test]
fn missing_file_falls_back_to_error_document() {
    assert!(resolve_requested("/missing.txt", None).is_none());
    let r = resolve_error_document(Some(b"<h1>oops</h1>".to_vec()));
    assert_eq!(r.file, ERROR_DOCUMENT);
    assert_eq!(r.content, b"<h1>oops</h1>".to_vec());
    assert_eq!(r.mime, "text/html");
}

#[test]
fn missing_error_document_falls_back_to_message() {
    let r = resolve_error_document(None);
    assert_eq!(r.file, "error.html");
    assert_eq!(r.content, b"There was an error processing your request".to_vec());
    assert_eq!(r.content, FALLBACK_MESSAGE.as_bytes().to_vec());
    assert_eq!(r.mime, "text/html");
}

#[test]
fn decimal_lengths() {
    assert_eq!(decimal_text(0), "0");
    assert_eq!(decimal_text(7), "7");
    assert_eq!(decimal_text(10), "10");
    assert_eq!(decimal_text(4096), "4096");
    assert_eq!(decimal_text(usize::MAX), usize::MAX.to_string());
}

#[test]
fn header_layout() {
    assert_eq!(
        response_header_text("image/png", 0),
        "HTTP/1.1 200 OK\r\nContent-Type: image/png\r\nContent-Length: 0\r\n\r\n"
    );
}

#[test]
fn content_length_matches_body() {
    for n in [0usize, 1, 9, 10, 123, 5000] {
        let body: Vec<u8> = (0..n).map(|i| (i % 251) as u8).collect();
        let r = serialize_response("application/octet-stream", &body);
        let end = r.windows(4).position(|w| w == b"\r\n\r\n").unwrap() + 4;
        let header = std::str::from_utf8(&r[..end]).unwrap();
        assert!(header.contains(&format!("\r\nContent-Length: {}\r\n", n)));
        assert_eq!(r.len() - end, n);
        assert_eq!(&r[end..], &body[..]);
    }
}

#[test]
fn end_to_end_existing_file() {
    let raw = b"GET /index.html HTTP/1.1\r\n\r\n";
    let request = parse_request(raw);
    assert_eq!(file_to_read(&request.path), "index.html");
    assert_eq!(
        serve(raw, Some(b"hello"), None),
        b"HTTP/1.1 200 OK\r\nContent-Type: text/html\r\nContent-Length: 5\r\n\r\nhello".to_vec()
    );
}

#[test]
fn end_to_end_missing_file_without_error_document() {
    let out = serve(b"GET /missing.txt HTTP/1.1\r\n\r\n", None, None);
    assert_eq!(
        out,
        b"HTTP/1.1 200 OK\r\nContent-Type: text/html\r\nContent-Length: 42\r\n\r\nThere was an error processing your request".to_vec()
    );
}

#[test]
fn end_to_end_missing_file_with_error_document() {
    let out = serve(b"GET /missing.txt HTTP/1.1\r\n\r\n", None, Some(b"err"));
    assert_eq!(
        out,
        b"HTTP/1.1 200 OK\r\nContent-Type: text/html\r\nContent-Length: 3\r\n\r\nerr".to_vec()
    );
}

#[test]
fn command_line_options() {
    let args = |v: &[&str]| v.iter().map(|s| s.to_string()).collect::<Vec<String>>();
    assert!(parse_args(&args(&["rstp"])).is_none());
    assert!(parse_args(&args(&[])).is_none());
    let o = parse_args(&args(&["rstp", "8080"])).unwrap();
    assert_eq!(o.port, "8080");
    assert!(!o.verbose);
    assert!(parse_args(&args(&["rstp", "8080", "-v"])).unwrap().verbose);
    assert!(parse_args(&args(&["rstp", "8080", "--verbose"])).unwrap().verbose);
    assert!(!parse_args(&args(&["rstp", "8080", "-x"])).unwrap().verbose);
    assert!(!parse_args(&args(&["rstp", "8080", "-v", "extra"])).unwrap().verbose);
    assert_eq!(bind_address("8080"), "127.0.0.1:8080");
    assert!(same_text("ab", "ab"));
    assert!(!same_text("ab", "abc"));
}

#[test]
fn connection_report_lines() {
    assert_eq!(peer_label(None), "unavailable");
    assert_eq!(peer_label(Some("10.0.0.1".to_string())), "10.0.0.1");
    let request = Request { method: "GET".to_string(), path: "/x".to_string() };
    let resolved = Resolved {
        file: "error.html".to_string(),
        content: vec![],
        mime: "text/html".to_string(),
    };
    let quiet = connection_report("1.2.3.4", &request, &resolved, false);
    assert_eq!(
        quiet,
        vec![
            ("From".to_string(), "1.2.3.4".to_string()),
            ("Method".to_string(), "GET".to_string()),
            ("Requested Path".to_string(), "/x".to_string()),
        ]
    );
    let loud = connection_report("1.2.3.4", &request, &resolved, true);
    assert_eq!(loud.len(), 5);
    assert_eq!(loud[3], ("Given Path".to_string(), "error.html".to_string()));
    assert_eq!(loud[4], ("MIME Type".to_string(), "text/html".to_string()));
}
