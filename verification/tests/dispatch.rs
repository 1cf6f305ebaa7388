use form_server::dispatch::{
    appended, begin, body_read, file_read, located, parsed, route, Next, Route, MAX_BODY_BYTES,
};
use form_server::form::FormData;
use form_server::response::Response;
use hyper::header::HeaderValue;
use hyper::HeaderMap;

fn no_headers() -> HeaderMap {
    HeaderMap::new()
}

fn content_type(value: &'static str) -> HeaderMap {
    let mut headers = HeaderMap::new();
    headers.insert("Content-Type", HeaderValue::from_static(value));
    headers
}

fn submission(name: &str, email: &str, message: &str) -> FormData {
    FormData { name: name.to_string(), email: email.to_string(), message: message.to_string() }
}

fn response(next: Next) -> Response {
    match next {
        Next::Respond(response) => response,
        _ => panic!("no response yet"),
    }
}

fn is_guarded(response: &Response) -> bool {
    let single = |name: &str, value: &str| {
        let all: Vec<&HeaderValue> = response.headers().get_all(name).iter().collect();
        all.len() == 1 && all[0].as_bytes() == value.as_bytes()
    };
    single("Content-Security-Policy", "default-src 'self'")
        && single("X-Content-Type-Options", "nosniff")
        && single("X-Frame-Options", "DENY")
}

fn answers(response: &Response, status: u16, body: &str) -> bool {
    response.status() == status && response.body() == body && is_guarded(response)
}

#[test]
fn every_get_asks_for_a_file() {
    assert_eq!(route("GET", "/"), Route::ServeFile);
    assert_eq!(route("GET", "/index.html"), Route::ServeFile);
    assert_eq!(route("GET", "/submit"), Route::ServeFile);
    assert_eq!(route("GET", "/../x"), Route::ServeFile);
}

#[test]
fn a_post_to_the_submission_path_is_a_submission() {
    assert_eq!(route("POST", "/submit"), Route::Submit);
}

#[test]
fn nothing_else_is_served() {
    assert_eq!(route("POST", "/"), Route::NotFound);
    assert_eq!(route("POST", "/submit/"), Route::NotFound);
    assert_eq!(route("POST", "/Submit"), Route::NotFound);
    assert_eq!(route("PUT", "/submit"), Route::NotFound);
    assert_eq!(route("DELETE", "/index.html"), Route::NotFound);
    assert_eq!(route("HEAD", "/"), Route::NotFound);
    assert_eq!(route("get", "/"), Route::NotFound);
    assert_eq!(route("", ""), Route::NotFound);
}

#[test]
fn a_get_of_the_root_looks_for_the_default_document() {
    match begin("GET", "/", &no_headers()) {
        Next::Locate(file) => assert_eq!(file, "static/form.html"),
        _ => panic!("the default document was not looked for"),
    }
}

#[test]
fn a_get_looks_for_the_file_under_the_root() {
    match begin("GET", "/css/site.css", &content_type("text/plain")) {
        Next::Locate(file) => assert_eq!(file, "static/css/site.css"),
        _ => panic!("the file was not looked for"),
    }
}

#[test]
fn a_get_that_leaves_the_root_is_a_bad_request() {
    let reply = response(begin("GET", "/../secret.txt", &no_headers()));
    assert!(answers(&reply, 400, "400 - Invalid path"));
    let reply = response(begin("GET", "//etc/passwd", &no_headers()));
    assert!(answers(&reply, 400, "400 - Invalid path"));
}

#[test]
fn a_file_that_is_not_on_disk_is_a_bad_request() {
    let reply = response(located("/missing.html", false));
    assert!(answers(&reply, 400, "400 - Invalid path"));
}

#[test]
fn a_file_that_is_on_disk_is_read() {
    match located("/index.html", true) {
        Next::ReadFile(file) => assert_eq!(file, "static/index.html"),
        _ => panic!("the file was not read"),
    }
    match located("/", true) {
        Next::ReadFile(file) => assert_eq!(file, "static/form.html"),
        _ => panic!("the default document was not read"),
    }
}

#[test]
fn a_path_that_leaves_the_root_is_never_read() {
    let reply = response(located("/../secret.txt", true));
    assert!(answers(&reply, 400, "400 - Invalid path"));
}

#[test]
fn a_file_that_was_read_is_served_as_html() {
    let reply = file_read(Some("<h1>Form</h1>".to_string()));
    assert!(answers(&reply, 200, "<h1>Form</h1>"));
    let kinds: Vec<&HeaderValue> = reply.headers().get_all("content-type").iter().collect();
    assert_eq!(kinds.len(), 1);
    assert_eq!(kinds[0].as_bytes(), b"text/html; charset=utf-8");
    assert_eq!(reply.headers().len(), 4);
}

#[test]
fn a_file_that_cannot_be_read_is_a_server_error() {
    let reply = file_read(None);
    assert!(answers(&reply, 500, "500 - Internal Server Error"));
    assert!(reply.headers().get("content-type").is_none());
}

#[test]
fn a_submission_that_declares_json_has_its_body_read() {
    assert!(matches!(begin("POST", "/submit", &content_type("application/json")), Next::ReadBody));
}

#[test]
fn the_content_type_is_found_under_any_spelling_of_its_name() {
    let mut headers = HeaderMap::new();
    headers.insert("CONTENT-TYPE", HeaderValue::from_static("application/json"));
    assert!(matches!(begin("POST", "/submit", &headers), Next::ReadBody));
    let mut headers = HeaderMap::new();
    headers.insert(hyper::header::CONTENT_TYPE, HeaderValue::from_static("application/json"));
    assert!(matches!(begin("POST", "/submit", &headers), Next::ReadBody));
}

#[test]
fn a_submission_without_a_content_type_is_unsupported() {
    let reply = response(begin("POST", "/submit", &no_headers()));
    assert!(answers(&reply, 415, "Expected application/json"));
    let mut other = HeaderMap::new();
    other.insert("accept", HeaderValue::from_static("application/json"));
    let reply = response(begin("POST", "/submit", &other));
    assert!(answers(&reply, 415, "Expected application/json"));
}

#[test]
fn a_submission_of_another_content_type_is_unsupported() {
    for kind in [
        "text/plain",
        "application/x-www-form-urlencoded",
        "application/json; charset=utf-8",
        "Application/JSON",
        "application/json ",
        "application/jso",
        "",
    ] {
        let reply = response(begin("POST", "/submit", &content_type(kind)));
        assert!(answers(&reply, 415, "Expected application/json"));
    }
}

#[test]
fn a_content_type_of_other_bytes_is_unsupported() {
    let mut headers = HeaderMap::new();
    headers.insert("content-type", HeaderValue::from_bytes(b"application/json\xff").unwrap());
    let reply = response(begin("POST", "/submit", &headers));
    assert!(answers(&reply, 415, "Expected application/json"));
}

#[test]
fn the_first_content_type_decides() {
    let mut headers = HeaderMap::new();
    headers.append("content-type", HeaderValue::from_static("application/json"));
    headers.append("content-type", HeaderValue::from_static("text/plain"));
    assert!(matches!(begin("POST", "/submit", &headers), Next::ReadBody));
    let mut headers = HeaderMap::new();
    headers.append("content-type", HeaderValue::from_static("text/plain"));
    headers.append("content-type", HeaderValue::from_static("application/json"));
    let reply = response(begin("POST", "/submit", &headers));
    assert!(answers(&reply, 415, "Expected application/json"));
}

#[test]
fn an_unknown_route_is_not_found() {
    let reply = response(begin("POST", "/", &content_type("application/json")));
    assert!(answers(&reply, 404, "404 - Not Found"));
    let reply = response(begin("PUT", "/submit", &content_type("application/json")));
    assert!(answers(&reply, 404, "404 - Not Found"));
    let reply = response(begin("DELETE", "/index.html", &no_headers()));
    assert!(answers(&reply, 404, "404 - Not Found"));
}

#[test]
fn a_body_at_the_cap_is_parsed() {
    assert_eq!(MAX_BODY_BYTES, 10 * 1024);
    assert!(matches!(body_read(&vec![b' '; 10240]), Next::Parse));
    assert!(matches!(body_read(b""), Next::Parse));
    assert!(matches!(body_read(b"not json at all"), Next::Parse));
}

#[test]
fn a_body_over_the_cap_is_too_large_and_is_not_parsed() {
    let reply = response(body_read(&vec![b' '; 10241]));
    assert!(answers(&reply, 413, "Payload too large"));
    let mut valid = b"{\"name\":\"Ann\",\"email\":\"ann@example.com\",\"message\":\"hi\"}".to_vec();
    valid.resize(20000, b' ');
    let reply = response(body_read(&valid));
    assert!(answers(&reply, 413, "Payload too large"));
}

#[test]
fn a_body_that_holds_no_submission_is_a_bad_request() {
    let reply = response(parsed(None));
    assert!(answers(&reply, 400, "Invalid form submission"));
}

#[test]
fn a_submission_that_breaks_a_rule_is_a_bad_request_with_the_reason() {
    let reply = response(parsed(Some(submission("", "ann@example.com", "hi"))));
    assert!(answers(&reply, 400, "All fields are required."));
    let reply = response(parsed(Some(submission(&"n".repeat(101), "ann@example.com", "hi"))));
    assert!(answers(&reply, 400, "Name is too long (max 100 characters)."));
    let reply = response(parsed(Some(submission("Ann", &format!("{}@b.c", "a".repeat(97)), "hi"))));
    assert!(answers(&reply, 400, "Email is too long (max 100 characters)."));
    let reply = response(parsed(Some(submission("Ann", "ann@example.com", &"m".repeat(1001)))));
    assert!(answers(&reply, 400, "Message is too long (max 1000 characters)."));
    let reply = response(parsed(Some(submission("Ann", "ann", "hi"))));
    assert!(answers(&reply, 400, "Invalid email format."));
    let reply = response(parsed(Some(submission("Ann", "ann@example.com", "<script>"))));
    assert!(answers(&reply, 400, "Message contains potentially unsafe content."));
}

#[test]
fn an_accepted_submission_is_appended_to_the_log() {
    match parsed(Some(submission("Ann", "ann@example.com", "hi"))) {
        Next::Append(line) => assert_eq!(
            line,
            "FormData { name: \"Ann\", email: \"ann@example.com\", message: \"hi\" }\n"
        ),
        _ => panic!("nothing to append"),
    }
}

#[test]
fn the_sender_is_thanked_once_the_line_is_written() {
    let reply = appended(true);
    assert!(answers(&reply, 200, "Thank you! Your message was received."));
}

#[test]
fn the_sender_is_thanked_even_if_the_log_could_not_be_written() {
    let reply = appended(false);
    assert!(answers(&reply, 200, "Thank you! Your message was received."));
}

#[test]
fn every_response_carries_the_security_headers() {
    let replies = vec![
        response(begin("GET", "/../x", &no_headers())),
        response(begin("POST", "/submit", &no_headers())),
        response(begin("PATCH", "/", &no_headers())),
        response(located("/x", false)),
        file_read(Some(String::new())),
        file_read(None),
        response(body_read(&vec![0u8; 10241])),
        response(parsed(None)),
        response(parsed(Some(submission("", "", "")))),
        appended(true),
        appended(false),
    ];
    for reply in &replies {
        assert!(is_guarded(reply));
    }
}

#[test]
fn a_json_submission_is_accepted_and_logged() {
    let body = b"{\"name\":\"Ann\",\"email\":\"ann@example.com\",\"message\":\"hi\"}";
    assert!(matches!(begin("POST", "/submit", &content_type("application/json")), Next::ReadBody));
    assert!(matches!(body_read(body), Next::Parse));
    let value: serde_json::Value = serde_json::from_slice(body).unwrap();
    let field = |name: &str| value.get(name).and_then(|text| text.as_str()).unwrap().to_string();
    let sent = FormData { name: field("name"), email: field("email"), message: field("message") };
    let line = match parsed(Some(sent)) {
        Next::Append(line) => line,
        _ => panic!("the submission was not accepted"),
    };
    assert!(line.contains("Ann"));
    assert!(line.contains("ann@example.com"));
    assert!(line.contains("hi"));
    assert!(line.ends_with('\n'));
    assert_eq!(line.matches('\n').count(), 1);
    let reply = appended(true);
    assert!(answers(&reply, 200, "Thank you! Your message was received."));
}

#[test]
fn two_submissions_give_two_lines() {
    let first = match parsed(Some(submission("Ann", "ann@example.com", "one\ntwo"))) {
        Next::Append(line) => line,
        _ => panic!("the first submission was not accepted"),
    };
    let second = match parsed(Some(submission("Bob", "bob@example.com", "three"))) {
        Next::Append(line) => line,
        _ => panic!("the second submission was not accepted"),
    };
    assert_ne!(first, second);
    for log in [format!("{first}{second}"), format!("{second}{first}")] {
        let lines: Vec<&str> = log.lines().collect();
        assert_eq!(lines.len(), 2);
        assert!(lines.contains(&first.trim_end_matches('\n')));
        assert!(lines.contains(&second.trim_end_matches('\n')));
    }
}
