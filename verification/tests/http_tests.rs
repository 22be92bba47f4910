use bittorrent::handlers::{
    file_created, get_files_dir, handle_echo, handle_get_file, handle_not_found,
    handle_post_file, handle_root_path, handle_user_agent, requested_file, route, Route,
};
use bittorrent::http_request::{is_white_space_char, HttpError, HttpRequest};
use bittorrent::http_response::{
    status_response, write_http_response, write_status_code, HttpContentType, HttpResponse,
    HttpStatusCode,
};
use bittorrent::text::{same_text, split_text, split_text_once, starts_with};

fn request(text: &str) -> HttpRequest {
    HttpRequest::parse(text).unwrap()
}

#[test]
fn parses_the_request_line() {
    let http = request("GET /index.html HTTP/1.1\r\n\r\n");
    assert_eq!(http.method, "GET");
    assert_eq!(http.path, "/index.html");
    assert_eq!(http.version, "HTTP/1.1");
}

#[test]
fn missing_words_of_the_request_line_are_empty() {
    let http = request("GET\r\n\r\n");
    assert_eq!(http.method, "GET");
    assert_eq!(http.path, "");
    assert_eq!(http.version, "");
    let http = request("GET /x\r\n\r\n");
    assert_eq!(http.path, "/x");
    assert_eq!(http.version, "");
    let http = request("");
    assert_eq!(http.method, "");
    assert_eq!(http.body, None);
}

#[test]
fn parses_headers_up_to_the_empty_line() {
    let http = request(
        "GET /user-agent HTTP/1.1\r\nHost: localhost:4221\r\nUser-Agent:   curl/7.64.1\r\n\r\nX-After: 1\r\n",
    );
    assert_eq!(http.get_header("Host"), Some(&"localhost:4221".to_string()));
    assert_eq!(http.get_header("user-agent"), Some(&"curl/7.64.1".to_string()));
    assert_eq!(http.get_header("USER-AGENT"), Some(&"curl/7.64.1".to_string()));
    assert_eq!(http.get_header("X-After"), None);
    assert_eq!(http.get_header("Accept"), None);
    assert_eq!(http.headers.len(), 2);
}

#[test]
fn later_header_replaces_an_earlier_one_of_the_same_name() {
    let http = request("GET / HTTP/1.1\r\nA: 1\r\nB: 2\r\na: 3\r\n\r\n");
    assert_eq!(http.get_header("A"), Some(&"3".to_string()));
    assert_eq!(http.get_header("b"), Some(&"2".to_string()));
    assert_eq!(http.headers.len(), 2);
}

#[test]
fn header_line_without_colon_is_invalid() {
    assert_eq!(
        HttpRequest::parse("GET / HTTP/1.1\r\nbroken header\r\n\r\n").err(),
        Some(HttpError::InvalidHeader)
    );
}

#[test]
fn body_is_what_stands_behind_the_first_empty_line() {
    let http = request("POST /files/a HTTP/1.1\r\nContent-Length: 5\r\n\r\nhello\r\n\r\nmore");
    assert_eq!(http.body, Some("hello\r\n\r\nmore".to_string()));
    let http = request("GET / HTTP/1.1\r\nHost: x\r\n");
    assert_eq!(http.body, None);
    let http = request("GET / HTTP/1.1\r\n\r\n");
    assert_eq!(http.body, Some(String::new()));
}

#[test]
fn routes_by_path_and_method() {
    assert_eq!(route(&request("GET / HTTP/1.1\r\n\r\n")), Route::Root);
    assert_eq!(route(&request("POST / HTTP/1.1\r\n\r\n")), Route::Root);
    assert_eq!(route(&request("GET /user-agent HTTP/1.1\r\n\r\n")), Route::UserAgent);
    assert_eq!(route(&request("GET /echo/abc HTTP/1.1\r\n\r\n")), Route::Echo);
    assert_eq!(route(&request("GET /echo/ HTTP/1.1\r\n\r\n")), Route::Echo);
    assert_eq!(route(&request("GET /echo HTTP/1.1\r\n\r\n")), Route::NotFound);
    assert_eq!(route(&request("GET /files/a.txt HTTP/1.1\r\n\r\n")), Route::GetFile);
    assert_eq!(route(&request("POST /files/a.txt HTTP/1.1\r\n\r\n")), Route::PostFile);
    assert_eq!(route(&request("PUT /files/a.txt HTTP/1.1\r\n\r\n")), Route::NotFound);
    assert_eq!(route(&request("GET /x/echo/abc HTTP/1.1\r\n\r\n")), Route::NotFound);
    assert_eq!(route(&request("GET /nothing HTTP/1.1\r\n\r\n")), Route::NotFound);
}

#[test]
fn status_lines() {
    assert_eq!(HttpStatusCode::Okay.as_str(), "HTTP/1.1 200 OK");
    assert_eq!(HttpStatusCode::Created.as_str(), "HTTP/1.1 201 Created");
    assert_eq!(HttpStatusCode::NotFound.as_str(), "HTTP/1.1 404 Not Found");
    assert_eq!(status_response(HttpStatusCode::Okay), "HTTP/1.1 200 OK\r\n\r\n");
}

#[test]
fn media_types() {
    assert_eq!(HttpContentType::ApplicationJson.as_str(), "application/json");
    assert_eq!(HttpContentType::PlainText.as_str(), "text/plain");
    assert_eq!(HttpContentType::ApplicationOctetStream.as_str(), "application/octet-stream");
}

#[test]
fn renders_a_response_with_content() {
    let response = HttpResponse {
        status_code: HttpStatusCode::Okay,
        content_type: HttpContentType::PlainText,
        content: Some("abc".to_string()),
    };
    assert_eq!(
        response.render(),
        "HTTP/1.1 200 OK\r\nContent-Type: text/plain\r\nContent-Length: 3\r\n\r\nabc\r\n\r\n"
    );
}

#[test]
fn content_length_counts_bytes() {
    let response = HttpResponse {
        status_code: HttpStatusCode::Okay,
        content_type: HttpContentType::ApplicationJson,
        content: Some("\u{e9}\u{20ac}".to_string()),
    };
    assert_eq!(
        response.render(),
        "HTTP/1.1 200 OK\r\nContent-Type: application/json\r\nContent-Length: 5\r\n\r\n\u{e9}\u{20ac}\r\n\r\n"
    );
}

#[test]
fn renders_a_response_without_content() {
    let response = HttpResponse {
        status_code: HttpStatusCode::NotFound,
        content_type: HttpContentType::ApplicationOctetStream,
        content: None,
    };
    assert_eq!(
        response.render(),
        "HTTP/1.1 404 Not Found\r\nContent-Type: application/octet-stream\r\n\r\n\r\n"
    );
}

#[test]
fn answers_root_and_not_found() {
    let http = request("GET / HTTP/1.1\r\n\r\n");
    assert_eq!(handle_root_path(&http), "HTTP/1.1 200 OK\r\n\r\n");
    assert_eq!(handle_not_found(&http), "HTTP/1.1 404 Not Found\r\n\r\n");
    assert_eq!(file_created(), "HTTP/1.1 201 Created\r\n\r\n");
}

#[test]
fn answers_user_agent() {
    let http = request("GET /user-agent HTTP/1.1\r\nUser-Agent: curl/7.64.1\r\n\r\n");
    assert_eq!(
        handle_user_agent(&http),
        Ok("HTTP/1.1 200 OK\r\nContent-Type: text/plain\r\nContent-Length: 11\r\n\r\ncurl/7.64.1\r\n\r\n"
            .to_string())
    );
    let http = request("GET /user-agent HTTP/1.1\r\n\r\n");
    assert_eq!(handle_user_agent(&http), Err(HttpError::MissingHeader));
}

#[test]
fn answers_echo() {
    let http = request("GET /echo/abc/def HTTP/1.1\r\n\r\n");
    assert_eq!(
        handle_echo(&http),
        Ok("HTTP/1.1 200 OK\r\nContent-Type: text/plain\r\nContent-Length: 7\r\n\r\nabc/def\r\n\r\n"
            .to_string())
    );
    let http = request("GET /other HTTP/1.1\r\n\r\n");
    assert_eq!(handle_echo(&http), Err(HttpError::InvalidPath));
}

#[test]
fn names_the_requested_file() {
    let http = request("GET /files/notes.txt HTTP/1.1\r\n\r\n");
    assert_eq!(requested_file(&http), Ok("notes.txt".to_string()));
    let http = request("GET /other HTTP/1.1\r\n\r\n");
    assert_eq!(requested_file(&http), Err(HttpError::InvalidPath));
}

#[test]
fn answers_get_file() {
    assert_eq!(
        handle_get_file(Some("data".to_string())),
        "HTTP/1.1 200 OK\r\nContent-Type: application/octet-stream\r\nContent-Length: 4\r\n\r\ndata\r\n\r\n"
    );
    assert_eq!(handle_get_file(None), "HTTP/1.1 404 Not Found\r\n\r\n");
}

#[test]
fn post_file_gives_name_and_body() {
    let http = request("POST /files/a.txt HTTP/1.1\r\nContent-Length: 2\r\n\r\nhi");
    assert_eq!(handle_post_file(&http), Ok(("a.txt".to_string(), "hi".to_string())));
    let http = request("POST /files/a.txt HTTP/1.1\r\nContent-Length: 2\r\n");
    assert_eq!(handle_post_file(&http), Err(HttpError::MissingBody));
    let http = request("POST /other HTTP/1.1\r\n\r\nhi");
    assert_eq!(handle_post_file(&http), Err(HttpError::InvalidPath));
}

#[test]
fn files_dir_comes_behind_the_directory_flag() {
    let args = |list: &[&str]| list.iter().map(|s| s.to_string()).collect::<Vec<String>>();
    assert_eq!(get_files_dir(&args(&["server", "--directory", "/tmp/files"])), Some("/tmp/files".to_string()));
    assert_eq!(get_files_dir(&args(&["server", "--directory", "/tmp", "more"])), Some("/tmp".to_string()));
    assert_eq!(get_files_dir(&args(&["server", "--directory"])), None);
    assert_eq!(get_files_dir(&args(&["server", "--dir", "/tmp"])), None);
    assert_eq!(get_files_dir(&args(&[])), None);
}

#[test]
fn splits_text_at_a_separator() {
    assert_eq!(split_text("a\r\nb\r\n\r\nc", "\r\n"), vec!["a", "b", "", "c"]);
    assert_eq!(split_text("abc", "\r\n"), vec!["abc"]);
    assert_eq!(split_text("", " "), vec![""]);
    assert_eq!(split_text(" a  b ", " "), vec!["", "a", "", "b", ""]);
    assert_eq!(split_text("aaa", "aa"), vec!["", "a"]);
    assert_eq!(split_text("abc", ""), vec!["abc"]);
    assert_eq!(split_text("\u{e9}-\u{20ac}-x", "-"), vec!["\u{e9}", "\u{20ac}", "x"]);
}

#[test]
fn splits_text_once() {
    assert_eq!(split_text_once("k: v: w", ":"), Some(("k".to_string(), " v: w".to_string())));
    assert_eq!(split_text_once("kv", ":"), None);
    assert_eq!(split_text_once("a\r\n\r\n", "\r\n\r\n"), Some(("a".to_string(), String::new())));
    assert_eq!(split_text_once("abc", ""), Some((String::new(), "abc".to_string())));
    assert_eq!(split_text_once("", "x"), None);
}

#[test]
fn compares_texts() {
    assert!(same_text("GET", "GET"));
    assert!(!same_text("GET", "GET "));
    assert!(!same_text("GET", "GEt"));
    assert!(same_text("", ""));
    assert!(starts_with("/echo/abc", "/echo/"));
    assert!(starts_with("/echo/", "/echo/"));
    assert!(!starts_with("/echo", "/echo/"));
    assert!(starts_with("abc", ""));
}

#[test]
fn writes_responses_to_a_buffer() {
    let mut stream = String::from("x");
    write_status_code(&mut stream, HttpStatusCode::Created);
    assert_eq!(stream, "xHTTP/1.1 201 Created\r\n\r\n");
    let response = HttpResponse {
        status_code: HttpStatusCode::Okay,
        content_type: HttpContentType::PlainText,
        content: Some("hi".to_string()),
    };
    let mut stream = String::new();
    write_http_response(&mut stream, &response);
    assert_eq!(stream, response.render());
}

#[test]
fn set_header_replaces_or_adds() {
    let mut http = request("GET / HTTP/1.1\r\nA: 1\r\n\r\nbody");
    http.set_header("b".to_string(), "2".to_string());
    http.set_header("a".to_string(), "9".to_string());
    http.set_header("A".to_string(), "upper".to_string());
    assert_eq!(http.headers.len(), 3);
    assert_eq!(http.header("a"), Some(&"9".to_string()));
    assert_eq!(http.header("b"), Some(&"2".to_string()));
    assert_eq!(http.header("A"), Some(&"upper".to_string()));
    assert_eq!(http.header("c"), None);
    assert_eq!(http.get_header("A"), Some(&"9".to_string()));
    assert_eq!(http.method, "GET");
    assert_eq!(http.path, "/");
    assert_eq!(http.body, Some("body".to_string()));
}

#[test]
fn header_names_are_lowercased_beyond_ascii() {
    let http = request("GET / HTTP/1.1\r\n\u{c4}BC: x\r\n\r\n");
    assert_eq!(http.headers.len(), 1);
    assert_eq!(http.header("\u{e4}bc"), Some(&"x".to_string()));
    assert_eq!(http.get_header("\u{c4}bC"), Some(&"x".to_string()));
}

#[test]
fn header_values_keep_trailing_whitespace() {
    let http = request("GET / HTTP/1.1\r\nA: \t x y \r\n\r\n");
    assert_eq!(http.get_header("a"), Some(&"x y ".to_string()));
}

#[test]
fn header_values_lose_every_kind_of_leading_whitespace() {
    let http = request("GET / HTTP/1.1\r\nA:\u{a0}\u{3000}\u{2003}\u{85} \u{200b}x\r\nB:   \r\n\r\n");
    assert_eq!(http.get_header("a"), Some(&"\u{200b}x".to_string()));
    assert_eq!(http.get_header("b"), Some(&String::new()));
}

#[test]
fn white_space_is_what_the_standard_library_trims() {
    for n in 0u32..=0x10ffff {
        if let Some(c) = char::from_u32(n) {
            assert_eq!(is_white_space_char(c), c.is_whitespace(), "U+{:04X}", n);
            let text = format!("{}x", c);
            assert_eq!(text.trim_start().len() < text.len(), is_white_space_char(c));
        }
    }
}
