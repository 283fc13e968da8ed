use easymill::mods::{png_response_header, requested_file};

fn name(request: &str) -> Option<String> {
    requested_file(request).map(|n| n.into_iter().collect())
}

#[test]
fn serves_the_file_named_by_the_request() {
    assert_eq!(name("GET /board_traces_top.png HTTP/1.1\r\nHost: x\r\n\r\n"), Some("board_traces_top.png".to_string()));
    assert_eq!(name("GET //a-1.png HTTP/1.1"), Some("a-1.png".to_string()));
    assert_eq!(name("GET /\u{e4}.png HTTP/1.1"), Some("\u{e4}.png".to_string()));
    assert_eq!(name("GET \t/a b.png"), Some("a".to_string()));
}

#[test]
fn refuses_unsafe_or_missing_names() {
    assert_eq!(name("GET /../etc/passwd HTTP/1.1"), None);
    assert_eq!(name("GET /a..png HTTP/1.1"), None);
    assert_eq!(name("GET / HTTP/1.1"), None);
    assert_eq!(name("GET /dir/a.png HTTP/1.1"), None);
    assert_eq!(name("GET /a.png?x=1 HTTP/1.1"), None);
    assert_eq!(name("GET"), None);
    assert_eq!(name(""), None);
}

#[test]
fn reply_header_names_the_length() {
    assert_eq!(
        png_response_header(1234),
        "HTTP/1.1 200 OK\r\nContent-Type: image/png\r\nContent-Length: 1234\r\nAccess-Control-Allow-Origin: *\r\n\r\n"
    );
}

#[test]
fn request_lines_and_words_follow_unicode_white_space() {
    assert_eq!(name("GET\u{3000}/wide.png\u{2003}HTTP/1.1"), Some("wide.png".to_string()));
    assert_eq!(name("\r\nGET /a.png"), None);
    assert_eq!(name("GET /a.png\r"), Some("a.png".to_string()));
    assert_eq!(name("GET /a.png\rHTTP"), Some("a.png".to_string()));
}
