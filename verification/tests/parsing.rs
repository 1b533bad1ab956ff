use rust_rest::util::{
    characters, get_id, get_method, get_path, get_user_request_body, is_whitespace, parse_id,
    same_text, starts_with,
};

#[test]
fn whitespace_is_the_unicode_white_space_set() {
    for c in [' ', '\t', '\n', '\u{0B}', '\u{0C}', '\r', '\u{85}', '\u{A0}', '\u{1680}'] {
        assert!(is_whitespace(c), "{:?}", c);
    }
    for c in ['\u{2000}', '\u{2005}', '\u{200A}', '\u{2028}', '\u{2029}', '\u{202F}', '\u{205F}', '\u{3000}'] {
        assert!(is_whitespace(c), "{:?}", c);
    }
    for c in ['a', '/', '0', '\u{08}', '\u{0E}', '\u{1F}', '\u{200B}', '\u{FEFF}', '\u{180E}', '\u{2060}'] {
        assert!(!is_whitespace(c), "{:?}", c);
    }
}

#[test]
fn whitespace_agrees_with_std_on_every_char() {
    let mut code: u32 = 0;
    while code <= 0x10FFFF {
        if let Some(c) = char::from_u32(code) {
            assert_eq!(is_whitespace(c), c.is_whitespace(), "U+{:04X}", code);
        }
        code += 1;
    }
}

#[test]
fn characters_keeps_every_char_in_order() {
    assert_eq!(characters(""), Vec::<char>::new());
    assert_eq!(characters("a/b"), vec!['a', '/', 'b']);
    assert_eq!(characters("é\u{3000}z"), vec!['é', '\u{3000}', 'z']);
}

#[test]
fn method_is_the_first_word_of_the_first_line() {
    assert_eq!(get_method("GET /users/12 HTTP/1.1\r\nHost: x\r\n\r\n"), "GET");
    assert_eq!(get_method("  POST\t/users HTTP/1.1"), "POST");
    assert_eq!(get_method("DELETE"), "DELETE");
    assert_eq!(get_method(""), "");
    assert_eq!(get_method("   \r\nGET /users"), "");
    assert_eq!(get_method("\nGET /users"), "");
}

#[test]
fn path_is_the_second_word_of_the_first_line() {
    assert_eq!(get_path("GET /users/12 HTTP/1.1\r\nHost: x\r\n\r\n"), "/users/12");
    assert_eq!(get_path("GET   /users\tHTTP/1.1"), "/users");
    assert_eq!(get_path("GET /users"), "/users");
    assert_eq!(get_path("GET"), "");
    assert_eq!(get_path("GET\r\n/users HTTP/1.1"), "");
    assert_eq!(get_path("GET\u{3000}/users/é HTTP/1.1"), "/users/é");
}

#[test]
fn id_is_the_third_piece_of_the_path() {
    assert_eq!(get_id("GET /users/12 HTTP/1.1\r\n\r\n"), "12");
    assert_eq!(get_id("PUT /users/7/extra HTTP/1.1"), "7");
    assert_eq!(get_id("DELETE /users/abc"), "abc");
    assert_eq!(get_id("GET /users/-3 HTTP/1.1"), "-3");
}

#[test]
fn id_is_empty_where_the_path_has_no_third_piece() {
    assert_eq!(get_id("GET /users HTTP/1.1\r\n\r\n"), "");
    assert_eq!(get_id("GET /users/ HTTP/1.1"), "");
    assert_eq!(get_id("GET /users// HTTP/1.1"), "");
    assert_eq!(get_id("GET"), "");
    assert_eq!(get_id(""), "");
    assert_eq!(get_id("GET users HTTP/1.1"), "");
}

#[test]
fn id_ends_at_whitespace_and_never_skips_it() {
    assert_eq!(get_id("GET /users/12\tHTTP/1.1"), "12");
    assert_eq!(get_id("GET /users/ 12 HTTP/1.1"), "");
    assert_eq!(get_id("GET /users/12\r\n/a/b/c"), "12");
}

#[test]
fn body_follows_the_first_blank_line() {
    assert_eq!(
        get_user_request_body("POST /users HTTP/1.1\r\nHost: x\r\n\r\n{\"name\":\"Ann\",\"email\":\"ann@x.com\"}"),
        "{\"name\":\"Ann\",\"email\":\"ann@x.com\"}"
    );
    assert_eq!(get_user_request_body("a\r\n\r\nb\r\n\r\nc"), "b\r\n\r\nc");
    assert_eq!(get_user_request_body("\r\n\r\n"), "");
    assert_eq!(get_user_request_body("\r\n\r\nx"), "x");
    assert_eq!(get_user_request_body("a\r\n\r\n\r\n"), "\r\n");
    assert_eq!(get_user_request_body("é\r\n\r\nü"), "ü");
}

#[test]
fn body_is_empty_where_there_is_no_blank_line() {
    assert_eq!(get_user_request_body("GET /users HTTP/1.1\r\nHost: x\r\n"), "");
    assert_eq!(get_user_request_body("{\"name\":\"Ann\"}"), "");
    assert_eq!(get_user_request_body("a\n\nb"), "");
    assert_eq!(get_user_request_body("a\r\n\rb"), "");
    assert_eq!(get_user_request_body(""), "");
}

#[test]
fn parse_id_reads_signed_decimal() {
    assert_eq!(parse_id("12"), Some(12));
    assert_eq!(parse_id("0"), Some(0));
    assert_eq!(parse_id("-5"), Some(-5));
    assert_eq!(parse_id("+7"), Some(7));
    assert_eq!(parse_id("-0"), Some(0));
    assert_eq!(parse_id("007"), Some(7));
    assert_eq!(parse_id("999"), Some(999));
}

#[test]
fn parse_id_keeps_to_the_range_of_i32() {
    assert_eq!(parse_id("2147483647"), Some(i32::MAX));
    assert_eq!(parse_id("2147483648"), None);
    assert_eq!(parse_id("-2147483648"), Some(i32::MIN));
    assert_eq!(parse_id("-2147483649"), None);
    assert_eq!(parse_id("+2147483648"), None);
    assert_eq!(parse_id("000000000000000000000000000000012"), Some(12));
    assert_eq!(parse_id("99999999999999999999999999999999"), None);
    assert_eq!(parse_id("-99999999999999999999999999999999"), None);
}

#[test]
fn parse_id_refuses_what_is_no_integer() {
    for text in ["", "+", "-", "12a", "a12", " 12", "12 ", "1 2", "--1", "+-1", "1.0", "0x10", "١٢", "1_000"] {
        assert_eq!(parse_id(text), None, "{:?}", text);
    }
}

#[test]
fn parse_id_agrees_with_std() {
    for text in ["12", "-5", "+7", "", "+", "-", "12a", " 12", "2147483647", "2147483648",
        "-2147483648", "-2147483649", "0000", "-0000", "+0", "9", "/", ":", "1/", "٣"] {
        assert_eq!(parse_id(text), text.parse::<i32>().ok(), "{:?}", text);
    }
}

#[test]
fn starts_with_compares_the_front() {
    assert!(starts_with("/users/12", "/users"));
    assert!(starts_with("/users/12", "/users/"));
    assert!(starts_with("/users", "/users"));
    assert!(starts_with("/users", ""));
    assert!(starts_with("", ""));
    assert!(!starts_with("/users", "/users/"));
    assert!(!starts_with("/user", "/users"));
    assert!(!starts_with("", "/"));
    assert!(!starts_with("/Users", "/users"));
}

#[test]
fn same_text_compares_all_of_it() {
    assert!(same_text("GET", "GET"));
    assert!(same_text("", ""));
    assert!(!same_text("GET", "GETS"));
    assert!(!same_text("GET", "get"));
    assert!(!same_text("GET", "PUT"));
    assert!(!same_text("", "x"));
}
