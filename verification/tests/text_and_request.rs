use heimdall::utils::request::{
    body_length_accepted, form_fields, form_value, get_cookie, get_mime, get_path_and_mime,
    is_guessable_path, parse_usize,
};
use heimdall::utils::text::{contains, replace, same_text};

#[test]
fn replace_rewrites_every_occurrence() {
    assert_eq!(replace("/static/css/a.css", "/static", "./assets/public"), "./assets/public/css/a.css");
    assert_eq!(replace("aaaa", "aa", "b"), "bb");
    assert_eq!(replace("aaa", "aa", "b"), "ba");
    assert_eq!(replace("Basic user pass", "Basic ", ""), "user pass");
}

#[test]
fn replace_without_occurrence_keeps_text() {
    assert_eq!(replace("/login", "/static", "./assets/public"), "/login");
    assert_eq!(replace("", "x", "y"), "");
}

#[test]
fn contains_finds_substrings() {
    assert!(contains("/static/../secret", ".."));
    assert!(!contains("/static/a.b", ".."));
    assert!(contains("abc", ""));
    assert!(!contains("", "a"));
    assert!(same_text("héllo", "héllo"));
    assert!(!same_text("hello", "hell"));
}

#[test]
fn cookie_token_is_read() {
    assert_eq!(get_cookie("token_id=abc"), "abc");
    assert_eq!(get_cookie("a=1&token_id=x&token_id=y"), "y");
    assert_eq!(get_cookie("token_id=a%20b+c"), "a b c");
}

#[test]
fn cookie_without_token_is_empty() {
    assert_eq!(get_cookie(""), "");
    assert_eq!(get_cookie("foo=bar"), "");
}

#[test]
fn form_fields_are_decoded() {
    let pairs = form_fields(b"email=a%40b.c&&password=x");
    assert_eq!(pairs, vec![("email".to_string(), "a@b.c".to_string()), ("password".to_string(), "x".to_string())]);
    assert_eq!(form_value(&pairs, "email"), Some("a@b.c".to_string()));
    assert_eq!(form_value(&pairs, "name"), None);
    assert!(form_fields(b"").is_empty());
}

#[test]
fn mime_is_guessed_from_extension() {
    assert_eq!(get_mime("css"), "text/css");
    assert_eq!(get_mime("png"), "image/png");
    assert_eq!(get_mime("nosuchextension"), "application/octet-stream");
}

#[test]
fn path_and_mime_of_static_file() {
    let pm = get_path_and_mime("./assets/public/app.js?v=1".to_string()).ok().unwrap();
    assert_eq!(pm.path, "./assets/public/app.js");
    assert_eq!(pm.mime, "text/javascript");
    let pm = get_path_and_mime("./assets/public/v1.2/index.html".to_string()).ok().unwrap();
    assert_eq!(pm.path, "./assets/public/v1.2/index.html");
    assert_eq!(pm.mime, "text/html");
}

#[test]
fn path_with_parent_reference_is_refused() {
    assert_eq!(get_path_and_mime("./assets/public/../x.js".to_string()).err(), Some("Contains backreference."));
    assert!(is_guessable_path("./a/../b"));
    assert!(is_guessable_path("./a/b.css"));
    assert!(is_guessable_path("./a/b"));
    assert!(!is_guessable_path("a/b"));
    assert!(!is_guessable_path("a/b?x.y"));
}

#[test]
fn usize_is_parsed_as_std_does() {
    for s in ["42", "+7", "0", "007", "", "+", "-1", "12a", " 1", "18446744073709551615", "18446744073709551616", "99999999999999999999x"] {
        assert_eq!(parse_usize(s), s.parse::<usize>().ok(), "{}", s);
    }
    assert_eq!(parse_usize("128"), Some(128));
}

#[test]
fn body_length_limit() {
    assert!(body_length_accepted(Some("128"), 128));
    assert!(body_length_accepted(Some("0"), 128));
    assert!(!body_length_accepted(Some("129"), 128));
    assert!(!body_length_accepted(Some("abc"), 128));
    assert!(!body_length_accepted(None, 128));
}
