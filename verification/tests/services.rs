use heimdall::cache::{Route, ServiceRegistry};
use heimdall::proxy::{
    is_token_header_parsable, proxy_advance, proxy_start, token_auth, ProxyEvent, ProxyStep,
    TokenAuth,
};
use heimdall::security::new_salt;
use heimdall::session::{
    is_session_id, new_session_token, session_cookie, session_key, SESSION_SECONDS,
};

fn service(domain: &str, auth: &str, port: &str) -> Route {
    Route {
        service: "svc".to_string(),
        protocol: "http".to_string(),
        port: port.to_string(),
        auth: auth.to_string(),
        access_level: "0".to_string(),
        domain: domain.to_string(),
        subdomain: String::new(),
        path: "/".to_string(),
        cors: String::new(),
    }
}

#[test]
fn registry_gives_back_accepted_service() {
    let mut reg = ServiceRegistry::new();
    assert!(reg.lookup("a.example").is_none());
    reg.accept(service("a.example", "0", "80"));
    reg.accept(service("b.example", "1", "81"));
    assert_eq!(reg.lookup("a.example").unwrap().port, "80");
    assert_eq!(reg.lookup("b.example").unwrap().auth, "1");
    reg.accept(service("a.example", "1", "90"));
    assert_eq!(reg.lookup("a.example").unwrap().port, "90");
    assert_eq!(reg.lookup("b.example").unwrap().port, "81");
    assert!(reg.lookup("c.example").is_none());
}

#[test]
fn proxy_first_step() {
    let mut reg = ServiceRegistry::new();
    reg.accept(service("open.example", "0", "80"));
    reg.accept(service("closed.example", "1", "80"));
    assert_eq!(proxy_start(None, "hq:8888", &reg), ProxyStep::BadRequest);
    assert_eq!(proxy_start(Some("hq:8888"), "hq:8888", &reg), ProxyStep::Dashboard);
    assert_eq!(proxy_start(Some("unknown.example"), "hq:8888", &reg), ProxyStep::NotFound);
    assert_eq!(proxy_start(Some("open.example"), "hq:8888", &reg), ProxyStep::Forward);
    assert_eq!(proxy_start(Some("closed.example"), "hq:8888", &reg), ProxyStep::CheckToken);
}

#[test]
fn proxy_checks() {
    assert_eq!(proxy_advance(ProxyStep::CheckToken, ProxyEvent::TokenChecked(true)), ProxyStep::Forward);
    assert_eq!(proxy_advance(ProxyStep::CheckToken, ProxyEvent::TokenChecked(false)), ProxyStep::CheckSession);
    assert_eq!(proxy_advance(ProxyStep::CheckSession, ProxyEvent::SessionChecked(true)), ProxyStep::Forward);
    assert_eq!(proxy_advance(ProxyStep::CheckSession, ProxyEvent::SessionChecked(false)), ProxyStep::Unauthorized);
    assert_eq!(proxy_advance(ProxyStep::NotFound, ProxyEvent::SessionChecked(true)), ProxyStep::NotFound);
    assert_eq!(proxy_advance(ProxyStep::CheckToken, ProxyEvent::SessionChecked(true)), ProxyStep::CheckToken);
}

#[test]
fn token_checks() {
    assert_eq!(token_auth("0", None), TokenAuth::Accepted);
    assert_eq!(token_auth("1", None), TokenAuth::Rejected);
    let long = format!("Basic {} pass", "u".repeat(60));
    assert_eq!(token_auth("1", Some(long.as_str())), TokenAuth::Rejected);
    assert_eq!(
        token_auth("1", Some("Basic user pass")),
        TokenAuth::Verify { user: "user".to_string(), password: "pass".to_string() }
    );
    assert_eq!(
        token_auth("1", Some("Basic user pass extra")),
        TokenAuth::Verify { user: "user".to_string(), password: "pass".to_string() }
    );
    assert_eq!(
        token_auth("1", Some("user ")),
        TokenAuth::Verify { user: "user".to_string(), password: String::new() }
    );
    assert!(is_token_header_parsable("Basic user pass"));
    assert!(!is_token_header_parsable("Basic userpass"));
    assert!(is_token_header_parsable(long.as_str()));
}

#[test]
fn session_texts() {
    assert_eq!(session_key("abc"), "heim:session:abc");
    assert_eq!(session_cookie("abc", "Thu, 01 Jan 2074 00:00:00 'GMT'"), "token_id=abc; expires=Thu, 01 Jan 2074 00:00:00 'GMT'");
    assert_eq!(SESSION_SECONDS, 60 * 60 * 72);
}

#[test]
fn new_tokens_are_session_ids() {
    let t = new_session_token();
    assert_eq!(t.chars().count(), 32);
    assert!(t.chars().all(|c| c.is_ascii_alphanumeric()));
    assert!(is_session_id(&t));
    assert_ne!(t, new_session_token());
    assert!(!is_session_id("short"));
    assert!(!is_session_id(&"é".repeat(32)));
    assert!(is_session_id(&"é".repeat(16)));
}

#[test]
fn salts_are_alphanumeric() {
    let s = new_salt();
    assert_eq!(s.chars().count(), 12);
    assert!(s.chars().all(|c| c.is_ascii_alphanumeric()));
}
