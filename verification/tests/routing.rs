use heimdall::dash::{
    dash_reply, dash_start, get_routes, login_reply, login_start, page_for_path, session_token,
    static_path, static_reply, DashReply, DashStep, LoginReply, LoginStep, Page, StaticReply,
};
use heimdall::router::{Route, Router};

#[test]
fn dashboard_routes() {
    let routes = get_routes();
    let names: Vec<(&str, &str)> = routes.iter().map(|r| (r.name(), r.pattern())).collect();
    assert_eq!(names, vec![("static", "/static/**"), ("dash", ""), ("dash", "/"), ("login", "/login")]);
}

#[test]
fn router_finds_matching_route() {
    let router = Router::new(get_routes());
    assert_eq!(router.route("/login"), Ok("login"));
    assert_eq!(router.route("/static/css/site.css"), Ok("static"));
    assert_eq!(router.route("/"), Ok("dash"));
    assert_eq!(router.route("/nowhere"), Err("Not found"));
}

#[test]
fn later_route_replaces_earlier_pattern() {
    let router = Router::new(get_routes());
    assert_eq!(router.route(""), Err("Not found"));
    let router = Router::new(vec![Route::new("a", "/x"), Route::new("b", "/y"), Route::new("a", "/z")]);
    assert_eq!(router.route("/x"), Err("Not found"));
    assert_eq!(router.route("/z"), Ok("a"));
    assert_eq!(router.route("/y"), Ok("b"));
}

#[test]
fn invalid_pattern_is_refused() {
    assert!(Router::try_new(vec![Route::new("bad", "[")]).is_none());
    assert!(Router::try_new(vec![Route::new("bad", "/a/***")]).is_none());
    let router = Router::try_new(get_routes()).unwrap();
    assert_eq!(router.route("/login"), Ok("login"));
}

#[test]
fn pages_of_paths() {
    let router = Router::new(get_routes());
    assert_eq!(page_for_path(&router, "/login"), Page::Login);
    assert_eq!(page_for_path(&router, "/static/a.js"), Page::Static);
    assert_eq!(page_for_path(&router, "/"), Page::Dash);
    assert_eq!(page_for_path(&router, "/other"), Page::NotFound);
    let other = Router::new(vec![Route::new("metrics", "/metrics")]);
    assert_eq!(page_for_path(&other, "/metrics"), Page::NotFound);
}

#[test]
fn static_files() {
    assert_eq!(static_path("/static/css/site.css"), "./assets/public/css/site.css");
    assert!(matches!(static_reply(false, "/static/a.css"), StaticReply::MethodNotAllowed));
    assert!(matches!(static_reply(true, "/static/../secret.txt"), StaticReply::NotFound));
    match static_reply(true, "/static/css/site.css") {
        StaticReply::File(pm) => {
            assert_eq!(pm.path, "./assets/public/css/site.css");
            assert_eq!(pm.mime, "text/css");
        }
        _ => panic!("expected a file"),
    }
}

#[test]
fn login_steps() {
    assert_eq!(login_start(false), LoginStep::ShowForm);
    assert_eq!(login_start(true), LoginStep::ReadBody(128));
    assert_eq!(login_reply(b"email=a%40b.c&password=secret"), LoginReply::Email("a@b.c".to_string()));
    assert_eq!(login_reply(b"email=first&password=x&email=second"), LoginReply::Email("second".to_string()));
    assert_eq!(login_reply(b""), LoginReply::BadRequest);
    assert_eq!(login_reply(b"email=a"), LoginReply::BadRequest);
    assert_eq!(login_reply(b"password=a"), LoginReply::BadRequest);
}

#[test]
fn dashboard_steps() {
    assert_eq!(dash_start(true), DashStep::Authenticate);
    assert_eq!(dash_start(false), DashStep::MethodNotAllowed);
    assert_eq!(dash_reply(true), DashReply::Headquarters);
    assert_eq!(dash_reply(false), DashReply::LoginForm);
}

#[test]
fn session_token_of_cookie_header() {
    assert_eq!(session_token(Some("token_id=abc")), Some("abc".to_string()));
    assert_eq!(session_token(Some("other=1")), None);
    assert_eq!(session_token(Some("")), None);
    assert_eq!(session_token(None), None);
}
