//! The dashboard: its routes, and what it answers on each of them.

use vstd::prelude::*;
use crate::router::{Route, Router, spec_route};
use crate::utils::request::{
    PathMime, extension, form_fields, is_last_dot, is_last_key, law_last_value, no_key, is_query_free_prefix, form_pairs, form_value, get_cookie, get_path_and_mime,
    last_value, mime_guess_for, parent_ref, path_guessable, request_path, spec_get_cookie,
};
use crate::utils::text::{contains_seq, replace, replace_all, same_text};

verus! {

/// The routes of the dashboard, in the order they are registered.
pub open spec fn dash_routes() -> Seq<(Seq<char>, Seq<char>)> {
    seq![
        ("static"@, "/static/**"@),
        ("dash"@, ""@),
        ("dash"@, "/"@),
        ("login"@, "/login"@),
    ]
}

/// The routes of the dashboard.
pub fn get_routes() -> (r: Vec<Route>)
    ensures
        r@.map_values(|x: Route| x@) == dash_routes(),
{
    let mut routes: Vec<Route> = Vec::new();
    routes.push(Route::new("static", "/static/**"));
    routes.push(Route::new("dash", ""));
    routes.push(Route::new("dash", "/"));
    routes.push(Route::new("login", "/login"));
    assert(routes@.map_values(|x: Route| x@) =~= dash_routes());
    routes
}

/// The page of the dashboard that a request is for.
#[derive(Clone, Copy, Debug, PartialEq, Eq, Structural)]
pub enum Page {
    Static,
    Dash,
    Login,
    NotFound,
}

/// The page served under a route name; no route, or a route of another name, is not found.
pub open spec fn page_for(name: Option<Seq<char>>) -> Page {
    match name {
        Some(n) => if n == "static"@ {
            Page::Static
        } else if n == "dash"@ {
            Page::Dash
        } else if n == "login"@ {
            Page::Login
        } else {
            Page::NotFound
        },
        None => Page::NotFound,
    }
}

/// The page for a request path, by the route that serves it.
pub fn page_for_path(router: &Router, path: &str) -> (r: Page)
    ensures
        r == page_for(spec_route(router@, path@)),
{
    match router.route(path) {
        Ok(name) => {
            if same_text(name, "static") {
                Page::Static
            } else if same_text(name, "dash") {
                Page::Dash
            } else if same_text(name, "login") {
                Page::Login
            } else {
                Page::NotFound
            }
        },
        Err(_) => Page::NotFound,
    }
}

/// Where a static file is looked for: the request path with `/static` replaced by
/// the assets directory.
pub open spec fn spec_static_path(uri_path: Seq<char>) -> Seq<char> {
    replace_all(uri_path, "/static"@, "./assets/public"@)
}

/// The file path that a static request path names.
pub fn static_path(uri_path: &str) -> (r: String)
    ensures
        r@ == spec_static_path(uri_path@),
{
    proof {
        reveal_strlit("/static");
    }
    replace(uri_path, "/static", "./assets/public")
}

/// The answer to a request for a static file.
pub enum StaticReply {
    MethodNotAllowed,
    NotFound,
    File(PathMime),
}

/// Decides how a request for a static file is answered: only `GET` is allowed, and a
/// path with a parent-directory reference is not found.
pub fn static_reply(is_get: bool, uri_path: &str) -> (r: StaticReply)
    requires
        is_get ==> path_guessable(spec_static_path(uri_path@)),
    ensures
        match r {
            StaticReply::MethodNotAllowed => !is_get,
            StaticReply::NotFound => is_get && contains_seq(
                spec_static_path(uri_path@),
                parent_ref(),
            ),
            StaticReply::File(pm) => {
                let p = spec_static_path(uri_path@);
                &&& is_get
                &&& !contains_seq(p, parent_ref())
                &&& pm.path@ == request_path(p)
                &&& pm.mime@ == mime_guess_for(extension(request_path(p)))
                &&& is_query_free_prefix(p, pm.path@)
                &&& exists|i: int| is_last_dot(pm.path@, i)
                &&& forall|i: int|
                    is_last_dot(pm.path@, i) ==> pm.mime@ == mime_guess_for(
                        #[trigger] pm.path@.skip(i + 1),
                    )
            },
        },
{
    if !is_get {
        return StaticReply::MethodNotAllowed;
    }
    let path = static_path(uri_path);
    match get_path_and_mime(path) {
        Ok(pm) => StaticReply::File(pm),
        Err(_) => StaticReply::NotFound,
    }
}

/// The largest login form body that is read, in bytes.
pub const LOGIN_BODY_LIMIT: usize = 128;

/// The first step of a login request.
#[derive(Clone, Copy, Debug, PartialEq, Eq, Structural)]
pub enum LoginStep {
    /// Answer with the login form.
    ShowForm,
    /// Read the body, up to the given size, and hand it to `login_reply`.
    ReadBody(usize),
}

/// A `POST` to the login page sends the form; any other method asks for the form.
pub fn login_start(is_post: bool) -> (r: LoginStep)
    ensures
        r == (if is_post {
            LoginStep::ReadBody(LOGIN_BODY_LIMIT)
        } else {
            LoginStep::ShowForm
        }),
{
    if is_post {
        LoginStep::ReadBody(LOGIN_BODY_LIMIT)
    } else {
        LoginStep::ShowForm
    }
}

/// The answer to a login form.
#[derive(Debug, PartialEq, Eq)]
pub enum LoginReply {
    BadRequest,
    /// The form was complete; the answer is the email it gave.
    Email(String),
}

/// The email of a complete login form: one that has both an email and a password.
pub open spec fn spec_login_email(body: Seq<u8>) -> Option<Seq<char>> {
    if body.len() == 0 {
        None
    } else {
        let pairs = form_pairs(body);
        match (last_value(pairs, "email"@), last_value(pairs, "password"@)) {
            (Some(email), Some(_)) => Some(email),
            _ => None,
        }
    }
}

/// The email that a login answer gives, if it gives one.
pub open spec fn reply_email(r: LoginReply) -> Option<Seq<char>> {
    match r {
        LoginReply::Email(e) => Some(e@),
        LoginReply::BadRequest => None,
    }
}

/// A non-empty form that has a password gives the value of its last email field, whatever
/// other fields it holds; an empty form, or one without an email or without a password,
/// gives none.
pub proof fn law_login_email(body: Seq<u8>)
    ensures
        body.len() > 0 && !no_key(form_pairs(body), "password"@) ==> forall|i: int|
            is_last_key(form_pairs(body), "email"@, i) ==> spec_login_email(body) == Some(
                #[trigger] form_pairs(body)[i].1,
            ),
        body.len() == 0 || no_key(form_pairs(body), "email"@) || no_key(form_pairs(body), "password"@)
            ==> spec_login_email(body) is None,
{
    law_last_value(form_pairs(body), "email"@);
    law_last_value(form_pairs(body), "password"@);
}

/// Answers a login form: a bad request when it is empty or lacks the email or the password.
pub fn login_reply(body: &[u8]) -> (r: LoginReply)
    ensures
        match r {
            LoginReply::BadRequest => spec_login_email(body@) is None,
            LoginReply::Email(e) => spec_login_email(body@) == Some(e@),
        },
        body@.len() > 0 && !no_key(form_pairs(body@), "password"@) ==> forall|i: int|
            is_last_key(form_pairs(body@), "email"@, i) ==> reply_email(r) == Some(
                #[trigger] form_pairs(body@)[i].1,
            ),
        body@.len() == 0 || no_key(form_pairs(body@), "email"@) || no_key(
            form_pairs(body@),
            "password"@,
        ) ==> r is BadRequest,
{
    proof {
        law_login_email(body@);
    }
    if body.len() == 0 {
        return LoginReply::BadRequest;
    }
    let pairs = form_fields(body);
    let email = form_value(&pairs, "email");
    let password = form_value(&pairs, "password");
    let reply = match (email, password) {
        (Some(e), Some(_)) => LoginReply::Email(e),
        _ => LoginReply::BadRequest,
    };
    proof {
        let ps = form_pairs(body@);
        if !no_key(ps, "password"@) {
            assert forall|i: int| is_last_key(ps, "email"@, i) implies reply_email(reply) == Some(
                #[trigger] ps[i].1,
            ) by {
                assert(spec_login_email(body@) == Some(ps[i].1));
            }
        }
    }
    reply
}

/// The first step of a request for the dashboard.
#[derive(Clone, Copy, Debug, PartialEq, Eq, Structural)]
pub enum DashStep {
    MethodNotAllowed,
    /// Look the session up, and hand the answer to `dash_reply`.
    Authenticate,
}

/// Only `GET` is allowed on the dashboard.
pub fn dash_start(is_get: bool) -> (r: DashStep)
    ensures
        r == (if is_get {
            DashStep::Authenticate
        } else {
            DashStep::MethodNotAllowed
        }),
{
    if is_get {
        DashStep::Authenticate
    } else {
        DashStep::MethodNotAllowed
    }
}

/// What the dashboard shows.
#[derive(Clone, Copy, Debug, PartialEq, Eq, Structural)]
pub enum DashReply {
    /// The dashboard itself.
    Headquarters,
    /// The login form.
    LoginForm,
}

/// The dashboard is shown to a signed-in user, the login form to anyone else.
pub fn dash_reply(signed_in: bool) -> (r: DashReply)
    ensures
        r == (if signed_in {
            DashReply::Headquarters
        } else {
            DashReply::LoginForm
        }),
{
    if signed_in {
        DashReply::Headquarters
    } else {
        DashReply::LoginForm
    }
}

/// The session token that a request's cookie header carries, if it carries one.
pub open spec fn spec_session_token(cookie_header: Option<&str>) -> Option<Seq<char>> {
    match cookie_header {
        None => None,
        Some(h) => {
            let token = spec_get_cookie(h@);
            if token.len() == 0 {
                None
            } else {
                Some(token)
            }
        },
    }
}

/// The session token of a request: none without a cookie header or with an empty token.
pub fn session_token(cookie_header: Option<&str>) -> (r: Option<String>)
    ensures
        match r {
            Some(t) => spec_session_token(cookie_header) == Some(t@),
            None => spec_session_token(cookie_header) is None,
        },
{
    match cookie_header {
        None => None,
        Some(h) => {
            let token = get_cookie(h);
            if token.as_str().is_empty() {
                None
            } else {
                Some(token)
            }
        },
    }
}

} // verus!
