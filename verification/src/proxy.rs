//! How the proxy admits a request: by its host, the service that serves it, and the
//! service's authentication rule.

use vstd::prelude::*;
use vstd::utf8::encode_utf8;
use crate::cache::{Route, ServiceRegistry};
use crate::utils::text::{
    chars_of, find_char, first_index, lemma_first_index, replace, replace_all, same_text,
    string_of,
};

verus! {

/// Where a request stands on its way through the proxy.
#[derive(Clone, Copy, Debug, PartialEq, Eq, Structural)]
pub enum ProxyStep {
    /// Answer 400: the request names no host.
    BadRequest,
    /// Hand the request to the dashboard.
    Dashboard,
    /// Answer with the not-found page: no service serves the host.
    NotFound,
    /// Pass the request on to the service.
    Forward,
    /// Check the request's token with `token_auth`.
    CheckToken,
    /// Look the request's session up.
    CheckSession,
    /// Answer 401.
    Unauthorized,
}

/// The outcome of a check that the proxy asked for.
#[derive(Clone, Copy, Debug, PartialEq, Eq, Structural)]
pub enum ProxyEvent {
    /// The token check passed, or did not.
    TokenChecked(bool),
    /// A session was found, or was not.
    SessionChecked(bool),
}

/// A service that asks for authentication.
pub open spec fn requires_auth(service: Route) -> bool {
    service.auth@ == "1"@
}

/// The first step for a request with the given host.
pub open spec fn spec_proxy_start(host: Option<Seq<char>>, hq: Seq<char>, services: Map<Seq<char>, Route>) -> ProxyStep {
    match host {
        None => ProxyStep::BadRequest,
        Some(h) => if h == hq {
            ProxyStep::Dashboard
        } else if !services.contains_key(h) {
            ProxyStep::NotFound
        } else if requires_auth(services[h]) {
            ProxyStep::CheckToken
        } else {
            ProxyStep::Forward
        },
    }
}

/// Decides the first step for a request: no host is a bad request, the dashboard's own
/// host goes to the dashboard, an unknown host is not found, and a service that asks for
/// authentication has the token checked first.
pub fn proxy_start(host: Option<&str>, hq: &str, services: &ServiceRegistry) -> (r: ProxyStep)
    ensures
        r == spec_proxy_start(
            match host {
                Some(h) => Some(h@),
                None => None,
            },
            hq@,
            services@,
        ),
{
    match host {
        None => ProxyStep::BadRequest,
        Some(h) => {
            if same_text(h, hq) {
                return ProxyStep::Dashboard;
            }
            match services.lookup(h) {
                None => ProxyStep::NotFound,
                Some(service) => {
                    if same_text(service.auth.as_str(), "1") {
                        ProxyStep::CheckToken
                    } else {
                        ProxyStep::Forward
                    }
                },
            }
        },
    }
}

/// The step after a check: a passed check forwards the request, a failed token check
/// falls back to the session, and a failed session check is refused. An event that does
/// not answer the pending check leaves the step as it is.
pub open spec fn spec_advance(step: ProxyStep, event: ProxyEvent) -> ProxyStep {
    match (step, event) {
        (ProxyStep::CheckToken, ProxyEvent::TokenChecked(true)) => ProxyStep::Forward,
        (ProxyStep::CheckToken, ProxyEvent::TokenChecked(false)) => ProxyStep::CheckSession,
        (ProxyStep::CheckSession, ProxyEvent::SessionChecked(true)) => ProxyStep::Forward,
        (ProxyStep::CheckSession, ProxyEvent::SessionChecked(false)) => ProxyStep::Unauthorized,
        _ => step,
    }
}

/// Moves a request on by the outcome of the check it waited for.
pub fn proxy_advance(step: ProxyStep, event: ProxyEvent) -> (r: ProxyStep)
    ensures
        r == spec_advance(step, event),
{
    match (step, event) {
        (ProxyStep::CheckToken, ProxyEvent::TokenChecked(passed)) => if passed {
            ProxyStep::Forward
        } else {
            ProxyStep::CheckSession
        },
        (ProxyStep::CheckSession, ProxyEvent::SessionChecked(found)) => if found {
            ProxyStep::Forward
        } else {
            ProxyStep::Unauthorized
        },
        _ => step,
    }
}

/// The step reached from `step` after the events, in order.
pub open spec fn run_events(step: ProxyStep, events: Seq<ProxyEvent>) -> ProxyStep
    decreases events.len(),
{
    if events.len() == 0 {
        step
    } else {
        spec_advance(run_events(step, events.drop_last()), events.last())
    }
}

/// A check that passed.
pub open spec fn passed_check(event: ProxyEvent) -> bool {
    event == ProxyEvent::TokenChecked(true) || event == ProxyEvent::SessionChecked(true)
}

/// A request that is not forwarded yet is forwarded only after a check passed.
pub proof fn lemma_forward_needs_passed_check(step: ProxyStep, events: Seq<ProxyEvent>)
    requires
        step != ProxyStep::Forward,
        run_events(step, events) == ProxyStep::Forward,
    ensures
        exists|i: int| 0 <= i < events.len() && passed_check(#[trigger] events[i]),
    decreases events.len(),
{
    if events.len() > 0 {
        let before = run_events(step, events.drop_last());
        if before == ProxyStep::Forward {
            lemma_forward_needs_passed_check(step, events.drop_last());
            let i = choose|i: int| 0 <= i < events.drop_last().len() && passed_check(#[trigger] events.drop_last()[i]);
            assert(events[i] == events.drop_last()[i]);
        } else {
            assert(passed_check(events[events.len() - 1]));
        }
    }
}

/// A request for a service that asks for authentication is forwarded only after a check
/// passed; a request for one that does not is forwarded at once.
pub proof fn lemma_protected_service_forward(
    host: Seq<char>,
    hq: Seq<char>,
    services: Map<Seq<char>, Route>,
    events: Seq<ProxyEvent>,
)
    requires
        host != hq,
        services.contains_key(host),
    ensures
        requires_auth(services[host]) && run_events(spec_proxy_start(Some(host), hq, services), events)
            == ProxyStep::Forward ==> exists|i: int|
            0 <= i < events.len() && passed_check(#[trigger] events[i]),
        !requires_auth(services[host]) ==> spec_proxy_start(Some(host), hq, services)
            == ProxyStep::Forward,
{
    if requires_auth(services[host]) && run_events(spec_proxy_start(Some(host), hq, services), events)
        == ProxyStep::Forward {
        lemma_forward_needs_passed_check(spec_proxy_start(Some(host), hq, services), events);
    }
}

/// The outcome of checking a request's token.
#[derive(Debug, PartialEq, Eq)]
pub enum TokenAuth {
    /// The service asks for no token.
    Accepted,
    /// The request carries no usable token.
    Rejected,
    /// The password of the token is to be checked against the hash.
    Verify { user: String, password: String },
}

/// The longest authentication header that is considered, in bytes, is one less than this.
pub const AUTH_HEADER_LIMIT: usize = 64;

/// The credentials of an authentication header: the header without its `Basic ` markers.
pub open spec fn auth_pair(header: Seq<char>) -> Seq<char> {
    replace_all(header, "Basic "@, ""@)
}

/// The text before the first space.
pub open spec fn first_field(s: Seq<char>) -> Seq<char> {
    s.take(first_index(s, ' '))
}

/// The text between the first space and the next one.
pub open spec fn second_field(s: Seq<char>) -> Seq<char> {
    first_field(s.skip(first_index(s, ' ') + 1))
}

/// A header short enough to be considered.
pub open spec fn header_short(header: Seq<char>) -> bool {
    encode_utf8(header).len() < AUTH_HEADER_LIMIT
}

/// A header that `token_auth` can read without failing: too long to be considered, or
/// holding a space once its `Basic ` markers are gone.
pub open spec fn token_header_parsable(header: Seq<char>) -> bool {
    !header_short(header) || first_index(auth_pair(header), ' ') < auth_pair(header).len()
}

/// Whether `token_auth` can read the header.
pub fn is_token_header_parsable(header: &str) -> (r: bool)
    ensures
        r == token_header_parsable(header@),
{
    if header.as_bytes().len() >= AUTH_HEADER_LIMIT {
        return true;
    }
    proof {
        reveal_strlit("Basic ");
    }
    let pair = replace(header, "Basic ", "");
    let v = chars_of(pair.as_str());
    find_char(&v, ' ') < v.len()
}

/// What `token_auth` decides for a service's authentication rule and the request's
/// authentication header.
pub open spec fn spec_token_auth(auth: Seq<char>, header: Option<Seq<char>>) -> Option<(Seq<char>, Seq<char>)> {
    match header {
        Some(h) if auth == "1"@ && header_short(h) => Some(
            (first_field(auth_pair(h)), second_field(auth_pair(h))),
        ),
        _ => None,
    }
}

/// `s` is the position of the first space of `x`, or its length when it has none.
pub open spec fn is_first_space(x: Seq<char>, s: int) -> bool {
    &&& 0 <= s <= x.len()
    &&& s < x.len() ==> x[s] == ' '
    &&& forall|j: int| 0 <= j < s ==> x[j] != ' '
}

proof fn lemma_first_space_unique(x: Seq<char>, s: int)
    requires
        is_first_space(x, s),
    ensures
        first_index(x, ' ') == s,
{
    lemma_first_index(x, ' ');
    let f = first_index(x, ' ');
    if f < s {
        assert(x[f] == ' ');
    } else if s < f {
        assert(x[s] == ' ');
    }
}

/// No token is read for a service that asks for no authentication. For a service that does,
/// a short header is read: the user is the text of its credentials before the first space,
/// and the password the text after that space up to the next one.
pub proof fn law_token_auth(auth: Seq<char>, header: Option<Seq<char>>)
    ensures
        auth != "1"@ ==> spec_token_auth(auth, header) is None,
        header is None ==> spec_token_auth(auth, header) is None,
        forall|h: Seq<char>, s: int, t: int|
            #![trigger is_first_space(auth_pair(h), s), is_first_space(auth_pair(h).skip(s + 1), t)]
            auth == "1"@ && header == Some(h) && header_short(h) && is_first_space(auth_pair(h), s)
                && s < auth_pair(h).len() && is_first_space(auth_pair(h).skip(s + 1), t)
                ==> spec_token_auth(auth, header) == Some(
                (auth_pair(h).take(s), auth_pair(h).skip(s + 1).take(t)),
            ),
{
    assert forall|h: Seq<char>, s: int, t: int|
        #![trigger is_first_space(auth_pair(h), s), is_first_space(auth_pair(h).skip(s + 1), t)]
        auth == "1"@ && header == Some(h) && header_short(h) && is_first_space(auth_pair(h), s)
            && s < auth_pair(h).len() && is_first_space(auth_pair(h).skip(s + 1), t)
        implies spec_token_auth(auth, header) == Some(
            (auth_pair(h).take(s), auth_pair(h).skip(s + 1).take(t)),
        ) by {
        lemma_first_space_unique(auth_pair(h), s);
        lemma_first_space_unique(auth_pair(h).skip(s + 1), t);
    }
}

/// Checks a request's token: a service that asks for no authentication accepts it; a
/// missing or overlong header is rejected; otherwise the header's user and password are
/// read for the password to be verified.
pub fn token_auth(auth: &str, header: Option<&str>) -> (r: TokenAuth)
    requires
        auth@ == "1"@ ==> match header {
            Some(h) => token_header_parsable(h@),
            None => true,
        },
    ensures
        match r {
            TokenAuth::Accepted => auth@ != "1"@,
            TokenAuth::Rejected => auth@ == "1"@ && match header {
                Some(h) => !header_short(h@),
                None => true,
            },
            TokenAuth::Verify { user, password } => match header {
                Some(h) => spec_token_auth(auth@, Some(h@)) == Some((user@, password@)),
                None => false,
            },
        },
        auth@ != "1"@ ==> r is Accepted,
        auth@ == "1"@ && header is None ==> r is Rejected,
{
    proof {
        law_token_auth(auth@, match header { Some(h) => Some(h@), None => None });
    }
    if !same_text(auth, "1") {
        return TokenAuth::Accepted;
    }
    let h = match header {
        None => {
            return TokenAuth::Rejected;
        },
        Some(h) => h,
    };
    if h.as_bytes().len() >= AUTH_HEADER_LIMIT {
        return TokenAuth::Rejected;
    }
    proof {
        reveal_strlit("Basic ");
    }
    let pair = replace(h, "Basic ", "");
    let v = chars_of(pair.as_str());
    let space = find_char(&v, ' ');
    proof {
        lemma_first_index(v@, ' ');
    }
    let user = string_of(&v, pair.as_str(), 0, space);
    let rest = string_of(&v, pair.as_str(), space + 1, v.len());
    let rv = chars_of(rest.as_str());
    let next = find_char(&rv, ' ');
    proof {
        lemma_first_index(rv@, ' ');
        assert(rv@ =~= pair@.skip(space + 1));
    }
    let password = string_of(&rv, rest.as_str(), 0, next);
    proof {
        assert(user@ =~= first_field(auth_pair(h@)));
        assert(password@ =~= second_field(auth_pair(h@)));
    }
    TokenAuth::Verify { user, password }
}

} // verus!
