//! The services that announce themselves, keyed by the domain that they serve.

use vstd::prelude::*;
use dashmap::DashMap;

verus! {

/// A service as it announces itself: where it listens and how requests for it are admitted.
#[derive(Clone)]
pub struct Route {
    pub service: String,
    pub protocol: String,
    pub port: String,
    pub auth: String,
    pub access_level: String,
    pub domain: String,
    pub subdomain: String,
    pub path: String,
    pub cors: String,
}

#[verifier::external_type_specification]
#[verifier::external_body]
#[verifier::reject_recursive_types(K)]
#[verifier::reject_recursive_types(V)]
#[verifier::reject_recursive_types(S)]
pub struct ExDashMap<K, V, S>(DashMap<K, V, S>);

/// The concurrent map that holds the services.
pub type ServiceMap = DashMap<String, Route>;

/// What a `dashmap::DashMap` of services holds: the service stored under each key's text.
pub uninterp spec fn registry_contents(m: DashMap<String, Route>) -> Map<Seq<char>, Route>;

/// Calls `dashmap::DashMap::new`; the contract claims that the new map is empty.
#[verifier::external_body]
fn dashmap_new() -> (fresh: ServiceMap)
    ensures
        registry_contents(fresh).is_empty(),
{
    DashMap::new()
}

/// Calls `dashmap::DashMap::insert`; the contract claims that the key now holds the value,
/// that other keys are unchanged, and that the value the key held before is returned.
#[verifier::external_body]
fn dashmap_insert(m: &mut DashMap<String, Route>, key: String, value: Route) -> (r: Option<Route>)
    ensures
        registry_contents(*final(m)) == registry_contents(*old(m)).insert(key@, value),
        r == (if registry_contents(*old(m)).contains_key(key@) {
            Some(registry_contents(*old(m))[key@])
        } else {
            None
        }),
{
    m.insert(key, value)
}

/// Calls `dashmap::DashMap::get` and clones the value found; the contract claims that the
/// result is the value that the key holds, or `None` when it holds none.
#[verifier::external_body]
fn dashmap_get(m: &DashMap<String, Route>, key: &str) -> (r: Option<Route>)
    ensures
        r == (if registry_contents(*m).contains_key(key@) {
            Some(registry_contents(*m)[key@])
        } else {
            None
        }),
{
    match m.get(key) {
        Some(entry) => Some(entry.value().clone()),
        None => None,
    }
}

/// The known services, keyed by domain.
pub struct ServiceRegistry {
    data: DashMap<String, Route>,
}

impl View for ServiceRegistry {
    type V = Map<Seq<char>, Route>;

    closed spec fn view(&self) -> Map<Seq<char>, Route> {
        registry_contents(self.data)
    }
}

impl ServiceRegistry {
    /// A registry that knows no service.
    pub fn new() -> (r: ServiceRegistry)
        ensures
            r@ == Map::<Seq<char>, Route>::empty(),
    {
        ServiceRegistry { data: dashmap_new() }
    }

    /// Accepts an announced service: it now serves its domain, in place of any service
    /// that served the domain before.
    pub fn accept(&mut self, route: Route)
        ensures
            final(self)@ == old(self)@.insert(route.domain@, route),
    {
        let key = route.domain.clone();
        let _ = dashmap_insert(&mut self.data, key, route);
    }

    /// The service that serves `host`, if one does.
    pub fn lookup(&self, host: &str) -> (r: Option<Route>)
        ensures
            r == (if self@.contains_key(host@) {
                Some(self@[host@])
            } else {
                None
            }),
    {
        dashmap_get(&self.data, host)
    }
}

/// After a service is accepted, a lookup of its domain finds it, and a lookup of any other
/// host finds what it found before.
pub proof fn lemma_lookup_after_accept(before: Map<Seq<char>, Route>, route: Route, host: Seq<char>)
    ensures
        before.insert(route.domain@, route).contains_key(host) <==> (host == route.domain@
            || before.contains_key(host)),
        host == route.domain@ ==> before.insert(route.domain@, route)[host] == route,
        host != route.domain@ && before.contains_key(host) ==> before.insert(
            route.domain@,
            route,
        )[host] == before[host],
{
}

} // verus!
