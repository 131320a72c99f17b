//! Named routes selected by glob patterns.

use vstd::prelude::*;
use crate::utils::request::last_value;
use crate::utils::text::same_text;

verus! {

/// Whether `glob::Pattern::new` accepts `pattern`.
pub uninterp spec fn glob_valid(pattern: Seq<char>) -> bool;

/// Whether the pattern that `glob::Pattern::new` compiles from `pattern` matches
/// `path` under `glob::Pattern::matches` (the default match options).
pub uninterp spec fn glob_matches(pattern: Seq<char>, path: Seq<char>) -> bool;

/// Calls `glob::Pattern::new(pattern)` and reports whether it succeeded.
/// The contract claims only that the answer is the one named by `glob_valid`.
#[verifier::external_body]
fn pattern_is_valid(pattern: &str) -> (r: bool)
    ensures
        r == glob_valid(pattern@),
{
    glob::Pattern::new(pattern).is_ok()
}

/// Compiles `pattern` with `glob::Pattern::new` and calls `glob::Pattern::matches` on `path`.
/// The contract claims only that the answer is the one named by `glob_matches`.
#[verifier::external_body]
fn pattern_matches(pattern: &str, path: &str) -> (r: bool)
    requires
        glob_valid(pattern@),
    ensures
        r == glob_matches(pattern@, path@),
{
    match glob::Pattern::new(pattern) {
        Ok(p) => p.matches(path),
        Err(_) => false,
    }
}

/// A route: a name, and the glob pattern of the paths that it serves.
pub struct Route {
    name: String,
    pattern: String,
}

impl View for Route {
    type V = (Seq<char>, Seq<char>);

    closed spec fn view(&self) -> (Seq<char>, Seq<char>) {
        (self.name@, self.pattern@)
    }
}

impl Route {
    /// Builds a route from its name and pattern.
    pub fn new(name: &str, pattern: &str) -> (r: Route)
        ensures
            r@ == (name@, pattern@),
    {
        Route { name: name.to_string(), pattern: pattern.to_string() }
    }

    /// The name of the route.
    pub fn name(&self) -> (r: &str)
        ensures
            r@ == self@.0,
    {
        self.name.as_str()
    }

    /// The pattern of the route.
    pub fn pattern(&self) -> (r: &str)
        ensures
            r@ == self@.1,
    {
        self.pattern.as_str()
    }
}

/// Position of the first entry at or after `i` named `name`, or `-1` when there is none.
pub open spec fn name_index_from(table: Seq<(Seq<char>, Seq<char>)>, name: Seq<char>, i: int) -> int
    decreases table.len() - i,
{
    if i < 0 || i >= table.len() {
        -1
    } else if table[i].0 == name {
        i
    } else {
        name_index_from(table, name, i + 1)
    }
}

/// Position of the entry named `name`, or `-1` when there is none.
pub open spec fn name_index(table: Seq<(Seq<char>, Seq<char>)>, name: Seq<char>) -> int {
    name_index_from(table, name, 0)
}

/// The pattern that the table holds for `name`.
pub open spec fn pattern_for(table: Seq<(Seq<char>, Seq<char>)>, name: Seq<char>) -> Option<Seq<char>> {
    if name_index(table, name) >= 0 {
        Some(table[name_index(table, name)].1)
    } else {
        None
    }
}

/// No two entries have the same name.
pub open spec fn unique_names(table: Seq<(Seq<char>, Seq<char>)>) -> bool {
    forall|i: int, j: int| 0 <= i < j < table.len() ==> table[i].0 != table[j].0
}

/// The table after adding an entry: an entry of the same name takes the new pattern
/// in place, as inserting into a map does; otherwise the entry is added.
pub open spec fn upsert(table: Seq<(Seq<char>, Seq<char>)>, entry: (Seq<char>, Seq<char>)) -> Seq<(Seq<char>, Seq<char>)> {
    if name_index(table, entry.0) >= 0 {
        table.update(name_index(table, entry.0), entry)
    } else {
        table.push(entry)
    }
}

/// The table built from routes added in order.
pub open spec fn build_table(routes: Seq<(Seq<char>, Seq<char>)>) -> Seq<(Seq<char>, Seq<char>)>
    decreases routes.len(),
{
    if routes.len() == 0 {
        Seq::empty()
    } else {
        upsert(build_table(routes.drop_last()), routes.last())
    }
}

/// Position of the first entry at or after `i` whose pattern matches `path`, or `-1`.
pub open spec fn match_index_from(table: Seq<(Seq<char>, Seq<char>)>, path: Seq<char>, i: int) -> int
    decreases table.len() - i,
{
    if i < 0 || i >= table.len() {
        -1
    } else if glob_matches(table[i].1, path) {
        i
    } else {
        match_index_from(table, path, i + 1)
    }
}

/// The name of the route that serves `path`: that of the first entry whose pattern matches.
pub open spec fn spec_route(table: Seq<(Seq<char>, Seq<char>)>, path: Seq<char>) -> Option<Seq<char>> {
    let k = match_index_from(table, path, 0);
    if k >= 0 {
        Some(table[k].0)
    } else {
        None
    }
}

proof fn lemma_name_index_from(table: Seq<(Seq<char>, Seq<char>)>, name: Seq<char>, i: int)
    requires
        0 <= i <= table.len(),
    ensures
        -1 <= name_index_from(table, name, i) < table.len(),
        name_index_from(table, name, i) >= 0 ==> i <= name_index_from(table, name, i)
            && table[name_index_from(table, name, i)].0 == name,
        name_index_from(table, name, i) == -1 ==> forall|j: int|
            i <= j < table.len() ==> table[j].0 != name,
        name_index_from(table, name, i) >= 0 ==> forall|j: int|
            i <= j < name_index_from(table, name, i) ==> table[j].0 != name,
    decreases table.len() - i,
{
    if i < table.len() && table[i].0 != name {
        lemma_name_index_from(table, name, i + 1);
    }
}

/// What `name_index` is: the position of the entry with that name, or `-1` when no entry has it.
pub proof fn lemma_name_index(table: Seq<(Seq<char>, Seq<char>)>, name: Seq<char>)
    ensures
        -1 <= name_index(table, name) < table.len(),
        name_index(table, name) >= 0 ==> table[name_index(table, name)].0 == name,
        name_index(table, name) == -1 <==> forall|j: int| 0 <= j < table.len() ==> table[j].0 != name,
        name_index(table, name) >= 0 ==> forall|j: int|
            0 <= j < name_index(table, name) ==> table[j].0 != name,
{
    lemma_name_index_from(table, name, 0);
}

proof fn lemma_match_index_from(table: Seq<(Seq<char>, Seq<char>)>, path: Seq<char>, i: int)
    requires
        0 <= i <= table.len(),
    ensures
        -1 <= match_index_from(table, path, i) < table.len(),
        match_index_from(table, path, i) >= 0 ==> i <= match_index_from(table, path, i)
            && glob_matches(table[match_index_from(table, path, i)].1, path),
        match_index_from(table, path, i) == -1 ==> forall|j: int|
            i <= j < table.len() ==> !glob_matches(table[j].1, path),
    decreases table.len() - i,
{
    if i < table.len() && !glob_matches(table[i].1, path) {
        lemma_match_index_from(table, path, i + 1);
    }
}

/// A route is found for a path exactly when some entry's pattern matches it, and the
/// route found is the name of an entry whose pattern matches.
pub proof fn lemma_route_matches(table: Seq<(Seq<char>, Seq<char>)>, path: Seq<char>)
    ensures
        spec_route(table, path) is None <==> forall|j: int|
            0 <= j < table.len() ==> !glob_matches(table[j].1, path),
        spec_route(table, path) matches Some(n) ==> exists|j: int|
            0 <= j < table.len() && table[j].0 == n && glob_matches(table[j].1, path),
{
    lemma_match_index_from(table, path, 0);
    let k = match_index_from(table, path, 0);
    if k >= 0 {
        assert(table[k].0 == table[k].0 && glob_matches(table[k].1, path));
    }
}

/// Adding an entry keeps names unique, gives the entry's name its pattern, and leaves
/// every other name's pattern as it was.
pub proof fn lemma_upsert(table: Seq<(Seq<char>, Seq<char>)>, entry: (Seq<char>, Seq<char>), name: Seq<char>)
    requires
        unique_names(table),
    ensures
        unique_names(upsert(table, entry)),
        pattern_for(upsert(table, entry), name) == if name == entry.0 {
            Some(entry.1)
        } else {
            pattern_for(table, name)
        },
{
    let t2 = upsert(table, entry);
    lemma_name_index(table, entry.0);
    lemma_name_index(table, name);
    lemma_name_index(t2, name);
    let k = name_index(table, entry.0);
    if k >= 0 {
        assert forall|i: int, j: int| 0 <= i < j < t2.len() implies t2[i].0 != t2[j].0 by {
            assert(t2[i].0 == table[i].0);
            assert(t2[j].0 == table[j].0);
        }
        let m = name_index(t2, name);
        if name == entry.0 {
            if m != k {
                assert(t2[k].0 == name);
            }
        } else {
            let m0 = name_index(table, name);
            if m0 >= 0 {
                assert(t2[m0].0 == name);
            }
            if m >= 0 {
                assert(table[m].0 == name);
            }
        }
    } else {
        assert forall|i: int, j: int| 0 <= i < j < t2.len() implies t2[i].0 != t2[j].0 by {
            if j == table.len() {
                assert(table[i].0 != entry.0);
            }
        }
        let m = name_index(t2, name);
        if name == entry.0 {
            assert(t2[table.len() as int].0 == name);
        } else {
            let m0 = name_index(table, name);
            if m0 >= 0 {
                assert(t2[m0].0 == name);
            }
            if m >= 0 {
                assert(m < table.len());
                assert(table[m].0 == name);
            }
        }
    }
}

/// A table built from routes has unique names, and holds for each name the pattern of
/// the last route with that name, as a map filled in order does.
pub proof fn lemma_build_table(routes: Seq<(Seq<char>, Seq<char>)>, name: Seq<char>)
    ensures
        unique_names(build_table(routes)),
        pattern_for(build_table(routes), name) == last_value(routes, name),
    decreases routes.len(),
{
    if routes.len() == 0 {
        lemma_name_index(build_table(routes), name);
    } else {
        lemma_build_table(routes.drop_last(), name);
        lemma_upsert(build_table(routes.drop_last()), routes.last(), name);
    }
}

/// Chooses the route for a request path among named glob patterns.
pub struct Router {
    routes: Vec<(String, String)>,
}

impl View for Router {
    type V = Seq<(Seq<char>, Seq<char>)>;

    closed spec fn view(&self) -> Seq<(Seq<char>, Seq<char>)> {
        self.routes@.map_values(|e: (String, String)| (e.0@, e.1@))
    }
}

/// Every route's pattern compiles.
pub open spec fn patterns_valid(table: Seq<(Seq<char>, Seq<char>)>) -> bool {
    forall|i: int| 0 <= i < table.len() ==> glob_valid(#[trigger] table[i].1)
}

impl Router {
    #[verifier::type_invariant]
    closed spec fn well_formed(self) -> bool {
        &&& unique_names(self@)
        &&& patterns_valid(self@)
    }

    /// Builds a router from routes added in order; a later route of the same name
    /// replaces the pattern of an earlier one.
    pub fn new(routes: Vec<Route>) -> (r: Router)
        requires
            forall|i: int| 0 <= i < routes@.len() ==> glob_valid(#[trigger] routes@[i]@.1),
        ensures
            r@ == build_table(routes@.map_values(|x: Route| x@)),
    {
        let ghost rv = routes@.map_values(|x: Route| x@);
        let mut table: Vec<(String, String)> = Vec::new();
        let mut i: usize = 0;
        while i < routes.len()
            invariant
                i <= routes@.len(),
                rv == routes@.map_values(|x: Route| x@),
                forall|k: int| 0 <= k < routes@.len() ==> glob_valid(#[trigger] routes@[k]@.1),
                table@.map_values(|e: (String, String)| (e.0@, e.1@)) == build_table(rv.take(i as int)),
                unique_names(build_table(rv.take(i as int))),
                patterns_valid(build_table(rv.take(i as int))),
            decreases routes@.len() - i,
        {
            let ghost before = table@.map_values(|e: (String, String)| (e.0@, e.1@));
            let name = routes[i].name();
            let pattern = routes[i].pattern();
            let ghost entry = rv[i as int];
            assert(entry == (name@, pattern@));
            assert(rv.take(i + 1).drop_last() =~= rv.take(i as int));
            assert(rv.take(i + 1).last() == entry);
            proof {
                lemma_name_index(before, name@);
                lemma_upsert(before, entry, name@);
            }
            let mut j: usize = 0;
            let mut found = false;
            while j < table.len() && !found
                invariant
                    j <= table@.len(),
                    before == table@.map_values(|e: (String, String)| (e.0@, e.1@)),
                    found ==> j < table@.len() && before[j as int].0 == name@,
                    forall|m: int| 0 <= m < j ==> before[m].0 != name@,
                decreases table@.len() - j + (if found { 0int } else { 1int }),
            {
                if same_text(table[j].0.as_str(), name) {
                    found = true;
                } else {
                    j = j + 1;
                }
            }
            if found {
                proof {
                    assert(before[j as int].0 == name@);
                    assert(name_index(before, name@) == j);
                }
                table.set(j, (name.to_string(), pattern.to_string()));
            } else {
                proof {
                    assert(name_index(before, name@) == -1);
                }
                table.push((name.to_string(), pattern.to_string()));
            }
            proof {
                let after = table@.map_values(|e: (String, String)| (e.0@, e.1@));
                assert(after =~= upsert(before, entry));
                assert forall|m: int| 0 <= m < after.len() implies glob_valid(#[trigger] after[m].1) by {
                    if m >= before.len() || after[m] != before[m] {
                        assert(after[m] == entry);
                        assert(glob_valid(routes@[i as int]@.1));
                    }
                }
            }
            i = i + 1;
        }
        assert(rv.take(i as int) =~= rv);
        Router { routes: table }
    }

    /// Builds a router when every pattern compiles; `None` when one does not.
    pub fn try_new(routes: Vec<Route>) -> (r: Option<Router>)
        ensures
            match r {
                Some(router) => {
                    &&& forall|i: int| 0 <= i < routes@.len() ==> glob_valid(#[trigger] routes@[i]@.1)
                    &&& router@ == build_table(routes@.map_values(|x: Route| x@))
                },
                None => exists|i: int| 0 <= i < routes@.len() && !glob_valid(#[trigger] routes@[i]@.1),
            },
    {
        let mut i: usize = 0;
        while i < routes.len()
            invariant
                i <= routes@.len(),
                forall|k: int| 0 <= k < i ==> glob_valid(#[trigger] routes@[k]@.1),
            decreases routes@.len() - i,
        {
            if !pattern_is_valid(routes[i].pattern()) {
                return None;
            }
            i = i + 1;
        }
        Some(Router::new(routes))
    }

    /// The name of the route that serves `route`; `Err("Not found")` when no pattern matches.
    pub fn route(&self, route: &str) -> (r: Result<&str, &'static str>)
        ensures
            match r {
                Ok(name) => spec_route(self@, route@) == Some(name@),
                Err(e) => spec_route(self@, route@) is None && e@ == "Not found"@,
            },
    {
        proof {
            use_type_invariant(self);
        }
        let mut i: usize = 0;
        while i < self.routes.len()
            invariant
                i <= self@.len(),
                self@ == self.routes@.map_values(|e: (String, String)| (e.0@, e.1@)),
                patterns_valid(self@),
                match_index_from(self@, route@, i as int) == match_index_from(self@, route@, 0),
            decreases self@.len() - i,
        {
            let ghost entry = self@[i as int];
            if pattern_matches(self.routes[i].1.as_str(), route) {
                return Ok(self.routes[i].0.as_str());
            }
            i = i + 1;
        }
        Err("Not found")
    }
}

} // verus!
