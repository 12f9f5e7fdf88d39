//! The configured data endpoints: for each alias the path on which its
//! events arrive and the HTTP method of that path.

use vstd::prelude::*;
use vstd::string::StringExecFns;
use crate::text::to_chars;

verus! {

/// The path under which an endpoint is routed: the configured path, with a
/// slash put before it unless it begins with one.
pub open spec fn routed(path: Seq<char>) -> Seq<char> {
    if path.len() > 0 && path[0] == '/' {
        path
    } else {
        "/"@ + path
    }
}

/// The path under which the endpoint with the configured path `path` is
/// routed.
pub fn route_path(path: &str) -> (route: String)
    ensures
        route@ == routed(path@),
{
    let chars = to_chars(path);
    if chars.len() > 0 && chars[0] == '/' {
        path.to_owned()
    } else {
        "/".to_owned().concat(path)
    }
}

/// The endpoint of one alias.
#[derive(Clone, Debug)]
pub struct EndpointDataMap {
    path: String,
    method: String,
}

impl EndpointDataMap {
    /// The path on which events arrive.
    pub closed spec fn path(&self) -> Seq<char> {
        self.path@
    }

    /// The HTTP method of that path.
    pub closed spec fn method(&self) -> Seq<char> {
        self.method@
    }

    /// The endpoint at `path` that answers to `method`.
    pub fn new(path: String, method: String) -> (endpoint: EndpointDataMap)
        ensures
            endpoint.path() == path@,
            endpoint.method() == method@,
    {
        EndpointDataMap { path, method }
    }
}

/// The endpoints by alias, in the order in which the aliases were first
/// set. An alias has one endpoint.
#[derive(Clone, Debug)]
pub struct DataMap(Vec<(String, EndpointDataMap)>);

/// The aliases of `entries`, in order.
pub open spec fn aliases_of(entries: Seq<(String, EndpointDataMap)>) -> Seq<Seq<char>> {
    Seq::new(entries.len(), |i: int| entries[i].0@)
}

/// The aliases of `routes`, in order.
pub open spec fn route_aliases(routes: Seq<(String, String, String)>) -> Seq<Seq<char>> {
    Seq::new(routes.len(), |i: int| routes[i].0@)
}

impl DataMap {
    /// The endpoints with their aliases, in order.
    pub closed spec fn entries(&self) -> Seq<(String, EndpointDataMap)> {
        self.0@
    }

    /// No alias occurs twice.
    pub open spec fn wf(&self) -> bool {
        aliases_of(self.entries()).no_duplicates()
    }

    /// Alias, path and method of the endpoint in the slot `at`.
    pub open spec fn route(&self, at: int) -> (Seq<char>, Seq<char>, Seq<char>) {
        (self.entries()[at].0@, self.entries()[at].1.path(), self.entries()[at].1.method())
    }

    /// The map without endpoints.
    pub fn new() -> (map: DataMap)
        ensures
            map.wf(),
            map.entries().len() == 0,
    {
        DataMap(Vec::new())
    }

    /// Sets the endpoint of `alias`: an alias that has an endpoint gets the
    /// new one in its place, any other alias comes last.
    pub fn insert(&mut self, alias: String, endpoint: EndpointDataMap)
        requires
            old(self).wf(),
        ensures
            final(self).wf(),
            aliases_of(final(self).entries()) == if aliases_of(old(self).entries()).contains(
                alias@,
            ) {
                aliases_of(old(self).entries())
            } else {
                aliases_of(old(self).entries()).push(alias@)
            },
            forall|i: int|
                0 <= i < final(self).entries().len() ==> (#[trigger] final(self).entries()[i]).1
                    == if final(self).entries()[i].0@ == alias@ {
                    endpoint
                } else {
                    old(self).entries()[i].1
                },
    {
        let ghost names = aliases_of(self.0@);
        let mut at: usize = 0;
        while at < self.0.len() && !(self.0[at].0 == alias)
            invariant
                at <= self.0.len(),
                self.0@ == old(self).0@,
                names == aliases_of(self.0@),
                forall|j: int| 0 <= j < at ==> names[j] != alias@,
            decreases self.0.len() - at,
        {
            assert(names[at as int] == self.0@[at as int].0@);
            at += 1;
        }
        if at < self.0.len() {
            assert(names[at as int] == self.0@[at as int].0@);
            assert(names[at as int] == alias@);
            self.0.set(at, (alias, endpoint));
            proof {
                assert(aliases_of(self.0@) =~= names);
                assert forall|i: int| 0 <= i < self.0@.len() && i != at implies self.0@[i].0@
                    != alias@ by {
                    assert(names[i] == self.0@[i].0@);
                    assert(names[i] != names[at as int]);
                }
            }
        } else {
            self.0.push((alias, endpoint));
            proof {
                let grown = aliases_of(self.0@);
                assert(grown =~= names.push(alias@));
                assert forall|i: int, j: int| 0 <= i < j < grown.len() implies grown[i]
                    != grown[j] by {
                    assert(grown[i] == names[i]);
                    if j < names.len() {
                        assert(grown[j] == names[j]);
                    }
                }
                assert forall|i: int| 0 <= i < names.len() implies self.0@[i].0@ != alias@ by {
                    assert(names[i] == self.0@[i].0@);
                }
            }
        }
    }

    /// Alias, path and method of every endpoint, in order. No alias occurs
    /// twice.
    pub fn get_alias_path_method_vec(&self) -> (routes: Vec<(String, String, String)>)
        ensures
            routes@.len() == self.entries().len(),
            forall|i: int|
                0 <= i < routes@.len() ==> (
                (#[trigger] routes@[i]).0@,
                routes@[i].1@,
                routes@[i].2@,
            ) == self.route(i),
            route_aliases(routes@) == aliases_of(self.entries()),
            self.wf() ==> route_aliases(routes@).no_duplicates(),
    {
        let mut routes: Vec<(String, String, String)> = Vec::new();
        let mut at: usize = 0;
        while at < self.0.len()
            invariant
                at <= self.0.len(),
                routes@.len() == at,
                forall|i: int|
                    0 <= i < at ==> (
                    (#[trigger] routes@[i]).0@,
                    routes@[i].1@,
                    routes@[i].2@,
                ) == self.route(i),
            decreases self.0.len() - at,
        {
            let entry = &self.0[at];
            routes.push((entry.0.clone(), entry.1.path.clone(), entry.1.method.clone()));
            at += 1;
        }
        assert(route_aliases(routes@) =~= aliases_of(self.entries())) by {
            assert forall|i: int| 0 <= i < routes@.len() implies route_aliases(routes@)[i]
                == aliases_of(self.entries())[i] by {
                assert((routes@[i].0@, routes@[i].1@, routes@[i].2@) == self.route(i));
            }
        }
        routes
    }
}

} // verus!
