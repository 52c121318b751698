//! A small routing table.
//!
//! An [`App`] holds a name and an ordered table of routes.  The listening
//! socket, the worker threads and the handler callbacks live with the
//! surrounding program, which keeps its handlers aligned with the table
//! by position and asks [`App::dispatch`] what to do with each request.

use vstd::prelude::*;
use crate::text::str_eq;

verus! {

/// One route: the path it serves and the request methods it allows.
pub struct Route {
    /// The path this route serves.
    pub path: String,
    /// The request methods this route accepts.
    pub allowed_methods: Vec<String>,
}

/// Could not bind to the given address.
pub struct CantBind;

/// Whether the route at position `i` is the first one of `t` serving
/// path `p`.
pub open spec fn is_first_route(t: Seq<Route>, p: Seq<char>, i: int) -> bool {
    &&& 0 <= i < t.len()
    &&& t[i].path@ == p
    &&& forall|j: int| 0 <= j < i ==> t[j].path@ != p
}

/// Whether no route of `t` serves path `p`.
pub open spec fn no_route(t: Seq<Route>, p: Seq<char>) -> bool {
    forall|i: int| 0 <= i < t.len() ==> t[i].path@ != p
}

/// Whether the route allows the request method `m`.
pub open spec fn allows_method(r: Route, m: Seq<char>) -> bool {
    exists|k: int| 0 <= k < r.allowed_methods.len() && r.allowed_methods[k]@ == m
}

/// The path under which a handler for unknown paths is registered.
pub open spec fn not_found_path() -> Seq<char> {
    seq!['!', '4', '0', '4']
}

/// The path under which a handler for disallowed methods is registered.
pub open spec fn not_allowed_path() -> Seq<char> {
    seq!['!', '4', '0', '5']
}

/// What to do with a request, decided from the routing table alone.
pub enum Dispatch {
    /// The path's route allows the method: call its handler.
    Handler(usize),
    /// No route serves the path: call the handler of the `!404` route at
    /// this position.
    NotFoundHandler(usize),
    /// No route serves the path and none is registered under `!404`:
    /// answer with the stock not-found response.
    NotFoundDefault,
    /// The path's route does not allow the method: call the handler of
    /// the `!405` route at this position.
    MethodNotAllowedHandler(usize),
    /// The path's route does not allow the method and no route is
    /// registered under `!405`: answer with the stock
    /// method-not-allowed response.
    MethodNotAllowedDefault,
}

/// An application: a named, ordered table of routes.
pub struct App {
    /// The name of this app.
    pub name: String,
    routes: Vec<Route>,
}

impl App {
    /// The table of routes, in registration order.
    pub closed spec fn route_table(&self) -> Seq<Route> {
        self.routes@
    }

    /// The app's name, as given to [`App::new`].
    pub closed spec fn spec_name(&self) -> String {
        self.name
    }

    /// Makes a new app with no routes.
    pub fn new(name: String) -> (app: App)
        ensures
            app.spec_name() == name,
            app.route_table() == Seq::<Route>::empty(),
    {
        let app = App { name, routes: Vec::new() };
        proof {
            assert(app.route_table() =~= Seq::<Route>::empty());
        }
        app
    }

    /// Registers a route for `path`, allowing only the `GET` method.
    /// The caller keeps the matching handler at the same position.
    pub fn route(&mut self, path: &str)
        ensures
            final(self).spec_name() == old(self).spec_name(),
            final(self).route_table().len() == old(self).route_table().len() + 1,
            final(self).route_table().take(old(self).route_table().len() as int) == old(
                self,
            ).route_table(),
            final(self).route_table().last().path@ == path@,
            final(self).route_table().last().allowed_methods.len() == 1,
            final(self).route_table().last().allowed_methods[0]@ == "GET"@,
    {
        let mut methods: Vec<String> = Vec::new();
        methods.push(String::from_str("GET"));
        self.routes.push(Route { path: String::from_str(path), allowed_methods: methods });
        proof {
            assert(self.route_table().take(old(self).route_table().len() as int) =~= old(
                self,
            ).route_table());
        }
    }

    /// Registers a route for `path` with the given allowed methods.
    pub fn route_with_allowed_methods(&mut self, path: &str, allowed_methods: Vec<String>)
        ensures
            final(self).spec_name() == old(self).spec_name(),
            final(self).route_table().len() == old(self).route_table().len() + 1,
            final(self).route_table().take(old(self).route_table().len() as int) == old(
                self,
            ).route_table(),
            final(self).route_table().last().path@ == path@,
            final(self).route_table().last().allowed_methods == allowed_methods,
    {
        self.routes.push(Route { path: String::from_str(path), allowed_methods });
        proof {
            assert(self.route_table().take(old(self).route_table().len() as int) =~= old(
                self,
            ).route_table());
        }
    }

    /// The position of the first route serving `path`, if any.
    pub fn find_route_for_path(&self, path: &str) -> (r: Option<usize>)
        ensures
            match r {
                Some(i) => is_first_route(self.route_table(), path@, i as int),
                None => no_route(self.route_table(), path@),
            },
    {
        let n = self.routes.len();
        let mut i: usize = 0;
        while i < n
            invariant
                n == self.route_table().len(),
                i <= n,
                forall|j: int| 0 <= j < i ==> self.route_table()[j].path@ != path@,
            decreases n - i,
        {
            if str_eq(self.routes[i].path.as_str(), path) {
                return Some(i);
            }
            i += 1;
        }
        None
    }

    /// Whether the route at position `i` allows the request method.
    fn route_allows(&self, i: usize, method: &str) -> (r: bool)
        requires
            i < self.route_table().len(),
        ensures
            r == allows_method(self.route_table()[i as int], method@),
    {
        let n = self.routes[i].allowed_methods.len();
        let mut k: usize = 0;
        while k < n
            invariant
                i < self.route_table().len(),
                n == self.route_table()[i as int].allowed_methods.len(),
                k <= n,
                forall|m: int|
                    0 <= m < k ==> self.route_table()[i as int].allowed_methods[m]@ != method@,
            decreases n - k,
        {
            if str_eq(self.routes[i].allowed_methods[k].as_str(), method) {
                return true;
            }
            k += 1;
        }
        false
    }

    /// Decides what to do with a request for `path` using `method`: the
    /// first route serving the path wins; a path nobody serves falls
    /// back to the `!404` route, a method the route refuses to the
    /// `!405` route, and to stock responses where those are absent.
    pub fn dispatch(&self, path: &str, method: &str) -> (d: Dispatch)
        ensures
            match d {
                Dispatch::Handler(i) => is_first_route(self.route_table(), path@, i as int)
                    && allows_method(self.route_table()[i as int], method@),
                Dispatch::NotFoundHandler(h) => no_route(self.route_table(), path@)
                    && is_first_route(self.route_table(), not_found_path(), h as int),
                Dispatch::NotFoundDefault => no_route(self.route_table(), path@) && no_route(
                    self.route_table(),
                    not_found_path(),
                ),
                Dispatch::MethodNotAllowedHandler(h) => (exists|i: int|
                    is_first_route(self.route_table(), path@, i) && !allows_method(
                        #[trigger] self.route_table()[i],
                        method@,
                    )) && is_first_route(self.route_table(), not_allowed_path(), h as int),
                Dispatch::MethodNotAllowedDefault => (exists|i: int|
                    is_first_route(self.route_table(), path@, i) && !allows_method(
                        #[trigger] self.route_table()[i],
                        method@,
                    )) && no_route(self.route_table(), not_allowed_path()),
            },
    {
        match self.find_route_for_path(path) {
            None => {
                let nf = "!404";
                proof {
                    reveal_strlit("!404");
                    assert(nf@ =~= not_found_path());
                }
                match self.find_route_for_path(nf) {
                    Some(h) => Dispatch::NotFoundHandler(h),
                    None => Dispatch::NotFoundDefault,
                }
            },
            Some(i) => {
                if self.route_allows(i, method) {
                    Dispatch::Handler(i)
                } else {
                    let na = "!405";
                    proof {
                        reveal_strlit("!405");
                        assert(na@ =~= not_allowed_path());
                    }
                    match self.find_route_for_path(na) {
                        Some(h) => Dispatch::MethodNotAllowedHandler(h),
                        None => Dispatch::MethodNotAllowedDefault,
                    }
                }
            },
        }
    }
}

} // verus!
