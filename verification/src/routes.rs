//! The route table: a registry of (method, path, handler) entries with a
//! three-tier lookup — exact path, then the method's `"*"` wildcard, then
//! GET's wildcard when the method has no entries at all. Later
//! registrations of a pair shadow earlier ones (last write wins).
//!
//! Handlers are stored by identity only: the table is generic over a
//! copyable handler token `H`.

use vstd::prelude::*;
use crate::method::{Method, method_matches_str, method_of, lemma_method_of_matches};
use crate::text::str_eq;

verus! {

/// One registered route.
pub struct Route<H> {
    pub method: Method,
    pub path: String,
    pub handler: H,
}

/// The route table.
pub struct Routes<H> {
    entries: Vec<Route<H>>,
}

/// A builder that records route definitions; `Routes::configure` hands
/// one to a configuration closure and installs what it built.
pub struct RouteBuilder<H> {
    pub build: Routes<H>,
}

/// The handler registered for the method token `m` and exact path `p`,
/// taking the latest matching entry (last write wins); none if no entry
/// matches exactly.
pub open spec fn spec_lookup<H>(s: Seq<Route<H>>, m: Seq<char>, p: Seq<char>) -> Option<H>
    decreases s.len(),
{
    if s.len() == 0 {
        None
    } else if method_matches_str(s.last().method, m) && s.last().path@ == p {
        Some(s.last().handler)
    } else {
        spec_lookup(s.drop_last(), m, p)
    }
}

/// Some entry is registered under the method token `m`.
pub open spec fn spec_registered<H>(s: Seq<Route<H>>, m: Seq<char>) -> bool {
    exists|i: int| 0 <= i < s.len() && method_matches_str(s[i].method, m)
}

/// The three-tier lookup: exact path under `m`, else `m`'s wildcard,
/// else — only when `m` has no entries at all — GET's wildcard.
pub open spec fn spec_find<H>(s: Seq<Route<H>>, m: Seq<char>, p: Seq<char>) -> Option<H> {
    if spec_registered(s, m) {
        if spec_lookup(s, m, p) is Some {
            spec_lookup(s, m, p)
        } else {
            spec_lookup(s, m, "*"@)
        }
    } else {
        spec_lookup(s, "GET"@, "*"@)
    }
}

impl<H: Copy> Routes<H> {
    /// The registered entries, oldest first.
    pub closed spec fn entries(&self) -> Seq<Route<H>> {
        self.entries@
    }

    /// An empty route table.
    pub fn new() -> (r: Routes<H>)
        ensures
            r.entries() =~= Seq::<Route<H>>::empty(),
    {
        Routes { entries: Vec::new() }
    }

    /// Latest entry registered under the (normalized) method `m` with
    /// exactly the path `p`.
    fn lookup(&self, m: &Method, mtoken: Ghost<Seq<char>>, p: &str) -> (r: Option<H>)
        requires
            method_of(mtoken@, *m),
        ensures
            r == spec_lookup(self.entries(), mtoken@, p@),
    {
        let n = self.entries.len();
        let mut i: usize = n;
        proof {
            assert(self.entries@.take(n as int) =~= self.entries@);
        }
        while i > 0
            invariant
                n == self.entries@.len(),
                0 <= i <= n,
                method_of(mtoken@, *m),
                spec_lookup(self.entries@, mtoken@, p@) == spec_lookup(
                    self.entries@.take(i as int),
                    mtoken@,
                    p@,
                ),
            decreases i,
        {
            i -= 1;
            let e = &self.entries[i];
            proof {
                lemma_method_of_matches(mtoken@, *m, e.method);
                assert(self.entries@.take(i + 1).last() == self.entries@[i as int]);
                assert(self.entries@.take(i + 1).drop_last() =~= self.entries@.take(i as int));
            }
            if e.method == *m && str_eq(e.path.as_str(), p) {
                return Some(e.handler);
            }
        }
        proof {
            assert(self.entries@.take(0) =~= Seq::<Route<H>>::empty());
        }
        None
    }

    /// Some entry is registered under the (normalized) method `m`.
    fn is_registered(&self, m: &Method, mtoken: Ghost<Seq<char>>) -> (r: bool)
        requires
            method_of(mtoken@, *m),
        ensures
            r == spec_registered(self.entries(), mtoken@),
    {
        let n = self.entries.len();
        let mut i: usize = 0;
        while i < n
            invariant
                n == self.entries@.len(),
                0 <= i <= n,
                method_of(mtoken@, *m),
                forall|k: int| 0 <= k < i ==> !method_matches_str(self.entries@[k].method, mtoken@),
            decreases n - i,
        {
            let e = &self.entries[i];
            proof {
                lemma_method_of_matches(mtoken@, *m, e.method);
            }
            if e.method == *m {
                return true;
            }
            i += 1;
        }
        false
    }

    /// Resolve a method token and a request path to a handler: the exact
    /// entry under the method if there is one, else the method's `"*"`
    /// wildcard, else — when the method has no entries at all — GET's
    /// `"*"` wildcard; none otherwise.
    pub fn find(&self, method: &str, uri: &str) -> (r: Option<H>)
        ensures
            r == spec_find(self.entries(), method@, uri@),
    {
        let m = Method::from_str(method);
        if self.is_registered(&m, Ghost(method@)) {
            match self.lookup(&m, Ghost(method@), uri) {
                Some(h) => Some(h),
                None => self.lookup(&m, Ghost(method@), "*"),
            }
        } else {
            let get = Method::from_str("GET");
            self.lookup(&get, Ghost("GET"@), "*")
        }
    }

    /// Register a handler for a method token and an exact path,
    /// shadowing any earlier entry for the same pair.
    pub fn define(&mut self, method: &str, path: &str, handler: H)
        ensures
            final(self).entries().len() == old(self).entries().len() + 1,
            final(self).entries().drop_last() == old(self).entries(),
            method_of(method@, final(self).entries().last().method),
            final(self).entries().last().path@ == path@,
            final(self).entries().last().handler == handler,
    {
        let m = Method::from_str(method);
        self.entries.push(Route { method: m, path: path.to_owned(), handler });
        proof {
            assert(self.entries@.drop_last() =~= old(self).entries@);
        }
    }

    /// Run a one-time configuration closure over a builder seeded with
    /// the current table, and install the table it returns.
    pub fn configure<F: FnOnce(RouteBuilder<H>) -> RouteBuilder<H>>(&mut self, f: F)
        requires
            call_requires(f, (RouteBuilder { build: *old(self) },)),
        ensures
            exists|b: RouteBuilder<H>|
                call_ensures(f, (RouteBuilder { build: *old(self) },), b) && *final(self) == b.build,
    {
        let mut taken = Routes { entries: Vec::new() };
        core::mem::swap(&mut taken, self);
        let built = f(RouteBuilder { build: taken });
        let RouteBuilder { build } = built;
        *self = build;
    }
}

impl<H: Copy> RouteBuilder<H> {
    /// A builder starting from the given table.
    pub fn new(routes: Routes<H>) -> (r: RouteBuilder<H>)
        ensures
            r.build == routes,
    {
        RouteBuilder { build: routes }
    }

    /// Register a handler, as `Routes::define` does, returning the
    /// builder for chaining.
    pub fn def(self, method: &str, path: &str, handler: H) -> (r: RouteBuilder<H>)
        ensures
            r.build.entries().len() == self.build.entries().len() + 1,
            r.build.entries().drop_last() == self.build.entries(),
            method_of(method@, r.build.entries().last().method),
            r.build.entries().last().path@ == path@,
            r.build.entries().last().handler == handler,
    {
        let mut b = self;
        b.build.define(method, path, handler);
        b
    }
}

/// Last write wins: after registering `e`, resolving `e`'s own method
/// token and path yields exactly `e`'s handler, whatever was registered
/// before.
pub proof fn lemma_define_then_find<H>(s: Seq<Route<H>>, e: Route<H>, m: Seq<char>)
    requires
        method_of(m, e.method),
    ensures
        spec_find(s.push(e), m, e.path@) == Some(e.handler),
{
    let s2 = s.push(e);
    lemma_method_of_matches(m, e.method, e.method);
    assert(crate::method::method_eq(e.method, e.method));
    assert(method_matches_str(e.method, m));
    assert(s2.last() == e);
    assert(spec_lookup(s2, m, e.path@) == Some(e.handler));
    assert(spec_registered(s2, m)) by {
        assert(method_matches_str(s2[s2.len() - 1].method, m));
    }
}

/// A wildcard registered under a method catches every path with no exact
/// entry under that method.
pub proof fn lemma_wildcard_fallback<H>(s: Seq<Route<H>>, m: Seq<char>, p: Seq<char>)
    requires
        spec_lookup(s, m, p) is None,
        spec_lookup(s, m, "*"@) is Some,
    ensures
        spec_find(s, m, p) == spec_lookup(s, m, "*"@),
{
    lemma_lookup_some_registered(s, m, "*"@);
}

/// When neither the method (exact or wildcard) nor GET's wildcard has a
/// matching entry, resolution yields none.
pub proof fn lemma_find_none<H>(s: Seq<Route<H>>, m: Seq<char>, p: Seq<char>)
    requires
        spec_lookup(s, m, p) is None,
        spec_lookup(s, m, "*"@) is None,
        spec_lookup(s, "GET"@, "*"@) is None,
    ensures
        spec_find(s, m, p) is None,
{
}

/// A successful lookup under a method token means the method is
/// registered.
proof fn lemma_lookup_some_registered<H>(s: Seq<Route<H>>, m: Seq<char>, p: Seq<char>)
    requires
        spec_lookup(s, m, p) is Some,
    ensures
        spec_registered(s, m),
    decreases s.len(),
{
    if s.len() > 0 {
        if method_matches_str(s.last().method, m) && s.last().path@ == p {
            assert(method_matches_str(s[s.len() - 1].method, m));
        } else {
            lemma_lookup_some_registered(s.drop_last(), m, p);
            let i = choose|i: int|
                0 <= i < s.drop_last().len() && method_matches_str(s.drop_last()[i].method, m);
            assert(method_matches_str(s[i].method, m));
        }
    }
}

} // verus!
