//! HTTP methods: the closed set of common verbs plus an arbitrary
//! custom string, with case-insensitive parsing from a method token.

use vstd::prelude::*;
use crate::text::{eq_ignore_case, str_eq, str_eq_ignore_case};

verus! {

/// An HTTP method. Parsing normalizes the five common verbs regardless
/// of case; anything else is kept verbatim as a custom method.
#[derive(Clone, Debug)]
pub enum Method {
    GET,
    POST,
    PUT,
    PATCH,
    DELETE,
    Custom(String),
}

/// `m` is the method that parsing the token `s` yields: the first of the
/// five common verbs that `s` names up to ASCII case, else the custom
/// method carrying `s` itself.
pub open spec fn method_of(s: Seq<char>, m: Method) -> bool {
    if eq_ignore_case(s, "GET"@) {
        m == Method::GET
    } else if eq_ignore_case(s, "POST"@) {
        m == Method::POST
    } else if eq_ignore_case(s, "PUT"@) {
        m == Method::PUT
    } else if eq_ignore_case(s, "PATCH"@) {
        m == Method::PATCH
    } else if eq_ignore_case(s, "DELETE"@) {
        m == Method::DELETE
    } else {
        m matches Method::Custom(c) && c@ == s
    }
}

/// The method value `m` answers to the method token `s`: used to say
/// which route-table entries a request's method token selects.
pub open spec fn method_matches_str(m: Method, s: Seq<char>) -> bool {
    match m {
        Method::GET => eq_ignore_case(s, "GET"@),
        Method::POST => !eq_ignore_case(s, "GET"@) && eq_ignore_case(s, "POST"@),
        Method::PUT => !eq_ignore_case(s, "GET"@) && !eq_ignore_case(s, "POST"@)
            && eq_ignore_case(s, "PUT"@),
        Method::PATCH => !eq_ignore_case(s, "GET"@) && !eq_ignore_case(s, "POST"@)
            && !eq_ignore_case(s, "PUT"@) && eq_ignore_case(s, "PATCH"@),
        Method::DELETE => !eq_ignore_case(s, "GET"@) && !eq_ignore_case(s, "POST"@)
            && !eq_ignore_case(s, "PUT"@) && !eq_ignore_case(s, "PATCH"@)
            && eq_ignore_case(s, "DELETE"@),
        Method::Custom(c) => !eq_ignore_case(s, "GET"@) && !eq_ignore_case(s, "POST"@)
            && !eq_ignore_case(s, "PUT"@) && !eq_ignore_case(s, "PATCH"@)
            && !eq_ignore_case(s, "DELETE"@) && c@ == s,
    }
}

/// Spec meaning of `==` on methods: same verb, or custom methods whose
/// names have the same characters.
pub open spec fn method_eq(a: Method, b: Method) -> bool {
    match (a, b) {
        (Method::GET, Method::GET) => true,
        (Method::POST, Method::POST) => true,
        (Method::PUT, Method::PUT) => true,
        (Method::PATCH, Method::PATCH) => true,
        (Method::DELETE, Method::DELETE) => true,
        (Method::Custom(x), Method::Custom(y)) => x@ == y@,
        _ => false,
    }
}

impl PartialEq for Method {
    fn eq(&self, other: &Method) -> (r: bool) {
        match (self, other) {
            (Method::GET, Method::GET) => true,
            (Method::POST, Method::POST) => true,
            (Method::PUT, Method::PUT) => true,
            (Method::PATCH, Method::PATCH) => true,
            (Method::DELETE, Method::DELETE) => true,
            (Method::Custom(x), Method::Custom(y)) => str_eq(x.as_str(), y.as_str()),
            _ => false,
        }
    }
}

impl vstd::std_specs::cmp::PartialEqSpecImpl for Method {
    open spec fn obeys_eq_spec() -> bool {
        true
    }

    open spec fn eq_spec(&self, other: &Method) -> bool {
        method_eq(*self, *other)
    }
}

/// For any method value `m` obtained by parsing the token `s`, equality
/// with a stored method `e` is exactly whether `e` answers to `s`.
pub proof fn lemma_method_of_matches(s: Seq<char>, m: Method, e: Method)
    requires
        method_of(s, m),
    ensures
        method_eq(e, m) == method_matches_str(e, s),
{
}

impl Method {
    /// Parse a method token: the five common verbs are recognized
    /// regardless of ASCII case; any other token is kept as a custom
    /// method, original case preserved.
    pub fn from_str(s: &str) -> (m: Method)
        ensures
            method_of(s@, m),
    {
        if str_eq_ignore_case(s, "GET") {
            Method::GET
        } else if str_eq_ignore_case(s, "POST") {
            Method::POST
        } else if str_eq_ignore_case(s, "PUT") {
            Method::PUT
        } else if str_eq_ignore_case(s, "PATCH") {
            Method::PATCH
        } else if str_eq_ignore_case(s, "DELETE") {
            Method::DELETE
        } else {
            Method::Custom(s.to_owned())
        }
    }
}

} // verus!
