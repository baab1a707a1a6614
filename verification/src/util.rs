//! Path utilities for static-file routes: sanitizing a request path and
//! resolving it to a file path under the public directory. Whether the
//! file exists on disk is the caller's business; these functions only
//! compute paths.

use vstd::prelude::*;
use crate::text::{
    has_prefix, replace_all, spec_replace, spec_trim, starts_with, trim,
};

verus! {

/// The sanitized form of a request path: trimmed, with parent-directory
/// steps, tildes, backslashes and spaces removed, and doubled slashes
/// collapsed once.
pub open spec fn spec_sanitize(s: Seq<char>) -> Seq<char> {
    spec_replace(
        spec_replace(
            spec_replace(
                spec_replace(spec_replace(spec_trim(s), ".."@, Seq::empty()), "~"@, Seq::empty()),
                "\\"@,
                Seq::empty(),
            ),
            " "@,
            Seq::empty(),
        ),
        "//"@,
        "/"@,
    )
}

/// Strip a request path of traversal and escape characters: trim it,
/// drop `..`, `~`, `\` and spaces, and collapse `//` into `/`.
pub fn sanitize_path(path: &str) -> (r: String)
    ensures
        r@ == spec_sanitize(path@),
{
    proof {
        reveal_strlit("..");
        reveal_strlit("~");
        reveal_strlit("\\");
        reveal_strlit(" ");
        reveal_strlit("//");
        reveal_strlit("/");
        reveal_strlit("");
    }
    let trimmed = trim(path);
    let a = replace_all(trimmed.as_str(), "..", "");
    let b = replace_all(a.as_str(), "~", "");
    let c = replace_all(b.as_str(), "\\", "");
    let d = replace_all(c.as_str(), " ", "");
    let r = replace_all(d.as_str(), "//", "/");
    proof {
        assert(""@ =~= Seq::<char>::empty());
    }
    r
}

/// The path placed under the public directory: kept as is when already
/// there, else prefixed with `src/public`, inserting a slash when the
/// path does not begin with one.
pub open spec fn spec_public(s: Seq<char>) -> Seq<char> {
    if has_prefix(s, "src/public"@) {
        s
    } else if has_prefix(s, "/"@) {
        "src/public"@ + s
    } else {
        "src/public"@ + "/"@ + s
    }
}

/// Place a path under the public directory.
pub fn public(path: &str) -> (r: String)
    ensures
        r@ == spec_public(path@),
{
    if starts_with(path, "src/public") {
        path.to_owned()
    } else if starts_with(path, "/") {
        let base: String = "src/public".to_owned();
        base.concat(path)
    } else {
        let base: String = "src/public".to_owned();
        let with_slash = base.concat("/");
        proof {
            assert(with_slash@ == "src/public"@ + "/"@);
        }
        with_slash.concat(path)
    }
}

/// The file a request path asks for, before checking the disk: the
/// sanitized path, with `index.html` filled in for the root and for
/// directory paths, placed under the public directory.
pub open spec fn spec_static_file_path(s: Seq<char>) -> Seq<char> {
    let p = spec_sanitize(s);
    if p =~= Seq::<char>::empty() || p =~= "/"@ {
        spec_public("src/public/index.html"@)
    } else if p.len() > 0 && p[p.len() - 1] == '/' {
        spec_public(p + "index.html"@)
    } else {
        spec_public(p)
    }
}

/// Resolve a request path to the static file it asks for; the caller
/// checks the disk and falls back to its error page when the file is
/// missing.
pub fn static_file_path(uri: &str) -> (r: String)
    ensures
        r@ == spec_static_file_path(uri@),
{
    let p = sanitize_path(uri);
    let candidate: String = if p.as_str().unicode_len() == 0 || crate::text::str_eq(
        p.as_str(),
        "/",
    ) {
        proof {
            reveal_strlit("/");
            reveal_strlit("src/public/index.html");
        }
        "src/public/index.html".to_owned()
    } else if ends_with_slash(p.as_str()) {
        p.concat("index.html")
    } else {
        p
    };
    proof {
        let s = spec_sanitize(uri@);
        if s =~= Seq::<char>::empty() || s =~= "/"@ {
            assert(candidate@ == "src/public/index.html"@);
        }
    }
    public(candidate.as_str())
}

/// The path's last character is a slash.
fn ends_with_slash(s: &str) -> (r: bool)
    ensures
        r == (s@.len() > 0 && s@[s@.len() - 1] == '/'),
{
    let n = s.unicode_len();
    if n == 0 {
        false
    } else {
        s.get_char(n - 1) == '/'
    }
}

} // verus!
