//! Character-level string utilities: whitespace tests, equality,
//! prefix tests, case-insensitive comparison, and substring replacement.

use vstd::prelude::*;

verus! {

/// ASCII whitespace, as it occurs in an HTTP request line.
pub open spec fn spec_is_ws(c: char) -> bool {
    c == ' ' || c == '\t' || c == '\r' || c == '\n'
}

#[verifier::when_used_as_spec(spec_is_ws)]
pub fn is_ws(c: char) -> (r: bool)
    ensures
        r == spec_is_ws(c),
{
    c == ' ' || c == '\t' || c == '\r' || c == '\n'
}

/// Character code after ASCII upper-casing.
pub open spec fn spec_upper(c: char) -> int {
    if 97 <= c as int <= 122 {
        c as int - 32
    } else {
        c as int
    }
}

/// Two character sequences are equal up to ASCII case.
pub open spec fn eq_ignore_case(s: Seq<char>, t: Seq<char>) -> bool {
    s.len() == t.len() && (forall|i: int| 0 <= i < s.len() ==> spec_upper(s[i]) == spec_upper(t[i]))
}

fn upper_code(c: char) -> (r: u32)
    ensures
        r as int == spec_upper(c),
{
    let x = c as u32;
    if 97 <= x && x <= 122 {
        x - 32
    } else {
        x
    }
}

/// Exact equality of two string slices, character by character.
pub fn str_eq(a: &str, b: &str) -> (r: bool)
    ensures
        r == (a@ == b@),
{
    let na = a.unicode_len();
    let nb = b.unicode_len();
    if na != nb {
        proof {
            assert(a@ != b@) by {
                if a@ == b@ {
                    assert(a@.len() == b@.len());
                }
            }
        }
        return false;
    }
    let mut i: usize = 0;
    while i < na
        invariant
            na == a@.len(),
            nb == b@.len(),
            na == nb,
            0 <= i <= na,
            forall|k: int| 0 <= k < i ==> a@[k] == b@[k],
        decreases na - i,
    {
        if a.get_char(i) != b.get_char(i) {
            proof {
                assert(a@ != b@) by {
                    if a@ == b@ {
                        assert(a@[i as int] == b@[i as int]);
                    }
                }
            }
            return false;
        }
        i += 1;
    }
    proof {
        assert(a@ =~= b@);
    }
    true
}

/// Equality of two string slices up to ASCII case.
pub fn str_eq_ignore_case(a: &str, b: &str) -> (r: bool)
    ensures
        r == eq_ignore_case(a@, b@),
{
    let na = a.unicode_len();
    let nb = b.unicode_len();
    if na != nb {
        return false;
    }
    let mut i: usize = 0;
    while i < na
        invariant
            na == a@.len(),
            nb == b@.len(),
            na == nb,
            0 <= i <= na,
            forall|k: int| 0 <= k < i ==> spec_upper(a@[k]) == spec_upper(b@[k]),
        decreases na - i,
    {
        if upper_code(a.get_char(i)) != upper_code(b.get_char(i)) {
            return false;
        }
        i += 1;
    }
    true
}

/// `p` is a prefix of `s`.
pub open spec fn has_prefix(s: Seq<char>, p: Seq<char>) -> bool {
    p.len() <= s.len() && s.subrange(0, p.len() as int) == p
}

/// Does `p` occur in `s` starting at character position `i`?
pub fn starts_with_at(s: &str, i: usize, p: &str) -> (r: bool)
    requires
        i <= s@.len(),
    ensures
        r == has_prefix(s@.skip(i as int), p@),
{
    let n = s.unicode_len();
    let np = p.unicode_len();
    if np > n - i {
        return false;
    }
    let mut k: usize = 0;
    while k < np
        invariant
            n == s@.len(),
            np == p@.len(),
            i <= n,
            np <= n - i,
            0 <= k <= np,
            forall|j: int| 0 <= j < k ==> s@[i + j] == p@[j],
        decreases np - k,
    {
        if s.get_char(i + k) != p.get_char(k) {
            proof {
                let rest = s@.skip(i as int);
                assert(!has_prefix(rest, p@)) by {
                    if has_prefix(rest, p@) {
                        assert(rest.subrange(0, p@.len() as int)[k as int] == p@[k as int]);
                        assert(rest[k as int] == s@[i + k]);
                    }
                }
            }
            return false;
        }
        k += 1;
    }
    proof {
        let rest = s@.skip(i as int);
        assert(rest.subrange(0, p@.len() as int) =~= p@);
    }
    true
}

/// `p` is a prefix of `s`.
pub fn starts_with(s: &str, p: &str) -> (r: bool)
    ensures
        r == has_prefix(s@, p@),
{
    let r = starts_with_at(s, 0, p);
    proof {
        assert(s@.skip(0) =~= s@);
    }
    r
}

/// Replacement of every occurrence of `pat` in `s` by `rep`,
/// scanning left to right without overlap.
pub open spec fn spec_replace(s: Seq<char>, pat: Seq<char>, rep: Seq<char>) -> Seq<char>
    recommends
        pat.len() > 0,
    decreases s.len(),
    when pat.len() > 0
{
    if s.len() == 0 {
        s
    } else if has_prefix(s, pat) {
        rep + spec_replace(s.skip(pat.len() as int), pat, rep)
    } else {
        s.take(1) + spec_replace(s.skip(1), pat, rep)
    }
}

/// Replace every occurrence of `pat` in `s` by `rep`, left to right,
/// without rescanning replaced text.
pub fn replace_all(s: &str, pat: &str, rep: &str) -> (res: String)
    requires
        pat@.len() > 0,
    ensures
        res@ == spec_replace(s@, pat@, rep@),
{
    let n = s.unicode_len();
    let np = pat.unicode_len();
    let mut res = String::new();
    let mut i: usize = 0;
    proof {
        assert(s@.skip(0) =~= s@);
        assert(res@ + spec_replace(s@, pat@, rep@) =~= spec_replace(s@, pat@, rep@));
    }
    while i < n
        invariant
            n == s@.len(),
            np == pat@.len(),
            np > 0,
            0 <= i <= n,
            spec_replace(s@, pat@, rep@) == res@ + spec_replace(s@.skip(i as int), pat@, rep@),
        decreases n - i,
    {
        let ghost rest = s@.skip(i as int);
        if starts_with_at(s, i, pat) {
            res.append(rep);
            proof {
                assert(rest.skip(np as int) =~= s@.skip(i + np));
            }
            i += np;
        } else {
            let piece = s.substring_char(i, i + 1);
            res.append(piece);
            proof {
                assert(rest.len() > 0) by {
                    assert(rest.len() == s@.len() - i);
                }
                assert(piece@ =~= rest.take(1)) by {
                    assert(piece@ == s@.subrange(i as int, i + 1));
                    assert(rest.take(1) =~= s@.subrange(i as int, i + 1));
                }
                assert(rest.skip(1) =~= s@.skip(i + 1));
            }
            i += 1;
        }
    }
    proof {
        assert(s@.skip(i as int) =~= Seq::<char>::empty());
        assert(spec_replace(s@, pat@, rep@) =~= res@);
    }
    res
}

/// `s` with ASCII whitespace removed from both ends.
pub open spec fn spec_trim(s: Seq<char>) -> Seq<char>
    decreases s.len(),
{
    if s.len() == 0 {
        s
    } else if spec_is_ws(s[0]) {
        spec_trim(s.skip(1))
    } else if spec_is_ws(s[s.len() - 1]) {
        spec_trim(s.take(s.len() - 1))
    } else {
        s
    }
}

proof fn lemma_trim_skip_front(s: Seq<char>, i: int)
    requires
        0 <= i <= s.len(),
        forall|k: int| 0 <= k < i ==> spec_is_ws(s[k]),
    ensures
        spec_trim(s) == spec_trim(s.skip(i)),
    decreases i,
{
    if i > 0 {
        assert(spec_trim(s) == spec_trim(s.skip(1)));
        lemma_trim_skip_front(s.skip(1), i - 1);
        assert(s.skip(1).skip(i - 1) =~= s.skip(i));
    } else {
        assert(s.skip(0) =~= s);
    }
}

proof fn lemma_trim_take_back(s: Seq<char>, j: int)
    requires
        0 <= j <= s.len(),
        forall|k: int| j <= k < s.len() ==> spec_is_ws(s[k]),
        j == 0 || !spec_is_ws(s[0]),
    ensures
        spec_trim(s) == spec_trim(s.take(j)),
    decreases s.len() - j,
{
    if j < s.len() {
        if s.len() > 0 && !spec_is_ws(s[0]) {
            assert(spec_is_ws(s[s.len() - 1]));
            assert(spec_trim(s) == spec_trim(s.take(s.len() - 1)));
            lemma_trim_take_back(s.take(s.len() - 1), j);
            assert(s.take(s.len() - 1).take(j) =~= s.take(j));
        } else {
            // j == 0 and every character of s is whitespace
            assert(s.len() > 0 ==> spec_is_ws(s[0]));
            lemma_trim_all_ws(s);
            assert(s.take(0) =~= Seq::<char>::empty());
        }
    } else {
        assert(s.take(j) =~= s);
    }
}

proof fn lemma_trim_all_ws(s: Seq<char>)
    requires
        forall|k: int| 0 <= k < s.len() ==> spec_is_ws(s[k]),
    ensures
        spec_trim(s) == Seq::<char>::empty(),
    decreases s.len(),
{
    if s.len() == 0 {
        assert(s =~= Seq::<char>::empty());
    } else {
        lemma_trim_all_ws(s.skip(1));
    }
}

/// Remove ASCII whitespace from both ends of `s`.
pub fn trim(s: &str) -> (res: String)
    ensures
        res@ == spec_trim(s@),
{
    let n = s.unicode_len();
    let mut i: usize = 0;
    while i < n && is_ws(s.get_char(i))
        invariant
            n == s@.len(),
            0 <= i <= n,
            forall|k: int| 0 <= k < i ==> spec_is_ws(s@[k]),
        decreases n - i,
    {
        i += 1;
    }
    if i == n {
        proof {
            lemma_trim_all_ws(s@);
        }
        return String::new();
    }
    let mut j: usize = n;
    while j > i && is_ws(s.get_char(j - 1))
        invariant
            n == s@.len(),
            0 <= i <= j <= n,
            forall|k: int| j <= k < n ==> spec_is_ws(s@[k]),
        decreases j,
    {
        j -= 1;
    }
    let res = s.substring_char(i, j);
    proof {
        lemma_trim_skip_front(s@, i as int);
        let rest = s@.skip(i as int);
        assert(!spec_is_ws(rest[0]));
        lemma_trim_take_back(rest, j - i);
        assert(rest.take(j - i) =~= s@.subrange(i as int, j as int));
        let t = rest.take(j - i);
        assert(t.len() > 0 && !spec_is_ws(t[0]) && !spec_is_ws(t[t.len() - 1]));
        assert(spec_trim(t) == t);
    }
    res.to_owned()
}

} // verus!
