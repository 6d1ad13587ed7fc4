use vstd::prelude::*;
use crate::text::{str_chars, string_from_chars};

verus! {

/// `s` from position `i` on with each occurrence of `pat` replaced by `rep`, occurrences
/// taken left to right without overlap.
pub open spec fn replace_from(s: Seq<char>, pat: Seq<char>, rep: Seq<char>, i: int) -> Seq<char>
    decreases s.len() - i,
{
    if i < 0 || i >= s.len() {
        Seq::empty()
    } else if pat.len() > 0 && i + pat.len() <= s.len() && s.subrange(i, i + pat.len()) == pat {
        rep + replace_from(s, pat, rep, i + pat.len())
    } else {
        seq![s[i]] + replace_from(s, pat, rep, i + 1)
    }
}

/// The scheme prefix "redis://".
pub open spec fn redis_scheme() -> Seq<char> {
    seq!['r', 'e', 'd', 'i', 's', ':', '/', '/']
}

/// The scheme with credentials: user and password together (ACL login), or a password alone;
/// nothing when no password is given.
pub open spec fn scheme_with_auth(username: Option<Seq<char>>, password: Option<Seq<char>>) -> Option<Seq<char>> {
    match password {
        Some(p) => match username {
            Some(u) => Some(redis_scheme() + u + seq![':'] + p + seq!['@']),
            None => Some(redis_scheme() + seq![':'] + p + seq!['@']),
        },
        None => None,
    }
}

/// The URL a Redis client opens: `url` with the credentials put after each "redis://".
pub open spec fn connection_url(url: Seq<char>, username: Option<Seq<char>>, password: Option<Seq<char>>) -> Seq<char> {
    match scheme_with_auth(username, password) {
        Some(a) => replace_from(url, redis_scheme(), a, 0),
        None => url,
    }
}

/// Whether `pat` occurs in `s` at `i`.
fn matches_at(s: &[char], pat: &[char], i: usize) -> (r: bool)
    requires
        i <= s@.len(),
    ensures
        r == (i + pat@.len() <= s@.len() && s@.subrange(i as int, i + pat@.len()) == pat@),
{
    if pat.len() > s.len() - i {
        return false;
    }
    let mut k: usize = 0;
    while k < pat.len()
        invariant
            k <= pat@.len(),
            i + pat@.len() <= s@.len(),
            s@.len() == s.len(),
            pat@.len() == pat.len(),
            forall|j: int| 0 <= j < k ==> s@[i + j] == pat@[j],
        decreases pat.len() - k,
    {
        if s[i + k] != pat[k] {
            assert(s@.subrange(i as int, i + pat@.len())[k as int] != pat@[k as int]);
            return false;
        }
        k = k + 1;
    }
    assert(s@.subrange(i as int, i + pat@.len()) =~= pat@);
    true
}

/// `s` with each occurrence of `pat` replaced by `rep`.
fn replace_all(s: &[char], pat: &[char], rep: &[char]) -> (r: Vec<char>)
    ensures
        r@ == replace_from(s@, pat@, rep@, 0),
{
    let n = s.len();
    let mut out: Vec<char> = Vec::new();
    let mut i: usize = 0;
    while i < n
        invariant
            i <= n,
            n == s@.len(),
            out@ + replace_from(s@, pat@, rep@, i as int) == replace_from(s@, pat@, rep@, 0),
        decreases n - i,
    {
        let ghost before = out@;
        if pat.len() > 0 && matches_at(s, pat, i) {
            let mut k: usize = 0;
            while k < rep.len()
                invariant
                    k <= rep@.len(),
                    out@ == before + rep@.take(k as int),
                decreases rep.len() - k,
            {
                out.push(rep[k]);
                k = k + 1;
                assert(out@ =~= before + rep@.take(k as int));
            }
            assert(rep@.take(rep@.len() as int) =~= rep@);
            assert(out@ + replace_from(s@, pat@, rep@, i + pat@.len()) =~= before + replace_from(s@, pat@, rep@, i as int));
            i = i + pat.len();
        } else {
            out.push(s[i]);
            assert(out@ + replace_from(s@, pat@, rep@, i + 1) =~= before + replace_from(s@, pat@, rep@, i as int));
            i = i + 1;
        }
    }
    assert(out@ + replace_from(s@, pat@, rep@, n as int) =~= out@);
    out
}

/// The URL to open for `redis_connect(url, database, username, password)`; `None` for an
/// empty URL, which is refused.
pub fn redis_connection_url(url: &str, username: Option<&str>, password: Option<&str>) -> (r: Option<String>)
    ensures
        url@.len() == 0 ==> r is None,
        url@.len() > 0 ==> (r matches Some(u) && u@ == connection_url(url@,
            match username { Some(x) => Some(x@), None => None },
            match password { Some(x) => Some(x@), None => None })),
{
    let cs = str_chars(url);
    if cs.len() == 0 {
        return None;
    }
    let scheme = vec!['r', 'e', 'd', 'i', 's', ':', '/', '/'];
    assert(scheme@ =~= redis_scheme());
    match password {
        None => Some(string_from_chars(cs.as_slice())),
        Some(p) => {
            let mut auth = vec!['r', 'e', 'd', 'i', 's', ':', '/', '/'];
            match username {
                Some(u) => {
                    let mut uc = str_chars(u);
                    auth.append(&mut uc);
                },
                None => {},
            }
            auth.push(':');
            let mut pc = str_chars(p);
            auth.append(&mut pc);
            auth.push('@');
            assert(Some(auth@) == scheme_with_auth(match username { Some(x) => Some(x@), None => None }, Some(p@)));
            let out = replace_all(cs.as_slice(), scheme.as_slice(), auth.as_slice());
            Some(string_from_chars(out.as_slice()))
        },
    }
}

} // verus!
