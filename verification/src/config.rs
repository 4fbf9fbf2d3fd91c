//! The origins the service answers on, and how an object store's address is
//! put together.

use vstd::prelude::*;
use vstd::string::StrSliceExecFns;

use crate::text::{append_str, chars_of, has_prefix, starts_with, string_of};

verus! {

/// One of the two origins this service answers on.
///
/// They are separate origins and not one host with two paths because a document
/// runs its author's scripts. Keeping documents off the app's origin is what
/// stops those scripts from reaching the session, the API, or each other's
/// cookies, and it is what lets a document load its own uploaded files as
/// ordinary same-origin subresources.
#[derive(Clone)]
pub struct Origin(pub String);

/// Where the app lives: the front end, the API and the session.
#[derive(Clone)]
pub struct AppUrl(pub Origin);

/// Where documents and their files live.
#[derive(Clone)]
pub struct DocsUrl(pub Origin);

/// Server secret that signs visitor access cookies.
#[derive(Clone)]
pub struct Secret(pub String);

pub const DEV_SECRET: &'static str = "insecure-dev-secret";

/// The position just after the first `://`, if there is one.
pub open spec fn scheme_end(s: Seq<char>) -> Option<int> {
    if exists|i: int| 0 <= i && i + 3 <= s.len() && #[trigger] s.subrange(i, i + 3) == "://"@ {
        let i = choose|i: int|
            0 <= i && i + 3 <= s.len() && #[trigger] s.subrange(i, i + 3) == "://"@ && forall|j: int|
                0 <= j < i ==> #[trigger] s.subrange(j, j + 3) != "://"@;
        Some(i + 3)
    } else {
        None
    }
}

/// `s` without every trailing `c`.
pub open spec fn trim_end_char(s: Seq<char>, c: char) -> Seq<char>
    decreases s.len(),
{
    if s.len() > 0 && s.last() == c {
        trim_end_char(s.drop_last(), c)
    } else {
        s
    }
}

/// Host and port of an origin: what follows the scheme, without trailing
/// slashes.
pub open spec fn authority_of(s: Seq<char>) -> Seq<char> {
    let rest = match scheme_end(s) {
        Some(k) => s.subrange(k, s.len() as int),
        None => s,
    };
    trim_end_char(rest, '/')
}

pub proof fn lemma_trim_end_char_prefix(s: Seq<char>, c: char)
    ensures
        trim_end_char(s, c).len() <= s.len(),
        trim_end_char(s, c) == s.take(trim_end_char(s, c).len() as int),
        forall|k: int| trim_end_char(s, c).len() <= k < s.len() ==> s[k] == c,
        trim_end_char(s, c).len() > 0 ==> trim_end_char(s, c).last() != c,
    decreases s.len(),
{
    if s.len() > 0 && s.last() == c {
        lemma_trim_end_char_prefix(s.drop_last(), c);
        let t = trim_end_char(s, c);
        assert(s.drop_last().take(t.len() as int) =~= s.take(t.len() as int));
        assert forall|k: int| t.len() <= k < s.len() implies s[k] == c by {
            if k < s.len() - 1 {
                assert(s[k] == s.drop_last()[k]);
            }
        }
    } else {
        assert(s.take(s.len() as int) =~= s);
    }
}

/// Where the first `://` ends, as `scheme_end` says.
pub fn find_scheme_end_of(c: &Vec<char>) -> (out: Option<usize>)
    ensures
        match out {
            Some(k) => scheme_end(c@) == Some(k as int) && k <= c.len(),
            None => scheme_end(c@) is None,
        },
{
    let n = c.len();
    if n < 3 {
        assert forall|j: int| 0 <= j && j + 3 <= c@.len() implies #[trigger] c@.subrange(j, j + 3) != "://"@ by {}
        return None;
    }
    let mut i: usize = 0;
    while i <= n - 3
        invariant
            n == c.len(),
            n >= 3,
            i <= n - 2,
            forall|j: int| 0 <= j < i ==> #[trigger] c@.subrange(j, j + 3) != "://"@,
        decreases n - i,
    {
        proof {
            reveal_strlit("://");
        }
        if c[i] == ':' && c[i + 1] == '/' && c[i + 2] == '/' {
            proof {
                assert(c@.subrange(i as int, i + 3) =~= "://"@);
                let k = choose|k: int|
                    0 <= k && k + 3 <= c@.len() && #[trigger] c@.subrange(k, k + 3) == "://"@ && forall|
                        j: int,
                    | 0 <= j < k ==> #[trigger] c@.subrange(j, j + 3) != "://"@;
                assert(k == i) by {
                    if k > i {
                        assert(c@.subrange(i as int, i + 3) != "://"@);
                    }
                }
            }
            return Some(i + 3);
        }
        proof {
            if c@.subrange(i as int, i + 3) == "://"@ {
                assert(c@.subrange(i as int, i + 3)[0] == ':');
                assert(c@.subrange(i as int, i + 3)[1] == '/');
                assert(c@.subrange(i as int, i + 3)[2] == '/');
            }
        }
        i = i + 1;
    }
    None
}

impl Origin {
    pub fn as_str(&self) -> (out: &str)
        ensures
            out@ == self.0@,
    {
        self.0.as_str()
    }

    pub fn is_https(&self) -> (b: bool)
        ensures
            b == has_prefix(self.0@, "https://"@),
    {
        let c = chars_of(self.0.as_str());
        starts_with(&c, "https://")
    }

    /// Host and port, as a request's `Host` header spells them.
    pub fn authority(&self) -> (out: &str)
        ensures
            out@ == authority_of(self.0@),
    {
        let s = self.0.as_str();
        let c = chars_of(s);
        let n = c.len();
        let start: usize = match find_scheme_end_of(&c) {
            Some(k) => k,
            None => 0,
        };
        assert(s@.subrange(0, n as int) =~= s@);
        let ghost rest = s@.subrange(start as int, n as int);
        let mut end: usize = n;
        proof {
            lemma_trim_end_char_prefix(rest, '/');
        }
        while end > start && c[end - 1] == '/'
            invariant
                start <= end <= n,
                n == c.len(),
                c@ == s@,
                rest == s@.subrange(start as int, n as int),
                trim_end_char(rest, '/').len() <= end - start,
                trim_end_char(rest, '/') == rest.take(trim_end_char(rest, '/').len() as int),
                trim_end_char(rest, '/').len() > 0 ==> trim_end_char(rest, '/').last() != '/',
                forall|k: int| trim_end_char(rest, '/').len() <= k < rest.len() ==> rest[k] == '/',
            decreases end,
        {
            proof {
                if end - start == trim_end_char(rest, '/').len() {
                    assert(rest[end - start - 1] == trim_end_char(rest, '/').last());
                }
            }
            end = end - 1;
        }
        assert(end - start == trim_end_char(rest, '/').len()) by {
            if end - start > trim_end_char(rest, '/').len() {
                assert(rest[end - start - 1] == '/');
            }
        }
        assert(s@.subrange(start as int, end as int) =~= trim_end_char(rest, '/'));
        s.substring_char(start, end)
    }
}

/// Where an object store is reached, given the host and port a bucket claim
/// hands out. Port 443 is the only one that implies TLS; a gateway inside the
/// cluster is plain HTTP on anything else.
pub open spec fn endpoint_of(host: Seq<char>, port: Option<Seq<char>>) -> Seq<char> {
    if has_prefix(host, "http://"@) || has_prefix(host, "https://"@) {
        host
    } else {
        match port {
            Some(p) => if p == "443"@ {
                "https://"@ + host + ":443"@
            } else {
                "http://"@ + host + ":"@ + p
            },
            None => "http://"@ + host,
        }
    }
}

pub fn endpoint(host: &str, port: Option<&str>) -> (out: String)
    ensures
        out@ == endpoint_of(host@, crate::text::opt_str_view(port)),
{
    let h = chars_of(host);
    if starts_with(&h, "http://") || starts_with(&h, "https://") {
        return string_of(&h);
    }
    match port {
        Some(p) => {
            if crate::text::str_is(p, "443") {
                let mut v = chars_of("https://");
                append_str(&mut v, host);
                append_str(&mut v, ":443");
                string_of(&v)
            } else {
                let mut v = chars_of("http://");
                append_str(&mut v, host);
                append_str(&mut v, ":");
                append_str(&mut v, p);
                string_of(&v)
            }
        },
        None => {
            let mut v = chars_of("http://");
            append_str(&mut v, host);
            string_of(&v)
        },
    }
}

} // verus!
