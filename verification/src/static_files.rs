//! The bundled front end: which type each of its files is served as, and how
//! long a browser may keep it.

use vstd::prelude::*;
use vstd::string::StrSliceExecFns;

use crate::text::{chars_eq, chars_of, has_prefix, starts_with};
use crate::upload::{extension, last_dot, lemma_last_dot};

verus! {

/// The media type a bundled file is served with. Unlike the one for uploaded
/// files this never fails: the bundle is ours, so anything unknown is served as
/// plain bytes. The extension is matched as written.
pub open spec fn bundle_type(path: Seq<char>) -> Seq<char> {
    match extension(path) {
        Some(e) => if e == "html"@ {
            "text/html; charset=utf-8"@
        } else if e == "js"@ {
            "text/javascript; charset=utf-8"@
        } else if e == "css"@ {
            "text/css; charset=utf-8"@
        } else if e == "svg"@ {
            "image/svg+xml"@
        } else if e == "json"@ || e == "webmanifest"@ {
            "application/json"@
        } else if e == "png"@ {
            "image/png"@
        } else if e == "ico"@ {
            "image/x-icon"@
        } else if e == "woff2"@ {
            "font/woff2"@
        } else {
            "application/octet-stream"@
        },
        None => "application/octet-stream"@,
    }
}

fn eq_lit(a: &Vec<char>, lit: &str) -> (eq: bool)
    ensures
        eq == (a@ == lit@),
{
    let b = chars_of(lit);
    chars_eq(a, &b)
}

pub fn content_type_of(path: &str) -> (out: &'static str)
    ensures
        out@ == bundle_type(path@),
{
    let p = chars_of(path);
    proof {
        lemma_last_dot(p@);
    }
    let mut i: usize = p.len();
    while i > 0 && p[i - 1] != '.'
        invariant
            i <= p.len(),
            p@ == path@,
            forall|k: int| i <= k < p.len() ==> p@[k] != '.',
            -1 <= last_dot(p@) < p.len(),
            last_dot(p@) >= 0 ==> p@[last_dot(p@)] == '.',
            forall|k: int| last_dot(p@) < k < p.len() ==> p@[k] != '.',
        decreases i,
    {
        i = i - 1;
    }
    if i == 0 {
        assert(last_dot(p@) < 0);
        return "application/octet-stream";
    }
    assert(last_dot(p@) == i - 1);
    let mut e: Vec<char> = Vec::new();
    let mut j = i;
    while j < p.len()
        invariant
            i <= j <= p.len(),
            e@ == p@.subrange(i as int, j as int),
        decreases p.len() - j,
    {
        e.push(p[j]);
        j = j + 1;
        assert(e@ =~= p@.subrange(i as int, j as int));
    }
    if eq_lit(&e, "html") {
        "text/html; charset=utf-8"
    } else if eq_lit(&e, "js") {
        "text/javascript; charset=utf-8"
    } else if eq_lit(&e, "css") {
        "text/css; charset=utf-8"
    } else if eq_lit(&e, "svg") {
        "image/svg+xml"
    } else if eq_lit(&e, "json") || eq_lit(&e, "webmanifest") {
        "application/json"
    } else if eq_lit(&e, "png") {
        "image/png"
    } else if eq_lit(&e, "ico") {
        "image/x-icon"
    } else if eq_lit(&e, "woff2") {
        "font/woff2"
    } else {
        "application/octet-stream"
    }
}

/// Asset file names are content hashed by the bundler, so they keep forever;
/// the shell must revalidate.
pub fn bundle_cache_control(path: &str) -> (out: &'static str)
    ensures
        has_prefix(path@, "assets/"@) ==> out@ == "public, max-age=31536000, immutable"@,
        !has_prefix(path@, "assets/"@) ==> out@ == "no-cache"@,
{
    if starts_with(&chars_of(path), "assets/") {
        "public, max-age=31536000, immutable"
    } else {
        "no-cache"
    }
}

/// A request path as a file name inside the bundle: without its leading `/`.
pub open spec fn bundle_path_of(path: Seq<char>) -> Seq<char> {
    if path.len() > 0 && path[0] == '/' {
        path.skip(1)
    } else {
        path
    }
}

pub fn bundle_path(path: &str) -> (out: &str)
    ensures
        out@ == bundle_path_of(path@),
{
    let c = chars_of(path);
    if c.len() > 0 && c[0] == '/' {
        assert(path@.subrange(1, path@.len() as int) =~= path@.skip(1));
        path.substring_char(1, c.len())
    } else {
        path
    }
}

} // verus!
