//! What a revision's file set is allowed to contain.
//!
//! Every rule here rejects the whole push rather than dropping one file: a
//! revision that silently lost its stylesheet is worse than one that never
//! landed.

use vstd::prelude::*;

use crate::text::{
    append_str, ascii_lower, ascii_lower_of, chars_eq, chars_of, debug_quoted, debug_str, decimal,
    digits_u128, has_prefix, split_on, starts_with, string_of, utf8_len, utf8_len_of,
};

verus! {

pub const ENTRY_PATH: &'static str = "index.html";

/// The entry document keeps the cap it always had, so a plan stays readable.
pub const MAX_ENTRY_BYTES: usize = 524288;

pub const MAX_FILE_BYTES: usize = 2097152;

pub const MAX_REVISION_BYTES: usize = 8388608;

pub const MAX_FILES: usize = 64;

pub struct UploadedFile {
    pub path: String,
    pub content: Vec<u8>,
    pub content_type: &'static str,
}

pub open spec fn is_path_char(c: char) -> bool {
    ||| 'a' <= c <= 'z'
    ||| 'A' <= c <= 'Z'
    ||| '0' <= c <= '9'
    ||| c == '.'
    ||| c == '_'
    ||| c == '-'
    ||| c == '/'
}

/// A segment a stored path may not have: empty, `.` or `..`.
pub open spec fn bad_segment(segment: Seq<char>) -> bool {
    segment.len() == 0 || segment == seq!['.'] || segment == seq!['.', '.']
}

/// The position of the last `.`, or -1.
pub open spec fn last_dot(s: Seq<char>) -> int
    decreases s.len(),
{
    if s.len() == 0 {
        -1
    } else if s.last() == '.' {
        s.len() - 1
    } else {
        last_dot(s.drop_last())
    }
}

pub proof fn lemma_last_dot(s: Seq<char>)
    ensures
        -1 <= last_dot(s) < s.len(),
        last_dot(s) >= 0 ==> s[last_dot(s)] == '.',
        forall|k: int| last_dot(s) < k < s.len() ==> s[k] != '.',
    decreases s.len(),
{
    if s.len() > 0 && s.last() != '.' {
        lemma_last_dot(s.drop_last());
        assert forall|k: int| last_dot(s) < k < s.len() implies s[k] != '.' by {
            if k < s.len() - 1 {
                assert(s[k] == s.drop_last()[k]);
            }
        }
    }
}

/// What follows the last `.`, if there is one.
pub open spec fn extension(s: Seq<char>) -> Option<Seq<char>> {
    if last_dot(s) < 0 {
        None
    } else {
        Some(s.subrange(last_dot(s) + 1, s.len() as int))
    }
}

/// The media type served for a lowercased extension.
pub open spec fn type_for_extension(e: Seq<char>) -> Option<Seq<char>> {
    if e == "html"@ {
        Some("text/html; charset=utf-8"@)
    } else if e == "css"@ {
        Some("text/css; charset=utf-8"@)
    } else if e == "js"@ || e == "mjs"@ {
        Some("text/javascript; charset=utf-8"@)
    } else if e == "json"@ {
        Some("application/json; charset=utf-8"@)
    } else if e == "svg"@ {
        Some("image/svg+xml"@)
    } else if e == "png"@ {
        Some("image/png"@)
    } else if e == "jpg"@ || e == "jpeg"@ {
        Some("image/jpeg"@)
    } else if e == "webp"@ {
        Some("image/webp"@)
    } else if e == "gif"@ {
        Some("image/gif"@)
    } else if e == "avif"@ {
        Some("image/avif"@)
    } else if e == "ico"@ {
        Some("image/x-icon"@)
    } else if e == "woff2"@ {
        Some("font/woff2"@)
    } else if e == "txt"@ || e == "diff"@ || e == "patch"@ {
        Some("text/plain; charset=utf-8"@)
    } else if e == "md"@ {
        Some("text/markdown; charset=utf-8"@)
    } else if e == "csv"@ {
        Some("text/csv; charset=utf-8"@)
    } else {
        None
    }
}

/// The media type a stored file is served with, decided by its extension.
pub open spec fn content_type(path: Seq<char>) -> Option<Seq<char>> {
    match extension(path) {
        None => None,
        Some(e) => type_for_extension(ascii_lower(e)),
    }
}

proof fn lemma_last_dot_before(stem: Seq<char>, ext: Seq<char>)
    requires
        forall|i: int| 0 <= i < ext.len() ==> ext[i] != '.',
    ensures
        last_dot(stem + seq!['.'] + ext) == stem.len(),
    decreases ext.len(),
{
    let s = stem + seq!['.'] + ext;
    if ext.len() == 0 {
        assert(s.last() == '.');
    } else {
        lemma_last_dot_before(stem, ext.drop_last());
        assert(s.drop_last() =~= stem + seq!['.'] + ext.drop_last());
        assert(s.last() == ext.last());
    }
}

/// The extension of a name is what follows its last dot.
proof fn lemma_extension_after_dot(stem: Seq<char>, ext: Seq<char>)
    requires
        forall|i: int| 0 <= i < ext.len() ==> ext[i] != '.',
    ensures
        extension(stem + seq!['.'] + ext) == Some(ext),
{
    lemma_last_dot_before(stem, ext);
    let s = stem + seq!['.'] + ext;
    assert(s.subrange(stem.len() + 1int, s.len() as int) =~= ext);
}

/// The media type a stored file is served with follows its extension, in any
/// ASCII case, whatever comes before the last dot: the fifteen accepted
/// extensions and their types, and nothing else.
pub proof fn lemma_extension_table(stem: Seq<char>, ext: Seq<char>)
    requires
        forall|i: int| 0 <= i < ext.len() ==> ext[i] != '.',
    ensures
        ({
            let t = content_type(stem + seq!['.'] + ext);
            let e = ascii_lower(ext);
            &&& e == "html"@ ==> t == Some("text/html; charset=utf-8"@)
            &&& e == "css"@ ==> t == Some("text/css; charset=utf-8"@)
            &&& (e == "js"@ || e == "mjs"@) ==> t == Some("text/javascript; charset=utf-8"@)
            &&& e == "json"@ ==> t == Some("application/json; charset=utf-8"@)
            &&& e == "svg"@ ==> t == Some("image/svg+xml"@)
            &&& e == "png"@ ==> t == Some("image/png"@)
            &&& (e == "jpg"@ || e == "jpeg"@) ==> t == Some("image/jpeg"@)
            &&& e == "webp"@ ==> t == Some("image/webp"@)
            &&& e == "gif"@ ==> t == Some("image/gif"@)
            &&& e == "avif"@ ==> t == Some("image/avif"@)
            &&& e == "ico"@ ==> t == Some("image/x-icon"@)
            &&& e == "woff2"@ ==> t == Some("font/woff2"@)
            &&& (e == "txt"@ || e == "diff"@ || e == "patch"@) ==> t == Some("text/plain; charset=utf-8"@)
            &&& e == "md"@ ==> t == Some("text/markdown; charset=utf-8"@)
            &&& e == "csv"@ ==> t == Some("text/csv; charset=utf-8"@)
        }),
{
    lemma_extension_after_dot(stem, ext);
    reveal_strlit("html");
    reveal_strlit("css");
    reveal_strlit("js");
    reveal_strlit("mjs");
    reveal_strlit("json");
    reveal_strlit("svg");
    reveal_strlit("png");
    reveal_strlit("jpg");
    reveal_strlit("jpeg");
    reveal_strlit("webp");
    reveal_strlit("gif");
    reveal_strlit("avif");
    reveal_strlit("ico");
    reveal_strlit("woff2");
    reveal_strlit("txt");
    reveal_strlit("diff");
    reveal_strlit("patch");
    reveal_strlit("md");
    reveal_strlit("csv");
    assert(type_for_extension("html"@) == Some("text/html; charset=utf-8"@)) by {
        assert("html"@.len() == 4);
    }
    assert(type_for_extension("css"@) == Some("text/css; charset=utf-8"@)) by {
        assert("css"@.len() == 3);
        assert("css"@ != "html"@);
    }
    assert(type_for_extension("js"@) == Some("text/javascript; charset=utf-8"@)) by {
        assert("js"@.len() == 2);
        assert("js"@ != "html"@);
        assert("js"@ != "css"@);
    }
    assert(type_for_extension("mjs"@) == Some("text/javascript; charset=utf-8"@)) by {
        assert("mjs"@.len() == 3);
        assert("mjs"@ != "html"@);
        assert("mjs"@[0] != "css"@[0]);
        assert("mjs"@ != "css"@);
        assert("mjs"@ != "js"@);
    }
    assert(type_for_extension("json"@) == Some("application/json; charset=utf-8"@)) by {
        assert("json"@.len() == 4);
        assert("json"@[0] != "html"@[0]);
        assert("json"@ != "html"@);
        assert("json"@ != "css"@);
        assert("json"@ != "js"@);
        assert("json"@ != "mjs"@);
    }
    assert(type_for_extension("svg"@) == Some("image/svg+xml"@)) by {
        assert("svg"@.len() == 3);
        assert("svg"@ != "html"@);
        assert("svg"@[0] != "css"@[0]);
        assert("svg"@ != "css"@);
        assert("svg"@ != "js"@);
        assert("svg"@[0] != "mjs"@[0]);
        assert("svg"@ != "mjs"@);
        assert("svg"@ != "json"@);
    }
    assert(type_for_extension("png"@) == Some("image/png"@)) by {
        assert("png"@.len() == 3);
        assert("png"@ != "html"@);
        assert("png"@[0] != "css"@[0]);
        assert("png"@ != "css"@);
        assert("png"@ != "js"@);
        assert("png"@[0] != "mjs"@[0]);
        assert("png"@ != "mjs"@);
        assert("png"@ != "json"@);
        assert("png"@[0] != "svg"@[0]);
        assert("png"@ != "svg"@);
    }
    assert(type_for_extension("jpg"@) == Some("image/jpeg"@)) by {
        assert("jpg"@.len() == 3);
        assert("jpg"@ != "html"@);
        assert("jpg"@[0] != "css"@[0]);
        assert("jpg"@ != "css"@);
        assert("jpg"@ != "js"@);
        assert("jpg"@[0] != "mjs"@[0]);
        assert("jpg"@ != "mjs"@);
        assert("jpg"@ != "json"@);
        assert("jpg"@[0] != "svg"@[0]);
        assert("jpg"@ != "svg"@);
        assert("jpg"@[0] != "png"@[0]);
        assert("jpg"@ != "png"@);
    }
    assert(type_for_extension("jpeg"@) == Some("image/jpeg"@)) by {
        assert("jpeg"@.len() == 4);
        assert("jpeg"@[0] != "html"@[0]);
        assert("jpeg"@ != "html"@);
        assert("jpeg"@ != "css"@);
        assert("jpeg"@ != "js"@);
        assert("jpeg"@ != "mjs"@);
        assert("jpeg"@[1] != "json"@[1]);
        assert("jpeg"@ != "json"@);
        assert("jpeg"@ != "svg"@);
        assert("jpeg"@ != "png"@);
        assert("jpeg"@ != "jpg"@);
    }
    assert(type_for_extension("webp"@) == Some("image/webp"@)) by {
        assert("webp"@.len() == 4);
        assert("webp"@[0] != "html"@[0]);
        assert("webp"@ != "html"@);
        assert("webp"@ != "css"@);
        assert("webp"@ != "js"@);
        assert("webp"@ != "mjs"@);
        assert("webp"@[0] != "json"@[0]);
        assert("webp"@ != "json"@);
        assert("webp"@ != "svg"@);
        assert("webp"@ != "png"@);
        assert("webp"@ != "jpg"@);
        assert("webp"@[0] != "jpeg"@[0]);
        assert("webp"@ != "jpeg"@);
    }
    assert(type_for_extension("gif"@) == Some("image/gif"@)) by {
        assert("gif"@.len() == 3);
        assert("gif"@ != "html"@);
        assert("gif"@[0] != "css"@[0]);
        assert("gif"@ != "css"@);
        assert("gif"@ != "js"@);
        assert("gif"@[0] != "mjs"@[0]);
        assert("gif"@ != "mjs"@);
        assert("gif"@ != "json"@);
        assert("gif"@[0] != "svg"@[0]);
        assert("gif"@ != "svg"@);
        assert("gif"@[0] != "png"@[0]);
        assert("gif"@ != "png"@);
        assert("gif"@[0] != "jpg"@[0]);
        assert("gif"@ != "jpg"@);
        assert("gif"@ != "jpeg"@);
        assert("gif"@ != "webp"@);
    }
    assert(type_for_extension("avif"@) == Some("image/avif"@)) by {
        assert("avif"@.len() == 4);
        assert("avif"@[0] != "html"@[0]);
        assert("avif"@ != "html"@);
        assert("avif"@ != "css"@);
        assert("avif"@ != "js"@);
        assert("avif"@ != "mjs"@);
        assert("avif"@[0] != "json"@[0]);
        assert("avif"@ != "json"@);
        assert("avif"@ != "svg"@);
        assert("avif"@ != "png"@);
        assert("avif"@ != "jpg"@);
        assert("avif"@[0] != "jpeg"@[0]);
        assert("avif"@ != "jpeg"@);
        assert("avif"@[0] != "webp"@[0]);
        assert("avif"@ != "webp"@);
        assert("avif"@ != "gif"@);
    }
    assert(type_for_extension("ico"@) == Some("image/x-icon"@)) by {
        assert("ico"@.len() == 3);
        assert("ico"@ != "html"@);
        assert("ico"@[0] != "css"@[0]);
        assert("ico"@ != "css"@);
        assert("ico"@ != "js"@);
        assert("ico"@[0] != "mjs"@[0]);
        assert("ico"@ != "mjs"@);
        assert("ico"@ != "json"@);
        assert("ico"@[0] != "svg"@[0]);
        assert("ico"@ != "svg"@);
        assert("ico"@[0] != "png"@[0]);
        assert("ico"@ != "png"@);
        assert("ico"@[0] != "jpg"@[0]);
        assert("ico"@ != "jpg"@);
        assert("ico"@ != "jpeg"@);
        assert("ico"@ != "webp"@);
        assert("ico"@[0] != "gif"@[0]);
        assert("ico"@ != "gif"@);
        assert("ico"@ != "avif"@);
    }
    assert(type_for_extension("woff2"@) == Some("font/woff2"@)) by {
        assert("woff2"@.len() == 5);
        assert("woff2"@ != "html"@);
        assert("woff2"@ != "css"@);
        assert("woff2"@ != "js"@);
        assert("woff2"@ != "mjs"@);
        assert("woff2"@ != "json"@);
        assert("woff2"@ != "svg"@);
        assert("woff2"@ != "png"@);
        assert("woff2"@ != "jpg"@);
        assert("woff2"@ != "jpeg"@);
        assert("woff2"@ != "webp"@);
        assert("woff2"@ != "gif"@);
        assert("woff2"@ != "avif"@);
        assert("woff2"@ != "ico"@);
    }
    assert(type_for_extension("txt"@) == Some("text/plain; charset=utf-8"@)) by {
        assert("txt"@.len() == 3);
        assert("txt"@ != "html"@);
        assert("txt"@[0] != "css"@[0]);
        assert("txt"@ != "css"@);
        assert("txt"@ != "js"@);
        assert("txt"@[0] != "mjs"@[0]);
        assert("txt"@ != "mjs"@);
        assert("txt"@ != "json"@);
        assert("txt"@[0] != "svg"@[0]);
        assert("txt"@ != "svg"@);
        assert("txt"@[0] != "png"@[0]);
        assert("txt"@ != "png"@);
        assert("txt"@[0] != "jpg"@[0]);
        assert("txt"@ != "jpg"@);
        assert("txt"@ != "jpeg"@);
        assert("txt"@ != "webp"@);
        assert("txt"@[0] != "gif"@[0]);
        assert("txt"@ != "gif"@);
        assert("txt"@ != "avif"@);
        assert("txt"@[0] != "ico"@[0]);
        assert("txt"@ != "ico"@);
        assert("txt"@ != "woff2"@);
    }
    assert(type_for_extension("diff"@) == Some("text/plain; charset=utf-8"@)) by {
        assert("diff"@.len() == 4);
        assert("diff"@[0] != "html"@[0]);
        assert("diff"@ != "html"@);
        assert("diff"@ != "css"@);
        assert("diff"@ != "js"@);
        assert("diff"@ != "mjs"@);
        assert("diff"@[0] != "json"@[0]);
        assert("diff"@ != "json"@);
        assert("diff"@ != "svg"@);
        assert("diff"@ != "png"@);
        assert("diff"@ != "jpg"@);
        assert("diff"@[0] != "jpeg"@[0]);
        assert("diff"@ != "jpeg"@);
        assert("diff"@[0] != "webp"@[0]);
        assert("diff"@ != "webp"@);
        assert("diff"@ != "gif"@);
        assert("diff"@[0] != "avif"@[0]);
        assert("diff"@ != "avif"@);
        assert("diff"@ != "ico"@);
        assert("diff"@ != "woff2"@);
        assert("diff"@ != "txt"@);
    }
    assert(type_for_extension("patch"@) == Some("text/plain; charset=utf-8"@)) by {
        assert("patch"@.len() == 5);
        assert("patch"@ != "html"@);
        assert("patch"@ != "css"@);
        assert("patch"@ != "js"@);
        assert("patch"@ != "mjs"@);
        assert("patch"@ != "json"@);
        assert("patch"@ != "svg"@);
        assert("patch"@ != "png"@);
        assert("patch"@ != "jpg"@);
        assert("patch"@ != "jpeg"@);
        assert("patch"@ != "webp"@);
        assert("patch"@ != "gif"@);
        assert("patch"@ != "avif"@);
        assert("patch"@ != "ico"@);
        assert("patch"@[0] != "woff2"@[0]);
        assert("patch"@ != "woff2"@);
        assert("patch"@ != "txt"@);
        assert("patch"@ != "diff"@);
    }
    assert(type_for_extension("md"@) == Some("text/markdown; charset=utf-8"@)) by {
        assert("md"@.len() == 2);
        assert("md"@ != "html"@);
        assert("md"@ != "css"@);
        assert("md"@[0] != "js"@[0]);
        assert("md"@ != "js"@);
        assert("md"@ != "mjs"@);
        assert("md"@ != "json"@);
        assert("md"@ != "svg"@);
        assert("md"@ != "png"@);
        assert("md"@ != "jpg"@);
        assert("md"@ != "jpeg"@);
        assert("md"@ != "webp"@);
        assert("md"@ != "gif"@);
        assert("md"@ != "avif"@);
        assert("md"@ != "ico"@);
        assert("md"@ != "woff2"@);
        assert("md"@ != "txt"@);
        assert("md"@ != "diff"@);
        assert("md"@ != "patch"@);
    }
    assert(type_for_extension("csv"@) == Some("text/csv; charset=utf-8"@)) by {
        assert("csv"@.len() == 3);
        assert("csv"@ != "html"@);
        assert("csv"@[2] != "css"@[2]);
        assert("csv"@ != "css"@);
        assert("csv"@ != "js"@);
        assert("csv"@[0] != "mjs"@[0]);
        assert("csv"@ != "mjs"@);
        assert("csv"@ != "json"@);
        assert("csv"@[0] != "svg"@[0]);
        assert("csv"@ != "svg"@);
        assert("csv"@[0] != "png"@[0]);
        assert("csv"@ != "png"@);
        assert("csv"@[0] != "jpg"@[0]);
        assert("csv"@ != "jpg"@);
        assert("csv"@ != "jpeg"@);
        assert("csv"@ != "webp"@);
        assert("csv"@[0] != "gif"@[0]);
        assert("csv"@ != "gif"@);
        assert("csv"@ != "avif"@);
        assert("csv"@[0] != "ico"@[0]);
        assert("csv"@ != "ico"@);
        assert("csv"@ != "woff2"@);
        assert("csv"@[0] != "txt"@[0]);
        assert("csv"@ != "txt"@);
        assert("csv"@ != "diff"@);
        assert("csv"@ != "patch"@);
        assert("csv"@ != "md"@);
    }
}

/// Why a path cannot name a stored file, if it cannot.
pub open spec fn path_error(path: Seq<char>) -> Option<Seq<char>> {
    let shown = debug_str(path);
    if !(1 <= utf8_len(path) <= 128) {
        Some("path "@ + shown + " must be 1 to 128 characters"@)
    } else if !(forall|i: int| 0 <= i < path.len() ==> is_path_char(#[trigger] path[i])) {
        Some("path "@ + shown + " may only contain letters, digits, dot, underscore, hyphen and slash"@)
    } else if path[0] == '/' || path.last() == '/' {
        Some("path "@ + shown + " must not start or end with a slash"@)
    } else if split_on(path, '/').len() > 4 {
        Some("path "@ + shown + " may be at most 4 segments deep"@)
    } else if exists|k: int| 0 <= k < split_on(path, '/').len() && bad_segment(#[trigger] split_on(path, '/')[k]) {
        Some("path "@ + shown + " has an empty or relative segment"@)
    } else if path == "share"@ || has_prefix(path, "rev/"@) {
        Some("path "@ + shown + " is reserved; a document's own URLs live at share and rev/*"@)
    } else if content_type(path) is None {
        Some("path "@ + shown + " has no accepted file extension"@)
    } else {
        None
    }
}

fn eq_lit(a: &Vec<char>, lit: &str) -> (eq: bool)
    ensures
        eq == (a@ == lit@),
{
    let b = chars_of(lit);
    chars_eq(a, &b)
}

/// The media type for a path's extension, matched without regard to ASCII case.
///
/// Deliberately separate from the one that serves the bundled front end: that
/// one must never fail and falls back to `application/octet-stream`; this one
/// rejects what it does not recognise.
pub fn content_type_for(path: &str) -> (out: Option<&'static str>)
    ensures
        match out {
            Some(t) => content_type(path@) == Some(t@),
            None => content_type(path@) is None,
        },
{
    let p = chars_of(path);
    proof {
        lemma_last_dot(p@);
    }
    let mut i: usize = p.len();
    while i > 0 && p[i - 1] != '.'
        invariant
            i <= p.len(),
            p@ == path@,
            forall|k: int| i <= k < p.len() ==> p@[k] != '.',
            -1 <= last_dot(p@) < p.len(),
            last_dot(p@) >= 0 ==> p@[last_dot(p@)] == '.',
            forall|k: int| last_dot(p@) < k < p.len() ==> p@[k] != '.',
        decreases i,
    {
        i = i - 1;
    }
    if i == 0 {
        assert(last_dot(p@) < 0);
        return None;
    }
    assert(last_dot(p@) == i - 1);
    let mut raw: Vec<char> = Vec::new();
    let mut j = i;
    while j < p.len()
        invariant
            i <= j <= p.len(),
            raw@ == p@.subrange(i as int, j as int),
        decreases p.len() - j,
    {
        raw.push(p[j]);
        j = j + 1;
        assert(raw@ =~= p@.subrange(i as int, j as int));
    }
    let e = ascii_lower_of(&raw);
    if eq_lit(&e, "html") {
        Some("text/html; charset=utf-8")
    } else if eq_lit(&e, "css") {
        Some("text/css; charset=utf-8")
    } else if eq_lit(&e, "js") || eq_lit(&e, "mjs") {
        Some("text/javascript; charset=utf-8")
    } else if eq_lit(&e, "json") {
        Some("application/json; charset=utf-8")
    } else if eq_lit(&e, "svg") {
        Some("image/svg+xml")
    } else if eq_lit(&e, "png") {
        Some("image/png")
    } else if eq_lit(&e, "jpg") || eq_lit(&e, "jpeg") {
        Some("image/jpeg")
    } else if eq_lit(&e, "webp") {
        Some("image/webp")
    } else if eq_lit(&e, "gif") {
        Some("image/gif")
    } else if eq_lit(&e, "avif") {
        Some("image/avif")
    } else if eq_lit(&e, "ico") {
        Some("image/x-icon")
    } else if eq_lit(&e, "woff2") {
        Some("font/woff2")
    } else if eq_lit(&e, "txt") || eq_lit(&e, "diff") || eq_lit(&e, "patch") {
        Some("text/plain; charset=utf-8")
    } else if eq_lit(&e, "md") {
        Some("text/markdown; charset=utf-8")
    } else if eq_lit(&e, "csv") {
        Some("text/csv; charset=utf-8")
    } else {
        None
    }
}

fn path_message(shown: &String, tail: &str) -> (out: String)
    ensures
        out@ == "path "@ + shown@ + tail@,
{
    let mut v = chars_of("path ");
    append_str(&mut v, shown.as_str());
    append_str(&mut v, tail);
    string_of(&v)
}

/// The segments of a path split at `/`, and whether any is empty, `.` or `..`.
fn segments_of(p: &Vec<char>) -> (out: (usize, bool))
    ensures
        out.0 + 1 == split_on(p@, '/').len(),
        out.1 == exists|k: int| 0 <= k < split_on(p@, '/').len() && bad_segment(#[trigger] split_on(p@, '/')[k]),
{
    let mut done: usize = 0;
    let mut bad = false;
    let mut cur: Vec<char> = Vec::new();
    let mut i: usize = 0;
    assert(p@.take(0) =~= Seq::<char>::empty());
    while i < p.len()
        invariant
            i <= p.len(),
            done + 1 == split_on(p@.take(i as int), '/').len(),
            done <= i,
            cur@ == split_on(p@.take(i as int), '/').last(),
            bad == exists|k: int| 0 <= k < done && bad_segment(#[trigger] split_on(p@.take(i as int), '/')[k]),
        decreases p.len() - i,
    {
        let ghost before = split_on(p@.take(i as int), '/');
        proof {
            assert(p@.take(i + 1).drop_last() =~= p@.take(i as int));
        }
        let c = p[i];
        if c == '/' {
            let empty = cur.len() == 0;
            let dot = cur.len() == 1 && cur[0] == '.';
            let dots = cur.len() == 2 && cur[0] == '.' && cur[1] == '.';
            proof {
                if dot {
                    assert(cur@ =~= seq!['.']);
                }
                if dots {
                    assert(cur@ =~= seq!['.', '.']);
                }
                if bad_segment(cur@) {
                    assert(empty || dot || dots);
                }
            }
            let after_bad = bad || empty || dot || dots;
            proof {
                let now = split_on(p@.take(i + 1), '/');
                assert(now == before.push(Seq::empty()));
                if after_bad {
                    if !bad {
                        assert(now[done as int] == cur@);
                    } else {
                        let k = choose|k: int| 0 <= k < done && bad_segment(#[trigger] before[k]);
                        assert(now[k] == before[k]);
                    }
                }
                assert forall|k: int| 0 <= k < done + 1 && bad_segment(#[trigger] now[k]) implies after_bad by {
                    if k < done {
                        assert(now[k] == before[k]);
                    } else {
                        assert(now[k] == cur@);
                    }
                }
            }
            bad = after_bad;
            done = done + 1;
            cur = Vec::new();
        } else {
            proof {
                let now = split_on(p@.take(i + 1), '/');
                assert(now == before.update(before.len() - 1, before.last().push(c)));
                assert forall|k: int| 0 <= k < done implies now[k] == before[k] by {}
            }
            cur.push(c);
        }
        i = i + 1;
    }
    assert(p@.take(i as int) =~= p@);
    let last_bad = cur.len() == 0 || (cur.len() == 1 && cur[0] == '.') || (cur.len() == 2 && cur[0] == '.'
        && cur[1] == '.');
    proof {
        let all = split_on(p@, '/');
        if cur.len() == 1 && cur[0] == '.' {
            assert(cur@ =~= seq!['.']);
        }
        if cur.len() == 2 && cur[0] == '.' && cur[1] == '.' {
            assert(cur@ =~= seq!['.', '.']);
        }
        if bad_segment(cur@) {
            assert(last_bad);
        }
        if last_bad {
            assert(bad_segment(all[done as int]));
        }
    }
    (done, bad || last_bad)
}

/// Checks one path a revision would store a file under.
pub fn validate_path(path: &str) -> (out: Result<(), String>)
    ensures
        match out {
            Ok(()) => path_error(path@) is None,
            Err(m) => path_error(path@) == Some(m@),
        },
{
    let shown = debug_quoted(path);
    let p = chars_of(path);
    let n = utf8_len_of(&p);
    if n < 1 || n > 128 {
        return Err(path_message(&shown, " must be 1 to 128 characters"));
    }
    let mut i: usize = 0;
    while i < p.len()
        invariant
            i <= p.len(),
            p@ == path@,
            shown@ == debug_str(path@),
            1 <= utf8_len(path@) <= 128,
            forall|k: int| 0 <= k < i ==> is_path_char(#[trigger] p@[k]),
        decreases p.len() - i,
    {
        let c = p[i];
        if !(('a' <= c && c <= 'z') || ('A' <= c && c <= 'Z') || ('0' <= c && c <= '9') || c == '.' || c
            == '_' || c == '-' || c == '/') {
            assert(!is_path_char(path@[i as int]));
            return Err(path_message(&shown, " may only contain letters, digits, dot, underscore, hyphen and slash"));
        }
        i = i + 1;
    }
    if p[0] == '/' || p[p.len() - 1] == '/' {
        return Err(path_message(&shown, " must not start or end with a slash"));
    }
    let (count, bad) = segments_of(&p);
    if count > 3 {
        return Err(path_message(&shown, " may be at most 4 segments deep"));
    }
    if bad {
        return Err(path_message(&shown, " has an empty or relative segment"));
    }
    if eq_lit(&p, "share") || starts_with(&p, "rev/") {
        return Err(path_message(&shown, " is reserved; a document's own URLs live at share and rev/*"));
    }
    if content_type_for(path).is_none() {
        return Err(path_message(&shown, " has no accepted file extension"));
    }
    Ok(())
}

/// The most bytes a file at this path may hold.
pub open spec fn file_cap(path: Seq<char>) -> nat {
    if path == ENTRY_PATH@ {
        524288
    } else {
        2097152
    }
}

/// The bytes of every file together.
pub open spec fn total_bytes(files: Seq<UploadedFile>) -> nat
    decreases files.len(),
{
    if files.len() == 0 {
        0
    } else {
        total_bytes(files.drop_last()) + files.last().content@.len()
    }
}

/// Whether some file is stored at the entry path.
pub open spec fn has_entry(files: Seq<UploadedFile>) -> bool {
    exists|k: int| 0 <= k < files.len() && #[trigger] files[k].path@ == ENTRY_PATH@
}

/// The first file, from the `start`th on, that repeats a path or is too large.
pub open spec fn file_error_from(files: Seq<UploadedFile>, start: int) -> Option<Seq<char>>
    decreases files.len() - start,
{
    if start < 0 || start >= files.len() {
        None
    } else {
        let file = files[start];
        let cap = file_cap(file.path@);
        if exists|j: int| 0 <= j < start && #[trigger] files[j].path@ == file.path@ {
            Some("path "@ + debug_str(file.path@) + " appears twice"@)
        } else if file.content@.len() > cap {
            Some(
                file.path@ + " is "@ + decimal((file.content@.len() / 1024) as int) + " KB, over the "@
                    + decimal((cap / 1024) as int) + " KB limit"@,
            )
        } else {
            file_error_from(files, start + 1)
        }
    }
}

/// Why a revision's file set is refused, if it is.
pub open spec fn set_error(files: Seq<UploadedFile>) -> Option<Seq<char>> {
    if files.len() > 64 {
        Some("a revision may hold at most 64 files"@)
    } else if !has_entry(files) {
        Some("a revision needs an index.html"@)
    } else if file_error_from(files, 0) is Some {
        file_error_from(files, 0)
    } else if total_bytes(files) > 8388608 {
        Some("the revision totals "@ + decimal((total_bytes(files) / 1024) as int) + " KB, over the 8192 KB limit"@)
    } else {
        None
    }
}

fn path_seen_before(files: &[UploadedFile], i: usize) -> (seen: bool)
    requires
        i < files.len(),
    ensures
        seen == exists|j: int| 0 <= j < i && #[trigger] files@[j].path@ == files@[i as int].path@,
{
    let mut j: usize = 0;
    while j < i
        invariant
            j <= i < files.len(),
            forall|k: int| 0 <= k < j ==> #[trigger] files@[k].path@ != files@[i as int].path@,
        decreases i - j,
    {
        if crate::text::str_is(files[j].path.as_str(), files[i].path.as_str()) {
            return true;
        }
        j = j + 1;
    }
    false
}

fn holds_entry(files: &[UploadedFile]) -> (b: bool)
    ensures
        b == has_entry(files@),
{
    let mut j: usize = 0;
    while j < files.len()
        invariant
            j <= files.len(),
            forall|k: int| 0 <= k < j ==> #[trigger] files@[k].path@ != ENTRY_PATH@,
        decreases files.len() - j,
    {
        if crate::text::str_is(files[j].path.as_str(), ENTRY_PATH) {
            return true;
        }
        j = j + 1;
    }
    false
}

/// Checks the whole set, once every part has been read.
pub fn validate_set(files: &[UploadedFile]) -> (out: Result<(), String>)
    ensures
        match out {
            Ok(()) => set_error(files@) is None,
            Err(m) => set_error(files@) == Some(m@),
        },
{
    if files.len() > MAX_FILES {
        return Err(string_of(&chars_of("a revision may hold at most 64 files")));
    }
    if !holds_entry(files) {
        return Err(string_of(&chars_of("a revision needs an index.html")));
    }
    let mut total: usize = 0;
    let mut i: usize = 0;
    assert(files@.take(0) =~= Seq::<UploadedFile>::empty());
    while i < files.len()
        invariant
            i <= files.len() <= 64,
            has_entry(files@),
            file_error_from(files@, 0) == file_error_from(files@, i as int),
            total == total_bytes(files@.take(i as int)),
            total <= i * 2097152,
        decreases files.len() - i,
    {
        let file = &files[i];
        if path_seen_before(files, i) {
            let shown = debug_quoted(file.path.as_str());
            return Err(path_message(&shown, " appears twice"));
        }
        let cap: usize = if crate::text::str_is(file.path.as_str(), ENTRY_PATH) {
            MAX_ENTRY_BYTES
        } else {
            MAX_FILE_BYTES
        };
        let len = file.content.len();
        if len > cap {
            let mut v = chars_of(file.path.as_str());
            append_str(&mut v, " is ");
            let kb = digits_u128((len / 1024) as u128);
            crate::text::append_chars(&mut v, &kb);
            append_str(&mut v, " KB, over the ");
            let capkb = digits_u128((cap / 1024) as u128);
            crate::text::append_chars(&mut v, &capkb);
            append_str(&mut v, " KB limit");
            return Err(string_of(&v));
        }
        proof {
            assert(files@.take(i + 1).drop_last() =~= files@.take(i as int));
        }
        total = total + len;
        i = i + 1;
    }
    assert(files@.take(i as int) =~= files@);
    if total > MAX_REVISION_BYTES {
        let mut v = chars_of("the revision totals ");
        let kb = digits_u128((total / 1024) as u128);
        crate::text::append_chars(&mut v, &kb);
        append_str(&mut v, " KB, over the 8192 KB limit");
        return Err(string_of(&v));
    }
    Ok(())
}


/// A path `validate_path` accepts is not one a document's own addresses use,
/// and it has a media type to be served with.
pub proof fn lemma_accepted_path_is_servable(path: Seq<char>)
    requires
        path_error(path) is None,
    ensures
        path != "share"@,
        !has_prefix(path, "rev/"@),
        content_type(path) is Some,
        1 <= utf8_len(path) <= 128,
        path[0] != '/' && path.last() != '/',
{
}

proof fn lemma_files_valid_from(files: Seq<UploadedFile>, start: int)
    requires
        0 <= start,
        file_error_from(files, start) is None,
    ensures
        forall|i: int| start <= i < files.len() ==> (#[trigger] files[i]).content@.len() <= file_cap(files[i].path@),
        forall|i: int, j: int| 0 <= i < j < files.len() && start <= j ==> (#[trigger] files[i]).path@ != (#[trigger] files[j]).path@,
    decreases files.len() - start,
{
    if start < files.len() {
        lemma_files_valid_from(files, start + 1);
        assert forall|i: int, j: int| 0 <= i < j < files.len() && start <= j implies (#[trigger] files[i]).path@
            != (#[trigger] files[j]).path@ by {
            if j == start && files[i].path@ == files[j].path@ {
                assert(files[i].path@ == files[start].path@);
            }
        }
    }
}

/// Every rule rejects the whole push rather than dropping one file: a set
/// `validate_set` accepts holds an entry document, no path twice, every file
/// within its cap, and at most 8 MB in all.
pub proof fn lemma_accepted_set_is_whole(files: Seq<UploadedFile>)
    requires
        set_error(files) is None,
    ensures
        files.len() <= 64,
        has_entry(files),
        forall|i: int| 0 <= i < files.len() ==> (#[trigger] files[i]).content@.len() <= file_cap(files[i].path@),
        forall|i: int, j: int| 0 <= i < j < files.len() ==> (#[trigger] files[i]).path@ != (#[trigger] files[j]).path@,
        total_bytes(files) <= 8388608,
{
    lemma_files_valid_from(files, 0);
}

} // verus!
