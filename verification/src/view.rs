//! What the docs origin answers: which requests may read a document or its
//! files, how a visitor's password cookie is signed, and how the viewer's
//! overlay is stitched into a document.

use vstd::prelude::*;
use vstd::string::StrSliceExecFns;

use crate::config::{find_scheme_end_of, scheme_end};
use crate::crypto::{hex_bytes, hex_decode, hex_encode, hex_of, hmac_matches, hmac_sha256, hmac_tag, lemma_hex_round_trip};
use crate::number::{lemma_decimal_no_dot, lemma_parse_decimal, parse_i64, parsed_i64};
use crate::text::{
    append_chars, append_str, ascii_lower, ascii_lower_of, chars_of, decimal, decimal_i64, find_char,
    find_char_in, has_prefix, lemma_find_char, opt_str_view, split_once_at, split_once_char, starts_with, str_is,
    string_of, words, words_of,
};

verus! {

pub const DOC_ACCESS_COOKIE: &'static str = "doc_access";

pub const ACCESS_DAYS: u64 = 7;

/// How long a visitor's access cookie lives, in seconds: seven days.
pub const ACCESS_SECONDS: i64 = 604800;

pub open spec fn is_alnum(c: char) -> bool {
    ('a' <= c <= 'z') || ('A' <= c <= 'Z') || ('0' <= c <= '9')
}

/// A public id is minted at exactly this shape: ten ASCII letters and digits.
pub open spec fn public_id_shaped(segment: Seq<char>) -> bool {
    segment.len() == 10 && forall|i: int| 0 <= i < segment.len() ==> is_alnum(#[trigger] segment[i])
}

/// A path that does not open with a public id names no document and never
/// will. Worth checking before answering: it saves a stranger's typo a
/// redirect and a trip to the app for a grant.
pub fn is_public_id_shape(segment: &str) -> (b: bool)
    ensures
        b == public_id_shaped(segment@),
{
    let c = chars_of(segment);
    if c.len() != 10 {
        return false;
    }
    let mut i: usize = 0;
    while i < c.len()
        invariant
            i <= c.len(),
            c@ == segment@,
            forall|k: int| 0 <= k < i ==> is_alnum(#[trigger] c@[k]),
        decreases c.len() - i,
    {
        let ch = c[i];
        if !(('a' <= ch && ch <= 'z') || ('A' <= ch && ch <= 'Z') || ('0' <= ch && ch <= '9')) {
            assert(!is_alnum(segment@[i as int]));
            return false;
        }
        i = i + 1;
    }
    true
}

/// The path of an absolute URL: from the first `/` after the scheme on.
pub open spec fn url_path_of(url: Seq<char>) -> Option<Seq<char>> {
    match scheme_end(url) {
        None => None,
        Some(k) => {
            let rest = url.skip(k);
            let slash = find_char(rest, '/');
            if slash < 0 {
                None
            } else {
                Some(rest.skip(slash))
            }
        },
    }
}

/// The path of an absolute URL, which is all that is left to check once
/// `Sec-Fetch-Site` has established that it names this origin.
pub fn url_path(url: &str) -> (out: Option<&str>)
    ensures
        opt_str_view(out) == url_path_of(url@),
{
    let c = chars_of(url);
    let k = match find_scheme_end_of(&c) {
        Some(k) => k,
        None => return None,
    };
    let mut rest: Vec<char> = Vec::new();
    let mut i = k;
    while i < c.len()
        invariant
            k <= i <= c.len(),
            rest@ == c@.subrange(k as int, i as int),
        decreases c.len() - i,
    {
        rest.push(c[i]);
        i = i + 1;
        assert(rest@ =~= c@.subrange(k as int, i as int));
    }
    assert(rest@ =~= url@.skip(k as int));
    match find_char_in(&rest, '/') {
        None => None,
        Some(slash) => {
            proof {
                lemma_find_char(rest@, '/');
            }
            assert(url@.skip(k as int).skip(slash as int) =~= url@.subrange(k + slash, url@.len() as int));
            Some(url.substring_char(k + slash, c.len()))
        },
    }
}

/// Whether a file is being loaded by the document it belongs to, judged from
/// the headers a page cannot set.
///
/// A client with no `Sec-Fetch-Dest` is not a browser and carries its own
/// credential. A request the reader opened directly has no page behind it.
/// Otherwise the request must come from this origin, must not be a `fetch`,
/// and its referrer must be inside the document's own directory.
pub open spec fn own_document_request(
    dest: Option<Seq<char>>,
    site: Option<Seq<char>>,
    referer: Option<Seq<char>>,
    public_id: Seq<char>,
    slug: Seq<char>,
) -> bool {
    if dest is None {
        true
    } else if site == Some("none"@) {
        true
    } else if site != Some("same-origin"@) || dest->0 == "empty"@ {
        false
    } else {
        match referer {
            None => false,
            Some(r) => match url_path_of(r) {
                None => false,
                Some(p) => has_prefix(p, "/"@ + public_id + "/"@ + slug + "/"@),
            },
        }
    }
}

/// Every document shares one origin, so the browser will hand one document's
/// files to another document's scripts if nothing stops it. This is what does.
pub fn asked_for_by_its_own_document(
    dest: Option<&str>,
    site: Option<&str>,
    referer: Option<&str>,
    public_id: &str,
    slug: &str,
) -> (b: bool)
    ensures
        b == own_document_request(
            opt_str_view(dest),
            opt_str_view(site),
            opt_str_view(referer),
            public_id@,
            slug@,
        ),
{
    let d = match dest {
        None => return true,
        Some(d) => d,
    };
    let site_none = match site {
        Some(s) => str_is(s, "none"),
        None => false,
    };
    if site_none {
        return true;
    }
    let same_origin = match site {
        Some(s) => str_is(s, "same-origin"),
        None => false,
    };
    if !same_origin || str_is(d, "empty") {
        return false;
    }
    let mut scope = chars_of("/");
    append_str(&mut scope, public_id);
    append_str(&mut scope, "/");
    append_str(&mut scope, slug);
    append_str(&mut scope, "/");
    let path = match referer {
        None => return false,
        Some(r) => match url_path(r) {
            None => return false,
            Some(p) => p,
        },
    };
    let scope_text = string_of(&scope);
    starts_with(&chars_of(path), scope_text.as_str())
}

/// What one character becomes in HTML text or a quoted attribute.
pub open spec fn escape_char(c: char) -> Seq<char> {
    if c == '&' {
        "&amp;"@
    } else if c == '<' {
        "&lt;"@
    } else if c == '>' {
        "&gt;"@
    } else if c == '"' {
        "&quot;"@
    } else {
        seq![c]
    }
}

/// Text made safe for HTML text and double-quoted attributes.
pub open spec fn html_escaped(s: Seq<char>) -> Seq<char>
    decreases s.len(),
{
    if s.len() == 0 {
        Seq::empty()
    } else {
        html_escaped(s.drop_last()) + escape_char(s.last())
    }
}

pub fn html_escape(input: &str) -> (out: String)
    ensures
        out@ == html_escaped(input@),
{
    let c = chars_of(input);
    let mut v: Vec<char> = Vec::new();
    let mut i: usize = 0;
    assert(c@.take(0) =~= Seq::<char>::empty());
    while i < c.len()
        invariant
            i <= c.len(),
            c@ == input@,
            v@ == html_escaped(c@.take(i as int)),
        decreases c.len() - i,
    {
        let ch = c[i];
        proof {
            assert(c@.take(i + 1).drop_last() =~= c@.take(i as int));
        }
        if ch == '&' {
            append_str(&mut v, "&amp;");
        } else if ch == '<' {
            append_str(&mut v, "&lt;");
        } else if ch == '>' {
            append_str(&mut v, "&gt;");
        } else if ch == '"' {
            append_str(&mut v, "&quot;");
        } else {
            v.push(ch);
        }
        i = i + 1;
    }
    assert(c@.take(i as int) =~= c@);
    string_of(&v)
}

/// A byte as ASCII lowercase.
pub open spec fn lower_byte(b: u8) -> u8 {
    if 65 <= b <= 90 {
        (b + 32) as u8
    } else {
        b
    }
}

/// Whether `<head` starts at `i`, in any case.
pub open spec fn head_at(body: Seq<u8>, i: int) -> bool {
    &&& 0 <= i && i + 5 <= body.len()
    &&& lower_byte(body[i]) == 60
    &&& lower_byte(body[i + 1]) == 104
    &&& lower_byte(body[i + 2]) == 101
    &&& lower_byte(body[i + 3]) == 97
    &&& lower_byte(body[i + 4]) == 100
}

/// The first place at or after `i` where `<head`, in any case, opens a tag
/// named `head`: the byte after it ends the name. A `<head` that begins a
/// longer name, as in `<header>`, is passed over. -1 where there is none.
pub open spec fn first_head_tag_from(body: Seq<u8>, i: int) -> int
    decreases body.len() - i,
{
    if i < 0 || i + 6 > body.len() {
        -1
    } else if head_at(body, i) && ends_tag_name(body[i + 5]) {
        i
    } else {
        first_head_tag_from(body, i + 1)
    }
}

/// The first `>` at or after `i`, or -1.
pub open spec fn first_close_from(body: Seq<u8>, i: int) -> int
    decreases body.len() - i,
{
    if i < 0 || i >= body.len() {
        -1
    } else if body[i] == 62 {
        i
    } else {
        first_close_from(body, i + 1)
    }
}

/// A byte that may follow `<head` in the opening tag: `>` or whitespace, so
/// that `<header>` does not count.
pub open spec fn ends_tag_name(b: u8) -> bool {
    b == 62 || b == 32 || b == 9 || b == 13 || b == 10
}

/// The byte just past the document's opening `<head ...>` tag, if it has one.
pub open spec fn head_open(body: Seq<u8>) -> Option<int> {
    let at = first_head_tag_from(body, 0);
    if at < 0 {
        None
    } else {
        let close = first_close_from(body, at);
        if close < 0 {
            None
        } else {
            Some(close + 1)
        }
    }
}

pub proof fn lemma_first_head_tag_from(body: Seq<u8>, i: int)
    ensures
        first_head_tag_from(body, i) == -1 || (i <= first_head_tag_from(body, i) && first_head_tag_from(body, i) + 6
            <= body.len()),
    decreases body.len() - i,
{
    if !(i < 0 || i + 6 > body.len()) && !(head_at(body, i) && ends_tag_name(body[i + 5])) {
        lemma_first_head_tag_from(body, i + 1);
    }
}

pub proof fn lemma_first_close_from(body: Seq<u8>, i: int)
    ensures
        first_close_from(body, i) == -1 || (i <= first_close_from(body, i) < body.len()),
    decreases body.len() - i,
{
    if !(i < 0 || i >= body.len()) && body[i] != 62 {
        lemma_first_close_from(body, i + 1);
    }
}

fn lower_byte_of(b: u8) -> (out: u8)
    ensures
        out == lower_byte(b),
{
    if 65 <= b && b <= 90 {
        b + 32
    } else {
        b
    }
}

/// Where the first tag named `head` opens, in any case.
fn first_head_tag(body: &[u8]) -> (out: Option<usize>)
    ensures
        match out {
            Some(at) => first_head_tag_from(body@, 0) == at as int,
            None => first_head_tag_from(body@, 0) == -1,
        },
{
    let n = body.len();
    if n < 6 {
        return None;
    }
    let mut at: usize = 0;
    while at <= n - 6
        invariant
            n == body@.len(),
            n >= 6,
            at <= n - 5,
            first_head_tag_from(body@, 0) == first_head_tag_from(body@, at as int),
        decreases n - at,
    {
        if lower_byte_of(body[at]) == 60 && lower_byte_of(body[at + 1]) == 104 && lower_byte_of(body[at + 2]) == 101
            && lower_byte_of(body[at + 3]) == 97 && lower_byte_of(body[at + 4]) == 100 {
            let after = body[at + 5];
            if after == 62 || after == 32 || after == 9 || after == 13 || after == 10 {
                return Some(at);
            }
        }
        at = at + 1;
    }
    None
}

/// The byte just past `<head ...>`, if the document opens one.
///
/// A byte scan rather than a parse: `<head>` or `<head lang=...>`, but not
/// `<header>`, which is passed over on the way to a `<head>` after it.
pub fn find_head_open(body: &[u8]) -> (out: Option<usize>)
    ensures
        match out {
            Some(k) => head_open(body@) == Some(k as int),
            None => head_open(body@) is None,
        },
{
    let n = body.len();
    let at = match first_head_tag(body) {
        Some(at) => at,
        None => return None,
    };
    proof {
        lemma_first_head_tag_from(body@, 0);
    }
    let mut close = at;
    while close < n && body[close] != 62
        invariant
            at <= close <= n,
            n == body@.len(),
            first_close_from(body@, at as int) == first_close_from(body@, close as int),
        decreases n - close,
    {
        close = close + 1;
    }
    if close == n {
        return None;
    }
    Some(close + 1)
}

/// Puts `fragment` just after the document's opening `<head>` tag, or at the
/// very front of a document that has none, where the parser builds one around
/// it.
pub fn insert_into_head(body: &mut Vec<u8>, fragment: &[u8])
    ensures
        ({
            let at = match head_open(old(body)@) {
                Some(k) => k,
                None => 0,
            };
            final(body)@ == old(body)@.take(at) + fragment@ + old(body)@.skip(at)
        }),
{
    let at = match find_head_open(body.as_slice()) {
        Some(k) => k,
        None => 0,
    };
    proof {
        if head_open(body@) is Some {
            let h = first_head_tag_from(body@, 0);
            lemma_first_head_tag_from(body@, 0);
            lemma_first_close_from(body@, h);
        }
    }
    let mut out: Vec<u8> = Vec::new();
    let mut i: usize = 0;
    while i < at
        invariant
            i <= at <= body.len(),
            out@ == body@.take(i as int),
        decreases at - i,
    {
        out.push(body[i]);
        i = i + 1;
        assert(out@ =~= body@.take(i as int));
    }
    let mut j: usize = 0;
    while j < fragment.len()
        invariant
            j <= fragment.len(),
            at <= body.len(),
            out@ == body@.take(at as int) + fragment@.take(j as int),
        decreases fragment.len() - j,
    {
        out.push(fragment[j]);
        j = j + 1;
        assert(out@ =~= body@.take(at as int) + fragment@.take(j as int));
    }
    assert(fragment@.take(j as int) =~= fragment@);
    let mut k = at;
    while k < body.len()
        invariant
            at <= k <= body.len(),
            out@ == body@.take(at as int) + fragment@ + body@.subrange(at as int, k as int),
        decreases body.len() - k,
    {
        out.push(body[k]);
        k = k + 1;
        assert(out@ =~= body@.take(at as int) + fragment@ + body@.subrange(at as int, k as int));
    }
    assert(body@.subrange(at as int, k as int) =~= body@.skip(at as int));
    *body = out;
}

/// Whether `rel` names an icon: any of its space separated words is `icon`,
/// `shortcut`, or ends in `-icon`.
pub open spec fn icon_rel(rel: Seq<char>) -> bool {
    exists|k: int|
        0 <= k < words(rel).len() && {
            let w = #[trigger] words(rel)[k];
            w == "icon"@ || w == "shortcut"@ || (w.len() >= 5 && w.skip(w.len() - 5) == "-icon"@)
        }
}

fn ends_with_dash_icon(w: &Vec<char>) -> (b: bool)
    ensures
        b == (w@.len() >= 5 && w@.skip(w@.len() - 5) == "-icon"@),
{
    proof {
        reveal_strlit("-icon");
    }
    let n = w.len();
    if n < 5 {
        return false;
    }
    let b = w[n - 5] == '-' && w[n - 4] == 'i' && w[n - 3] == 'c' && w[n - 2] == 'o' && w[n - 1] == 'n';
    proof {
        if b {
            assert(w@.skip(n - 5) =~= "-icon"@);
        } else {
            if w@.skip(n - 5) == "-icon"@ {
                assert(w@.skip(n - 5)[0] == '-');
                assert(w@.skip(n - 5)[1] == 'i');
                assert(w@.skip(n - 5)[2] == 'c');
                assert(w@.skip(n - 5)[3] == 'o');
                assert(w@.skip(n - 5)[4] == 'n');
            }
        }
    }
    b
}

/// `rel` is a space separated set, and the icon keywords may sit anywhere in
/// it, so `rel="shortcut icon"` and `rel="apple-touch-icon"` both count.
pub fn is_icon_rel(rel: &str) -> (b: bool)
    ensures
        b == icon_rel(rel@),
{
    let ws = words_of(&chars_of(rel));
    let icon = chars_of("icon");
    let shortcut = chars_of("shortcut");
    let mut i: usize = 0;
    while i < ws.len()
        invariant
            i <= ws.len(),
            icon@ == "icon"@,
            shortcut@ == "shortcut"@,
            crate::text::views(ws@) == words(rel@),
            forall|k: int|
                0 <= k < i ==> {
                    let w = #[trigger] words(rel@)[k];
                    !(w == "icon"@ || w == "shortcut"@ || (w.len() >= 5 && w.skip(w.len() - 5) == "-icon"@))
                },
        decreases ws.len() - i,
    {
        let w = &ws[i];
        assert(words(rel@)[i as int] == w@);
        if crate::text::chars_eq(w, &icon) || crate::text::chars_eq(w, &shortcut) || ends_with_dash_icon(w) {
            return true;
        }
        i = i + 1;
    }
    false
}

/// What `split('"').nth(1)` gives: the text between the first double quote and
/// the next one, or to the end when there is no next one.
pub open spec fn first_quoted(s: Seq<char>) -> Option<Seq<char>> {
    let k = find_char(s, '"');
    if k < 0 {
        None
    } else {
        let r = s.skip(k + 1);
        let e = find_char(r, '"');
        Some(
            if e < 0 {
                r
            } else {
                r.take(e)
            },
        )
    }
}

/// Whether lowercased document text asks for a tab icon of its own: some
/// `rel=` is followed by a quoted value that names an icon.
pub open spec fn asks_for_icon(lowered: Seq<char>) -> bool {
    exists|p: int|
        0 <= p && p + 4 <= lowered.len() && #[trigger] lowered.subrange(p, p + 4) == "rel="@ && match first_quoted(
            lowered.skip(p),
        ) {
            Some(v) => icon_rel(v),
            None => false,
        }
}

fn rel_at(s: &Vec<char>, p: usize) -> (b: bool)
    requires
        p + 4 <= s.len(),
    ensures
        b == (s@.subrange(p as int, p + 4) == "rel="@),
{
    proof {
        reveal_strlit("rel=");
    }
    let b = s[p] == 'r' && s[p + 1] == 'e' && s[p + 2] == 'l' && s[p + 3] == '=';
    proof {
        let w = s@.subrange(p as int, p + 4);
        if b {
            assert(w =~= "rel="@);
        } else if w == "rel="@ {
            assert(w[0] == 'r' && w[1] == 'e' && w[2] == 'l' && w[3] == '=');
        }
    }
    b
}

fn quoted_value(s: &Vec<char>) -> (out: Option<Vec<char>>)
    ensures
        match out {
            Some(v) => first_quoted(s@) == Some(v@),
            None => first_quoted(s@) is None,
        },
{
    match split_once_char(s, '"') {
        None => None,
        Some((_, r)) => match split_once_char(&r, '"') {
            None => Some(r),
            Some((v, _)) => Some(v),
        },
    }
}

/// Whether document text already asks for a tab icon of its own.
///
/// A scan rather than a parse, because the alternative is parsing agent HTML to
/// answer one question. Both ways of being wrong are cheap: a missed
/// declaration puts the project icon over the document's own, and a spurious
/// one leaves the tab on the browser default.
pub fn declares_icon_in(text: &str) -> (b: bool)
    ensures
        b == asks_for_icon(ascii_lower(text@)),
{
    let lowered = ascii_lower_of(&chars_of(text));
    let n = lowered.len();
    if n < 4 {
        return false;
    }
    let mut p: usize = 0;
    while p <= n - 4
        invariant
            n == lowered@.len(),
            n >= 4,
            p <= n - 3,
            lowered@ == ascii_lower(text@),
            forall|q: int|
                0 <= q < p && q + 4 <= n && #[trigger] lowered@.subrange(q, q + 4) == "rel="@ ==> match first_quoted(
                    lowered@.skip(q),
                ) {
                    Some(v) => !icon_rel(v),
                    None => true,
                },
        decreases n - p,
    {
        if rel_at(&lowered, p) {
            let mut rest: Vec<char> = Vec::new();
            let mut i = p;
            while i < n
                invariant
                    p <= i <= n,
                    n == lowered@.len(),
                    rest@ == lowered@.subrange(p as int, i as int),
                decreases n - i,
            {
                rest.push(lowered[i]);
                i = i + 1;
                assert(rest@ =~= lowered@.subrange(p as int, i as int));
            }
            assert(rest@ =~= lowered@.skip(p as int));
            match quoted_value(&rest) {
                Some(v) => {
                    if is_icon_rel(string_of(&v).as_str()) {
                        return true;
                    }
                },
                None => {},
            }
        }
        p = p + 1;
    }
    false
}

/// A document's bytes as text, invalid UTF-8 replaced.
pub uninterp spec fn utf8_lossy(bytes: Seq<u8>) -> Seq<char>;

/// `String::from_utf8_lossy`: the bytes as text, each invalid sequence
/// replaced by U+FFFD. The result is named `utf8_lossy`.
#[verifier::external_body]
fn lossy_text(bytes: &[u8]) -> (out: String)
    ensures
        out@ == utf8_lossy(bytes@),
{
    String::from_utf8_lossy(bytes).into_owned()
}

/// Whether the document already asks for a tab icon of its own.
pub fn declares_icon(body: &[u8]) -> (b: bool)
    ensures
        b == asks_for_icon(ascii_lower(utf8_lossy(body@))),
{
    declares_icon_in(lossy_text(body).as_str())
}


/// What a visitor's access cookie signs. The password hash is part of it, so
/// rotating the password or publishing again invalidates every outstanding
/// cookie without server state.
pub open spec fn access_message(doc_id: i64, expiry: i64, password_hash: Seq<char>) -> Seq<char> {
    decimal(doc_id as int) + "."@ + decimal(expiry as int) + "."@ + password_hash
}

/// The value of an access cookie that lasts until `expiry`.
pub open spec fn access_cookie_text(secret: Seq<char>, doc_id: i64, expiry: i64, password_hash: Seq<char>) -> Seq<
    char,
> {
    decimal(expiry as int) + "."@ + hex_of(hmac_sha256(secret, access_message(doc_id, expiry, password_hash)))
}

/// Whether an access cookie opens a document at `now`: `<expiry>.<hex
/// signature>`, not yet expired, signed for this document and password.
pub open spec fn access_valid(
    secret: Seq<char>,
    doc_id: i64,
    password_hash: Seq<char>,
    cookie: Option<Seq<char>>,
    now: i64,
) -> bool {
    match cookie {
        None => false,
        Some(c) => match split_once_at(c, '.') {
            None => false,
            Some((e, m)) => match (parsed_i64(e), hex_bytes(m)) {
                (Some(expiry), Some(mac)) => expiry > now && mac == hmac_sha256(
                    secret,
                    access_message(doc_id, expiry, password_hash),
                ),
                _ => false,
            },
        },
    }
}

fn access_message_of(doc_id: i64, expiry: i64, password_hash: &str) -> (out: String)
    ensures
        out@ == access_message(doc_id, expiry, password_hash@),
{
    let mut v = decimal_i64(doc_id);
    append_str(&mut v, ".");
    append_chars(&mut v, &decimal_i64(expiry));
    append_str(&mut v, ".");
    append_str(&mut v, password_hash);
    string_of(&v)
}

/// The access cookie a visitor gets for the right password at `now`, good for
/// seven days.
pub fn access_cookie_at(secret: &str, doc_id: i64, password_hash: &str, now: i64) -> (out: String)
    requires
        now <= i64::MAX - ACCESS_SECONDS,
    ensures
        out@ == access_cookie_text(secret@, doc_id, (now + ACCESS_SECONDS) as i64, password_hash@),
{
    let expiry = now + ACCESS_SECONDS;
    let message = access_message_of(doc_id, expiry, password_hash);
    let tag = hmac_tag(secret, message.as_str());
    let mut v = decimal_i64(expiry);
    append_str(&mut v, ".");
    append_str(&mut v, hex_encode(tag.as_slice()).as_str());
    string_of(&v)
}

pub fn has_valid_access_cookie(secret: &str, doc_id: i64, password_hash: &str, cookie: Option<&str>, now: i64) -> (b:
    bool)
    ensures
        b == access_valid(secret@, doc_id, password_hash@, opt_str_view(cookie), now),
{
    let c = match cookie {
        None => return false,
        Some(c) => c,
    };
    let (e, m) = match split_once_char(&chars_of(c), '.') {
        None => return false,
        Some(parts) => parts,
    };
    let expiry = match parse_i64(&e) {
        None => {
            return false;
        },
        Some(x) => x,
    };
    let mac = match hex_decode(string_of(&m).as_str()) {
        None => return false,
        Some(mac) => mac,
    };
    if expiry <= now {
        return false;
    }
    let message = access_message_of(doc_id, expiry, password_hash);
    hmac_matches(secret, message.as_str(), mac.as_slice())
}

/// An access cookie handed out for a document and password opens that
/// document, under that password, until it expires, and not after.
pub proof fn lemma_access_cookie_opens_until_expiry(
    secret: Seq<char>,
    doc_id: i64,
    password_hash: Seq<char>,
    expiry: i64,
    now: i64,
)
    ensures
        access_valid(
            secret,
            doc_id,
            password_hash,
            Some(access_cookie_text(secret, doc_id, expiry, password_hash)),
            now,
        ) == (now < expiry),
{
    let e = decimal(expiry as int);
    let tag = hmac_sha256(secret, access_message(doc_id, expiry, password_hash));
    let m = hex_of(tag);
    let c = access_cookie_text(secret, doc_id, expiry, password_hash);
    reveal_strlit(".");
    assert(c =~= e + seq!['.'] + m);
    lemma_decimal_no_dot(expiry);
    assert(c[e.len() as int] == '.');
    assert forall|j: int| 0 <= j < e.len() implies c[j] != '.' by {
        assert(c[j] == e[j]);
    }
    crate::text::lemma_find_char_at(c, '.', e.len() as int);
    assert(c.take(e.len() as int) =~= e);
    assert(c.skip(e.len() as int + 1) =~= m);
    lemma_parse_decimal(expiry);
    lemma_hex_round_trip(tag);
}

/// A visitor reads a document when it is published behind a password and
/// their access cookie is valid for it.
pub open spec fn unlocked(
    secret: Seq<char>,
    doc_id: i64,
    published: bool,
    password_hash: Option<Seq<char>>,
    cookie: Option<Seq<char>>,
    now: i64,
) -> bool {
    published && password_hash is Some && access_valid(secret, doc_id, password_hash->0, cookie, now)
}

pub fn visitor_unlocked(
    secret: &str,
    doc_id: i64,
    published: bool,
    password_hash: Option<&str>,
    cookie: Option<&str>,
    now: i64,
) -> (b: bool)
    ensures
        b == unlocked(secret@, doc_id, published, opt_str_view(password_hash), opt_str_view(cookie), now),
{
    if !published {
        return false;
    }
    match password_hash {
        None => false,
        Some(h) => has_valid_access_cookie(secret, doc_id, h, cookie, now),
    }
}

/// Reading as the owner takes either the grant this origin issues to a browser
/// or an API token, which is what a script or an agent carries. Deliberately
/// not the session: that one belongs to the app.
pub fn reads_as_owner(reader: Option<i64>, token_user: Option<i64>, owner_id: i64) -> (b: bool)
    ensures
        b == (reader == Some(owner_id) || token_user == Some(owner_id)),
{
    match (reader, token_user) {
        (Some(r), _) if r == owner_id => true,
        (_, Some(t)) => t == owner_id,
        _ => false,
    }
}

/// Where a document moved to: its directory form, under the slug it has now.
pub open spec fn canonical_location_of(public_id: Seq<char>, slug: Seq<char>, revision: Option<i64>) -> Seq<char> {
    match revision {
        Some(r) => "/"@ + public_id + "/"@ + slug + "/rev/"@ + decimal(r as int) + "/"@,
        None => "/"@ + public_id + "/"@ + slug + "/"@,
    }
}

pub fn canonical_location(public_id: &str, slug: &str, revision: Option<i64>) -> (out: String)
    ensures
        out@ == canonical_location_of(public_id@, slug@, revision),
{
    let mut v = chars_of("/");
    append_str(&mut v, public_id);
    append_str(&mut v, "/");
    append_str(&mut v, slug);
    match revision {
        Some(r) => {
            append_str(&mut v, "/rev/");
            append_chars(&mut v, &decimal_i64(r));
            append_str(&mut v, "/");
        },
        None => {
            append_str(&mut v, "/");
        },
    }
    string_of(&v)
}

/// The revision a reader sees and the latest one, given the document's
/// revisions newest first and the one the address pins, if any; `None` when
/// there are no revisions or the pinned one is not among them.
pub open spec fn chosen_revision(revisions: Seq<i64>, pinned: Option<i64>) -> Option<(i64, i64)> {
    if revisions.len() == 0 {
        None
    } else {
        let latest = revisions[0];
        let current = match pinned {
            Some(r) => r,
            None => latest,
        };
        if revisions.contains(current) {
            Some((current, latest))
        } else {
            None
        }
    }
}

pub fn choose_revision(revisions: &[i64], pinned: Option<i64>) -> (out: Option<(i64, i64)>)
    ensures
        out == chosen_revision(revisions@, pinned),
{
    if revisions.len() == 0 {
        return None;
    }
    let latest = revisions[0];
    let current = match pinned {
        Some(r) => r,
        None => latest,
    };
    let mut i: usize = 0;
    while i < revisions.len()
        invariant
            i <= revisions.len(),
            revisions.len() > 0,
            latest == revisions@[0],
            current == (match pinned {
                Some(r) => r,
                None => latest,
            }),
            forall|k: int| 0 <= k < i ==> revisions@[k] != current,
        decreases revisions.len() - i,
    {
        if revisions[i] == current {
            assert(revisions@[i as int] == current);
            return Some((current, latest));
        }
        i = i + 1;
    }
    None
}

/// How long a browser may keep a document's file: a pinned revision never
/// changes; the latest pointer does.
pub fn asset_cache_control(pinned: bool) -> (out: &'static str)
    ensures
        pinned ==> out@ == "private, max-age=31536000, immutable"@,
        !pinned ==> out@ == "no-cache"@,
{
    if pinned {
        "private, max-age=31536000, immutable"
    } else {
        "no-cache"
    }
}

/// What the docs origin answers a request for a document.
pub enum ServeAction {
    /// 404, the same reply as for a missing document.
    NotFound,
    /// Off to the app to fetch a grant.
    AskForGrant,
    /// Moved permanently to the document's canonical address.
    RedirectCanonical,
    /// The document itself.
    Document,
    /// The password gate of a published document.
    PasswordForm,
}

/// What a request for a document gets, from what is known about it: whether
/// the address opens with a public id, whether the document exists and under
/// what slug, whether the reader may read it, and whether the browser would be
/// sent for a grant.
pub open spec fn serve_action(
    id_shaped: bool,
    exists: bool,
    slug_matches: bool,
    owner: bool,
    unlocked: bool,
    published: bool,
    would_ask: bool,
) -> ServeAction {
    if !id_shaped {
        ServeAction::NotFound
    } else if !exists {
        if would_ask {
            ServeAction::AskForGrant
        } else {
            ServeAction::NotFound
        }
    } else if !slug_matches {
        ServeAction::RedirectCanonical
    } else if owner || unlocked {
        ServeAction::Document
    } else if published {
        ServeAction::PasswordForm
    } else if would_ask {
        ServeAction::AskForGrant
    } else {
        ServeAction::NotFound
    }
}

/// A reader who may read a document is served it: at the document's own
/// address (a public id that names it, under its current slug), its owner and
/// a visitor holding a valid access cookie both get the document itself,
/// whatever else holds; and nobody else ever does.
pub proof fn lemma_readers_get_the_document(
    id_shaped: bool,
    exists: bool,
    slug_matches: bool,
    owner: bool,
    unlocked: bool,
    published: bool,
    would_ask: bool,
)
    ensures
        id_shaped && exists && slug_matches && (owner || unlocked) ==> serve_action(
            id_shaped,
            exists,
            slug_matches,
            owner,
            unlocked,
            published,
            would_ask,
        ) is Document,
        serve_action(id_shaped, exists, slug_matches, owner, unlocked, published, would_ask) is Document ==> (
        owner || unlocked),
{
}

/// A document the caller may not read is indistinguishable from one that does
/// not exist: both answers are the same, and so is the trip to the app that
/// may turn this browser into one that is allowed to read it.
pub fn decide_serve(
    id_shaped: bool,
    exists: bool,
    slug_matches: bool,
    owner: bool,
    unlocked: bool,
    published: bool,
    would_ask: bool,
) -> (out: ServeAction)
    ensures
        out == serve_action(id_shaped, exists, slug_matches, owner, unlocked, published, would_ask),
{
    if !id_shaped {
        ServeAction::NotFound
    } else if !exists {
        if would_ask {
            ServeAction::AskForGrant
        } else {
            ServeAction::NotFound
        }
    } else if !slug_matches {
        ServeAction::RedirectCanonical
    } else if owner || unlocked {
        ServeAction::Document
    } else if published {
        ServeAction::PasswordForm
    } else if would_ask {
        ServeAction::AskForGrant
    } else {
        ServeAction::NotFound
    }
}

/// A private document at its own address is answered exactly as a missing
/// one is, to a reader who may not read it; and nobody but its owner or an
/// unlocked visitor is ever served its body.
pub proof fn lemma_private_is_indistinguishable_from_missing(
    id_shaped: bool,
    owner: bool,
    unlocked: bool,
    would_ask: bool,
)
    ensures
        !owner && !unlocked ==> serve_action(id_shaped, true, true, owner, unlocked, false, would_ask)
            == serve_action(id_shaped, false, true, false, false, false, would_ask),
        forall|exists: bool, slug_matches: bool, published: bool|
            #[trigger] serve_action(id_shaped, exists, slug_matches, owner, unlocked, published, would_ask)
                == ServeAction::Document ==> (owner || unlocked),
{
}


/// The password a visitor types at a document's gate.
pub struct UnlockForm {
    pub password: String,
}

/// A document as the docs origin knows it.
pub struct Doc {
    pub id: i64,
    pub owner_id: i64,
    pub slug: String,
    pub title: Option<String>,
    pub project: Option<String>,
    pub published: bool,
    pub password_hash: Option<String>,
}

pub const OVERLAY_0: &'static str = "\n<div id=\"planenv-overlay\">\n<a id=\"planenv-brand\" href=\"";

pub const OVERLAY_1: &'static str = "\" title=\"";

pub const OVERLAY_2: &'static str = "\">";

pub const OVERLAY_3: &'static str = "</a>\n<div id=\"planenv-tools\">\n";

pub const OVERLAY_4: &'static str = "\n<details id=\"planenv-revs\"><summary>";

pub const OVERLAY_5: &'static str = "</summary><nav>";

pub const OVERLAY_6: &'static str = "</nav></details>\n";

pub const OVERLAY_7: &'static str = "\n</div>\n</div>\n<style>\n#planenv-overlay {\n  position: fixed; top: 0; left: 0; right: 0; z-index: 2147483647;\n  display: flex; justify-content: space-between; align-items: flex-start;\n  gap: 10px; padding: 10px;\n  /* the span between the two ends belongs to the document, not to us */\n  pointer-events: none;\n  font: 12px/1 system-ui, -apple-system, \"Segoe UI\", sans-serif;\n}\n/* the overlay is injected into somebody else's document, so it cannot borrow\n   that document's reset, and every size below depends on the border being\n   inside the height */\n#planenv-overlay, #planenv-overlay * { box-sizing: border-box; }\n/* flex-start, not stretch: a pill that grew would drag Share up with it and\n   leave the revision summary behind, since that one sits inside a details */\n#planenv-tools { display: flex; gap: 6px; align-items: flex-start; }\n#planenv-overlay a, #planenv-overlay summary, #planenv-progress {\n  pointer-events: auto;\n  display: flex; align-items: center;\n  background: #1c1f22e8; color: #e7e5df;\n  border: 1px solid #ffffff26;\n  /* one height for every pill, set here and never by what a pill contains, so\n     nothing in the cluster moves when a control changes state */\n  height: 28px; padding: 0 12px;\n  text-decoration: none; cursor: pointer;\n  white-space: nowrap;\n}\n#planenv-overlay a:focus-visible, #planenv-overlay summary:focus-visible {\n  outline: 2px solid #4cc2a0; outline-offset: 1px;\n}\n#planenv-brand { font-family: ui-monospace, \"SF Mono\", Menlo, Consolas, monospace; font-weight: 600; }\n#planenv-brand b { color: #4cc2a0; }\n#planenv-revs { position: relative; }\n#planenv-revs summary { list-style: none; font-family: ui-monospace, \"SF Mono\", Menlo, Consolas, monospace; }\n#planenv-revs summary::-webkit-details-marker { display: none; }\n#planenv-revs nav {\n  position: absolute; right: 0; top: calc(100% + 6px);\n  display: flex; flex-direction: column; min-width: 130px;\n  background: #1c1f22f2; border: 1px solid #ffffff26; padding: 4px;\n}\n#planenv-revs nav a { background: none; border: 0; padding: 0 10px; }\n#planenv-revs nav a:hover { background: #ffffff14; }\n#planenv-revs nav a.viewing { color: #4cc2a0; }\n#planenv-share { background: #4cc2a0; border-color: transparent; color: #10201b; font-weight: 600; }\n\n/* The answer control. Its padding matches the pills beside it and its track is\n   out of flow, so it is exactly their height in every state, including the\n   square it collapses to. */\n#planenv-progress { position: relative; gap: 10px; padding: 0 10px; }\n#planenv-answered { font-family: ui-monospace, \"SF Mono\", Menlo, Consolas, monospace; }\n#planenv-nav { display: flex; gap: 4px; }\n.planenv-step {\n  width: 16px; height: 16px; display: grid; place-items: center;\n  border: 1px solid #ffffff2e; background: none; color: inherit;\n  font: 10px/1 system-ui, sans-serif; cursor: pointer; padding: 0;\n}\n.planenv-step:hover, .planenv-step:focus-visible { background: #4cc2a0; border-color: #4cc2a0; color: #10201b; outline: 0; }\n.planenv-step[disabled] { opacity: .3; cursor: default; }\n.planenv-step[disabled]:hover { background: none; border-color: #ffffff2e; color: inherit; }\n/* flush to the bottom, edge to edge, resting on the border rather than being it */\n#planenv-track { position: absolute; left: 0; right: 0; bottom: 0; height: 2px; display: flex; gap: 1px; }\n#planenv-track i { flex: 1; background: #ffffff26; }\n#planenv-track i.is-on { background: #4cc2a0; }\n#planenv-done { display: none; color: #ffffff; font-size: 14px; line-height: 1; }\n\n/* Answered in full: the control keeps the height and gives up the width, and\n   hover or focus hands every part of it back. Reduced motion lands on the same\n   square without the step in between, so the square has to read on its own. */\n/* the square is the pill height on both sides, and only the width animates,\n   so the row it sits in never reflows */\n#planenv-progress.is-done {\n  width: 28px; padding: 0; gap: 0; justify-content: center;\n  background: #4cc2a0; border-color: #4cc2a0;\n  transition: width 160ms, background-color 160ms;\n}\n#planenv-progress.is-done > :not(#planenv-done) { display: none; }\n#planenv-progress.is-done #planenv-done { display: block; }\n#planenv-progress.is-done:hover, #planenv-progress.is-done:focus-within {\n  width: auto; padding: 0 10px; gap: 10px;\n  background: #1c1f22e8; border-color: #ffffff26;\n}\n#planenv-progress.is-done:hover > :not(#planenv-done), #planenv-progress.is-done:focus-within > :not(#planenv-done) { display: flex; }\n#planenv-progress.is-done:hover #planenv-answered, #planenv-progress.is-done:focus-within #planenv-answered { display: block; }\n#planenv-progress.is-done:hover #planenv-done, #planenv-progress.is-done:focus-within #planenv-done { display: none; }\n@media (prefers-reduced-motion: reduce) {\n  #planenv-progress.is-done { transition: none; }\n}\n@media print { #planenv-overlay { display: none; } }\n</style>\n";

pub const PROGRESS_0: &'static str = "<div id=\"planenv-progress\"";

pub const PROGRESS_1: &'static str = " title=\"";

pub const PROGRESS_2: &'static str = " of ";

pub const PROGRESS_3: &'static str = " answered\"><span id=\"planenv-answered\">";

pub const PROGRESS_4: &'static str = " of ";

pub const PROGRESS_5: &'static str = "</span><span id=\"planenv-nav\"><button type=\"button\" class=\"planenv-step\" data-planenv-step=\"-1\" aria-label=\"Previous question\">&#8592;</button><button type=\"button\" class=\"planenv-step\" data-planenv-step=\"1\" aria-label=\"Next question\">&#8594;</button></span><b id=\"planenv-done\">?</b><span id=\"planenv-track\">";

pub const PROGRESS_6: &'static str = "</span></div>";

/// The title the overlay names a document by: its title, else its slug,
/// escaped.
pub open spec fn shown_title(doc: Doc) -> Seq<char> {
    html_escaped(
        match doc.title {
            Some(t) => t@,
            None => doc.slug@,
        },
    )
}

/// The host the reader is on, with everything after its first dot in bold.
pub open spec fn brand_of(host: Seq<char>) -> Seq<char> {
    match split_once_at(host, '.') {
        Some((first, rest)) => html_escaped(first) + "<b>."@ + html_escaped(rest) + "</b>"@,
        None => html_escaped(host),
    }
}

/// Where the revision menu sends a reader for revision `r`: the plain address
/// for the latest, a pinned one for the rest.
pub open spec fn revision_href(public_id: Seq<char>, slug: Seq<char>, r: i64, latest: i64) -> Seq<char> {
    if r == latest {
        "/"@ + public_id + "/"@ + slug
    } else {
        "/"@ + public_id + "/"@ + slug + "/rev/"@ + decimal(r as int)
    }
}

pub open spec fn revision_link(public_id: Seq<char>, slug: Seq<char>, r: i64, current: i64, latest: i64) -> Seq<
    char,
> {
    "<a"@ + (if r == current {
        " class=\"viewing\""@
    } else {
        Seq::empty()
    }) + " href=\""@ + revision_href(public_id, slug, r, latest) + "\">rev "@ + decimal(r as int) + (if r
        == latest {
        " (current)"@
    } else {
        Seq::empty()
    }) + "</a>"@
}

pub open spec fn revision_links(
    public_id: Seq<char>,
    slug: Seq<char>,
    revisions: Seq<i64>,
    current: i64,
    latest: i64,
) -> Seq<char>
    decreases revisions.len(),
{
    if revisions.len() == 0 {
        Seq::empty()
    } else {
        revision_links(public_id, slug, revisions.drop_last(), current, latest) + revision_link(
            public_id,
            slug,
            revisions.last(),
            current,
            latest,
        )
    }
}

pub open spec fn revision_summary(current: i64, latest: i64) -> Seq<char> {
    if current == latest {
        "rev "@ + decimal(current as int)
    } else {
        "rev "@ + decimal(current as int) + " of "@ + decimal(latest as int)
    }
}

/// How many of the questions carry an answer.
pub open spec fn answered_count(questions: Seq<crate::question::AnsweredQuestion>) -> nat
    decreases questions.len(),
{
    if questions.len() == 0 {
        0
    } else {
        answered_count(questions.drop_last()) + if questions.last().answer is Some {
            1nat
        } else {
            0nat
        }
    }
}

/// One segment per question, lit when it is answered.
pub open spec fn progress_segments(questions: Seq<crate::question::AnsweredQuestion>) -> Seq<char>
    decreases questions.len(),
{
    if questions.len() == 0 {
        Seq::empty()
    } else {
        progress_segments(questions.drop_last()) + if questions.last().answer is Some {
            "<i class=\"is-on\"></i>"@
        } else {
            "<i></i>"@
        }
    }
}

/// The answer control: how many of how many are answered, rendered rather
/// than left for the widget to fill in, so it agrees with the document list
/// before any script runs. Nothing when there are no questions.
pub open spec fn progress_block(questions: Seq<crate::question::AnsweredQuestion>) -> Seq<char> {
    if questions.len() == 0 {
        Seq::empty()
    } else {
        let count = answered_count(questions) as int;
        let total = questions.len() as int;
        PROGRESS_0@ + (if count == total {
            " class=\"is-done\""@
        } else {
            Seq::empty()
        }) + PROGRESS_1@ + decimal(count) + PROGRESS_2@ + decimal(total) + PROGRESS_3@ + decimal(count) + PROGRESS_4@
            + decimal(total) + PROGRESS_5@ + progress_segments(questions) + PROGRESS_6@
    }
}

/// The viewer's overlay: a pill cluster fixed to the top of the page with the
/// brand, the answer control, the revision menu and the share link.
pub open spec fn overlay_text(
    app: Seq<char>,
    docs: Seq<char>,
    share: Seq<char>,
    public_id: Seq<char>,
    doc: Doc,
    current: i64,
    latest: i64,
    revisions: Seq<i64>,
    questions: Seq<crate::question::AnsweredQuestion>,
) -> Seq<char> {
    OVERLAY_0@ + html_escaped(app) + OVERLAY_1@ + shown_title(doc) + OVERLAY_2@ + brand_of(
        crate::config::authority_of(docs),
    ) + OVERLAY_3@ + progress_block(questions) + OVERLAY_4@ + revision_summary(current, latest) + OVERLAY_5@
        + revision_links(public_id, doc.slug@, revisions, current, latest) + OVERLAY_6@ + share + OVERLAY_7@
}

fn brand(host: &str) -> (out: String)
    ensures
        out@ == brand_of(host@),
{
    match split_once_char(&chars_of(host), '.') {
        Some((first, rest)) => {
            let mut v = chars_of(html_escape(string_of(&first).as_str()).as_str());
            append_str(&mut v, "<b>.");
            append_str(&mut v, html_escape(string_of(&rest).as_str()).as_str());
            append_str(&mut v, "</b>");
            string_of(&v)
        },
        None => html_escape(host),
    }
}

fn append_decimal(v: &mut Vec<char>, n: i64)
    ensures
        final(v)@ == old(v)@ + decimal(n as int),
{
    append_chars(v, &decimal_i64(n));
}

fn append_count(v: &mut Vec<char>, n: usize)
    ensures
        final(v)@ == old(v)@ + decimal(n as int),
{
    append_chars(v, &crate::text::digits_u128(n as u128));
}

fn revision_link_of(public_id: &str, slug: &str, r: i64, current: i64, latest: i64) -> (out: Vec<char>)
    ensures
        out@ == revision_link(public_id@, slug@, r, current, latest),
{
    let mut v = chars_of("<a");
    if r == current {
        append_str(&mut v, " class=\"viewing\"");
    }
    append_str(&mut v, " href=\"");
    let mut href = chars_of("/");
    append_str(&mut href, public_id);
    append_str(&mut href, "/");
    append_str(&mut href, slug);
    if r != latest {
        append_str(&mut href, "/rev/");
        append_decimal(&mut href, r);
    }
    append_chars(&mut v, &href);
    append_str(&mut v, "\">rev ");
    append_decimal(&mut v, r);
    if r == latest {
        append_str(&mut v, " (current)");
    }
    append_str(&mut v, "</a>");
    v
}

fn revision_links_of(public_id: &str, slug: &str, revisions: &[i64], current: i64, latest: i64) -> (out: Vec<char>)
    ensures
        out@ == revision_links(public_id@, slug@, revisions@, current, latest),
{
    let mut v: Vec<char> = Vec::new();
    let mut i: usize = 0;
    assert(revisions@.take(0) =~= Seq::<i64>::empty());
    while i < revisions.len()
        invariant
            i <= revisions.len(),
            v@ == revision_links(public_id@, slug@, revisions@.take(i as int), current, latest),
        decreases revisions.len() - i,
    {
        let r = revisions[i];
        proof {
            assert(revisions@.take(i + 1).drop_last() =~= revisions@.take(i as int));
        }
        append_chars(&mut v, &revision_link_of(public_id, slug, r, current, latest));
        i = i + 1;
    }
    assert(revisions@.take(i as int) =~= revisions@);
    v
}

fn progress_of(questions: &[crate::question::AnsweredQuestion]) -> (out: Vec<char>)
    ensures
        out@ == progress_block(questions@),
{
    let mut v: Vec<char> = Vec::new();
    if questions.len() == 0 {
        return v;
    }
    let mut count: usize = 0;
    let mut segments: Vec<char> = Vec::new();
    let mut i: usize = 0;
    assert(questions@.take(0) =~= Seq::<crate::question::AnsweredQuestion>::empty());
    while i < questions.len()
        invariant
            i <= questions.len(),
            count == answered_count(questions@.take(i as int)),
            count <= i,
            segments@ == progress_segments(questions@.take(i as int)),
        decreases questions.len() - i,
    {
        proof {
            assert(questions@.take(i + 1).drop_last() =~= questions@.take(i as int));
        }
        if questions[i].answer.is_some() {
            count = count + 1;
            append_str(&mut segments, "<i class=\"is-on\"></i>");
        } else {
            append_str(&mut segments, "<i></i>");
        }
        i = i + 1;
    }
    assert(questions@.take(i as int) =~= questions@);
    let total = questions.len();
    append_str(&mut v, PROGRESS_0);
    if count == total {
        append_str(&mut v, " class=\"is-done\"");
    }
    append_str(&mut v, PROGRESS_1);
    append_count(&mut v, count);
    append_str(&mut v, PROGRESS_2);
    append_count(&mut v, total);
    append_str(&mut v, PROGRESS_3);
    append_count(&mut v, count);
    append_str(&mut v, PROGRESS_4);
    append_count(&mut v, total);
    append_str(&mut v, PROGRESS_5);
    append_chars(&mut v, &segments);
    append_str(&mut v, PROGRESS_6);
    v
}

/// A compact pill cluster fixed to the top of a document. Dark on every
/// document so it needs no theme detection, hidden in print, and without
/// script: the revision menu is a details element.
pub fn overlay_fragment(
    app_url: &crate::config::AppUrl,
    docs_url: &crate::config::DocsUrl,
    share: &str,
    public_id: &str,
    doc: &Doc,
    current: i64,
    latest: i64,
    revisions: &[i64],
    questions: &[crate::question::AnsweredQuestion],
) -> (out: String)
    ensures
        out@ == overlay_text(
            app_url.0.0@,
            docs_url.0.0@,
            share@,
            public_id@,
            *doc,
            current,
            latest,
            revisions@,
            questions@,
        ),
{
    let slug = doc.slug.as_str();
    let title = match &doc.title {
        Some(t) => html_escape(t.as_str()),
        None => html_escape(slug),
    };
    let app_href = html_escape(app_url.0.as_str());
    let host = docs_url.0.authority();
    let mut v = chars_of(OVERLAY_0);
    append_str(&mut v, app_href.as_str());
    append_str(&mut v, OVERLAY_1);
    append_str(&mut v, title.as_str());
    append_str(&mut v, OVERLAY_2);
    append_str(&mut v, brand(host).as_str());
    append_str(&mut v, OVERLAY_3);
    append_chars(&mut v, &progress_of(questions));
    append_str(&mut v, OVERLAY_4);
    append_str(&mut v, "rev ");
    append_decimal(&mut v, current);
    if current != latest {
        append_str(&mut v, " of ");
        append_decimal(&mut v, latest);
    }
    append_str(&mut v, OVERLAY_5);
    append_chars(&mut v, &revision_links_of(public_id, slug, revisions, current, latest));
    append_str(&mut v, OVERLAY_6);
    append_str(&mut v, share);
    append_str(&mut v, OVERLAY_7);
    string_of(&v)
}


/// Escaped text holds no character that could open a tag or close an
/// attribute: no `<`, `>` or `"`.
pub proof fn lemma_escaped_text_is_inert(s: Seq<char>)
    ensures
        forall|i: int|
            0 <= i < html_escaped(s).len() ==> #[trigger] html_escaped(s)[i] != '<' && html_escaped(s)[i] != '>'
                && html_escaped(s)[i] != '"',
    decreases s.len(),
{
    reveal_strlit("&amp;");
    reveal_strlit("&lt;");
    reveal_strlit("&gt;");
    reveal_strlit("&quot;");
    if s.len() > 0 {
        lemma_escaped_text_is_inert(s.drop_last());
        let prev = html_escaped(s.drop_last());
        let tail = escape_char(s.last());
        assert forall|i: int| 0 <= i < html_escaped(s).len() implies #[trigger] html_escaped(s)[i] != '<'
            && html_escaped(s)[i] != '>' && html_escaped(s)[i] != '"' by {
            if i < prev.len() {
                assert(html_escaped(s)[i] == prev[i]);
            } else {
                assert(html_escaped(s)[i] == tail[i - prev.len()]);
            }
        }
    }
}

} // verus!
