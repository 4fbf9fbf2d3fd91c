//! How a reader proves, on the docs origin, which account they are.
//!
//! The session lives on the app origin and never leaves it: a document runs its
//! author's scripts, and a script that can make the browser send the session is
//! a script that can act as the reader. So the docs origin gets a credential of
//! its own, minted by the app, that says one thing and grants one thing: this
//! browser reads as user N, and may read what user N owns. Nothing about it
//! writes, and nothing about it works on the app origin.
//!
//! The exchange is a redirect. The docs origin sends a reader with no cookie to
//! the app, the app reads its own session, and it sends the reader back with a
//! signed grant in the URL, which the docs origin turns into a cookie and drops
//! from the address bar. A reader with no session comes back as nobody, which
//! is what keeps a stranger from bouncing between the two origins forever.

use vstd::prelude::*;

use crate::config::{AppUrl, DocsUrl};
use crate::crypto::{hex_encode, hex_of, hmac_sha256, hmac_tag};
use crate::number::{lemma_decimal_no_dot, lemma_parse_decimal, parse_i64, parsed_i64};
use crate::text::{
    append_chars, append_str, chars_eq, chars_of, decimal, decimal_i64, lemma_three_fields_of_join,
    opt_str_view, split_all, split_on, split_once_at, split_once_char, str_is, string_of, three_fields,
    three_fields_of, views,
};

verus! {

pub const READER_COOKIE: &'static str = "doc_reader";

/// A reader keeps a grant about as long as a working week, so opening a
/// document does not bounce through the app every day.
pub const READER_DAYS: i64 = 7;

/// Seven days, in seconds.
pub const READER_SECONDS: i64 = 604800;

/// Nobody's grant is short. It exists only to stop the redirect repeating, and
/// an owner who signs in should not have to wait out a stale one.
pub const ANONYMOUS_SECONDS: i64 = 60;

/// The grant travels in a URL, so it lives just long enough to be redeemed.
pub const GRANT_SECONDS: i64 = 30;

pub const ANONYMOUS: i64 = 0;

/// The two purposes are separate secrets in effect: a grant cannot be replayed
/// as a reader cookie, and a reader cookie cannot be handed back as a grant.
pub const GRANT: &'static str = "grant";

pub const READER: &'static str = "reader";

/// The query of a grant request: the path to send the reader back to.
pub struct Next {
    pub next: String,
}

pub open spec fn is_path_char(c: char) -> bool {
    ('a' <= c <= 'z') || ('A' <= c <= 'Z') || ('0' <= c <= '9') || c == '/' || c == '.' || c == '_' || c == '-'
}

/// A path this service would serve a document at. Rejects anything that would
/// leave the origin, including the protocol-relative `//elsewhere.example`.
pub open spec fn document_path(next: Seq<char>) -> bool {
    &&& next.len() >= 1 && next[0] == '/'
    &&& !(next.len() >= 2 && next[1] == '/')
    &&& forall|i: int| 0 <= i < next.len() ==> is_path_char(#[trigger] next[i])
}

pub fn is_document_path(next: &str) -> (b: bool)
    ensures
        b == document_path(next@),
{
    let c = chars_of(next);
    if c.len() == 0 || c[0] != '/' {
        return false;
    }
    if c.len() >= 2 && c[1] == '/' {
        return false;
    }
    let mut i: usize = 0;
    while i < c.len()
        invariant
            i <= c.len(),
            c@ == next@,
            forall|k: int| 0 <= k < i ==> is_path_char(#[trigger] c@[k]),
        decreases c.len() - i,
    {
        let ch = c[i];
        if !(('a' <= ch && ch <= 'z') || ('A' <= ch && ch <= 'Z') || ('0' <= ch && ch <= '9') || ch == '/' || ch
            == '.' || ch == '_' || ch == '-') {
            assert(!is_path_char(next@[i as int]));
            return false;
        }
        i = i + 1;
    }
    true
}

/// The value of the first `name=value` pair among `pieces` whose name is `key`;
/// a piece without `=` is skipped.
pub open spec fn pair_value(pieces: Seq<Seq<char>>, key: Seq<char>) -> Option<Seq<char>>
    decreases pieces.len(),
{
    if pieces.len() == 0 {
        None
    } else {
        match split_once_at(pieces[0], '=') {
            Some((name, value)) => if name == key {
                Some(value)
            } else {
                pair_value(pieces.drop_first(), key)
            },
            None => pair_value(pieces.drop_first(), key),
        }
    }
}

/// The value a query string gives `key`, taken as written.
pub open spec fn query_value_of(query: Seq<char>, key: Seq<char>) -> Option<Seq<char>> {
    pair_value(split_on(query, '&'), key)
}

pub fn query_value(query: &str, key: &str) -> (out: Option<String>)
    ensures
        match out {
            Some(v) => query_value_of(query@, key@) == Some(v@),
            None => query_value_of(query@, key@) is None,
        },
{
    let pieces = split_all(&chars_of(query), '&');
    let k = chars_of(key);
    let mut i: usize = 0;
    assert(views(pieces@).skip(0) =~= views(pieces@));
    while i < pieces.len()
        invariant
            i <= pieces.len(),
            k@ == key@,
            views(pieces@) == split_on(query@, '&'),
            pair_value(views(pieces@), key@) == pair_value(views(pieces@).skip(i as int), key@),
        decreases pieces.len() - i,
    {
        let ghost rest = views(pieces@).skip(i as int);
        assert(rest[0] == pieces@[i as int]@);
        assert(rest.drop_first() =~= views(pieces@).skip(i + 1));
        match split_once_char(&pieces[i], '=') {
            Some((name, value)) => {
                if chars_eq(&name, &k) {
                    return Some(string_of(&value));
                }
            },
            None => {},
        }
        i = i + 1;
    }
    None
}

/// What a grant or reader cookie's signature covers.
pub open spec fn signed_message(purpose: Seq<char>, user_id: i64, expiry: i64) -> Seq<char> {
    purpose + "."@ + decimal(user_id as int) + "."@ + decimal(expiry as int)
}

/// A signed statement that the browser reads as `user_id` until `expiry`.
pub open spec fn signed_text(secret: Seq<char>, purpose: Seq<char>, user_id: i64, expiry: i64) -> Seq<char> {
    decimal(user_id as int) + "."@ + decimal(expiry as int) + "."@ + hex_of(
        hmac_sha256(secret, signed_message(purpose, user_id, expiry)),
    )
}

/// The account a signed token names at time `now`, for one purpose: a token of
/// the form `<user>.<expiry>.<hex signature>` whose expiry is later than `now`
/// and whose signature text is exactly the right one.
pub open spec fn signed_user(secret: Seq<char>, purpose: Seq<char>, token: Seq<char>, now: i64) -> Option<i64> {
    match three_fields(token, '.') {
        None => None,
        Some((a, b, given)) => match (parsed_i64(a), parsed_i64(b)) {
            (Some(user_id), Some(expiry)) => if expiry <= now || hex_of(
                hmac_sha256(secret, signed_message(purpose, user_id, expiry)),
            ) != given {
                None
            } else {
                Some(user_id)
            },
            _ => None,
        },
    }
}

fn mac_hex(secret: &str, purpose: &str, user_id: i64, expiry: i64) -> (out: String)
    ensures
        out@ == hex_of(hmac_sha256(secret@, signed_message(purpose@, user_id, expiry))),
{
    let mut m = chars_of(purpose);
    append_str(&mut m, ".");
    append_chars(&mut m, &decimal_i64(user_id));
    append_str(&mut m, ".");
    append_chars(&mut m, &decimal_i64(expiry));
    let message = string_of(&m);
    let tag = hmac_tag(secret, message.as_str());
    hex_encode(tag.as_slice())
}

/// Signs that the browser reads as `user_id` for `seconds` from `now`.
pub fn sign_at(secret: &str, purpose: &str, user_id: i64, seconds: i64, now: i64) -> (out: String)
    requires
        i64::MIN <= now + seconds <= i64::MAX,
    ensures
        out@ == signed_text(secret@, purpose@, user_id, (now + seconds) as i64),
{
    let expiry = now + seconds;
    let mut v = decimal_i64(user_id);
    append_str(&mut v, ".");
    append_chars(&mut v, &decimal_i64(expiry));
    append_str(&mut v, ".");
    append_str(&mut v, mac_hex(secret, purpose, user_id, expiry).as_str());
    string_of(&v)
}

/// Signs that the browser reads as `user_id` for `seconds` from now. A clock
/// so close to either end of time that the expiry would not fit is read as the
/// last moment at which it does.
pub fn sign(secret: &str, purpose: &str, user_id: i64, seconds: i64) -> (out: String)
    ensures
        exists|expiry: i64| out@ == #[trigger] signed_text(secret@, purpose@, user_id, expiry),
{
    let mut now = crate::clock::unix_now();
    if seconds > 0 && now > i64::MAX - seconds {
        now = i64::MAX - seconds;
    }
    if seconds < 0 && now < i64::MIN - seconds {
        now = i64::MIN - seconds;
    }
    sign_at(secret, purpose, user_id, seconds, now)
}

/// Both halves carry their own expiry inside the signature, so neither can be
/// stretched by a client that simply keeps sending it.
pub fn verify_at(secret: &str, purpose: &str, token: &str, now: i64) -> (out: Option<i64>)
    ensures
        out == signed_user(secret@, purpose@, token@, now),
{
    let (a, b, given) = match three_fields_of(&chars_of(token), '.') {
        Some(parts) => parts,
        None => return None,
    };
    match (parse_i64(&a), parse_i64(&b)) {
        (Some(user_id), Some(expiry)) => {
            if expiry <= now {
                return None;
            }
            let expected = mac_hex(secret, purpose, user_id, expiry);
            if !chars_eq(&chars_of(expected.as_str()), &given) {
                return None;
            }
            Some(user_id)
        },
        _ => None,
    }
}

/// The account a token signed for `purpose` names now, or `None` for any
/// malformed, expired or wrongly signed token.
pub fn verify(secret: &str, purpose: &str, token: &str) -> (out: Option<i64>)
    ensures
        exists|now: i64| out == #[trigger] signed_user(secret@, purpose@, token@, now),
{
    let now = crate::clock::unix_now();
    verify_at(secret, purpose, token, now)
}

/// A token signed for a purpose names its account for exactly as long as it
/// was signed for: at any time before its expiry, and at none after.
pub proof fn lemma_signed_token_names_its_user(
    secret: Seq<char>,
    purpose: Seq<char>,
    user_id: i64,
    expiry: i64,
    now: i64,
)
    ensures
        now < expiry ==> signed_user(secret, purpose, signed_text(secret, purpose, user_id, expiry), now) == Some(
            user_id,
        ),
        now >= expiry ==> signed_user(secret, purpose, signed_text(secret, purpose, user_id, expiry), now) is None,
{
    let a = decimal(user_id as int);
    let b = decimal(expiry as int);
    let c = hex_of(hmac_sha256(secret, signed_message(purpose, user_id, expiry)));
    reveal_strlit(".");
    assert(signed_text(secret, purpose, user_id, expiry) =~= a + seq!['.'] + b + seq!['.'] + c);
    lemma_decimal_no_dot(user_id);
    lemma_decimal_no_dot(expiry);
    lemma_three_fields_of_join(a, b, c, '.');
    lemma_parse_decimal(user_id);
    lemma_parse_decimal(expiry);
}

/// Where the app sends a reader back to: the docs origin, the path they asked
/// for, and the grant.
pub open spec fn grant_location_of(docs: Seq<char>, next: Seq<char>, grant: Seq<char>) -> Seq<char> {
    docs + next + "?g="@ + grant
}

/// What the app answers a request for a grant: refused unless `next` is a
/// document path, else a redirect to the docs origin carrying a grant for the
/// account the request names (nobody when it names none), valid for thirty
/// seconds from `now`.
pub open spec fn issued_location(
    secret: Seq<char>,
    docs: Seq<char>,
    next: Seq<char>,
    user: Option<i64>,
    now: i64,
) -> Option<Seq<char>> {
    if !document_path(next) {
        None
    } else {
        let user_id = match user {
            Some(id) => id,
            None => ANONYMOUS,
        };
        Some(grant_location_of(docs, next, signed_text(secret, GRANT@, user_id, (now + GRANT_SECONDS) as i64)))
    }
}

/// The app's half: `None` when `next` is not a document path, which is
/// answered as a bad request, else where to send the reader.
///
/// `next` is a path rather than a URL, and the docs origin is prepended here,
/// so this cannot be aimed at somebody else's site.
pub fn issue_location(secret: &str, docs_url: &DocsUrl, next: &str, user: Option<i64>, now: i64) -> (out: Option<
    String,
>)
    requires
        now <= i64::MAX - GRANT_SECONDS,
    ensures
        match out {
            Some(l) => issued_location(secret@, docs_url.0.0@, next@, user, now) == Some(l@),
            None => issued_location(secret@, docs_url.0.0@, next@, user, now) is None,
        },
{
    if !is_document_path(next) {
        return None;
    }
    let user_id = match user {
        Some(id) => id,
        None => ANONYMOUS,
    };
    let grant = sign_at(secret, GRANT, user_id, GRANT_SECONDS, now);
    let mut v = chars_of(docs_url.0.as_str());
    append_str(&mut v, next);
    append_str(&mut v, "?g=");
    append_str(&mut v, grant.as_str());
    Some(string_of(&v))
}

/// A grant turned into a reader cookie.
pub struct Redeemed {
    pub user_id: i64,
    /// How long the cookie lives.
    pub seconds: i64,
    /// The cookie's value.
    pub cookie: String,
}

/// How long a reader cookie lives for an account: a minute for nobody, a week
/// for anyone.
pub open spec fn reader_seconds(user_id: i64) -> i64 {
    if user_id == ANONYMOUS {
        ANONYMOUS_SECONDS
    } else {
        READER_SECONDS
    }
}

/// The account a request's grant names at `now`, if its query carries a valid
/// one under `g`.
pub open spec fn redeemed_user(secret: Seq<char>, query: Option<Seq<char>>, now: i64) -> Option<i64> {
    match query {
        None => None,
        Some(q) => match query_value_of(q, "g"@) {
            None => None,
            Some(grant) => signed_user(secret, GRANT@, grant, now),
        },
    }
}

/// The docs origin's half: turn a grant in the URL into a reader cookie, which
/// the caller sets before sending the reader to the address they asked for, so
/// the grant stays out of the address bar, the history and any bookmark.
pub fn redeem_at(secret: &str, query: Option<&str>, now: i64) -> (out: Option<Redeemed>)
    requires
        now <= i64::MAX - READER_SECONDS,
    ensures
        out is Some <==> redeemed_user(secret@, opt_str_view(query), now) is Some,
        out is Some ==> out->0.user_id == redeemed_user(secret@, opt_str_view(query), now)->0,
        out is Some ==> out->0.seconds == reader_seconds(out->0.user_id),
        out is Some ==> out->0.cookie@ == signed_text(
            secret@,
            READER@,
            out->0.user_id,
            (now + out->0.seconds) as i64,
        ),
{
    let q = match query {
        Some(q) => q,
        None => return None,
    };
    let grant = match query_value(q, "g") {
        Some(g) => g,
        None => return None,
    };
    let user_id = match verify_at(secret, GRANT, grant.as_str(), now) {
        Some(id) => id,
        None => return None,
    };
    let seconds = if user_id == ANONYMOUS {
        ANONYMOUS_SECONDS
    } else {
        READER_SECONDS
    };
    let cookie = sign_at(secret, READER, user_id, seconds, now);
    Some(Redeemed { user_id, seconds, cookie })
}

/// Turns a grant in the URL into a reader cookie at the time on the clock; a
/// clock so late that a week-long expiry would not fit is read as the last
/// moment at which it does.
pub fn redeem(secret: &str, query: Option<&str>) -> (out: Option<Redeemed>)
    ensures
        exists|now: i64|
            {
                &&& now <= i64::MAX - READER_SECONDS
                &&& (out is Some <==> #[trigger] redeemed_user(secret@, opt_str_view(query), now) is Some)
                &&& out is Some ==> out->0.user_id == redeemed_user(secret@, opt_str_view(query), now)->0
                &&& out is Some ==> out->0.seconds == reader_seconds(out->0.user_id)
                &&& out is Some ==> out->0.cookie@ == signed_text(
                    secret@,
                    READER@,
                    out->0.user_id,
                    (now + out->0.seconds) as i64,
                )
            },
{
    let mut now = crate::clock::unix_now();
    if now > i64::MAX - READER_SECONDS {
        now = i64::MAX - READER_SECONDS;
    }
    let out = redeem_at(secret, query, now);
    assert(now <= i64::MAX - READER_SECONDS);
    out
}

/// Whether a reader who holds no cookie is sent to the app to fetch a grant.
/// Only for a navigation: a subresource is asked for after the page it belongs
/// to was served, so it already carries the cookie, and a client that is not a
/// browser gets the plain reply rather than a redirect it cannot use.
pub open spec fn asks(has_reader_cookie: bool, fetch_dest: Option<Seq<char>>) -> bool {
    !has_reader_cookie && fetch_dest == Some("document"@)
}

/// Where a reader is sent to fetch a grant, or `None` when they are not sent.
pub fn ask_location(app_url: &AppUrl, has_reader_cookie: bool, fetch_dest: Option<&str>, path: &str) -> (out:
    Option<String>)
    ensures
        out is Some <==> asks(has_reader_cookie, opt_str_view(fetch_dest)),
        out is Some ==> out->0@ == app_url.0.0@ + "/grant?next="@ + path@,
{
    if has_reader_cookie {
        return None;
    }
    match fetch_dest {
        Some(d) => {
            if !str_is(d, "document") {
                return None;
            }
        },
        None => return None,
    }
    let mut v = chars_of(app_url.0.as_str());
    append_str(&mut v, "/grant?next=");
    append_str(&mut v, path);
    Some(string_of(&v))
}

/// Which account this browser reads as on the docs origin, if any: a valid
/// reader cookie that names somebody.
pub open spec fn reader_of(secret: Seq<char>, cookie: Option<Seq<char>>, now: i64) -> Option<i64> {
    match cookie {
        None => None,
        Some(c) => match signed_user(secret, READER@, c, now) {
            Some(id) => if id != ANONYMOUS {
                Some(id)
            } else {
                None
            },
            None => None,
        },
    }
}

pub fn reader_at(secret: &str, cookie: Option<&str>, now: i64) -> (out: Option<i64>)
    ensures
        out == reader_of(secret@, opt_str_view(cookie), now),
{
    match cookie {
        None => None,
        Some(c) => match verify_at(secret, READER, c, now) {
            Some(id) => if id != ANONYMOUS {
                Some(id)
            } else {
                None
            },
            None => None,
        },
    }
}

/// Which account this browser reads as now, by its reader cookie.
pub fn reader(secret: &str, cookie: Option<&str>) -> (out: Option<i64>)
    ensures
        exists|now: i64| out == #[trigger] reader_of(secret@, opt_str_view(cookie), now),
{
    let now = crate::clock::unix_now();
    reader_at(secret, cookie, now)
}

} // verus!
