//! Who is asking: accounts, the two credentials that name one, and the rules
//! that decide when a credential counts.

use vstd::prelude::*;
use vstd::string::StrSliceExecFns;

use crate::crypto::{argon2_matches, is_base62, random_base62, sha256, sha256_digest, verify_password};
use crate::text::{chars_of, has_prefix, opt_str_view, starts_with, str_is};

verus! {

/// The `__Host-` prefix is the point of the name: a browser refuses to store a
/// cookie called this unless it is secure, path-wide and bound to the exact host
/// that set it. Documents run on a sibling host of the app's, and without the
/// prefix one of them could set a session cookie for the whole domain that the
/// app would then read.
pub const SESSION_COOKIE: &'static str = "__Host-session";

pub const SESSION_DAYS: u64 = 30;

/// How long a session cookie lives, in seconds: thirty days.
pub const SESSION_MAX_AGE_SECONDS: u64 = 2592000;

/// Characters in a session token.
pub const SESSION_TOKEN_LEN: usize = 43;

#[derive(Clone, Debug)]
pub struct AuthUser {
    pub id: i64,
    pub username: String,
    pub is_admin: bool,
}

/// Bearer token, for agents.
pub struct BearerAuth(pub AuthUser);

/// Session cookie, for the management front end.
pub struct SessionAuth(pub AuthUser);

/// Either authentication path; endpoints that do not care which one.
pub enum Auth {
    Bearer(BearerAuth),
    Session(SessionAuth),
}

impl Auth {
    pub open spec fn account(&self) -> AuthUser {
        match self {
            Auth::Bearer(b) => b.0,
            Auth::Session(s) => s.0,
        }
    }

    /// The account either credential names.
    pub fn user(&self) -> (u: &AuthUser)
        ensures
            *u == self.account(),
    {
        match self {
            Auth::Bearer(BearerAuth(user)) => user,
            Auth::Session(SessionAuth(user)) => user,
        }
    }
}

/// What follows `Bearer ` in an `Authorization` header, if it begins so.
pub open spec fn bearer_of(authorization: Option<Seq<char>>) -> Option<Seq<char>> {
    match authorization {
        Some(h) => if has_prefix(h, "Bearer "@) {
            Some(h.subrange(7, h.len() as int))
        } else {
            None
        },
        None => None,
    }
}

/// The token an `Authorization` header carries, if it names one.
pub fn bearer_token(authorization: Option<&str>) -> (out: Option<&str>)
    ensures
        opt_str_view(out) == bearer_of(opt_str_view(authorization)),
{
    match authorization {
        Some(h) => {
            let c = chars_of(h);
            if starts_with(&c, "Bearer ") {
                proof {
                    reveal_strlit("Bearer ");
                }
                Some(h.substring_char(7, c.len()))
            } else {
                None
            }
        },
        None => None,
    }
}

/// A method that only reads.
pub open spec fn is_read_method(method: Seq<char>) -> bool {
    method == "GET"@ || method == "HEAD"@ || method == "OPTIONS"@
}

/// A write the session cookie authorises has to come from the app's own pages.
///
/// The docs origin is a sibling of the app's, so a browser treats the two as
/// the same site and sends the session cookie on a request a document's script
/// started. `SameSite` therefore protects nothing here. `Origin` does: a script
/// cannot set it, so a write that claims another origin, or names none at all,
/// is not one the reader asked for.
pub open spec fn foreign_write(
    method: Seq<char>,
    has_session_cookie: bool,
    origin: Option<Seq<char>>,
    app_url: Option<Seq<char>>,
) -> bool {
    !is_read_method(method) && has_session_cookie && origin != app_url
}

/// Whether a request is refused as a write the reader did not ask for.
pub fn rejects_foreign_write(method: &str, has_session_cookie: bool, origin: Option<&str>, app_url: Option<&str>) -> (b:
    bool)
    ensures
        b == foreign_write(method@, has_session_cookie, opt_str_view(origin), opt_str_view(app_url)),
{
    let reads = str_is(method, "GET") || str_is(method, "HEAD") || str_is(method, "OPTIONS");
    if reads || !has_session_cookie {
        return false;
    }
    let same = match (origin, app_url) {
        (Some(o), Some(a)) => str_is(o, a),
        (None, None) => true,
        _ => false,
    };
    !same
}

/// A session as it is handed out: the token the browser keeps and the digest
/// the store keeps instead of it.
pub struct NewSession {
    pub token: String,
    pub token_hash: Vec<u8>,
}

/// The session a drawn token makes: the token itself for the browser, and its
/// SHA-256 digest for the store.
pub fn session_from(drawn: String) -> (s: NewSession)
    ensures
        s.token@ == drawn@,
        s.token_hash@ == sha256_digest(vstd::utf8::encode_utf8(drawn@)),
{
    let token_hash = sha256(drawn.as_str());
    NewSession { token: drawn, token_hash }
}

/// Mints a session from 43 characters of `[0-9A-Za-z]` drawn from the random
/// source, as `session_from` makes it, or `None` when the random source fails.
pub fn new_session() -> (out: Option<NewSession>)
    ensures
        out is Some ==> out->0.token@.len() == SESSION_TOKEN_LEN,
        out is Some ==> forall|i: int| 0 <= i < SESSION_TOKEN_LEN ==> is_base62(#[trigger] out->0.token@[i]),
        out is Some ==> out->0.token_hash@ == sha256_digest(vstd::utf8::encode_utf8(out->0.token@)),
{
    match random_base62(SESSION_TOKEN_LEN) {
        Some(token) => Some(session_from(token)),
        None => None,
    }
}

/// Whether a login succeeds: the account exists and the password matches the
/// hash it stores.
pub fn check_login(stored_hash: Option<&str>, password: &str) -> (ok: bool)
    ensures
        ok == (stored_hash is Some && argon2_matches(password@, stored_hash->0@)),
{
    match stored_hash {
        Some(hash) => verify_password(password, hash),
        None => false,
    }
}

} // verus!
