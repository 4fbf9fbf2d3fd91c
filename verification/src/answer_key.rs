//! Scoped keys that let the in-document answer widget write answers.
//!
//! The document runs in a sandboxed opaque origin, so its site for cookies is
//! null and the session cookie is never sent. A key in an `Authorization`
//! header is not a cookie, so the request is uncredentialed and the CORS
//! response needs no allow-credentials.
//!
//! Agent-authored script shares the DOM with the widget and can read the key.
//! That is why the key carries no read capability and is bound to one document
//! and a short expiry: the worst it permits is a document making itself look
//! answered. A document has exactly one owner, so the document id alone decides
//! who the answers belong to and the key needs no user.

use vstd::prelude::*;

use crate::crypto::{hex_bytes, hex_decode, hex_digit, hex_encode, hex_of, hmac_matches, hmac_sha256, hmac_tag, lemma_hex_round_trip};
use crate::number::{lemma_decimal_no_dot, lemma_digits_of_read, lemma_parse_decimal, parse_i64, parsed_i64};
use crate::text::{
    append_str, chars_of, decimal, decimal_i64, has_prefix, lemma_three_fields_of_join, starts_with, string_of,
    three_fields, three_fields_of,
};

verus! {

pub const PREFIX: &'static str = "planq_";

/// Four hours.
pub const TTL_SECONDS: i64 = 14400;

/// What a key's signature covers.
pub open spec fn answer_message(document_id: i64, expiry: i64) -> Seq<char> {
    "answer."@ + decimal(document_id as int) + "."@ + decimal(expiry as int)
}

/// The key for a document that expires at `expiry`.
pub open spec fn key_text(secret: Seq<char>, document_id: i64, expiry: i64) -> Seq<char> {
    PREFIX@ + decimal(document_id as int) + "."@ + decimal(expiry as int) + "."@ + hex_of(
        hmac_sha256(secret, answer_message(document_id, expiry)),
    )
}

/// The document a key may write at time `now`: a key of the form
/// `planq_<id>.<expiry>.<hex signature>` whose expiry is later than `now` and
/// whose signature is right for the id and expiry under `secret`.
pub open spec fn key_document(secret: Seq<char>, key: Seq<char>, now: i64) -> Option<i64> {
    if !has_prefix(key, PREFIX@) {
        None
    } else {
        match three_fields(key.skip(6), '.') {
            None => None,
            Some((a, b, c)) => match (parsed_i64(a), parsed_i64(b), hex_bytes(c)) {
                (Some(id), Some(expiry), Some(mac)) => if expiry <= now {
                    None
                } else if mac != hmac_sha256(secret, answer_message(id, expiry)) {
                    None
                } else {
                    Some(id)
                },
                _ => None,
            },
        }
    }
}

fn message_for(document_id: i64, expiry: i64) -> (out: String)
    ensures
        out@ == answer_message(document_id, expiry),
{
    let mut v = chars_of("answer.");
    let d = decimal_i64(document_id);
    crate::text::append_chars(&mut v, &d);
    append_str(&mut v, ".");
    let e = decimal_i64(expiry);
    crate::text::append_chars(&mut v, &e);
    string_of(&v)
}

/// The key a document's widget writes with, expiring four hours after `now`.
/// Its signature part is 64 hexadecimal digits: the 32 bytes of the HMAC.
pub fn mint_at(secret: &str, document_id: i64, now: i64) -> (out: String)
    requires
        now <= i64::MAX - TTL_SECONDS,
    ensures
        out@ == key_text(secret@, document_id, (now + TTL_SECONDS) as i64),
        hex_of(hmac_sha256(secret@, answer_message(document_id, (now + TTL_SECONDS) as i64))).len() == 64,
{
    let expiry = now + TTL_SECONDS;
    let message = message_for(document_id, expiry);
    let tag = hmac_tag(secret, message.as_str());
    proof {
        crate::crypto::lemma_hex_len(tag@);
    }
    let mac = hex_encode(tag.as_slice());
    let mut v = chars_of(PREFIX);
    let d = decimal_i64(document_id);
    crate::text::append_chars(&mut v, &d);
    append_str(&mut v, ".");
    let e = decimal_i64(expiry);
    crate::text::append_chars(&mut v, &e);
    append_str(&mut v, ".");
    append_str(&mut v, mac.as_str());
    string_of(&v)
}

/// The key a document's widget writes with, expiring four hours from now.
/// A clock within four hours of the end of time is read as that point.
pub fn mint(secret: &str, document_id: i64) -> (out: String)
    ensures
        exists|expiry: i64|
            out@ == #[trigger] key_text(secret@, document_id, expiry) && hex_of(
                hmac_sha256(secret@, answer_message(document_id, expiry)),
            ).len() == 64,
{
    let mut now = crate::clock::unix_now();
    if now > i64::MAX - TTL_SECONDS {
        now = i64::MAX - TTL_SECONDS;
    }
    mint_at(secret, document_id, now)
}

/// The document the key may write at time `now`, or `None` for any malformed,
/// expired or wrongly signed key.
pub fn verify_at(secret: &str, key: &str, now: i64) -> (out: Option<i64>)
    ensures
        out == key_document(secret@, key@, now),
{
    let k = chars_of(key);
    if !starts_with(&k, PREFIX) {
        return None;
    }
    proof {
        reveal_strlit("planq_");
    }
    let mut body: Vec<char> = Vec::new();
    let mut i: usize = 6;
    while i < k.len()
        invariant
            6 <= i <= k.len(),
            body@ == k@.subrange(6, i as int),
        decreases k.len() - i,
    {
        body.push(k[i]);
        i = i + 1;
        assert(body@ =~= k@.subrange(6, i as int));
    }
    assert(body@ =~= key@.skip(6));
    let (a, b, c) = match three_fields_of(&body, '.') {
        Some(parts) => parts,
        None => return None,
    };
    let id = parse_i64(&a);
    let expiry = parse_i64(&b);
    let mac = hex_decode(string_of(&c).as_str());
    match (id, expiry, mac) {
        (Some(id), Some(expiry), Some(mac)) => {
            if expiry <= now {
                return None;
            }
            let message = message_for(id, expiry);
            if !hmac_matches(secret, message.as_str(), mac.as_slice()) {
                return None;
            }
            Some(id)
        },
        _ => None,
    }
}

/// The document the key may write, or `None` for any malformed, expired or
/// wrongly signed key.
pub fn verify(secret: &str, key: &str) -> (out: Option<i64>)
    ensures
        exists|now: i64| out == #[trigger] key_document(secret@, key@, now),
{
    let now = crate::clock::unix_now();
    verify_at(secret, key, now)
}

/// Whether a bearer token is a scoped answer key rather than an API token.
pub fn is_answer_key(token: &str) -> (b: bool)
    ensures
        b == has_prefix(token@, PREFIX@),
{
    starts_with(&chars_of(token), PREFIX)
}

/// A key minted for a document at time `t` opens that document at any time
/// before it expires, four hours later, and at no time after.
pub proof fn lemma_minted_key_opens_its_document(secret: Seq<char>, document_id: i64, t: i64, now: i64)
    requires
        t <= i64::MAX - TTL_SECONDS,
    ensures
        now < t + TTL_SECONDS ==> key_document(secret, key_text(secret, document_id, (t + TTL_SECONDS) as i64), now)
            == Some(document_id),
        now >= t + TTL_SECONDS ==> key_document(secret, key_text(secret, document_id, (t + TTL_SECONDS) as i64), now)
            is None,
{
    let expiry = (t + TTL_SECONDS) as i64;
    let tag = hmac_sha256(secret, answer_message(document_id, expiry));
    let key = key_text(secret, document_id, expiry);
    let a = decimal(document_id as int);
    let b = decimal(expiry as int);
    let c = hex_of(tag);
    reveal_strlit("planq_");
    reveal_strlit(".");
    assert(key =~= PREFIX@ + (a + seq!['.'] + b + seq!['.'] + c));
    assert(key.take(6) =~= PREFIX@);
    assert(key.skip(6) =~= a + seq!['.'] + b + seq!['.'] + c);
    lemma_decimal_no_dot(document_id);
    lemma_decimal_no_dot(expiry);
    lemma_three_fields_of_join(a, b, c, '.');
    lemma_parse_decimal(document_id);
    lemma_parse_decimal(expiry);
    lemma_hex_round_trip(tag);
}

/// A minted key is refused once tampered with: without its `planq_` prefix it
/// names no document, and with the last two digits of its signature changed to
/// `00` (when they were something else) it names none either. The key's
/// signature is the 32 bytes of the HMAC that `mint_at` writes.
pub proof fn lemma_tampered_key_opens_nothing(secret: Seq<char>, document_id: i64, expiry: i64, now: i64)
    requires
        hmac_sha256(secret, answer_message(document_id, expiry)).len() == 32,
    ensures
        ({
            let key = key_text(secret, document_id, expiry);
            &&& key_document(secret, key.skip(6), now) is None
            &&& key.subrange(key.len() - 2, key.len() as int) != seq!['0', '0'] ==> key_document(
                secret,
                key.take(key.len() - 2) + seq!['0', '0'],
                now,
            ) is None
        }),
{
    let tag = hmac_sha256(secret, answer_message(document_id, expiry));
    let key = key_text(secret, document_id, expiry);
    let a = decimal(document_id as int);
    let b = decimal(expiry as int);
    let c = hex_of(tag);
    reveal_strlit("planq_");
    reveal_strlit(".");
    crate::crypto::lemma_hex_len(tag);
    assert(key =~= PREFIX@ + (a + seq!['.'] + b + seq!['.'] + c));
    // without the prefix, the key starts with a digit or a minus sign
    lemma_digits_of_read(if document_id < 0 {
        (-(document_id as int)) as nat
    } else {
        document_id as nat
    });
    assert(key.skip(6) =~= a + seq!['.'] + b + seq!['.'] + c);
    assert(a.len() >= 1);
    assert(key.skip(6)[0] == a[0]);
    assert(a[0] != 'p');
    assert(!has_prefix(key.skip(6), PREFIX@)) by {
        if has_prefix(key.skip(6), PREFIX@) {
            assert(key.skip(6).take(6)[0] == PREFIX@[0]);
        }
    }
    // with the last two digits changed, the signature reads as another byte string
    let rest = tag.drop_last();
    crate::crypto::lemma_hex_len(rest);
    assert(c =~= hex_of(rest) + seq![hex_digit((tag.last() / 16) as int), hex_digit((tag.last() % 16) as int)]);
    let c2 = hex_of(rest) + seq!['0', '0'];
    let tampered = key.take(key.len() - 2) + seq!['0', '0'];
    assert(tampered =~= PREFIX@ + (a + seq!['.'] + b + seq!['.'] + c2));
    assert(tampered.take(6) =~= PREFIX@);
    assert(tampered.skip(6) =~= a + seq!['.'] + b + seq!['.'] + c2);
    lemma_decimal_no_dot(document_id);
    lemma_decimal_no_dot(expiry);
    lemma_three_fields_of_join(a, b, c2, '.');
    lemma_parse_decimal(document_id);
    lemma_parse_decimal(expiry);
    lemma_hex_round_trip(rest);
    assert(c2.subrange(0, c2.len() - 2) =~= hex_of(rest));
    assert(c2[c2.len() - 2] == '0' && c2[c2.len() - 1] == '0');
    assert(crate::crypto::hex_pair('0', '0') == Some(0u8));
    assert(crate::crypto::hex_bytes(c2) == Some(rest.push(0u8)));
    if key.subrange(key.len() - 2, key.len() as int) != seq!['0', '0'] {
        assert(key.subrange(key.len() - 2, key.len() as int) =~= seq![
            hex_digit((tag.last() / 16) as int),
            hex_digit((tag.last() % 16) as int),
        ]);
        if rest.push(0u8) == tag {
            assert(tag.last() == 0u8);
            assert(hex_digit(0) == '0');
        }
        assert(rest.push(0u8) != tag);
    }
}

} // verus!
