//! Digests, message authentication, password hashing and randomness, each
//! through the crate that provides it, with hexadecimal text around them.

use vstd::prelude::*;
use vstd::utf8::encode_utf8;

use argon2::password_hash::{PasswordHash, PasswordHasher, PasswordVerifier, SaltString};
use hmac::Mac;
use sha2::Digest;

verus! {

/// The SHA-256 digest of some bytes.
pub uninterp spec fn sha256_digest(data: Seq<u8>) -> Seq<u8>;

/// `Sha256::digest` from the `sha2` crate.
///
/// The result is named `sha256_digest`; the contract also states the digest's
/// size, 32 bytes, which is the output size the crate declares for SHA-256.
#[verifier::external_body]
pub(crate) fn sha256_bytes(data: &[u8]) -> (out: Vec<u8>)
    ensures
        out@ == sha256_digest(data@),
        out@.len() == 32,
{
    sha2::Sha256::digest(data).to_vec()
}

/// The SHA-256 digest of a string's UTF-8 bytes, which is how a token is kept
/// at rest.
pub fn sha256(data: &str) -> (out: Vec<u8>)
    ensures
        out@ == sha256_digest(encode_utf8(data@)),
        out@.len() == 32,
{
    sha256_bytes(data.as_bytes())
}

/// HMAC-SHA256 of a message's UTF-8 bytes under a key's UTF-8 bytes.
pub uninterp spec fn hmac_sha256(key: Seq<char>, message: Seq<char>) -> Seq<u8>;

/// `Hmac::<Sha256>` from the `hmac` crate: keyed with `key`, fed `message`,
/// finalised into its tag.
///
/// The tag is named `hmac_sha256`; the contract also states its size, 32
/// bytes. `new_from_slice` accepts a key of any length for HMAC, so the
/// `expect` never fires.
#[verifier::external_body]
pub(crate) fn hmac_tag(key: &str, message: &str) -> (out: Vec<u8>)
    ensures
        out@ == hmac_sha256(key@, message@),
        out@.len() == 32,
{
    let mut mac = hmac::Hmac::<sha2::Sha256>::new_from_slice(key.as_bytes()).expect("hmac accepts any key length");
    mac.update(message.as_bytes());
    mac.finalize().into_bytes().to_vec()
}

/// `Mac::verify_slice` from the `hmac` crate: whether `tag` is the HMAC-SHA256
/// tag of `message` under `key`, compared in constant time.
#[verifier::external_body]
pub(crate) fn hmac_matches(key: &str, message: &str, tag: &[u8]) -> (ok: bool)
    ensures
        ok == (tag@ == hmac_sha256(key@, message@)),
{
    let mut mac = hmac::Hmac::<sha2::Sha256>::new_from_slice(key.as_bytes()).expect("hmac accepts any key length");
    mac.update(message.as_bytes());
    mac.verify_slice(tag).is_ok()
}

/// Sixty-four bytes from the operating system's random source, through
/// `getrandom::fill`, or `None` when that source fails.
///
/// Nothing is said of the bytes: they are whatever the source gave.
#[verifier::external_body]
fn os_random_64() -> (out: Option<Vec<u8>>)
    ensures
        out is Some ==> out->0@.len() == 64,
{
    let mut buf = [0u8; 64];
    match getrandom::fill(&mut buf) {
        Ok(()) => Some(buf.to_vec()),
        Err(_) => None,
    }
}

/// Sixteen bytes from the operating system's random source, through
/// `getrandom::fill`, or `None` when that source fails.
#[verifier::external_body]
fn os_random_16() -> (out: Option<Vec<u8>>)
    ensures
        out is Some ==> out->0@.len() == 16,
{
    let mut buf = [0u8; 16];
    match getrandom::fill(&mut buf) {
        Ok(()) => Some(buf.to_vec()),
        Err(_) => None,
    }
}

pub const BASE62: &'static str = "0123456789ABCDEFGHIJKLMNOPQRSTUVWXYZabcdefghijklmnopqrstuvwxyz";

/// The alphabet of random tokens, in the order a byte picks from it.
pub open spec fn base62_char(k: int) -> char {
    if k < 10 {
        (k + 48) as char
    } else if k < 36 {
        (k - 10 + 65) as char
    } else {
        (k - 36 + 97) as char
    }
}

pub open spec fn is_base62(c: char) -> bool {
    ('0' <= c <= '9') || ('A' <= c <= 'Z') || ('a' <= c <= 'z')
}

/// The characters a buffer of random bytes contributes to a token: each byte
/// below 248 picks `byte % 62`; the rest are dropped, so every character is
/// equally likely.
pub open spec fn accepted(bytes: Seq<u8>) -> Seq<char>
    decreases bytes.len(),
{
    if bytes.len() == 0 {
        Seq::empty()
    } else {
        let rest = accepted(bytes.drop_last());
        let b = bytes.last();
        if b < 248 {
            rest.push(base62_char((b % 62) as int))
        } else {
            rest
        }
    }
}

fn base62_of(k: u8) -> (c: char)
    requires
        k < 62,
    ensures
        c == base62_char(k as int),
        is_base62(c),
{
    if k < 10 {
        (k + 48) as char
    } else if k < 36 {
        (k - 10 + 65) as char
    } else {
        (k - 36 + 97) as char
    }
}

/// Appends what `bytes` contributes to a token, stopping once it holds `len`
/// characters.
fn take_base62(out: &mut Vec<char>, bytes: &Vec<u8>, len: usize)
    requires
        old(out)@.len() <= len,
        forall|i: int| 0 <= i < old(out)@.len() ==> is_base62(#[trigger] old(out)@[i]),
    ensures
        final(out)@.len() <= len,
        final(out)@.len() >= old(out)@.len(),
        forall|i: int| 0 <= i < final(out)@.len() ==> is_base62(#[trigger] final(out)@[i]),
        final(out)@.len() < len ==> final(out)@ == old(out)@ + accepted(bytes@),
        final(out)@.len() == len ==> exists|k: int|
            0 <= k <= bytes@.len() && #[trigger] (old(out)@ + accepted(bytes@.take(k))) == final(out)@,
{
    let ghost start = out@;
    let mut i: usize = 0;
    assert(bytes@.take(0) =~= Seq::<u8>::empty());
    assert(start + accepted(bytes@.take(0)) =~= start);
    while i < bytes.len() && out.len() < len
        invariant
            i <= bytes.len(),
            out@.len() <= len,
            out@ == start + accepted(bytes@.take(i as int)),
            forall|j: int| 0 <= j < out@.len() ==> is_base62(#[trigger] out@[j]),
        decreases bytes.len() - i,
    {
        let b = bytes[i];
        proof {
            assert(bytes@.take(i + 1).drop_last() =~= bytes@.take(i as int));
        }
        if b < 248 {
            let c = base62_of(b % 62);
            out.push(c);
        }
        i = i + 1;
        assert(out@ =~= start + accepted(bytes@.take(i as int)));
    }
    if out.len() < len {
        assert(bytes@.take(i as int) =~= bytes@);
    } else {
        assert(start + accepted(bytes@.take(i as int)) == out@);
    }
}

/// A random token of `len` characters drawn uniformly from
/// `[0-9A-Za-z]`, or `None` when the operating system's random source fails.
///
/// Bytes are drawn sixty-four at a time and only those below 248 (four times
/// 62) are kept, so the modulo stays uniform. At most `len` draws are made:
/// each keeps at least one character unless all sixty-four of its bytes are
/// 248 or more, which a working source does with probability below 2^-320, so
/// a token still short after `len` draws counts as a failed source.
pub fn random_base62(len: usize) -> (out: Option<String>)
    ensures
        len == 0 ==> (out matches Some(s) && s@.len() == 0),
        out is Some ==> out->0@.len() == len,
        out is Some ==> forall|i: int| 0 <= i < len ==> is_base62(#[trigger] out->0@[i]),
{
    let mut chars: Vec<char> = Vec::new();
    let mut rounds: usize = 0;
    while chars.len() < len
        invariant
            chars@.len() <= len,
            forall|i: int| 0 <= i < chars@.len() ==> is_base62(#[trigger] chars@[i]),
        decreases len - rounds,
    {
        if rounds >= len {
            return None;
        }
        let bytes = match os_random_64() {
            Some(b) => b,
            None => return None,
        };
        take_base62(&mut chars, &bytes, len);
        rounds = rounds + 1;
    }
    Some(crate::text::string_of(&chars))
}

/// An argon2 hash in PHC string form, of a password under a salt.
pub uninterp spec fn argon2_phc(password: Seq<char>, salt: Seq<u8>) -> Option<Seq<char>>;

/// Whether a password matches an argon2 hash in PHC string form.
pub uninterp spec fn argon2_matches(password: Seq<char>, hash: Seq<char>) -> bool;

/// `Argon2::default().hash_password` from the `argon2` crate, under a salt made
/// from `salt` by `SaltString::encode_b64`; `None` where either fails.
///
/// The result is named `argon2_phc`. The contract also states what the crate's
/// verifier does with the hash it wrote: the same password matches it.
#[verifier::external_body]
fn argon2_hash(password: &str, salt: &[u8]) -> (out: Option<String>)
    ensures
        opt_string_view(&out) == argon2_phc(password@, salt@),
        out is Some ==> argon2_matches(password@, out->0@),
{
    let salt = match SaltString::encode_b64(salt) {
        Ok(salt) => salt,
        Err(_) => return None,
    };
    match argon2::Argon2::default().hash_password(password.as_bytes(), &salt) {
        Ok(hash) => Some(hash.to_string()),
        Err(_) => None,
    }
}

/// `PasswordHash::new` then `Argon2::default().verify_password` from the
/// `argon2` crate; a hash that does not parse matches nothing.
#[verifier::external_body]
fn argon2_verify(password: &str, hash: &str) -> (ok: bool)
    ensures
        ok == argon2_matches(password@, hash@),
{
    match PasswordHash::new(hash) {
        Ok(parsed) => argon2::Argon2::default().verify_password(password.as_bytes(), &parsed).is_ok(),
        Err(_) => false,
    }
}

pub open spec fn opt_string_view(o: &Option<String>) -> Option<Seq<char>> {
    match o {
        Some(s) => Some(s@),
        None => None,
    }
}

/// Hashes a password under a fresh random salt, or `None` when no salt could be
/// drawn or hashing fails. Whatever hash comes back is the argon2 hash of the
/// password under some sixteen-byte salt, and the password matches it.
pub fn hash_password(password: &str) -> (out: Option<String>)
    ensures
        out is Some ==> exists|salt: Seq<u8>| salt.len() == 16 && #[trigger] argon2_phc(password@, salt) == Some(
            out->0@,
        ),
        out is Some ==> argon2_matches(password@, out->0@),
{
    let salt = match os_random_16() {
        Some(s) => s,
        None => return None,
    };
    argon2_hash(password, salt.as_slice())
}

/// Whether a password matches a stored hash.
pub fn verify_password(password: &str, hash: &str) -> (ok: bool)
    ensures
        ok == argon2_matches(password@, hash@),
{
    argon2_verify(password, hash)
}

/// One hexadecimal digit, lowercase.
pub open spec fn hex_digit(n: int) -> char {
    if n < 10 {
        (n + 48) as char
    } else {
        (n - 10 + 97) as char
    }
}

/// Bytes as lowercase hexadecimal, two digits each.
pub open spec fn hex_of(bytes: Seq<u8>) -> Seq<char>
    decreases bytes.len(),
{
    if bytes.len() == 0 {
        Seq::empty()
    } else {
        hex_of(bytes.drop_last()) + seq![hex_digit((bytes.last() / 16) as int), hex_digit((bytes.last() % 16) as int)]
    }
}

fn hex_digit_of(n: u8) -> (c: char)
    requires
        n < 16,
    ensures
        c == hex_digit(n as int),
{
    if n < 10 {
        (n + 48) as char
    } else {
        (n - 10 + 97) as char
    }
}

pub proof fn lemma_hex_len(bytes: Seq<u8>)
    ensures
        hex_of(bytes).len() == 2 * bytes.len(),
    decreases bytes.len(),
{
    if bytes.len() > 0 {
        lemma_hex_len(bytes.drop_last());
    }
}

/// Bytes as lowercase hexadecimal, two digits each.
pub fn hex_encode(bytes: &[u8]) -> (out: String)
    ensures
        out@ == hex_of(bytes@),
{
    let mut v: Vec<char> = Vec::new();
    let mut i: usize = 0;
    assert(bytes@.take(0) =~= Seq::<u8>::empty());
    while i < bytes.len()
        invariant
            i <= bytes.len(),
            v@ == hex_of(bytes@.take(i as int)),
        decreases bytes.len() - i,
    {
        let b = bytes[i];
        proof {
            assert(bytes@.take(i + 1).drop_last() =~= bytes@.take(i as int));
        }
        v.push(hex_digit_of(b / 16));
        v.push(hex_digit_of(b % 16));
        i = i + 1;
        assert(v@ =~= hex_of(bytes@.take(i as int)));
    }
    assert(bytes@.take(i as int) =~= bytes@);
    crate::text::string_of(&v)
}

/// The value of one hexadecimal digit of either case.
pub open spec fn hex_value(c: char) -> Option<u8> {
    if '0' <= c <= '9' {
        Some((c as u32 - 48) as u8)
    } else if 'a' <= c <= 'f' {
        Some((c as u32 - 97 + 10) as u8)
    } else if 'A' <= c <= 'F' {
        Some((c as u32 - 65 + 10) as u8)
    } else {
        None
    }
}

/// The byte one pair of characters spells, as `u8::from_str_radix(pair, 16)`
/// reads it: two hexadecimal digits of either case, or a `+` sign and one
/// digit.
pub open spec fn hex_pair(a: char, b: char) -> Option<u8> {
    if a == '+' {
        hex_value(b)
    } else {
        match (hex_value(a), hex_value(b)) {
            (Some(h), Some(l)) => Some((h * 16 + l) as u8),
            _ => None,
        }
    }
}

/// What `hex_decode` reads from text: pairs of characters, each a byte as
/// `hex_pair` reads it, or nothing at all when any pair is not one.
pub open spec fn hex_bytes(s: Seq<char>) -> Option<Seq<u8>>
    decreases s.len(),
{
    if s.len() % 2 != 0 {
        None
    } else if s.len() == 0 {
        Some(Seq::empty())
    } else {
        match (hex_bytes(s.subrange(0, s.len() - 2)), hex_pair(s[s.len() - 2], s[s.len() - 1])) {
            (Some(rest), Some(b)) => Some(rest.push(b)),
            _ => None,
        }
    }
}

fn hex_value_of(c: char) -> (out: Option<u8>)
    ensures
        out == hex_value(c),
{
    if '0' <= c && c <= '9' {
        Some(((c as u32) - 48) as u8)
    } else if 'a' <= c && c <= 'f' {
        Some(((c as u32) - 97 + 10) as u8)
    } else if 'A' <= c && c <= 'F' {
        Some(((c as u32) - 65 + 10) as u8)
    } else {
        None
    }
}

fn hex_pair_of(a: char, b: char) -> (out: Option<u8>)
    ensures
        out == hex_pair(a, b),
{
    if a == '+' {
        return hex_value_of(b);
    }
    match (hex_value_of(a), hex_value_of(b)) {
        (Some(h), Some(l)) => Some(h * 16 + l),
        _ => None,
    }
}

/// Reads hexadecimal text back into bytes, two characters to a byte.
pub fn hex_decode(hex: &str) -> (out: Option<Vec<u8>>)
    ensures
        match out {
            Some(v) => hex_bytes(hex@) == Some(v@),
            None => hex_bytes(hex@) is None,
        },
{
    let c = crate::text::chars_of(hex);
    if c.len() % 2 != 0 {
        return None;
    }
    let mut v: Vec<u8> = Vec::new();
    let mut i: usize = 0;
    assert(c@.subrange(0, 0) =~= Seq::<char>::empty());
    while i < c.len()
        invariant
            i <= c.len(),
            i % 2 == 0,
            c.len() % 2 == 0,
            c@ == hex@,
            hex_bytes(c@.subrange(0, i as int)) == Some(v@),
        decreases c.len() - i,
    {
        let pair = hex_pair_of(c[i], c[i + 1]);
        let ghost next = c@.subrange(0, i + 2);
        proof {
            assert(next.subrange(0, next.len() - 2) =~= c@.subrange(0, i as int));
            assert(next[next.len() - 2] == c@[i as int]);
            assert(next[next.len() - 1] == c@[i + 1]);
        }
        match pair {
            Some(b) => {
                v.push(b);
            },
            _ => {
                proof {
                    lemma_hex_bytes_prefix_none(c@, i + 2);
                }
                assert(c@.subrange(0, c@.len() as int) =~= c@);
                return None;
            },
        }
        i = i + 2;
    }
    assert(c@.subrange(0, i as int) =~= c@);
    Some(v)
}

/// Text whose even-length prefix does not read as hexadecimal does not either.
pub proof fn lemma_hex_bytes_prefix_none(s: Seq<char>, k: int)
    requires
        0 <= k <= s.len(),
        k % 2 == 0,
        s.len() % 2 == 0,
        hex_bytes(s.subrange(0, k)) is None,
    ensures
        hex_bytes(s) is None,
    decreases s.len() - k,
{
    if k < s.len() {
        let next = s.subrange(0, k + 2);
        assert(next.subrange(0, next.len() - 2) =~= s.subrange(0, k));
        lemma_hex_bytes_prefix_none(s, k + 2);
    } else {
        assert(s.subrange(0, k) =~= s);
    }
}

/// Reading back what `hex_encode` wrote gives the bytes again.
pub proof fn lemma_hex_round_trip(bytes: Seq<u8>)
    ensures
        hex_bytes(hex_of(bytes)) == Some(bytes),
    decreases bytes.len(),
{
    lemma_hex_len(bytes);
    if bytes.len() > 0 {
        let rest = bytes.drop_last();
        let b = bytes.last();
        lemma_hex_round_trip(rest);
        lemma_hex_len(rest);
        let s = hex_of(bytes);
        assert(s.subrange(0, s.len() - 2) =~= hex_of(rest));
        assert(hex_value(hex_digit((b / 16) as int)) == Some((b / 16) as u8));
        assert(hex_value(hex_digit((b % 16) as int)) == Some((b % 16) as u8));
        assert(hex_digit((b / 16) as int) != '+');
        assert(((b / 16) * 16 + b % 16) as u8 == b);
        assert(rest.push(b) =~= bytes);
    } else {
        assert(hex_of(bytes) =~= Seq::<char>::empty());
    }
}

/// Whether a character is a hexadecimal digit of either case.
pub open spec fn is_hex_char(c: char) -> bool {
    ('0' <= c <= '9') || ('a' <= c <= 'f') || ('A' <= c <= 'F')
}

proof fn lemma_hex_digit_of_value(c: char)
    requires
        is_hex_char(c),
    ensures
        hex_value(c) is Some,
        hex_digit(hex_value(c)->0 as int) == crate::text::lower_char(c),
{
    if 'A' <= c <= 'F' {
        assert(((c as u32) + 32) as char == hex_digit(hex_value(c)->0 as int));
    }
}

/// What `hex_decode` reads: text of odd length reads as nothing; whatever it
/// reads has one byte for every two characters; and text made only of
/// hexadecimal digits, of even length, reads as the bytes whose lowercase
/// hexadecimal is that text lowercased.
pub proof fn lemma_hex_bytes_shape(s: Seq<char>)
    ensures
        s.len() % 2 != 0 ==> hex_bytes(s) is None,
        hex_bytes(s) matches Some(v) ==> 2 * v.len() == s.len(),
        s.len() % 2 == 0 && (forall|i: int| 0 <= i < s.len() ==> is_hex_char(#[trigger] s[i])) ==> (hex_bytes(
            s,
        ) matches Some(v) && hex_of(v) == crate::text::ascii_lower(s)),
    decreases s.len(),
{
    if s.len() % 2 == 0 && s.len() > 0 {
        let pre = s.subrange(0, s.len() - 2);
        lemma_hex_bytes_shape(pre);
        if forall|i: int| 0 <= i < s.len() ==> is_hex_char(#[trigger] s[i]) {
            assert forall|i: int| 0 <= i < pre.len() implies is_hex_char(#[trigger] pre[i]) by {
                assert(pre[i] == s[i]);
            }
            let a = s[s.len() - 2];
            let b = s[s.len() - 1];
            lemma_hex_digit_of_value(a);
            lemma_hex_digit_of_value(b);
            assert(is_hex_char(a) && is_hex_char(b));
            assert(a != '+');
            let v = hex_bytes(pre)->0;
            let h = hex_value(a)->0;
            let l = hex_value(b)->0;
            let byte = (h * 16 + l) as u8;
            assert(byte / 16 == h && byte % 16 == l);
            assert(v.push(byte).drop_last() =~= v);
            assert(hex_of(v.push(byte)) == hex_of(v) + seq![hex_digit(h as int), hex_digit(l as int)]);
            assert(crate::text::ascii_lower(s) =~= crate::text::ascii_lower(pre) + seq![
                crate::text::lower_char(a),
                crate::text::lower_char(b),
            ]);
        }
    } else if s.len() == 0 {
        assert(crate::text::ascii_lower(s) =~= Seq::<char>::empty());
        assert(hex_of(Seq::<u8>::empty()) =~= Seq::<char>::empty());
    }
}

} // verus!
