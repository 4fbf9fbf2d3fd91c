//! Where a stored file's bytes live: inline in the database, or in the bucket
//! under a key that is the SHA-256 of the content.
//!
//! Keys are content addressed, so a write is idempotent and an asset repeated
//! across revisions is stored once.

use vstd::prelude::*;

use crate::crypto::{hex_encode, hex_of, sha256_bytes, sha256_digest};
use crate::text::{append_str, chars_of, string_of};

verus! {

/// Inline bodies below this, in bytes: 256 KB.
pub const INLINE_LIMIT: i64 = 262144;

/// The bucket key of some content.
pub open spec fn blob_key_of(content: Seq<u8>) -> Seq<char> {
    "blobs/"@ + hex_of(sha256_digest(content))
}

pub fn blob_key(content: &[u8]) -> (out: String)
    ensures
        out@ == blob_key_of(content@),
{
    let digest = sha256_bytes(content);
    let mut v = chars_of("blobs/");
    append_str(&mut v, hex_encode(digest.as_slice()).as_str());
    string_of(&v)
}

/// Whether a pushed file goes to the bucket rather than inline: only when a
/// bucket is configured and the file is over the inline limit.
pub fn stores_as_object(size: i64, has_bucket: bool) -> (b: bool)
    ensures
        b == (has_bucket && size > INLINE_LIMIT),
{
    has_bucket && size > INLINE_LIMIT
}

/// Where to read a stored file's body from.
pub enum BodySource {
    /// The row carries the bytes.
    Inline(Vec<u8>),
    /// The bucket holds them under this key.
    Object(String),
}

/// Where a row's body is read from: its own bytes when it has them, else the
/// bucket, which must then be configured.
pub fn body_source(content: Option<Vec<u8>>, object_key: Option<String>, has_bucket: bool) -> (out: Result<
    BodySource,
    String,
>)
    ensures
        content is Some ==> (out matches Ok(BodySource::Inline(c)) && c == content->0),
        content is None && object_key is Some && has_bucket ==> (out matches Ok(BodySource::Object(k)) && k
            == object_key->0),
        content is None && object_key is Some && !has_bucket ==> (out matches Err(m) && m@ == object_key->0@
            + " needs a bucket, and none is configured"@),
        content is None && object_key is None ==> (out matches Err(m) && m@
            == "the row carries neither content nor a key"@),
{
    match (content, object_key) {
        (Some(c), _) => Ok(BodySource::Inline(c)),
        (None, Some(k)) => {
            if has_bucket {
                Ok(BodySource::Object(k))
            } else {
                let mut v = chars_of(k.as_str());
                append_str(&mut v, " needs a bucket, and none is configured");
                Err(string_of(&v))
            }
        },
        (None, None) => Err(string_of(&chars_of("the row carries neither content nor a key"))),
    }
}


/// Keys are content addressed: the same bytes always land under the same key,
/// so storing them again changes nothing, and an asset repeated across
/// revisions is stored once.
pub proof fn lemma_same_content_same_key(a: Seq<u8>, b: Seq<u8>)
    requires
        a == b,
    ensures
        blob_key_of(a) == blob_key_of(b),
{
}

} // verus!
