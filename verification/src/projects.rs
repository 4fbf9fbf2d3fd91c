//! Projects group documents; aliases are other names for one project, and a
//! project's icon marks every browser tab its documents open in.

use vstd::prelude::*;
use vstd::utf8::{decode_utf8, valid_utf8};

use crate::docs::{slug_shaped, valid_slug};
use crate::text::{append_str, chars_of, str_is, string_of, string_views};

verus! {

/// The project routes of the API: list, aliases and icons.
pub struct ProjectsApi;

/// Favicons are served into a browser tab at 16 to 32 pixels, so anything past
/// this is a mistake rather than a preference.
pub const MAX_FAVICON_BYTES: usize = 65536;

/// The colour scheme an icon is for.
#[derive(Clone, Copy, PartialEq, Eq, Structural)]
pub enum Scheme {
    Light,
    Dark,
}

/// `std::str::from_utf8`, owned: the text the bytes encode, or `None` when
/// they are not UTF-8.
#[verifier::external_body]
fn utf8_text(bytes: &[u8]) -> (out: Option<String>)
    ensures
        out is Some <==> valid_utf8(bytes@),
        out is Some ==> out->0@ == decode_utf8(bytes@),
{
    match std::str::from_utf8(bytes) {
        Ok(text) => Some(text.to_string()),
        Err(_) => None,
    }
}

pub open spec fn starts_with_bytes(bytes: Seq<u8>, prefix: Seq<u8>) -> bool {
    prefix.len() <= bytes.len() && bytes.take(prefix.len() as int) == prefix
}

/// Whether `needle` occurs in `s`.
pub open spec fn contains_text(s: Seq<char>, needle: Seq<char>) -> bool {
    exists|i: int| 0 <= i && i + needle.len() <= s.len() && #[trigger] s.subrange(i, i + needle.len()) == needle
}

/// The image type bytes carry, judged by their magic number, or for SVG by a
/// root element among the first 512 bytes when those are UTF-8.
pub open spec fn sniffed_type(bytes: Seq<u8>) -> Option<Seq<char>> {
    let head = bytes.take(if bytes.len() < 512 {
        bytes.len() as int
    } else {
        512
    });
    if starts_with_bytes(bytes, seq![0x89u8, 0x50, 0x4E, 0x47, 0x0D, 0x0A, 0x1A, 0x0A]) {
        Some("image/png"@)
    } else if starts_with_bytes(bytes, seq![0x47u8, 0x49, 0x46, 0x38]) {
        Some("image/gif"@)
    } else if starts_with_bytes(bytes, seq![0x00u8, 0x00, 0x01, 0x00]) {
        Some("image/x-icon"@)
    } else if starts_with_bytes(bytes, seq![0x52u8, 0x49, 0x46, 0x46]) && bytes.len() >= 12 && bytes.subrange(8, 12)
        == seq![0x57u8, 0x45, 0x42, 0x50] {
        Some("image/webp"@)
    } else if valid_utf8(head) && contains_text(decode_utf8(head), "<svg"@) {
        Some("image/svg+xml"@)
    } else {
        None
    }
}

fn bytes_start_with(bytes: &[u8], prefix: &Vec<u8>) -> (b: bool)
    ensures
        b == starts_with_bytes(bytes@, prefix@),
{
    if prefix.len() > bytes.len() {
        return false;
    }
    let mut i: usize = 0;
    while i < prefix.len()
        invariant
            i <= prefix.len() <= bytes.len(),
            forall|k: int| 0 <= k < i ==> bytes@[k] == prefix@[k],
        decreases prefix.len() - i,
    {
        if bytes[i] != prefix[i] {
            assert(bytes@.take(prefix.len() as int)[i as int] != prefix@[i as int]);
            return false;
        }
        i = i + 1;
    }
    assert(bytes@.take(prefix.len() as int) =~= prefix@);
    true
}

fn contains_svg(s: &Vec<char>) -> (b: bool)
    ensures
        b == contains_text(s@, "<svg"@),
{
    proof {
        reveal_strlit("<svg");
    }
    let n = s.len();
    if n < 4 {
        return false;
    }
    let mut i: usize = 0;
    while i <= n - 4
        invariant
            n == s@.len(),
            n >= 4,
            i <= n - 3,
            forall|k: int| 0 <= k < i ==> #[trigger] s@.subrange(k, k + 4) != "<svg"@,
        decreases n - i,
    {
        let hit = s[i] == '<' && s[i + 1] == 's' && s[i + 2] == 'v' && s[i + 3] == 'g';
        proof {
            reveal_strlit("<svg");
            let w = s@.subrange(i as int, i + 4);
            if hit {
                assert(w =~= "<svg"@);
            } else if w == "<svg"@ {
                assert(w[0] == '<' && w[1] == 's' && w[2] == 'v' && w[3] == 'g');
            }
        }
        if hit {
            return true;
        }
        i = i + 1;
    }
    false
}

/// Content type from the bytes, never from the caller. An extension or a header
/// is a claim; a magic number is evidence.
pub fn sniff_image(bytes: &[u8]) -> (out: Option<&'static str>)
    ensures
        match out {
            Some(t) => sniffed_type(bytes@) == Some(t@),
            None => sniffed_type(bytes@) is None,
        },
{
    let png: Vec<u8> = vec![0x89u8, 0x50, 0x4E, 0x47, 0x0D, 0x0A, 0x1A, 0x0A];
    let gif: Vec<u8> = vec![0x47u8, 0x49, 0x46, 0x38];
    let ico: Vec<u8> = vec![0x00u8, 0x00, 0x01, 0x00];
    let riff: Vec<u8> = vec![0x52u8, 0x49, 0x46, 0x46];
    assert(png@ =~= seq![0x89u8, 0x50, 0x4E, 0x47, 0x0D, 0x0A, 0x1A, 0x0A]);
    assert(gif@ =~= seq![0x47u8, 0x49, 0x46, 0x38]);
    assert(ico@ =~= seq![0x00u8, 0x00, 0x01, 0x00]);
    assert(riff@ =~= seq![0x52u8, 0x49, 0x46, 0x46]);
    if bytes_start_with(bytes, &png) {
        return Some("image/png");
    }
    if bytes_start_with(bytes, &gif) {
        return Some("image/gif");
    }
    if bytes_start_with(bytes, &ico) {
        return Some("image/x-icon");
    }
    if bytes_start_with(bytes, &riff) && bytes.len() >= 12 && bytes[8] == 0x57 && bytes[9] == 0x45 && bytes[10] == 0x42
        && bytes[11] == 0x50 {
        assert(bytes@.subrange(8, 12) =~= seq![0x57u8, 0x45, 0x42, 0x50]);
        return Some("image/webp");
    }
    proof {
        if starts_with_bytes(bytes@, seq![0x52u8, 0x49, 0x46, 0x46]) && bytes@.len() >= 12 && bytes@.subrange(8, 12)
            == seq![0x57u8, 0x45, 0x42, 0x50] {
            assert(bytes@.subrange(8, 12)[0] == bytes@[8]);
            assert(bytes@.subrange(8, 12)[1] == bytes@[9]);
            assert(bytes@.subrange(8, 12)[2] == bytes@[10]);
            assert(bytes@.subrange(8, 12)[3] == bytes@[11]);
        }
    }
    let n: usize = if bytes.len() < 512 {
        bytes.len()
    } else {
        512
    };
    let mut head: Vec<u8> = Vec::new();
    let mut i: usize = 0;
    while i < n
        invariant
            i <= n <= bytes.len(),
            head@ == bytes@.take(i as int),
        decreases n - i,
    {
        head.push(bytes[i]);
        i = i + 1;
        assert(head@ =~= bytes@.take(i as int));
    }
    let text = match utf8_text(head.as_slice()) {
        Some(t) => t,
        None => return None,
    };
    if contains_svg(&chars_of(text.as_str())) {
        return Some("image/svg+xml");
    }
    None
}

/// Why an uploaded icon is refused, or the type it is stored under.
pub open spec fn favicon_result(bytes: Seq<u8>) -> Result<Seq<char>, Seq<char>> {
    if bytes.len() > 65536 {
        Err("favicon must be at most 64 KB"@)
    } else {
        match sniffed_type(bytes) {
            Some(t) => Ok(t),
            None => Err("favicon must be a PNG, SVG, WebP, GIF or ICO"@),
        }
    }
}

/// The checks an uploaded icon passes: at most 64 KB, and an image type its
/// bytes prove.
pub fn check_favicon(bytes: &[u8]) -> (out: Result<&'static str, String>)
    ensures
        match out {
            Ok(t) => favicon_result(bytes@) == Ok::<Seq<char>, Seq<char>>(t@),
            Err(m) => favicon_result(bytes@) == Err::<Seq<char>, Seq<char>>(m@),
        },
{
    if bytes.len() > MAX_FAVICON_BYTES {
        return Err(string_of(&chars_of("favicon must be at most 64 KB")));
    }
    match sniff_image(bytes) {
        Some(t) => Ok(t),
        None => Err(string_of(&chars_of("favicon must be a PNG, SVG, WebP, GIF or ICO"))),
    }
}

/// The icon for a scheme, falling back to the other scheme when only one was
/// uploaded: one icon in the wrong theme beats no icon at all.
pub fn pick_favicon<T>(light: Option<T>, dark: Option<T>, scheme: Scheme) -> (out: Option<T>)
    ensures
        out == match scheme {
            Scheme::Light => if light is Some {
                light
            } else {
                dark
            },
            Scheme::Dark => if dark is Some {
                dark
            } else {
                light
            },
        },
{
    match scheme {
        Scheme::Light => match light {
            Some(x) => Some(x),
            None => dark,
        },
        Scheme::Dark => match dark {
            Some(x) => Some(x),
            None => light,
        },
    }
}

/// The name of a scheme as it is stored and asked for.
pub fn scheme_name(scheme: Scheme) -> (out: &'static str)
    ensures
        scheme == Scheme::Light ==> out@ == "light"@,
        scheme == Scheme::Dark ==> out@ == "dark"@,
{
    match scheme {
        Scheme::Light => "light",
        Scheme::Dark => "dark",
    }
}

/// Why a new alias is refused before anything is looked up, if it is.
pub open spec fn alias_error(project: Seq<char>, alias: Seq<char>) -> Option<Seq<char>> {
    if !slug_shaped(alias, 1, 64) || !slug_shaped(project, 1, 64) {
        Some("project and alias must match [a-z0-9-]{1,64}"@)
    } else if alias == project {
        Some("a project is already reachable by its own name"@)
    } else {
        None
    }
}

pub fn check_alias(project: &str, alias: &str) -> (out: Result<(), String>)
    ensures
        match out {
            Ok(()) => alias_error(project@, alias@) is None,
            Err(m) => alias_error(project@, alias@) == Some(m@),
        },
{
    if !valid_slug(alias) || !valid_slug(project) {
        return Err(string_of(&chars_of("project and alias must match [a-z0-9-]{1,64}")));
    }
    if str_is(alias, project) {
        return Err(string_of(&chars_of("a project is already reachable by its own name")));
    }
    Ok(())
}

/// A name is either a project or an alias, never both: otherwise a push naming
/// it would have two answers. This is what refuses the second.
pub fn alias_taken_message(alias: &str) -> (out: String)
    ensures
        out@ == alias@ + " is a project of its own; merging projects is not supported"@,
{
    let mut v = chars_of(alias);
    append_str(&mut v, " is a project of its own; merging projects is not supported");
    string_of(&v)
}

/// One alias as stored: the project it points at and the other name.
pub struct AliasRow {
    pub project: String,
    pub alias: String,
}

/// The aliases that point at `project`, in the order they are listed.
pub open spec fn aliases_of(project: Seq<char>, rows: Seq<AliasRow>) -> Seq<Seq<char>>
    decreases rows.len(),
{
    if rows.len() == 0 {
        Seq::empty()
    } else {
        let rest = aliases_of(project, rows.drop_last());
        if rows.last().project@ == project {
            rest.push(rows.last().alias@)
        } else {
            rest
        }
    }
}

pub fn aliases_for(project: &str, rows: &[AliasRow]) -> (out: Vec<String>)
    ensures
        string_views(out@) == aliases_of(project@, rows@),
{
    let mut out: Vec<String> = Vec::new();
    let mut i: usize = 0;
    assert(rows@.take(0) =~= Seq::<AliasRow>::empty());
    assert(string_views(out@) =~= Seq::<Seq<char>>::empty());
    while i < rows.len()
        invariant
            i <= rows.len(),
            string_views(out@) == aliases_of(project@, rows@.take(i as int)),
        decreases rows.len() - i,
    {
        proof {
            assert(rows@.take(i + 1).drop_last() =~= rows@.take(i as int));
        }
        if str_is(rows[i].project.as_str(), project) {
            let ghost before = out@;
            out.push(string_of(&chars_of(rows[i].alias.as_str())));
            assert(string_views(out@) =~= string_views(before).push(rows@[i as int].alias@));
        }
        i = i + 1;
    }
    assert(rows@.take(i as int) =~= rows@);
    out
}

} // verus!
