//! The agent tool's decisions: which document an argument names, what a push
//! carries, and the text each tool answers with.

use vstd::prelude::*;
use vstd::view::View as _;

use crate::docs::{slug_shaped, valid_slug};
use crate::number::{parse_i64, parsed_i64};
use crate::projection::View;
use crate::text::{
    append_chars, append_str, chars_of, decimal, decimal_i64, opt_str_view, str_is, string_of, string_views,
};

verus! {

/// What the URL parser makes of an address, as plain values: its origin's
/// serialisation when the origin is a tuple (an opaque origin equals no
/// other), and its path segments when it has a hierarchical path.
pub struct UrlFacts {
    pub origin: Option<String>,
    pub segments: Option<Vec<String>>,
}

pub open spec fn url_facts_view(f: Option<UrlFacts>) -> Option<(Option<Seq<char>>, Option<Seq<Seq<char>>>)> {
    match f {
        None => None,
        Some(u) => Some(
            (
                match u.origin {
                    Some(o) => Some(o@),
                    None => None,
                },
                match u.segments {
                    Some(s) => Some(string_views(s@)),
                    None => None,
                },
            ),
        ),
    }
}

/// What `url::Url::parse` makes of a string: `None` when it is not an
/// absolute URL, else its origin and path segments.
pub uninterp spec fn parsed_url(s: Seq<char>) -> Option<(Option<Seq<char>>, Option<Seq<Seq<char>>>)>;

/// `Url::parse` from the `url` crate, then `origin()` (its ASCII
/// serialisation when `is_tuple`) and `path_segments()`. The result is named
/// `parsed_url`.
#[verifier::external_body]
fn parse_url(s: &str) -> (out: Option<UrlFacts>)
    ensures
        url_facts_view(out) == parsed_url(s@),
{
    let url = match url::Url::parse(s) {
        Ok(url) => url,
        Err(_) => return None,
    };
    let origin = url.origin();
    Some(UrlFacts {
        origin: if origin.is_tuple() {
            Some(origin.ascii_serialization())
        } else {
            None
        },
        segments: url.path_segments().map(|parts| parts.map(|p| p.to_string()).collect()),
    })
}

/// Two origins are the same when both are tuples that serialise alike.
pub open spec fn same_origin(a: Option<Seq<char>>, b: Option<Seq<char>>) -> bool {
    a is Some && b is Some && a->0 == b->0
}

/// A copied address ends in a slash, which yields a trailing empty segment;
/// it is dropped.
pub open spec fn trimmed_segments(segments: Seq<Seq<char>>) -> Seq<Seq<char>> {
    if segments.len() > 0 && segments.last().len() == 0 {
        segments.drop_last()
    } else {
        segments
    }
}

/// The slug and pinned revision a document path names: `/<id>/<slug>` or
/// `/<id>/<slug>/rev/<n>`.
pub open spec fn path_target(segments: Seq<Seq<char>>) -> Result<(Seq<char>, Option<i64>), Seq<char>> {
    let s = trimmed_segments(segments);
    if s.len() == 2 {
        Ok((s[1], None))
    } else if s.len() == 4 && s[2] == "rev"@ {
        match parsed_i64(s[3]) {
            Some(r) => Ok((s[1], Some(r))),
            None => Err("document URL has an invalid revision"@),
        }
    } else {
        Err("document URL has an unsupported path"@)
    }
}

/// The slug and revision a parsed document address names, given what the URL
/// parser made of it: it must be on the configured documents origin, and its
/// pinned revision must agree with any revision asked for.
pub open spec fn resolved_url(
    docs_origin: Option<Seq<char>>,
    facts: Option<(Option<Seq<char>>, Option<Seq<Seq<char>>>)>,
    revision: Option<i64>,
) -> Result<(Seq<char>, Option<i64>), Seq<char>> {
    match facts {
        None => Err("document must be a slug or a plan.env.md URL"@),
        Some((origin, segments)) => if !same_origin(origin, docs_origin) {
            Err("document URL must use the configured documents origin"@)
        } else {
            match segments {
                None => Err("document URL has no path"@),
                Some(segs) => match path_target(segs) {
                    Err(e) => Err(e),
                    Ok((slug, pinned)) => if !slug_shaped(slug, 1, 64) {
                        Err("document URL has an invalid slug"@)
                    } else if revision is Some && revision != pinned {
                        Err("revision conflicts with the revision in the document URL"@)
                    } else {
                        Ok(
                            (
                                slug,
                                if pinned is Some {
                                    pinned
                                } else {
                                    revision
                                },
                            ),
                        )
                    },
                },
            }
        },
    }
}

/// The slug and revision a document argument names: a slug as itself, or a
/// document address on the configured documents origin, whose pinned revision
/// must agree with any revision asked for.
pub open spec fn resolved_document(
    docs_origin: Option<Seq<char>>,
    document: Seq<char>,
    revision: Option<i64>,
) -> Result<(Seq<char>, Option<i64>), Seq<char>> {
    if slug_shaped(document, 1, 64) {
        Ok((document, revision))
    } else {
        resolved_url(docs_origin, parsed_url(document), revision)
    }
}

/// The origin of the configured documents address.
pub open spec fn docs_origin_of(docs_url: Seq<char>) -> Option<Seq<char>> {
    match parsed_url(docs_url) {
        Some((origin, _)) => origin,
        None => None,
    }
}

fn message(text: &str) -> (out: String)
    ensures
        out@ == text@,
{
    string_of(&chars_of(text))
}

/// Which document, and which of its revisions, an address names, given the
/// origin of the configured documents address and what the URL parser made of
/// the address.
pub fn resolve_url(docs_origin: Option<&str>, facts: Option<UrlFacts>, revision: Option<i64>) -> (out: Result<
    (String, Option<i64>),
    String,
>)
    ensures
        match out {
            Ok((slug, r)) => resolved_url(opt_str_view(docs_origin), url_facts_view(facts), revision) == Ok::<
                (Seq<char>, Option<i64>),
                Seq<char>,
            >((slug@, r)),
            Err(m) => resolved_url(opt_str_view(docs_origin), url_facts_view(facts), revision) == Err::<
                (Seq<char>, Option<i64>),
                Seq<char>,
            >(m@),
        },
{
    let facts = match facts {
        Some(f) => f,
        None => return Err(message("document must be a slug or a plan.env.md URL")),
    };
    let same = match (&facts.origin, docs_origin) {
        (Some(a), Some(b)) => str_is(a.as_str(), b),
        _ => false,
    };
    if !same {
        return Err(message("document URL must use the configured documents origin"));
    }
    let mut segments = match facts.segments {
        Some(s) => s,
        None => return Err(message("document URL has no path")),
    };
    let ghost all = string_views(segments@);
    if segments.len() > 0 && segments[segments.len() - 1].as_str().is_empty() {
        let _ = segments.pop();
        assert(string_views(segments@) =~= all.drop_last());
    }
    assert(string_views(segments@) == trimmed_segments(all));
    let (slug, pinned): (String, Option<i64>) = if segments.len() == 2 {
        (message(segments[1].as_str()), None)
    } else if segments.len() == 4 && str_is(segments[2].as_str(), "rev") {
        match parse_i64(&chars_of(segments[3].as_str())) {
            Some(r) => (message(segments[1].as_str()), Some(r)),
            None => return Err(message("document URL has an invalid revision")),
        }
    } else {
        return Err(message("document URL has an unsupported path"));
    };
    if !valid_slug(slug.as_str()) {
        return Err(message("document URL has an invalid slug"));
    }
    match revision {
        Some(r) => {
            if pinned != Some(r) {
                return Err(message("revision conflicts with the revision in the document URL"));
            }
        },
        None => {},
    }
    let chosen = match pinned {
        Some(p) => Some(p),
        None => revision,
    };
    Ok((slug, chosen))
}

/// Which document, and which of its revisions, a tool argument names.
pub fn resolve_document(docs_url: &str, document: &str, revision: Option<i64>) -> (out: Result<
    (String, Option<i64>),
    String,
>)
    ensures
        match out {
            Ok((slug, r)) => resolved_document(docs_origin_of(docs_url@), document@, revision) == Ok::<
                (Seq<char>, Option<i64>),
                Seq<char>,
            >((slug@, r)),
            Err(m) => resolved_document(docs_origin_of(docs_url@), document@, revision) == Err::<
                (Seq<char>, Option<i64>),
                Seq<char>,
            >(m@),
        },
{
    if valid_slug(document) {
        return Ok((message(document), revision));
    }
    let docs_origin: Option<String> = match parse_url(docs_url) {
        Some(f) => f.origin,
        None => None,
    };
    let facts = parse_url(document);
    match &docs_origin {
        Some(o) => resolve_url(Some(o.as_str()), facts, revision),
        None => resolve_url(None, facts, revision),
    }
}

/// One file a push names: its path inside the document and where on this
/// machine to read it from.
pub struct PushFile {
    pub path: String,
    pub source: String,
}

/// What a push sends: the entry document given inline, or files to read.
pub enum PushSource {
    Html(String),
    Files(Vec<PushFile>),
}

/// Why a push is refused before anything is read, if it is: the slug, then
/// exactly one of the inline document and the file list, which must hold the
/// entry document.
pub open spec fn push_source_error(slug: Seq<char>, has_html: bool, files: Option<Seq<PushFile>>) -> Option<Seq<char>> {
    if !slug_shaped(slug, 1, 64) {
        Some("slug must match [a-z0-9-]{1,64}"@)
    } else if has_html && files is Some {
        Some("supply either html or files, not both"@)
    } else if !has_html && files is None {
        Some("supply html or files"@)
    } else if files is Some && !(exists|k: int|
        0 <= k < files->0.len() && #[trigger] files->0[k].path@ == "index.html"@) {
        Some("one file must be index.html"@)
    } else {
        None
    }
}

pub open spec fn opt_files_view(o: Option<Vec<PushFile>>) -> Option<Seq<PushFile>> {
    match o {
        Some(f) => Some(f@),
        None => None,
    }
}

fn names_entry(files: &Vec<PushFile>) -> (b: bool)
    ensures
        b == exists|k: int| 0 <= k < files@.len() && #[trigger] files@[k].path@ == "index.html"@,
{
    let mut i: usize = 0;
    while i < files.len()
        invariant
            i <= files.len(),
            forall|k: int| 0 <= k < i ==> #[trigger] files@[k].path@ != "index.html"@,
        decreases files.len() - i,
    {
        if str_is(files[i].path.as_str(), "index.html") {
            return true;
        }
        i = i + 1;
    }
    false
}

/// What a push sends, or why it is refused: html and files are two ways to say
/// the same thing, so supplying both is a mistake rather than a precedence
/// question.
pub fn push_source(slug: &str, html: Option<String>, files: Option<Vec<PushFile>>) -> (out: Result<
    PushSource,
    String,
>)
    ensures
        push_source_error(
            slug@,
            html is Some,
            opt_files_view(files),
        ) is None <==> out is Ok,
        out matches Err(m) ==> push_source_error(
            slug@,
            html is Some,
            opt_files_view(files),
        ) == Some(m@),
        out matches Ok(PushSource::Html(h)) ==> html == Some(h),
        out matches Ok(PushSource::Files(f)) ==> files == Some(f),
{
    if !valid_slug(slug) {
        return Err(message("slug must match [a-z0-9-]{1,64}"));
    }
    let ghost fv = opt_files_view(files);
    match (html, files) {
        (Some(_), Some(_)) => Err(message("supply either html or files, not both")),
        (Some(h), None) => {
            assert(push_source_error(slug@, true, fv) is None);
            Ok(PushSource::Html(h))
        },
        (None, Some(f)) => {
            if !names_entry(&f) {
                Err(message("one file must be index.html"))
            } else {
                proof {
                    let k = choose|k: int| 0 <= k < f@.len() && #[trigger] f@[k].path@ == "index.html"@;
                    assert(fv->0[k].path@ == "index.html"@);
                }
                assert(push_source_error(slug@, false, fv) is None);
                Ok(PushSource::Files(f))
            }
        },
        (None, None) => Err(message("supply html or files")),
    }
}

/// The scheme an icon upload names: light unless it says otherwise, and only
/// light or dark.
pub fn icon_scheme(scheme: Option<&str>) -> (out: Result<&'static str, String>)
    ensures
        scheme is None ==> (out matches Ok(s) && s@ == "light"@),
        scheme matches Some(s) && s@ == "light"@ ==> (out matches Ok(t) && t@ == "light"@),
        scheme matches Some(s) && s@ == "dark"@ ==> (out matches Ok(t) && t@ == "dark"@),
        scheme matches Some(s) && s@ != "light"@ && s@ != "dark"@ ==> (out matches Err(m) && m@
            == "scheme must be light or dark"@),
{
    match scheme {
        None => Ok("light"),
        Some(s) => {
            if str_is(s, "light") {
                Ok("light")
            } else if str_is(s, "dark") {
                Ok("dark")
            } else {
                Err(message("scheme must be light or dark"))
            }
        },
    }
}

pub fn icon_set_message(scheme: &str, project: &str) -> (out: String)
    ensures
        out@ == scheme@ + " icon set on "@ + project@,
{
    let mut v = chars_of(scheme);
    append_str(&mut v, " icon set on ");
    append_str(&mut v, project);
    string_of(&v)
}

pub fn alias_message(alias: &str, project: &str) -> (out: String)
    ensures
        out@ == alias@ + " now resolves to "@ + project@,
{
    let mut v = chars_of(alias);
    append_str(&mut v, " now resolves to ");
    append_str(&mut v, project);
    string_of(&v)
}

/// How many documents a listing returns when none is asked for.
pub const DEFAULT_LIST_LIMIT: i64 = 20;

/// Where the source of a read is written: one file per slug and revision.
pub open spec fn source_file_name_of(slug: Seq<char>, revision: Option<i64>) -> Seq<char> {
    match revision {
        Some(r) => slug + "-rev"@ + decimal(r as int) + ".html"@,
        None => slug + "-latest.html"@,
    }
}

pub fn source_file_name(slug: &str, revision: Option<i64>) -> (out: String)
    ensures
        out@ == source_file_name_of(slug@, revision),
{
    let mut v = chars_of(slug);
    match revision {
        Some(r) => {
            append_str(&mut v, "-rev");
            append_chars(&mut v, &decimal_i64(r));
            append_str(&mut v, ".html");
        },
        None => append_str(&mut v, "-latest.html"),
    }
    string_of(&v)
}

/// The first line of a read: which document, which revision, which view.
pub open spec fn read_header_of(slug: Seq<char>, revision: Option<i64>, view: View) -> Seq<char> {
    slug + "  "@ + (match revision {
        Some(r) => "rev "@ + decimal(r as int),
        None => "latest revision"@,
    }) + "  "@ + view.name_of()
}

pub fn read_header(slug: &str, revision: Option<i64>, view: View) -> (out: String)
    ensures
        out@ == read_header_of(slug@, revision, view),
{
    let mut v = chars_of(slug);
    append_str(&mut v, "  ");
    match revision {
        Some(r) => {
            append_str(&mut v, "rev ");
            append_chars(&mut v, &decimal_i64(r));
        },
        None => append_str(&mut v, "latest revision"),
    }
    append_str(&mut v, "  ");
    append_str(&mut v, view.name());
    string_of(&v)
}

/// Where the reads of the API live, relative to its base address.
pub open spec fn raw_path_of(slug: Seq<char>, revision: Option<i64>) -> Seq<char> {
    match revision {
        Some(r) => "api/docs/"@ + slug + "/revisions/"@ + decimal(r as int) + "/raw"@,
        None => "api/docs/"@ + slug + "/raw"@,
    }
}

pub fn raw_path(slug: &str, revision: Option<i64>) -> (out: String)
    ensures
        out@ == raw_path_of(slug@, revision),
{
    let mut v = chars_of("api/docs/");
    append_str(&mut v, slug);
    match revision {
        Some(r) => {
            append_str(&mut v, "/revisions/");
            append_chars(&mut v, &decimal_i64(r));
            append_str(&mut v, "/raw");
        },
        None => append_str(&mut v, "/raw"),
    }
    string_of(&v)
}

/// At most the first 1024 characters of a reply body.
pub open spec fn clipped(body: Seq<char>) -> Seq<char> {
    if body.len() <= 1024 {
        body
    } else {
        body.take(1024)
    }
}

/// What a failed call to the service reports: the two failures a caller can
/// act on by name, and otherwise the status with whatever the service said.
/// `status` is the status as it is displayed, code and reason.
pub open spec fn failure_text(code: u16, status: Seq<char>, body: Seq<char>) -> Seq<char> {
    if code == 401 {
        "authentication failed"@
    } else if code == 404 {
        "document not found"@
    } else if clipped(body).len() == 0 {
        "plan.env.md returned HTTP "@ + status
    } else {
        "plan.env.md returned HTTP "@ + status + ": "@ + clipped(body)
    }
}

pub fn failure_message(code: u16, status: &str, body: &str) -> (out: String)
    ensures
        out@ == failure_text(code, status@, body@),
{
    if code == 401 {
        return message("authentication failed");
    }
    if code == 404 {
        return message("document not found");
    }
    let b = chars_of(body);
    let mut clip: Vec<char> = Vec::new();
    let mut i: usize = 0;
    while i < b.len() && i < 1024
        invariant
            i <= b.len(),
            i <= 1024,
            clip@ == b@.take(i as int),
        decreases b.len() - i,
    {
        clip.push(b[i]);
        i = i + 1;
        assert(clip@ =~= b@.take(i as int));
    }
    proof {
        if b@.len() <= 1024 {
            assert(b@.take(i as int) =~= b@);
        }
    }
    assert(clip@ == clipped(body@));
    let mut v = chars_of("plan.env.md returned HTTP ");
    append_str(&mut v, status);
    if clip.len() > 0 {
        append_str(&mut v, ": ");
        append_chars(&mut v, &clip);
    }
    string_of(&v)
}

} // verus!
