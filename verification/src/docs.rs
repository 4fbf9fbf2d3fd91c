//! The rules behind pushing, correcting and answering a document: what a slug,
//! a project and a tag may look like, and what an answer must carry.

use vstd::prelude::*;

use crate::config::DocsUrl;
use crate::question::{
    answer_error, check_answer, is_blank, is_blank_exec, questions_error, validate_all, Answer, AnsweredQuestion, Question,
};
use crate::text::{
    append_str, ascii_lower, chars_of, debug_quoted, debug_str, join, join_parts, opt_str_view, opt_view,
    string_of, string_views, trim, trimmed, utf8_len, utf8_len_of, words, words_of,
};

verus! {

/// The document routes of the API: push, list, correct, publish and answer.
pub struct DocsApi;

pub const MAX_TAGS: usize = 8;

/// A character of a slug: `[a-z0-9-]`.
pub open spec fn is_slug_char(c: char) -> bool {
    ('a' <= c <= 'z') || ('0' <= c <= '9') || c == '-'
}

/// `[a-z0-9-]` from `min` to `max` bytes long. Every accepted character is one
/// byte, so the byte count is the character count.
pub open spec fn slug_shaped(s: Seq<char>, min: nat, max: nat) -> bool {
    min <= utf8_len(s) <= max && forall|i: int| 0 <= i < s.len() ==> is_slug_char(#[trigger] s[i])
}

pub fn slug_shaped_exec(s: &Vec<char>, min: u128, max: u128) -> (b: bool)
    ensures
        b == slug_shaped(s@, min as nat, max as nat),
{
    let n = utf8_len_of(s);
    if n < min || n > max {
        return false;
    }
    let mut i: usize = 0;
    while i < s.len()
        invariant
            i <= s.len(),
            forall|k: int| 0 <= k < i ==> is_slug_char(#[trigger] s@[k]),
        decreases s.len() - i,
    {
        let c = s[i];
        if !(('a' <= c && c <= 'z') || ('0' <= c && c <= '9') || c == '-') {
            assert(!is_slug_char(s@[i as int]));
            return false;
        }
        i = i + 1;
    }
    true
}

/// A document's slug: `[a-z0-9-]{1,64}`.
pub fn valid_slug(slug: &str) -> (b: bool)
    ensures
        b == slug_shaped(slug@, 1, 64),
{
    slug_shaped_exec(&chars_of(slug), 1, 64)
}

/// An account's name: `[a-z0-9-]{3,32}`.
pub fn valid_username(username: &str) -> (b: bool)
    ensures
        b == slug_shaped(username@, 3, 32),
{
    slug_shaped_exec(&chars_of(username), 3, 32)
}

/// Why a registration is refused before anything is stored, if it is.
pub open spec fn registration_error(username: Seq<char>, password: Seq<char>) -> Option<Seq<char>> {
    if !slug_shaped(username, 3, 32) {
        Some("username must match [a-z0-9-]{3,32}"@)
    } else if utf8_len(password) < 8 {
        Some("password must be at least 8 characters"@)
    } else {
        None
    }
}

/// The checks a registration passes before any invite is looked at.
pub fn check_registration(username: &str, password: &str) -> (out: Result<(), String>)
    ensures
        match out {
            Ok(()) => registration_error(username@, password@) is None,
            Err(m) => registration_error(username@, password@) == Some(m@),
        },
{
    if !valid_username(username) {
        return Err(string_of(&chars_of("username must match [a-z0-9-]{3,32}")));
    }
    if utf8_len_of(&chars_of(password)) < 8 {
        return Err(string_of(&chars_of("password must be at least 8 characters")));
    }
    Ok(())
}

/// Who may read an answer response: the origin documents are served from.
///
/// The widget calls from the docs origin, so every answer response says that
/// origin may read it. There is deliberately no allow-credentials: the scoped
/// key travels in a header rather than a cookie.
pub fn cors(docs_url: &DocsUrl) -> (out: String)
    ensures
        out@ == docs_url.0.0@,
{
    string_of(&chars_of(docs_url.0.as_str()))
}

/// The address a document is read at.
pub open spec fn document_url_of(docs: Seq<char>, public_id: Seq<char>, slug: Seq<char>) -> Seq<char> {
    docs + "/"@ + public_id + "/"@ + slug
}

pub fn document_url(docs_url: &DocsUrl, public_id: &str, slug: &str) -> (out: String)
    ensures
        out@ == document_url_of(docs_url.0.0@, public_id@, slug@),
{
    let mut v = chars_of(docs_url.0.as_str());
    append_str(&mut v, "/");
    append_str(&mut v, public_id);
    append_str(&mut v, "/");
    append_str(&mut v, slug);
    string_of(&v)
}

/// What Unicode lowercasing makes of a string.
pub uninterp spec fn lowercase(s: Seq<char>) -> Seq<char>;

/// `str::to_lowercase`.
///
/// The result is named `lowercase`; the contract also states what the Unicode
/// case mapping gives on ASCII text: the ASCII lowercase of it.
#[verifier::external_body]
fn to_lowercase(s: &str) -> (out: String)
    ensures
        out@ == lowercase(s@),
        (forall|i: int| 0 <= i < s@.len() ==> (#[trigger] s@[i] as u32) < 0x80) ==> out@ == ascii_lower(s@),
{
    s.to_lowercase()
}

/// The shape a tag takes once lowercased: whitespace runs turned into single
/// hyphens.
pub open spec fn hyphenated(lowered: Seq<char>) -> Seq<char> {
    join(words(lowered), "-"@)
}

/// The shape a tag takes: trimmed, lowercased, whitespace runs turned into
/// single hyphens.
pub open spec fn normalized_tag(tag: Seq<char>) -> Seq<char> {
    hyphenated(lowercase(trim(tag)))
}

/// A tag made from `lowered`, the lowercase of the trimmed `tag`, or why it
/// cannot be one.
pub open spec fn tag_result_from(tag: Seq<char>, lowered: Seq<char>) -> Result<Seq<char>, Seq<char>> {
    let n = hyphenated(lowered);
    if slug_shaped(n, 1, 32) {
        Ok(n)
    } else {
        Err("tag "@ + debug_str(tag) + " must normalise to [a-z0-9-]{1,32}, got "@ + debug_str(n))
    }
}

/// A tag, or why it cannot be one.
pub open spec fn tag_result(tag: Seq<char>) -> Result<Seq<char>, Seq<char>> {
    tag_result_from(tag, lowercase(trim(tag)))
}

/// Whether every character of a string is ASCII.
pub open spec fn all_ascii(s: Seq<char>) -> bool {
    forall|i: int| 0 <= i < s.len() ==> (#[trigger] s[i] as u32) < 0x80
}

/// What follows the lowercasing of a tag: `lowered` is the lowercase of the
/// trimmed `tag`, which the error message quotes as it was given.
pub fn tag_from_lowered(tag: &str, lowered: &str) -> (out: Result<String, String>)
    ensures
        match out {
            Ok(t) => tag_result_from(tag@, lowered@) == Ok::<Seq<char>, Seq<char>>(t@),
            Err(m) => tag_result_from(tag@, lowered@) == Err::<Seq<char>, Seq<char>>(m@),
        },
{
    let w = words_of(&chars_of(lowered));
    let n = join_parts(&w, "-");
    if slug_shaped_exec(&n, 1, 32) {
        Ok(string_of(&n))
    } else {
        let mut v = chars_of("tag ");
        append_str(&mut v, debug_quoted(tag).as_str());
        append_str(&mut v, " must normalise to [a-z0-9-]{1,32}, got ");
        append_str(&mut v, debug_quoted(string_of(&n).as_str()).as_str());
        Err(string_of(&v))
    }
}

/// Tags are a living vocabulary: the server never checks one against a list, it
/// only puts it in a shape two callers can agree on. "PR Review" and
/// "pr review" both land on `pr-review` and so on the same row. On ASCII text
/// the lowercasing is ASCII lowercasing.
pub fn normalize_tag(tag: &str) -> (out: Result<String, String>)
    ensures
        match out {
            Ok(t) => tag_result(tag@) == Ok::<Seq<char>, Seq<char>>(t@),
            Err(m) => tag_result(tag@) == Err::<Seq<char>, Seq<char>>(m@),
        },
        all_ascii(trim(tag@)) ==> tag_result(tag@) == tag_result_from(tag@, ascii_lower(trim(tag@))),
{
    let t = trimmed(&chars_of(tag));
    let lowered = to_lowercase(string_of(&t).as_str());
    tag_from_lowered(tag, lowered.as_str())
}

/// A list of tags normalised in order, each kept the first time it appears, or
/// the first tag that cannot be one.
pub open spec fn tags_result(tags: Seq<String>) -> Result<Seq<Seq<char>>, Seq<char>>
    decreases tags.len(),
{
    if tags.len() == 0 {
        Ok(Seq::empty())
    } else {
        match tags_result(tags.drop_last()) {
            Err(e) => Err(e),
            Ok(acc) => match tag_result(tags.last()@) {
                Err(e) => Err(e),
                Ok(t) => Ok(
                    if acc.contains(t) {
                        acc
                    } else {
                        acc.push(t)
                    },
                ),
            },
        }
    }
}

/// What `normalize_tags` makes of a tag list.
pub open spec fn normalized_tags(tags: Seq<String>) -> Result<Seq<Seq<char>>, Seq<char>> {
    if tags.len() > 8 {
        Err("at most 8 tags per document"@)
    } else {
        tags_result(tags)
    }
}

fn contains_str(list: &Vec<String>, s: &String) -> (b: bool)
    ensures
        b == string_views(list@).contains(s@),
{
    let mut i: usize = 0;
    while i < list.len()
        invariant
            i <= list.len(),
            forall|k: int| 0 <= k < i ==> #[trigger] list@[k]@ != s@,
        decreases list.len() - i,
    {
        if crate::text::str_is(list[i].as_str(), s.as_str()) {
            assert(string_views(list@)[i as int] == s@);
            return true;
        }
        i = i + 1;
    }
    assert forall|k: int| 0 <= k < string_views(list@).len() implies string_views(list@)[k] != s@ by {
        assert(string_views(list@)[k] == list@[k]@);
    }
    false
}

/// Normalises a document's tag list: at most eight, each normalised, repeats
/// dropped.
pub fn normalize_tags(tags: &[String]) -> (out: Result<Vec<String>, String>)
    ensures
        match out {
            Ok(v) => normalized_tags(tags@) == Ok::<Seq<Seq<char>>, Seq<char>>(string_views(v@)),
            Err(m) => normalized_tags(tags@) == Err::<Seq<Seq<char>>, Seq<char>>(m@),
        },
{
    if tags.len() > MAX_TAGS {
        return Err(string_of(&chars_of("at most 8 tags per document")));
    }
    let mut out: Vec<String> = Vec::new();
    let mut i: usize = 0;
    assert(tags@.take(0) =~= Seq::<String>::empty());
    assert(string_views(out@) =~= Seq::<Seq<char>>::empty());
    while i < tags.len()
        invariant
            i <= tags.len() <= 8,
            tags_result(tags@.take(i as int)) == Ok::<Seq<Seq<char>>, Seq<char>>(string_views(out@)),
        decreases tags.len() - i,
    {
        proof {
            assert(tags@.take(i + 1).drop_last() =~= tags@.take(i as int));
            assert(tags@.take(i + 1).last() == tags@[i as int]);
        }
        let normalized = match normalize_tag(tags[i].as_str()) {
            Ok(t) => t,
            Err(m) => {
                proof {
                    assert(tags@.take(tags.len() as int) =~= tags@);
                    lemma_tags_result_err(tags@, (i + 1) as int);
                }
                return Err(m);
            },
        };
        if !contains_str(&out, &normalized) {
            let ghost before = out@;
            out.push(normalized);
            assert(string_views(out@) =~= string_views(before).push(normalized@));
        }
        i = i + 1;
    }
    assert(tags@.take(i as int) =~= tags@);
    Ok(out)
}

/// An error in a prefix of the list is the list's error.
pub proof fn lemma_tags_result_err(tags: Seq<String>, k: int)
    requires
        0 <= k <= tags.len(),
        tags_result(tags.take(k)) is Err,
    ensures
        tags_result(tags) == tags_result(tags.take(k)),
    decreases tags.len() - k,
{
    if k < tags.len() {
        assert(tags.take(k + 1).drop_last() =~= tags.take(k));
        lemma_tags_result_err(tags, k + 1);
    } else {
        assert(tags.take(k) =~= tags);
    }
}

/// The tag list a request carries, normalised, when it carries one.
pub open spec fn opt_tags(tags: Option<Seq<String>>) -> Result<Option<Seq<Seq<char>>>, Seq<char>> {
    match tags {
        None => Ok(None),
        Some(t) => match normalized_tags(t) {
            Ok(n) => Ok(Some(n)),
            Err(e) => Err(e),
        },
    }
}

/// Why a correction of a document's project or tags is refused, or the tag
/// list it will store.
pub open spec fn patch_result(project: Option<Seq<char>>, tags: Option<Seq<String>>) -> Result<
    Option<Seq<Seq<char>>>,
    Seq<char>,
> {
    if project is Some && !slug_shaped(project->0, 1, 64) {
        Err("project must match [a-z0-9-]{1,64}"@)
    } else {
        opt_tags(tags)
    }
}

pub open spec fn opt_slice_view(o: Option<&[String]>) -> Option<Seq<String>> {
    match o {
        Some(s) => Some(s@),
        None => None,
    }
}

pub open spec fn opt_strings_view(o: Option<Vec<String>>) -> Option<Seq<Seq<char>>> {
    match o {
        Some(v) => Some(string_views(v@)),
        None => None,
    }
}

/// The checks a correction of project or tags passes, and the tags it stores.
pub fn check_patch(project: Option<&str>, tags: Option<&[String]>) -> (out: Result<Option<Vec<String>>, String>)
    ensures
        match out {
            Ok(t) => patch_result(opt_str_view(project), opt_slice_view(tags)) == Ok::<
                Option<Seq<Seq<char>>>,
                Seq<char>,
            >(opt_strings_view(t)),
            Err(m) => patch_result(opt_str_view(project), opt_slice_view(tags)) == Err::<
                Option<Seq<Seq<char>>>,
                Seq<char>,
            >(m@),
        },
{
    match project {
        Some(p) => {
            if !valid_slug(p) {
                return Err(string_of(&chars_of("project must match [a-z0-9-]{1,64}")));
            }
        },
        None => {},
    }
    match tags {
        None => Ok(None),
        Some(t) => match normalize_tags(t) {
            Ok(v) => Ok(Some(v)),
            Err(m) => Err(m),
        },
    }
}

/// Why a push is refused before anything is stored, or the tags it stores.
pub open spec fn push_result(
    slug: Seq<char>,
    questions: Seq<Question>,
    project: Option<Seq<char>>,
    tags: Option<Seq<String>>,
) -> Result<Option<Seq<Seq<char>>>, Seq<char>> {
    if !slug_shaped(slug, 1, 64) {
        Err("slug must match [a-z0-9-]{1,64}"@)
    } else if questions_error(questions) is Some {
        Err(questions_error(questions)->0)
    } else {
        patch_result(project, tags)
    }
}

/// The checks a push passes before anything is stored: the slug, the declared
/// questions, the project and the tags, in that order.
pub fn check_push(slug: &str, questions: &[Question], project: Option<&str>, tags: Option<&[String]>) -> (out:
    Result<Option<Vec<String>>, String>)
    ensures
        match out {
            Ok(t) => push_result(slug@, questions@, opt_str_view(project), opt_slice_view(tags)) == Ok::<
                Option<Seq<Seq<char>>>,
                Seq<char>,
            >(opt_strings_view(t)),
            Err(m) => push_result(slug@, questions@, opt_str_view(project), opt_slice_view(tags)) == Err::<
                Option<Seq<Seq<char>>>,
                Seq<char>,
            >(m@),
        },
{
    if !valid_slug(slug) {
        return Err(string_of(&chars_of("slug must match [a-z0-9-]{1,64}")));
    }
    match validate_all(questions) {
        Ok(()) => {},
        Err(m) => return Err(m),
    }
    check_patch(project, tags)
}

/// Text kept only when it is more than whitespace.
pub open spec fn kept_text(o: Option<Seq<char>>) -> Option<Seq<char>> {
    match o {
        Some(t) => if is_blank(t) {
            None
        } else {
            Some(t)
        },
        None => None,
    }
}

fn keep_text(o: Option<String>) -> (out: Option<String>)
    ensures
        opt_view(out) == kept_text(opt_view(o)),
{
    match o {
        Some(t) => if is_blank_exec(t.as_str()) {
            None
        } else {
            Some(t)
        },
        None => None,
    }
}

/// Whether optional text runs past the limit on written answers.
pub open spec fn too_long(o: Option<Seq<char>>) -> bool {
    o is Some && o->0.len() > 2000
}

/// Why an answer is refused, or the written part and notes it stores.
pub open spec fn answer_result(
    question: Question,
    selected: Seq<String>,
    other_text: Option<Seq<char>>,
    notes: Option<Seq<char>>,
) -> Result<(Option<Seq<char>>, Option<Seq<char>>), Seq<char>> {
    let other = kept_text(other_text);
    let kept_notes = kept_text(notes);
    if answer_error(question, selected, other) is Some {
        Err(answer_error(question, selected, other)->0)
    } else if too_long(other) || too_long(kept_notes) {
        Err("text fields are limited to 2000 characters"@)
    } else {
        Ok((other, kept_notes))
    }
}

fn char_count_over(o: &Option<String>) -> (b: bool)
    ensures
        b == too_long(opt_view(*o)),
{
    match o {
        Some(t) => chars_of(t.as_str()).len() > crate::question::MAX_TEXT,
        None => false,
    }
}

/// The checks an answer passes before it is stored: blank text counts as none,
/// the selection must fit the question, and text is limited in length.
pub fn check_answer_body(question: &Question, selected: &[String], other_text: Option<String>, notes: Option<
    String,
>) -> (out: Result<(Option<String>, Option<String>), String>)
    ensures
        match out {
            Ok((o, n)) => answer_result(*question, selected@, opt_view(other_text), opt_view(notes)) == Ok::<
                (Option<Seq<char>>, Option<Seq<char>>),
                Seq<char>,
            >((opt_view(o), opt_view(n))),
            Err(m) => answer_result(*question, selected@, opt_view(other_text), opt_view(notes)) == Err::<
                (Option<Seq<char>>, Option<Seq<char>>),
                Seq<char>,
            >(m@),
        },
{
    let other = keep_text(other_text);
    let kept_notes = keep_text(notes);
    let checked = match &other {
        Some(t) => check_answer(question, selected, Some(t.as_str())),
        None => check_answer(question, selected, None),
    };
    match checked {
        Ok(()) => {},
        Err(m) => return Err(m),
    }
    if char_count_over(&other) || char_count_over(&kept_notes) {
        return Err(string_of(&chars_of("text fields are limited to 2000 characters")));
    }
    Ok((other, kept_notes))
}

/// The first declared question with this key.
pub open spec fn question_index(declared: Seq<Question>, key: Seq<char>) -> Option<int> {
    if exists|i: int| 0 <= i < declared.len() && #[trigger] declared[i].key@ == key {
        Some(
            choose|i: int|
                0 <= i < declared.len() && #[trigger] declared[i].key@ == key && forall|j: int|
                    0 <= j < i ==> #[trigger] declared[j].key@ != key,
        )
    } else {
        None
    }
}

/// Where the question an answer is for stands among those the latest revision
/// declares.
pub fn find_question(declared: &[Question], key: &str) -> (out: Option<usize>)
    ensures
        match out {
            Some(i) => question_index(declared@, key@) == Some(i as int),
            None => question_index(declared@, key@) is None,
        },
{
    let mut i: usize = 0;
    while i < declared.len()
        invariant
            i <= declared.len(),
            forall|j: int| 0 <= j < i ==> #[trigger] declared@[j].key@ != key@,
        decreases declared.len() - i,
    {
        if crate::text::str_is(declared[i].key.as_str(), key) {
            proof {
                let k = choose|k: int|
                    0 <= k < declared@.len() && #[trigger] declared@[k].key@ == key@ && forall|j: int|
                        0 <= j < k ==> #[trigger] declared@[j].key@ != key@;
                assert(k == i) by {
                    if k > i {
                        assert(declared@[i as int].key@ != key@);
                    }
                }
            }
            return Some(i);
        }
        i = i + 1;
    }
    None
}

/// Why a publish is refused before the password is hashed, if it is.
pub fn check_publish_password(password: &str) -> (out: Result<(), String>)
    ensures
        match out {
            Ok(()) => password@.len() > 0,
            Err(m) => password@.len() == 0 && m@ == "password must not be empty"@,
        },
{
    if chars_of(password).len() == 0 {
        Err(string_of(&chars_of("password must not be empty")))
    } else {
        Ok(())
    }
}


/// The JSON text of a list of strings, as `serde_json` writes it.
pub uninterp spec fn json_of_strings(list: Seq<Seq<char>>) -> Seq<char>;

/// The list of strings a JSON text holds, as `serde_json` reads it, or `None`
/// when it holds something else.
pub uninterp spec fn parsed_string_list(text: Seq<char>) -> Option<Seq<Seq<char>>>;

/// `serde_json::to_string` of a list of strings, which cannot fail. The result
/// is named `json_of_strings`; the contract also states what `serde_json`
/// reads back from it: the same list.
#[verifier::external_body]
fn encode_selection(selected: &[String]) -> (out: String)
    ensures
        out@ == json_of_strings(string_views(selected@)),
        parsed_string_list(out@) == Some(string_views(selected@)),
{
    serde_json::to_string(selected).expect("a list of strings always serialises")
}

/// `serde_json::from_str::<Vec<String>>`; `None` where it fails. The result is
/// named `parsed_string_list`.
#[verifier::external_body]
fn decode_selection(text: &str) -> (out: Option<Vec<String>>)
    ensures
        match out {
            Some(v) => parsed_string_list(text@) == Some(string_views(v@)),
            None => parsed_string_list(text@) is None,
        },
{
    serde_json::from_str::<Vec<String>>(text).ok()
}

/// An answer as it is stored on the document: keyed by question, the
/// selection as JSON text.
pub struct AnswerRow {
    pub key: String,
    pub selected: String,
    pub other_text: Option<String>,
    pub notes: Option<String>,
    pub answered_at: String,
}

/// An answer as it goes into storage: the selection as JSON text, and the
/// written answer and notes that were kept.
pub struct NewAnswer {
    pub selected: String,
    pub other_text: Option<String>,
    pub notes: Option<String>,
}

/// The answer to store for a question, once `check_answer_body` accepts it:
/// the selection written as JSON, the kept text as it was kept. The JSON text
/// reads back as the selection.
pub fn answer_to_store(question: &Question, selected: &[String], other_text: Option<String>, notes: Option<
    String,
>) -> (out: Result<NewAnswer, String>)
    ensures
        match out {
            Ok(a) => {
                &&& answer_result(*question, selected@, opt_view(other_text), opt_view(notes)) == Ok::<
                    (Option<Seq<char>>, Option<Seq<char>>),
                    Seq<char>,
                >((opt_view(a.other_text), opt_view(a.notes)))
                &&& a.selected@ == json_of_strings(string_views(selected@))
                &&& parsed_string_list(a.selected@) == Some(string_views(selected@))
            },
            Err(m) => answer_result(*question, selected@, opt_view(other_text), opt_view(notes)) == Err::<
                (Option<Seq<char>>, Option<Seq<char>>),
                Seq<char>,
            >(m@),
        },
{
    let (kept_other, kept_notes) = match check_answer_body(question, selected, other_text, notes) {
        Ok(kept) => kept,
        Err(m) => return Err(m),
    };
    Ok(NewAnswer { selected: encode_selection(selected), other_text: kept_other, notes: kept_notes })
}

/// The first stored answer for a key.
pub open spec fn row_for(rows: Seq<AnswerRow>, key: Seq<char>) -> Option<AnswerRow>
    decreases rows.len(),
{
    if rows.len() == 0 {
        None
    } else if rows[0].key@ == key {
        Some(rows[0])
    } else {
        row_for(rows.drop_first(), key)
    }
}

/// Whether `answer` is what a stored row says: its selection read from JSON
/// and its other fields as stored.
pub open spec fn answer_from_row(answer: Option<Answer>, row: Option<AnswerRow>) -> bool {
    match row {
        None => answer is None,
        Some(r) => match parsed_string_list(r.selected@) {
            None => answer is None,
            Some(sel) => answer matches Some(a) && string_views(a.selected@) == sel && opt_view(a.other_text)
                == opt_view(r.other_text) && opt_view(a.notes) == opt_view(r.notes) && a.answered_at@
                == r.answered_at@,
        },
    }
}

fn find_row(rows: &[AnswerRow], key: &str) -> (out: Option<usize>)
    ensures
        match out {
            Some(i) => i < rows@.len() && row_for(rows@, key@) == Some(rows@[i as int]),
            None => row_for(rows@, key@) is None,
        },
{
    let mut i: usize = 0;
    assert(rows@.skip(0) =~= rows@);
    while i < rows.len()
        invariant
            i <= rows.len(),
            row_for(rows@, key@) == row_for(rows@.skip(i as int), key@),
        decreases rows.len() - i,
    {
        assert(rows@.skip(i as int)[0] == rows@[i as int]);
        assert(rows@.skip(i as int).drop_first() =~= rows@.skip(i + 1));
        if crate::text::str_is(rows[i].key.as_str(), key) {
            return Some(i);
        }
        i = i + 1;
    }
    None
}

fn copy_opt(o: &Option<String>) -> (out: Option<String>)
    ensures
        opt_view(out) == opt_view(*o),
{
    match o {
        Some(s) => Some(string_of(&chars_of(s.as_str()))),
        None => None,
    }
}

/// Each declared question joined to the owner's answer, which lives on the
/// document and so survives a new revision declaring the same key again. A
/// stored selection that does not read back as a list counts as no answer.
pub fn join_answers(questions: Vec<Question>, rows: &[AnswerRow]) -> (out: Vec<AnsweredQuestion>)
    ensures
        out@.len() == questions@.len(),
        forall|i: int|
            0 <= i < out@.len() ==> (#[trigger] out@[i]).question == questions@[i] && answer_from_row(
                out@[i].answer,
                row_for(rows@, questions@[i].key@),
            ),
{
    let ghost qs = questions@;
    let n = questions.len();
    let mut out: Vec<AnsweredQuestion> = Vec::new();
    let mut rest = questions;
    let mut i: usize = 0;
    assert(rest@ =~= qs.skip(0));
    while rest.len() > 0
        invariant
            i + rest@.len() == qs.len(),
            qs.len() == n,
            rest@ == qs.skip(i as int),
            out@.len() == i,
            forall|k: int|
                0 <= k < i ==> (#[trigger] out@[k]).question == qs[k] && answer_from_row(
                    out@[k].answer,
                    row_for(rows@, qs[k].key@),
                ),
        decreases rest.len(),
    {
        let ghost before = out@;
        let q = rest.remove(0);
        assert(q == qs[i as int]);
        let answer = match find_row(rows, q.key.as_str()) {
            None => None,
            Some(j) => {
                let r = &rows[j];
                match decode_selection(r.selected.as_str()) {
                    None => None,
                    Some(sel) => Some(
                        Answer {
                            selected: sel,
                            other_text: copy_opt(&r.other_text),
                            notes: copy_opt(&r.notes),
                            answered_at: string_of(&chars_of(r.answered_at.as_str())),
                        },
                    ),
                }
            },
        };
        out.push(AnsweredQuestion { question: q, answer });
        assert(out@[i as int].question == qs[i as int]);
        assert forall|k: int| 0 <= k < i implies (#[trigger] out@[k]).question == qs[k] && answer_from_row(
            out@[k].answer,
            row_for(rows@, qs[k].key@),
        ) by {
            assert(out@[k] == before[k]);
        }
        assert(qs.skip(i + 1) =~= qs.skip(i as int).drop_first());
        i = i + 1;
    }
    out
}

/// An answer as plain values: selection, written answer, notes, when.
pub open spec fn answer_view(a: Option<Answer>) -> Option<(Seq<Seq<char>>, Option<Seq<char>>, Option<Seq<char>>, Seq<char>)> {
    match a {
        None => None,
        Some(x) => Some((string_views(x.selected@), opt_view(x.other_text), opt_view(x.notes), x.answered_at@)),
    }
}

/// An answer lives on the document, keyed by its question, and not on the
/// revision that asked it: any two revisions that declare a question with the
/// same key, joined with the same stored answers by `join_answers`, show the
/// same answer for it, or none in both.
pub proof fn lemma_answer_outlives_its_revision(
    rows: Seq<AnswerRow>,
    earlier: Seq<Question>,
    later: Seq<Question>,
    joined_earlier: Seq<AnsweredQuestion>,
    joined_later: Seq<AnsweredQuestion>,
    i: int,
    j: int,
)
    requires
        joined_earlier.len() == earlier.len(),
        joined_later.len() == later.len(),
        forall|k: int|
            0 <= k < joined_earlier.len() ==> (#[trigger] joined_earlier[k]).question == earlier[k] && answer_from_row(
                joined_earlier[k].answer,
                row_for(rows, earlier[k].key@),
            ),
        forall|k: int|
            0 <= k < joined_later.len() ==> (#[trigger] joined_later[k]).question == later[k] && answer_from_row(
                joined_later[k].answer,
                row_for(rows, later[k].key@),
            ),
        0 <= i < earlier.len(),
        0 <= j < later.len(),
        earlier[i].key@ == later[j].key@,
    ensures
        answer_view(joined_earlier[i].answer) == answer_view(joined_later[j].answer),
{
    assert(joined_earlier[i].question == earlier[i]);
    assert(joined_later[j].question == later[j]);
}

/// What an answer stores is what a later read gives back: a row holding an
/// answer `answer_to_store` produced reads back as that selection, written
/// answer and notes.
pub proof fn lemma_stored_answer_reads_back(
    stored: NewAnswer,
    selected: Seq<String>,
    key: String,
    answered_at: String,
    answer: Option<Answer>,
)
    requires
        parsed_string_list(stored.selected@) == Some(string_views(selected)),
        answer_from_row(
            answer,
            Some(
                AnswerRow {
                    key,
                    selected: stored.selected,
                    other_text: stored.other_text,
                    notes: stored.notes,
                    answered_at,
                },
            ),
        ),
    ensures
        answer matches Some(a) && string_views(a.selected@) == string_views(selected) && opt_view(a.other_text)
            == opt_view(stored.other_text) && opt_view(a.notes) == opt_view(stored.notes),
{
}

/// How many fresh public ids a new document tries before giving up.
pub const PUBLIC_ID_ATTEMPTS: u32 = 5;

/// What follows one try at storing a new document under a fresh public id.
pub enum MintStep {
    /// The id was free: the document has it.
    Minted,
    /// The id was taken: draw another.
    Retry,
    /// Every try found its id taken: the push fails.
    Exhausted,
}

pub open spec fn mint_step(attempts_made: u32, unique_violation: bool) -> MintStep {
    if !unique_violation {
        MintStep::Minted
    } else if attempts_made < PUBLIC_ID_ATTEMPTS {
        MintStep::Retry
    } else {
        MintStep::Exhausted
    }
}

/// After `attempts_made` tries at a new document's public id, the last of
/// which stored it or found the id taken: a taken id is drawn again, five
/// tries in all.
pub fn after_public_id_attempt(attempts_made: u32, unique_violation: bool) -> (out: MintStep)
    ensures
        out == mint_step(attempts_made, unique_violation),
{
    if !unique_violation {
        MintStep::Minted
    } else if attempts_made < PUBLIC_ID_ATTEMPTS {
        MintStep::Retry
    } else {
        MintStep::Exhausted
    }
}

/// A push never tries more than five public ids: from the fifth try on, a
/// taken id ends the push instead of drawing again.
pub proof fn lemma_public_id_tries_are_bounded(attempts_made: u32, unique_violation: bool)
    ensures
        mint_step(attempts_made, unique_violation) is Retry ==> attempts_made < 5,
        attempts_made >= 5 ==> !(mint_step(attempts_made, unique_violation) is Retry),
{
}

/// The number a new revision gets: one past the latest, or 1 for the first;
/// `None` where that number does not fit.
pub open spec fn next_revision_of(latest: Option<i64>) -> Option<i64> {
    match latest {
        None => Some(1),
        Some(l) => if l < i64::MAX {
            Some((l + 1) as i64)
        } else {
            None
        },
    }
}

pub fn next_revision(latest: Option<i64>) -> (out: Option<i64>)
    ensures
        out == next_revision_of(latest),
        latest is None ==> out == Some(1i64),
        (latest matches Some(l) && l < i64::MAX) ==> out == Some((latest->0 + 1) as i64),
        latest == Some(i64::MAX) ==> out is None,
{
    match latest {
        None => Some(1),
        Some(l) => if l < i64::MAX {
            Some(l + 1)
        } else {
            None
        },
    }
}

/// What a push reads and writes in one account's store, as plain values:
/// each slug's public id and latest revision.
pub type DocumentStore = Map<Seq<char>, (Seq<char>, i64)>;

/// One push of `slug` against the store: a slug seen before keeps its public
/// id and gets the next revision; a new one takes `fresh_id`, the id the push
/// minted, and revision 1. The result is the id and the revision, or `None`
/// where the revision number would not fit, and then the store is unchanged.
pub open spec fn push_in(store: DocumentStore, slug: Seq<char>, fresh_id: Seq<char>) -> (
    DocumentStore,
    Option<(Seq<char>, i64)>,
) {
    let (id, latest) = if store.contains_key(slug) {
        (store[slug].0, Some(store[slug].1))
    } else {
        (fresh_id, None)
    };
    match next_revision_of(latest) {
        None => (store, None),
        Some(r) => (store.insert(slug, (id, r)), Some((id, r))),
    }
}

/// Pushes of one slug append revisions at one address: the first push of a
/// slug is revision 1 under the id it minted, and the next push of that slug,
/// whatever id it would have minted, is revision 2 under the same id, so at
/// the same document URL.
pub proof fn lemma_pushes_append_at_one_address(
    store: DocumentStore,
    slug: Seq<char>,
    fresh_id: Seq<char>,
    another_id: Seq<char>,
    docs: Seq<char>,
)
    requires
        !store.contains_key(slug),
    ensures
        push_in(store, slug, fresh_id).1 == Some((fresh_id, 1i64)),
        push_in(push_in(store, slug, fresh_id).0, slug, another_id).1 == Some((fresh_id, 2i64)),
        document_url_of(docs, (push_in(push_in(store, slug, fresh_id).0, slug, another_id).1->0).0, slug)
            == document_url_of(docs, fresh_id, slug),
{
    let first = push_in(store, slug, fresh_id).0;
    assert(first.contains_key(slug) && first[slug] == (fresh_id, 1i64));
}

/// The stored objects a deleted document frees, in the order they were
/// gathered: those nothing references any more. `referenced[i]` is whether
/// anything still references `keys[i]`, or `None` where that could not be
/// told; such an object is kept, as is one still referenced.
pub open spec fn freed_objects(keys: Seq<Seq<char>>, referenced: Seq<Option<bool>>) -> Seq<Seq<char>>
    decreases keys.len(),
{
    if keys.len() == 0 || referenced.len() == 0 {
        Seq::empty()
    } else {
        let rest = freed_objects(keys.drop_last(), referenced.drop_last());
        if referenced.last() == Some(false) {
            rest.push(keys.last())
        } else {
            rest
        }
    }
}

pub fn objects_to_free(keys: &[String], referenced: &[Option<bool>]) -> (out: Vec<String>)
    requires
        keys@.len() == referenced@.len(),
    ensures
        string_views(out@) == freed_objects(string_views(keys@), referenced@),
{
    let mut out: Vec<String> = Vec::new();
    let mut i: usize = 0;
    while i < keys.len()
        invariant
            i <= keys@.len(),
            keys@.len() == referenced@.len(),
            string_views(out@) == freed_objects(string_views(keys@.take(i as int)), referenced@.take(i as int)),
        decreases keys.len() - i,
    {
        proof {
            assert(string_views(keys@.take(i + 1)).drop_last() =~= string_views(keys@.take(i as int)));
            assert(referenced@.take(i + 1).drop_last() =~= referenced@.take(i as int));
        }
        if referenced[i] == Some(false) {
            out.push(string_of(&chars_of(keys[i].as_str())));
            proof {
                assert(string_views(out@) =~= freed_objects(string_views(keys@.take(i as int)), referenced@.take(i as int)).push(keys@[i as int]@));
            }
        }
        i = i + 1;
    }
    proof {
        assert(keys@.take(i as int) =~= keys@);
        assert(referenced@.take(i as int) =~= referenced@);
    }
    out
}

/// A normalised tag list names no tag twice, and every tag in it has the
/// shape a tag must have.
pub proof fn lemma_normalized_tags_are_distinct(tags: Seq<String>)
    requires
        tags_result(tags) is Ok,
    ensures
        forall|i: int, j: int|
            0 <= i < j < tags_result(tags)->Ok_0.len() ==> #[trigger] tags_result(tags)->Ok_0[i]
                != #[trigger] tags_result(tags)->Ok_0[j],
        forall|i: int|
            0 <= i < tags_result(tags)->Ok_0.len() ==> slug_shaped(#[trigger] tags_result(tags)->Ok_0[i], 1, 32),
    decreases tags.len(),
{
    if tags.len() > 0 {
        lemma_normalized_tags_are_distinct(tags.drop_last());
        let acc = tags_result(tags.drop_last())->Ok_0;
        let t = tag_result(tags.last()@)->Ok_0;
        let out = tags_result(tags)->Ok_0;
        if !acc.contains(t) {
            assert(out == acc.push(t));
            assert forall|i: int, j: int| 0 <= i < j < out.len() implies #[trigger] out[i] != #[trigger] out[j] by {
                if j == acc.len() {
                    assert(out[i] == acc[i]);
                    assert(out[j] == t);
                } else {
                    assert(out[i] == acc[i]);
                    assert(out[j] == acc[j]);
                }
            }
            assert forall|i: int| 0 <= i < out.len() implies slug_shaped(#[trigger] out[i], 1, 32) by {
                if i < acc.len() {
                    assert(out[i] == acc[i]);
                }
            }
        }
    }
}

} // verus!
