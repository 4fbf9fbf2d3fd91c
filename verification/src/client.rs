//! What the document service answers to its agent tool, as the tool reads it.

use vstd::prelude::*;

verus! {

pub struct PushedDocument {
    pub id: String,
    pub slug: String,
    pub revision: i64,
    pub size_bytes: i64,
    pub url: String,
    /// What the revision holds, so a caller can check that every asset it
    /// linked from the entry document arrived at the path the link uses
    pub files: Vec<File>,
}

/// One stored file, served at `<document url>/<path>`.
pub struct File {
    pub path: String,
    pub size_bytes: i64,
    pub content_type: String,
}

pub struct Revision {
    pub revision: i64,
    pub size_bytes: i64,
    pub created_at: String,
    pub files: Vec<File>,
}

pub struct DocumentInfo {
    pub id: String,
    pub slug: String,
    pub title: Option<String>,
    pub project: Option<String>,
    pub tags: Vec<String>,
    pub published: bool,
    pub created_at: String,
    pub updated_at: String,
    pub url: String,
    pub revisions: Vec<Revision>,
    /// What the latest revision asks, and what the owner answered
    pub questions: Vec<AnsweredQuestion>,
}

/// A question as it comes back, carrying the reader's decision or nothing.
pub struct AnsweredQuestion {
    pub key: String,
    pub prompt: String,
    pub anchor: Option<String>,
    pub options: Vec<AnsweredOption>,
    /// `None` until the reader decides.
    pub answer: Option<Answer>,
}

pub struct AnsweredOption {
    pub value: String,
    pub label: String,
    pub detail: Option<String>,
}

pub struct Answer {
    /// Option values the reader picked, or `other` when they wrote their own.
    pub selected: Vec<String>,
    /// What they wrote, when `selected` holds `other`.
    pub other_text: Option<String>,
    pub notes: Option<String>,
    pub answered_at: String,
}

pub struct DocumentSummary {
    pub id: String,
    pub slug: String,
    pub title: Option<String>,
    pub project: Option<String>,
    pub tags: Vec<String>,
    pub published: bool,
    pub revision_count: i64,
    pub latest_revision: i64,
    pub questions_total: i64,
    pub questions_answered: i64,
    pub last_pushed_at: String,
    pub created_at: String,
    pub updated_at: String,
    pub url: String,
}

pub struct ProjectSummary {
    pub slug: String,
    pub aliases: Vec<String>,
    pub document_count: i64,
    pub last_pushed_at: Option<String>,
    pub has_favicon_light: bool,
    pub has_favicon_dark: bool,
}

/// One file of a revision, read from disk by the tool rather than passed
/// through the model.
pub struct FilePart {
    pub path: String,
    pub bytes: Vec<u8>,
}

} // verus!
