//! Decisions a document asks its reader, and the rules an answer must fit.

use vstd::prelude::*;

use crate::text::{append_str, chars_of, is_whitespace, is_whitespace_char, string_of, trim};

verus! {

pub const OTHER: &'static str = "other";
pub const MAX_QUESTIONS: usize = 32;
pub const MAX_OPTIONS: usize = 12;
pub const MIN_OPTIONS: usize = 2;
pub const MAX_TEXT: usize = 2000;

pub struct Question {
    /// Stable across revisions; an answer is keyed by this, not by revision.
    pub key: String,
    pub prompt: String,
    pub detail: Option<String>,
    /// An element id in the document; the widget places the card after it.
    pub anchor: Option<String>,
    pub multiple: bool,
    pub options: Vec<QuestionOption>,
}

pub struct QuestionOption {
    pub value: String,
    pub label: String,
    pub detail: Option<String>,
}

pub struct Answer {
    pub selected: Vec<String>,
    pub other_text: Option<String>,
    pub notes: Option<String>,
    pub answered_at: String,
}

/// A question with whatever the owner decided about it.
pub struct AnsweredQuestion {
    pub question: Question,
    pub answer: Option<Answer>,
}

pub open spec fn is_key_char(c: char) -> bool {
    ('a' <= c <= 'z') || ('A' <= c <= 'Z') || ('0' <= c <= '9') || c == '_' || c == '-'
}

/// `[A-Za-z0-9_-]{1,64}`. Every accepted character is one byte, so counting
/// characters here counts the key's bytes.
pub open spec fn is_key(s: Seq<char>) -> bool {
    1 <= s.len() <= 64 && forall|i: int| 0 <= i < s.len() ==> is_key_char(#[trigger] s[i])
}

/// Whether text is empty once whitespace is trimmed.
pub open spec fn is_blank(s: Seq<char>) -> bool {
    trim(s).len() == 0
}

pub proof fn lemma_blank_iff_all_whitespace(s: Seq<char>)
    ensures
        is_blank(s) <==> forall|i: int| 0 <= i < s.len() ==> is_whitespace(#[trigger] s[i]),
    decreases s.len(),
{
    crate::text::lemma_trim_empty(s);
}

pub fn is_key_exec(s: &str) -> (b: bool)
    ensures
        b == is_key(s@),
{
    let c = chars_of(s);
    if c.len() < 1 || c.len() > 64 {
        return false;
    }
    let mut i: usize = 0;
    while i < c.len()
        invariant
            i <= c.len(),
            c@ == s@,
            forall|j: int| 0 <= j < i ==> is_key_char(#[trigger] c@[j]),
        decreases c.len() - i,
    {
        let ch = c[i];
        if !(('a' <= ch && ch <= 'z') || ('A' <= ch && ch <= 'Z') || ('0' <= ch && ch <= '9') || ch == '_'
            || ch == '-') {
            assert(!is_key_char(s@[i as int]));
            return false;
        }
        i = i + 1;
    }
    true
}

pub fn is_blank_exec(s: &str) -> (b: bool)
    ensures
        b == is_blank(s@),
{
    proof {
        lemma_blank_iff_all_whitespace(s@);
    }
    let c = chars_of(s);
    let mut i: usize = 0;
    while i < c.len()
        invariant
            i <= c.len(),
            c@ == s@,
            is_blank(s@) <==> forall|j: int| 0 <= j < s@.len() ==> is_whitespace(#[trigger] s@[j]),
            forall|j: int| 0 <= j < i ==> is_whitespace(#[trigger] c@[j]),
        decreases c.len() - i,
    {
        if !is_whitespace_char(c[i]) {
            assert(!is_whitespace(s@[i as int]));
            return false;
        }
        i = i + 1;
    }
    true
}

pub open spec fn key_pattern() -> Seq<char> {
    " must match [A-Za-z0-9_-]{1,64}"@
}

/// The first problem with the options of a question, from the `start`th on.
pub open spec fn option_error(key: Seq<char>, options: Seq<QuestionOption>, start: int) -> Option<Seq<char>>
    decreases options.len() - start,
{
    if start < 0 || start >= options.len() {
        None
    } else {
        let option = options[start];
        let value = option.value@;
        if !is_key(value) {
            Some("option "@ + value + " of question "@ + key + key_pattern())
        } else if value == OTHER@ {
            Some(
                "question "@ + key
                    + " may not declare an option named other; the widget always offers one"@,
            )
        } else if is_blank(option.label@) {
            Some("option "@ + value + " of question "@ + key + " needs a label"@)
        } else if exists|j: int| 0 <= j < start && #[trigger] options[j].value@ == value {
            Some("duplicate option "@ + value + " in question "@ + key)
        } else {
            option_error(key, options, start + 1)
        }
    }
}

/// The first problem with a question, in the order the checks run.
pub open spec fn question_error(question: Question) -> Option<Seq<char>> {
    let key = question.key@;
    if !is_key(key) {
        Some("question key "@ + key + key_pattern())
    } else if is_blank(question.prompt@) {
        Some("question "@ + key + " needs a prompt"@)
    } else if !(2 <= question.options@.len() <= 12) {
        Some("question "@ + key + " needs between 2 and 12 options"@)
    } else if question.anchor is Some && !is_key(question.anchor->0@) {
        Some("question "@ + key + " anchor must match [A-Za-z0-9_-]{1,64}"@)
    } else {
        option_error(key, question.options@, 0)
    }
}

/// The first problem with a revision's question set, from the `start`th on.
pub open spec fn questions_error_from(questions: Seq<Question>, start: int) -> Option<Seq<char>>
    decreases questions.len() - start,
{
    if start < 0 || start >= questions.len() {
        None
    } else {
        match question_error(questions[start]) {
            Some(message) => Some(message),
            None => if exists|j: int| 0 <= j < start && #[trigger] questions[j].key@ == questions[start].key@ {
                Some("duplicate question key "@ + questions[start].key@)
            } else {
                questions_error_from(questions, start + 1)
            },
        }
    }
}

/// What `validate_all` rejects a question set for, if anything.
pub open spec fn questions_error(questions: Seq<Question>) -> Option<Seq<char>> {
    if questions.len() > 32 {
        Some("at most 32 questions per revision"@)
    } else {
        questions_error_from(questions, 0)
    }
}

fn message2(a: &str, b: &str) -> (out: String)
    ensures
        out@ == a@ + b@,
{
    let mut v = chars_of(a);
    append_str(&mut v, b);
    string_of(&v)
}

fn message4(a: &str, b: &str, c: &str, d: &str) -> (out: String)
    ensures
        out@ == a@ + b@ + c@ + d@,
{
    let mut v = chars_of(a);
    append_str(&mut v, b);
    append_str(&mut v, c);
    append_str(&mut v, d);
    string_of(&v)
}

fn message3(a: &str, b: &str, c: &str) -> (out: String)
    ensures
        out@ == a@ + b@ + c@,
{
    let mut v = chars_of(a);
    append_str(&mut v, b);
    append_str(&mut v, c);
    string_of(&v)
}

fn message5(a: &str, b: &str, c: &str, d: &str, e: &str) -> (out: String)
    ensures
        out@ == a@ + b@ + c@ + d@ + e@,
{
    let mut v = chars_of(a);
    append_str(&mut v, b);
    append_str(&mut v, c);
    append_str(&mut v, d);
    append_str(&mut v, e);
    string_of(&v)
}

fn str_eq(a: &str, b: &str) -> (eq: bool)
    ensures
        eq == (a@ == b@),
{
    crate::text::str_is(a, b)
}

/// Whether the `i`th option's value was already declared by an earlier one.
fn value_seen_before(options: &Vec<QuestionOption>, i: usize) -> (seen: bool)
    requires
        i < options.len(),
    ensures
        seen == exists|j: int| 0 <= j < i && #[trigger] options@[j].value@ == options@[i as int].value@,
{
    let mut j: usize = 0;
    while j < i
        invariant
            j <= i < options.len(),
            forall|k: int| 0 <= k < j ==> #[trigger] options@[k].value@ != options@[i as int].value@,
        decreases i - j,
    {
        if str_eq(options[j].value.as_str(), options[i].value.as_str()) {
            return true;
        }
        j = j + 1;
    }
    false
}

/// Whether the `i`th question's key was already used by an earlier one.
fn key_seen_before(questions: &[Question], i: usize) -> (seen: bool)
    requires
        i < questions.len(),
    ensures
        seen == exists|j: int| 0 <= j < i && #[trigger] questions@[j].key@ == questions@[i as int].key@,
{
    let mut j: usize = 0;
    while j < i
        invariant
            j <= i < questions.len(),
            forall|k: int| 0 <= k < j ==> #[trigger] questions@[k].key@ != questions@[i as int].key@,
        decreases i - j,
    {
        if str_eq(questions[j].key.as_str(), questions[i].key.as_str()) {
            return true;
        }
        j = j + 1;
    }
    false
}

fn validate_options(question: &Question) -> (out: Result<(), String>)
    ensures
        match out {
            Ok(()) => option_error(question.key@, question.options@, 0) is None,
            Err(m) => option_error(question.key@, question.options@, 0) == Some(m@),
        },
{
    let key = question.key.as_str();
    let options = &question.options;
    let mut i: usize = 0;
    while i < options.len()
        invariant
            i <= options.len(),
            key@ == question.key@,
            options@ == question.options@,
            option_error(key@, options@, 0) == option_error(key@, options@, i as int),
        decreases options.len() - i,
    {
        let option = &options[i];
        let value = option.value.as_str();
        if !is_key_exec(value) {
            return Err(message5("option ", value, " of question ", key, " must match [A-Za-z0-9_-]{1,64}"));
        }
        if str_eq(value, OTHER) {
            return Err(message3(
                "question ",
                key,
                " may not declare an option named other; the widget always offers one",
            ));
        }
        if is_blank_exec(option.label.as_str()) {
            return Err(message5("option ", value, " of question ", key, " needs a label"));
        }
        if value_seen_before(options, i) {
            return Err(message4("duplicate option ", value, " in question ", key));
        }
        i = i + 1;
    }
    Ok(())
}

fn validate(question: &Question) -> (out: Result<(), String>)
    ensures
        match out {
            Ok(()) => question_error(*question) is None,
            Err(m) => question_error(*question) == Some(m@),
        },
{
    let key = question.key.as_str();
    if !is_key_exec(key) {
        return Err(message3("question key ", key, " must match [A-Za-z0-9_-]{1,64}"));
    }
    if is_blank_exec(question.prompt.as_str()) {
        return Err(message3("question ", key, " needs a prompt"));
    }
    if question.options.len() < MIN_OPTIONS || question.options.len() > MAX_OPTIONS {
        return Err(message3("question ", key, " needs between 2 and 12 options"));
    }
    match &question.anchor {
        Some(anchor) => {
            if !is_key_exec(anchor.as_str()) {
                return Err(message3("question ", key, " anchor must match [A-Za-z0-9_-]{1,64}"));
            }
        },
        None => {},
    }
    validate_options(question)
}

/// Checks a revision's question set: at most 32, each well formed, and no key
/// twice.
pub fn validate_all(questions: &[Question]) -> (out: Result<(), String>)
    ensures
        match out {
            Ok(()) => questions_error(questions@) is None,
            Err(m) => questions_error(questions@) == Some(m@),
        },
{
    if questions.len() > MAX_QUESTIONS {
        return Err(string_of(&chars_of("at most 32 questions per revision")));
    }
    let mut i: usize = 0;
    while i < questions.len()
        invariant
            i <= questions.len() <= 32,
            questions_error_from(questions@, 0) == questions_error_from(questions@, i as int),
        decreases questions.len() - i,
    {
        let question = &questions[i];
        match validate(question) {
            Ok(()) => {},
            Err(m) => return Err(m),
        }
        if key_seen_before(questions, i) {
            return Err(message2("duplicate question key ", question.key.as_str()));
        }
        i = i + 1;
    }
    Ok(())
}


/// Whether the question offers an option with this value.
pub open spec fn offered(question: Question, value: Seq<char>) -> bool {
    exists|k: int| 0 <= k < question.options@.len() && #[trigger] question.options@[k].value@ == value
}

/// The first problem with the selected values, from the `start`th on: one
/// chosen twice, or one the question does not offer (the written answer is
/// always offered).
pub open spec fn selection_error_from(question: Question, selected: Seq<String>, start: int) -> Option<Seq<char>>
    decreases selected.len() - start,
{
    if start < 0 || start >= selected.len() {
        None
    } else {
        let value = selected[start]@;
        if exists|j: int| 0 <= j < start && #[trigger] selected[j]@ == value {
            Some("option "@ + value + " selected twice"@)
        } else if value != OTHER@ && !offered(question, value) {
            Some("option "@ + value + " was not offered"@)
        } else {
            selection_error_from(question, selected, start + 1)
        }
    }
}

/// Whether the written answer is among the selected values.
pub open spec fn wrote_other(selected: Seq<String>) -> bool {
    exists|j: int| 0 <= j < selected.len() && #[trigger] selected[j]@ == OTHER@
}

/// Whether text was given that is more than whitespace.
pub open spec fn has_text(other_text: Option<Seq<char>>) -> bool {
    other_text is Some && !is_blank(other_text->0)
}

/// What `check_answer` rejects an answer for, if anything.
pub open spec fn answer_error(question: Question, selected: Seq<String>, other_text: Option<Seq<char>>) -> Option<Seq<char>> {
    if selected.len() == 0 {
        Some("select at least one option"@)
    } else if !question.multiple && selected.len() > 1 {
        Some("this question takes a single answer"@)
    } else if selection_error_from(question, selected, 0) is Some {
        selection_error_from(question, selected, 0)
    } else if wrote_other(selected) && !has_text(other_text) {
        Some("a written answer needs text"@)
    } else if !wrote_other(selected) && has_text(other_text) {
        Some("text was given without selecting a written answer"@)
    } else {
        None
    }
}

pub open spec fn opt_str_view(o: Option<&str>) -> Option<Seq<char>> {
    match o {
        Some(s) => Some(s@),
        None => None,
    }
}

/// Whether the `i`th selected value was already selected earlier.
fn selected_before(selected: &[String], i: usize) -> (seen: bool)
    requires
        i < selected.len(),
    ensures
        seen == exists|j: int| 0 <= j < i && #[trigger] selected@[j]@ == selected@[i as int]@,
{
    let mut j: usize = 0;
    while j < i
        invariant
            j <= i < selected.len(),
            forall|k: int| 0 <= k < j ==> #[trigger] selected@[k]@ != selected@[i as int]@,
        decreases i - j,
    {
        if str_eq(selected[j].as_str(), selected[i].as_str()) {
            return true;
        }
        j = j + 1;
    }
    false
}

fn is_offered(question: &Question, value: &str) -> (b: bool)
    ensures
        b == offered(*question, value@),
{
    let mut k: usize = 0;
    while k < question.options.len()
        invariant
            k <= question.options.len(),
            forall|m: int| 0 <= m < k ==> #[trigger] question.options@[m].value@ != value@,
        decreases question.options.len() - k,
    {
        if str_eq(question.options[k].value.as_str(), value) {
            return true;
        }
        k = k + 1;
    }
    false
}

fn selects_other(selected: &[String]) -> (b: bool)
    ensures
        b == wrote_other(selected@),
{
    let mut j: usize = 0;
    while j < selected.len()
        invariant
            j <= selected.len(),
            forall|k: int| 0 <= k < j ==> #[trigger] selected@[k]@ != OTHER@,
        decreases selected.len() - j,
    {
        if str_eq(selected[j].as_str(), OTHER) {
            return true;
        }
        j = j + 1;
    }
    false
}

/// Checks a submitted answer against the question that was asked.
pub fn check_answer(question: &Question, selected: &[String], other_text: Option<&str>) -> (out: Result<(), String>)
    ensures
        match out {
            Ok(()) => answer_error(*question, selected@, opt_str_view(other_text)) is None,
            Err(m) => answer_error(*question, selected@, opt_str_view(other_text)) == Some(m@),
        },
{
    if selected.len() == 0 {
        return Err(string_of(&chars_of("select at least one option")));
    }
    if !question.multiple && selected.len() > 1 {
        return Err(string_of(&chars_of("this question takes a single answer")));
    }
    let mut i: usize = 0;
    while i < selected.len()
        invariant
            i <= selected.len(),
            selected.len() > 0,
            question.multiple || selected.len() <= 1,
            selection_error_from(*question, selected@, 0) == selection_error_from(*question, selected@, i as int),
        decreases selected.len() - i,
    {
        let value = selected[i].as_str();
        if selected_before(selected, i) {
            return Err(message3("option ", value, " selected twice"));
        }
        if !str_eq(value, OTHER) && !is_offered(question, value) {
            return Err(message3("option ", value, " was not offered"));
        }
        i = i + 1;
    }
    let wrote = selects_other(selected);
    let text = match other_text {
        Some(t) => !is_blank_exec(t),
        None => false,
    };
    if wrote && !text {
        Err(string_of(&chars_of("a written answer needs text")))
    } else if !wrote && text {
        Err(string_of(&chars_of("text was given without selecting a written answer")))
    } else {
        Ok(())
    }
}


proof fn lemma_options_valid_from(key: Seq<char>, options: Seq<QuestionOption>, start: int)
    requires
        0 <= start,
        option_error(key, options, start) is None,
    ensures
        forall|i: int| start <= i < options.len() ==> is_key(#[trigger] options[i].value@) && options[i].value@
            != OTHER@ && !is_blank(options[i].label@),
        forall|i: int, j: int| 0 <= i < j < options.len() && start <= j ==> #[trigger] options[i].value@ != #[trigger] options[j].value@,
    decreases options.len() - start,
{
    if start < options.len() {
        lemma_options_valid_from(key, options, start + 1);
        assert(is_key(options[start].value@));
        assert(options[start].value@ != OTHER@);
        assert(!is_blank(options[start].label@));
        assert forall|i: int| start <= i < options.len() implies is_key(#[trigger] options[i].value@) && options[i].value@
            != OTHER@ && !is_blank(options[i].label@) by {
            if i == start {
                assert(is_key(options[start].value@));
            }
        }
        assert forall|i: int, j: int| 0 <= i < j < options.len() && start <= j implies #[trigger] options[i].value@
            != #[trigger] options[j].value@ by {
            if j == start {
                if options[i].value@ == options[j].value@ {
                    assert(options[i].value@ == options[start].value@);
                }
            }
        }
    }
}

/// What an accepted question looks like: a well formed key, a prompt, two to
/// twelve options with well formed and distinct values, none of them the
/// reserved written answer, and each with a label.
pub open spec fn well_formed(question: Question) -> bool {
    &&& is_key(question.key@)
    &&& !is_blank(question.prompt@)
    &&& 2 <= question.options@.len() <= 12
    &&& (question.anchor is Some ==> is_key(question.anchor->0@))
    &&& forall|i: int|
        0 <= i < question.options@.len() ==> is_key(#[trigger] question.options@[i].value@)
            && question.options@[i].value@ != OTHER@ && !is_blank(question.options@[i].label@)
    &&& forall|i: int, j: int|
        0 <= i < j < question.options@.len() ==> #[trigger] question.options@[i].value@
            != #[trigger] question.options@[j].value@
}

proof fn lemma_question_valid(question: Question)
    requires
        question_error(question) is None,
    ensures
        well_formed(question),
{
    lemma_options_valid_from(question.key@, question.options@, 0);
}

proof fn lemma_questions_valid_from(questions: Seq<Question>, start: int)
    requires
        0 <= start,
        questions_error_from(questions, start) is None,
    ensures
        forall|i: int| start <= i < questions.len() ==> well_formed(#[trigger] questions[i]),
        forall|i: int, j: int| 0 <= i < j < questions.len() && start <= j ==> #[trigger] questions[i].key@ != #[trigger] questions[j].key@,
    decreases questions.len() - start,
{
    if start < questions.len() {
        lemma_question_valid(questions[start]);
        lemma_questions_valid_from(questions, start + 1);
        assert forall|i: int, j: int| 0 <= i < j < questions.len() && start <= j implies #[trigger] questions[i].key@
            != #[trigger] questions[j].key@ by {
            if j == start {
                if questions[i].key@ == questions[j].key@ {
                    assert(questions[i].key@ == questions[start].key@);
                }
            }
        }
    }
}

/// A question set `validate_all` accepts holds at most 32 questions, each well
/// formed, and no key twice, so an answer keyed by question names one.
pub proof fn lemma_accepted_questions_are_well_formed(questions: Seq<Question>)
    requires
        questions_error(questions) is None,
    ensures
        questions.len() <= 32,
        forall|i: int| 0 <= i < questions.len() ==> well_formed(#[trigger] questions[i]),
        forall|i: int, j: int| 0 <= i < j < questions.len() ==> #[trigger] questions[i].key@ != #[trigger] questions[j].key@,
{
    lemma_questions_valid_from(questions, 0);
}

proof fn lemma_selection_valid_from(question: Question, selected: Seq<String>, start: int)
    requires
        0 <= start,
        selection_error_from(question, selected, start) is None,
    ensures
        forall|i: int| start <= i < selected.len() ==> (#[trigger] selected[i])@ == OTHER@ || offered(question, selected[i]@),
        forall|i: int, j: int| 0 <= i < j < selected.len() && start <= j ==> (#[trigger] selected[i])@ != (#[trigger] selected[j])@,
    decreases selected.len() - start,
{
    if start < selected.len() {
        lemma_selection_valid_from(question, selected, start + 1);
        assert forall|i: int, j: int| 0 <= i < j < selected.len() && start <= j implies (#[trigger] selected[i])@
            != (#[trigger] selected[j])@ by {
            if j == start {
                if selected[i]@ == selected[j]@ {
                    assert(selected[i]@ == selected[start]@);
                }
            }
        }
    }
}

/// An answer `check_answer` accepts selects at least one value, one at most
/// unless the question allows several, each offered by the question or the
/// written answer, none twice; and it carries text exactly when the written
/// answer is selected.
pub proof fn lemma_accepted_answer_fits(question: Question, selected: Seq<String>, other_text: Option<Seq<char>>)
    requires
        answer_error(question, selected, other_text) is None,
    ensures
        selected.len() >= 1,
        !question.multiple ==> selected.len() == 1,
        forall|i: int| 0 <= i < selected.len() ==> (#[trigger] selected[i])@ == OTHER@ || offered(question, selected[i]@),
        forall|i: int, j: int| 0 <= i < j < selected.len() ==> (#[trigger] selected[i])@ != (#[trigger] selected[j])@,
        wrote_other(selected) <==> has_text(other_text),
{
    lemma_selection_valid_from(question, selected, 0);
}

proof fn lemma_fitting_selection_from(question: Question, selected: Seq<String>, start: int)
    requires
        0 <= start,
        forall|i: int|
            0 <= i < selected.len() ==> (#[trigger] selected[i])@ == OTHER@ || exists|k: int|
                0 <= k < question.options@.len() && #[trigger] question.options@[k].value@ == selected[i]@,
        forall|i: int, j: int| 0 <= i < j < selected.len() ==> (#[trigger] selected[i])@ != (#[trigger] selected[j])@,
    ensures
        selection_error_from(question, selected, start) is None,
    decreases selected.len() - start,
{
    if start < selected.len() {
        let value = selected[start]@;
        assert(!(exists|j: int| 0 <= j < start && #[trigger] selected[j]@ == value)) by {
            if exists|j: int| 0 <= j < start && #[trigger] selected[j]@ == value {
                let j = choose|j: int| 0 <= j < start && #[trigger] selected[j]@ == value;
                assert(selected[j]@ != selected[start]@);
            }
        }
        if value != OTHER@ {
            let k = choose|k: int| 0 <= k < question.options@.len() && #[trigger] question.options@[k].value@ == selected[start]@;
            assert(offered(question, value)) by {
                assert(question.options@[k].value@ == value);
            }
        }
        lemma_fitting_selection_from(question, selected, start + 1);
    }
}

/// An answer that fits its question is accepted, whatever its size: at least
/// one value, only one unless the question allows several, each an offered
/// option's value or the written answer, none twice, and text exactly when
/// the written answer is selected. With `lemma_accepted_answer_fits`, this is
/// all `check_answer` asks.
pub proof fn lemma_fitting_answer_is_accepted(question: Question, selected: Seq<String>, other_text: Option<Seq<char>>)
    requires
        selected.len() >= 1,
        question.multiple || selected.len() == 1,
        forall|i: int|
            0 <= i < selected.len() ==> (#[trigger] selected[i])@ == OTHER@ || exists|k: int|
                0 <= k < question.options@.len() && #[trigger] question.options@[k].value@ == selected[i]@,
        forall|i: int, j: int| 0 <= i < j < selected.len() ==> (#[trigger] selected[i])@ != (#[trigger] selected[j])@,
        (exists|j: int| 0 <= j < selected.len() && #[trigger] selected[j]@ == OTHER@) <==> (other_text is Some
            && trim(other_text->0).len() > 0),
    ensures
        answer_error(question, selected, other_text) is None,
{
    lemma_fitting_selection_from(question, selected, 0);
}

} // verus!
