//! Reading a plan without its markup: readable text, a token-reduced outline,
//! or an accessibility report, each a deterministic function of the elements
//! the HTML parser finds.

use vstd::prelude::*;
use vstd::view::View as _;

use crate::text::{
    append_chars, append_str, chars_eq, chars_of, decimal, has_prefix, join, join_parts, join_strings, starts_with,
    string_of, string_views, views, words, words_of,
};

verus! {

/// How a plan is read.
#[derive(Clone, Copy, Debug, PartialEq, Eq, Structural)]
pub enum View {
    Html,
    Text,
    Outline,
    A11y,
}

impl Default for View {
    fn default() -> (v: View)
        ensures
            v == View::Text,
    {
        View::Text
    }
}

impl View {
    pub open spec fn name_of(self) -> Seq<char> {
        match self {
            View::Html => "html"@,
            View::Text => "text"@,
            View::Outline => "outline"@,
            View::A11y => "a11y"@,
        }
    }

    pub fn name(self) -> (out: &'static str)
        ensures
            out@ == self.name_of(),
    {
        match self {
            View::Html => "html",
            View::Text => "text",
            View::Outline => "outline",
            View::A11y => "a11y",
        }
    }
}

/// A plan read one way.
pub struct Projection {
    pub view: View,
    pub content: String,
}

/// One attribute as the parser found it: its namespace (empty for an ordinary
/// HTML attribute), its prefix, its local name and its value.
pub struct Attr {
    pub namespace: String,
    pub prefix: Option<String>,
    pub local: String,
    pub value: String,
}

impl Attr {
    /// An ordinary attribute: no namespace, no prefix.
    pub fn plain(local: String, value: String) -> (a: Attr)
        ensures
            a.namespace@.len() == 0,
            a.prefix is None,
            a.local == local,
            a.value == value,
    {
        Attr { namespace: string_of(&Vec::new()), prefix: None, local, value }
    }
}

/// One element as the parser found it: its tag name, its attributes, and the
/// text of every text node beneath it, in document order.
pub struct Element {
    pub name: String,
    pub attrs: Vec<Attr>,
    pub text: Vec<String>,
}

/// An attribute as plain values: namespace, prefix, local name, value.
pub type AttrFacts = (Seq<char>, Option<Seq<char>>, Seq<char>, Seq<char>);

/// An element as plain values: name, attributes, text nodes.
pub type Facts = (Seq<char>, Seq<AttrFacts>, Seq<Seq<char>>);

pub open spec fn attr_facts(a: Attr) -> AttrFacts {
    (a.namespace@, crate::text::opt_view(a.prefix), a.local@, a.value@)
}

pub open spec fn attrs_view(p: Seq<Attr>) -> Seq<AttrFacts> {
    p.map_values(|a: Attr| attr_facts(a))
}

pub open spec fn facts_of(e: Element) -> Facts {
    (e.name@, attrs_view(e.attrs@), string_views(e.text@))
}

pub open spec fn all_facts(es: Seq<Element>) -> Seq<Facts> {
    es.map_values(|e: Element| facts_of(e))
}

/// Every element of an HTML document, in document order, as `scraper`
/// parses it.
pub uninterp spec fn parsed_elements(source: Seq<char>) -> Seq<Facts>;

/// `Html::parse_document` and a select of every element (`*`) from the
/// `scraper` crate, each element taken as its local name, its attributes
/// (each with its namespace, prefix, local name and value) and its text nodes.
/// The result is named `parsed_elements`.
#[verifier::external_body]
fn parse_elements(source: &str) -> (out: Vec<Element>)
    ensures
        all_facts(out@) == parsed_elements(source@),
{
    let html = scraper::Html::parse_document(source);
    let every = scraper::Selector::parse("*").expect("static CSS selector");
    html.select(&every).map(|e| Element {
        name: e.value().name().to_string(),
        attrs: e.value().attrs.iter().map(|(q, v)| Attr {
            namespace: q.ns.to_string(),
            prefix: q.prefix.as_ref().map(|p| p.to_string()),
            local: q.local.to_string(),
            value: v.to_string(),
        }).collect(),
        text: e.text().map(|t| t.to_string()).collect(),
    }).collect()
}

/// The value of the attribute with this name and no namespace or prefix, as
/// an element's `attr` looks it up: a namespaced attribute such as
/// `xlink:href` is not `href`.
pub open spec fn attr_in(attrs: Seq<AttrFacts>, name: Seq<char>) -> Option<Seq<char>>
    decreases attrs.len(),
{
    if attrs.len() == 0 {
        None
    } else if attrs[0].0.len() == 0 && attrs[0].1 is None && attrs[0].2 == name {
        Some(attrs[0].3)
    } else {
        attr_in(attrs.drop_first(), name)
    }
}

/// An element's text: its text nodes joined, with every run of whitespace
/// made one space and none at either end.
pub open spec fn text_of(f: Facts) -> Seq<char> {
    join(words(join(f.2, " "@)), " "@)
}

pub open spec fn is_heading(name: Seq<char>) -> bool {
    name == "h1"@ || name == "h2"@ || name == "h3"@ || name == "h4"@ || name == "h5"@ || name == "h6"@
}

pub open spec fn is_text_block(name: Seq<char>) -> bool {
    is_heading(name) || name == "p"@ || name == "li"@ || name == "blockquote"@ || name == "pre"@ || name == "th"@
        || name == "td"@
}

/// The non-empty text of every heading, paragraph, list item, quote,
/// preformatted block and table cell.
pub open spec fn text_values(fs: Seq<Facts>) -> Seq<Seq<char>>
    decreases fs.len(),
{
    if fs.len() == 0 {
        Seq::empty()
    } else {
        let prev = text_values(fs.drop_last());
        let f = fs.last();
        if is_text_block(f.0) && text_of(f).len() > 0 {
            prev.push(text_of(f))
        } else {
            prev
        }
    }
}

pub open spec fn text_view_of(fs: Seq<Facts>) -> Seq<char> {
    join(text_values(fs), "\n\n"@)
}

/// The first element with this name.
pub open spec fn first_named(fs: Seq<Facts>, name: Seq<char>) -> Option<Facts>
    decreases fs.len(),
{
    if fs.len() == 0 {
        None
    } else if fs[0].0 == name {
        Some(fs[0])
    } else {
        first_named(fs.drop_first(), name)
    }
}

pub open spec fn title_of(fs: Seq<Facts>) -> Seq<char> {
    match first_named(fs, "title"@) {
        Some(f) => text_of(f),
        None => Seq::empty(),
    }
}

/// One outline line per heading that has text: its level, its id when it has
/// one, and its text.
pub open spec fn heading_lines(fs: Seq<Facts>) -> Seq<Seq<char>>
    decreases fs.len(),
{
    if fs.len() == 0 {
        Seq::empty()
    } else {
        let prev = heading_lines(fs.drop_last());
        let f = fs.last();
        let value = text_of(f);
        if is_heading(f.0) && value.len() > 0 {
            prev.push(
                match attr_in(f.1, "id"@) {
                    Some(id) => "H"@ + f.0.skip(1) + " ["@ + id + "] "@ + value,
                    None => "H"@ + f.0.skip(1) + " "@ + value,
                },
            )
        } else {
            prev
        }
    }
}

/// Links that stay on the page, counted, and those that leave it, each named
/// once in the order first seen.
pub open spec fn link_scan(fs: Seq<Facts>) -> (int, Seq<Seq<char>>)
    decreases fs.len(),
{
    if fs.len() == 0 {
        (0, Seq::empty())
    } else {
        let (in_page, external) = link_scan(fs.drop_last());
        let f = fs.last();
        if f.0 == "a"@ && attr_in(f.1, "href"@) is Some {
            let href = attr_in(f.1, "href"@)->0;
            if has_prefix(href, "#"@) {
                (in_page + 1, external)
            } else if external.contains(href) {
                (in_page, external)
            } else {
                (in_page, external.push(href))
            }
        } else {
            (in_page, external)
        }
    }
}

/// One `LINK` line per external address.
pub open spec fn link_names(external: Seq<Seq<char>>) -> Seq<Seq<char>>
    decreases external.len(),
{
    if external.len() == 0 {
        Seq::empty()
    } else {
        link_names(external.drop_last()).push("LINK "@ + external.last())
    }
}

pub open spec fn link_lines(fs: Seq<Facts>) -> Seq<Seq<char>> {
    let (in_page, external) = link_scan(fs);
    seq!["LINKS "@ + decimal(in_page) + " in-page, "@ + decimal(external.len() as int) + " external"@]
        + link_names(external)
}

pub open spec fn count_named(fs: Seq<Facts>, name: Seq<char>) -> nat
    decreases fs.len(),
{
    if fs.len() == 0 {
        0
    } else {
        count_named(fs.drop_last(), name) + if fs.last().0 == name {
            1nat
        } else {
            0nat
        }
    }
}

/// The non-empty parts, joined with newlines.
pub open spec fn non_empty(parts: Seq<Seq<char>>) -> Seq<Seq<char>>
    decreases parts.len(),
{
    if parts.len() == 0 {
        Seq::empty()
    } else if parts.last().len() > 0 {
        non_empty(parts.drop_last()).push(parts.last())
    } else {
        non_empty(parts.drop_last())
    }
}

/// The title, the headings, the links and how many tables: what a plan says
/// about itself without its prose.
pub open spec fn outline_view_of(fs: Seq<Facts>) -> Seq<char> {
    join(
        non_empty(
            seq![
                "TITLE "@ + title_of(fs),
                join(heading_lines(fs), "\n"@),
                join(link_lines(fs), "\n"@),
                "TABLES "@ + decimal(count_named(fs, "table"@) as int),
            ],
        ),
        "\n"@,
    )
}

pub open spec fn language_of(fs: Seq<Facts>) -> Seq<char> {
    match first_named(fs, "html"@) {
        Some(f) => match attr_in(f.1, "lang"@) {
            Some(l) => l,
            None => "missing"@,
        },
        None => "missing"@,
    }
}

pub open spec fn is_landmark(f: Facts) -> bool {
    let role = attr_in(f.1, "role"@);
    ||| f.0 == "main"@ || f.0 == "nav"@ || f.0 == "header"@ || f.0 == "footer"@ || f.0 == "aside"@
    ||| role == Some("main"@) || role == Some("navigation"@) || role == Some("banner"@) || role == Some(
        "contentinfo"@,
    ) || role == Some("complementary"@)
}

pub open spec fn is_control(name: Seq<char>) -> bool {
    name == "button"@ || name == "input"@ || name == "select"@ || name == "textarea"@
}

/// Whether an image has no `alt`, whether a link has neither text nor an
/// `aria-label`.
pub open spec fn missing_alt(f: Facts) -> bool {
    f.0 == "img"@ && attr_in(f.1, "alt"@) is None
}

pub open spec fn silent_link(f: Facts) -> bool {
    f.0 == "a"@ && attr_in(f.1, "href"@) is Some && text_of(f).len() == 0 && attr_in(f.1, "aria-label"@) is None
}

/// How many elements pass a test, one count per test.
pub open spec fn count_landmarks(fs: Seq<Facts>) -> nat
    decreases fs.len(),
{
    if fs.len() == 0 {
        0
    } else {
        count_landmarks(fs.drop_last()) + if is_landmark(fs.last()) {
            1nat
        } else {
            0nat
        }
    }
}

pub open spec fn count_missing_alt(fs: Seq<Facts>) -> nat
    decreases fs.len(),
{
    if fs.len() == 0 {
        0
    } else {
        count_missing_alt(fs.drop_last()) + if missing_alt(fs.last()) {
            1nat
        } else {
            0nat
        }
    }
}

pub open spec fn count_silent_links(fs: Seq<Facts>) -> nat
    decreases fs.len(),
{
    if fs.len() == 0 {
        0
    } else {
        count_silent_links(fs.drop_last()) + if silent_link(fs.last()) {
            1nat
        } else {
            0nat
        }
    }
}

pub open spec fn count_controls(fs: Seq<Facts>) -> nat
    decreases fs.len(),
{
    if fs.len() == 0 {
        0
    } else {
        count_controls(fs.drop_last()) + if is_control(fs.last().0) {
            1nat
        } else {
            0nat
        }
    }
}

/// The level of every heading, in order.
pub open spec fn heading_levels(fs: Seq<Facts>) -> Seq<Seq<char>>
    decreases fs.len(),
{
    if fs.len() == 0 {
        Seq::empty()
    } else if is_heading(fs.last().0) {
        heading_levels(fs.drop_last()).push(fs.last().0.skip(1))
    } else {
        heading_levels(fs.drop_last())
    }
}

/// The number a heading level names.
pub open spec fn level_value(level: Seq<char>) -> int {
    (level[0] as u32) as int - 48
}

/// Whether some heading is more than one level deeper than the one before it.
pub open spec fn level_skip(levels: Seq<Seq<char>>) -> bool {
    exists|i: int| 0 <= i && i + 1 < levels.len() && #[trigger] level_value(levels[i + 1]) > level_value(levels[i]) + 1
}

pub open spec fn bool_text(b: bool) -> Seq<char> {
    if b {
        "true"@
    } else {
        "false"@
    }
}

/// The structure a screen reader leans on: title, language, landmarks,
/// heading levels and whether one is skipped, images without alternative text,
/// links without a name, and form controls.
pub open spec fn a11y_view_of(fs: Seq<Facts>) -> Seq<char> {
    "TITLE: "@ + title_of(fs) + "\nLANG: "@ + language_of(fs) + "\nLANDMARKS: "@ + decimal(
        count_landmarks(fs) as int,
    ) + "\nHEADINGS: "@ + join(heading_levels(fs), ", "@) + "\nHEADING_LEVEL_SKIP: "@ + bool_text(
        level_skip(heading_levels(fs)),
    ) + "\nIMAGES: "@ + decimal(count_named(fs, "img"@) as int) + "\nIMAGES_MISSING_ALT: "@ + decimal(
        count_missing_alt(fs) as int,
    ) + "\nLINKS_WITHOUT_TEXT: "@ + decimal(count_silent_links(fs) as int) + "\nCONTROLS: "@ + decimal(
        count_controls(fs) as int,
    )
}

/// What a plan reads as in a view, given the elements its HTML parses into.
pub open spec fn projected(html: Seq<char>, fs: Seq<Facts>, view: View) -> Seq<char> {
    match view {
        View::Html => html,
        View::Text => text_view_of(fs),
        View::Outline => outline_view_of(fs),
        View::A11y => a11y_view_of(fs),
    }
}


fn name_is(e: &Element, lit: &str) -> (b: bool)
    ensures
        b == (e.name@ == lit@),
{
    crate::text::str_is(e.name.as_str(), lit)
}

fn heading_name(e: &Element) -> (b: bool)
    ensures
        b == is_heading(e.name@),
{
    name_is(e, "h1") || name_is(e, "h2") || name_is(e, "h3") || name_is(e, "h4") || name_is(e, "h5") || name_is(
        e,
        "h6",
    )
}

/// The value of the attribute with this name and no namespace or prefix.
fn attr(e: &Element, name: &str) -> (out: Option<String>)
    ensures
        crate::text::opt_view(out) == attr_in(attrs_view(e.attrs@), name@),
{
    let mut i: usize = 0;
    assert(attrs_view(e.attrs@).skip(0) =~= attrs_view(e.attrs@));
    while i < e.attrs.len()
        invariant
            i <= e.attrs.len(),
            attr_in(attrs_view(e.attrs@), name@) == attr_in(attrs_view(e.attrs@).skip(i as int), name@),
        decreases e.attrs.len() - i,
    {
        let ghost rest = attrs_view(e.attrs@).skip(i as int);
        assert(rest[0] == attr_facts(e.attrs@[i as int]));
        assert(rest.drop_first() =~= attrs_view(e.attrs@).skip(i + 1));
        let a = &e.attrs[i];
        if a.namespace.as_str().is_empty() && a.prefix.is_none() && crate::text::str_is(a.local.as_str(), name) {
            return Some(string_of(&chars_of(a.value.as_str())));
        }
        i = i + 1;
    }
    None
}

fn element_text(e: &Element) -> (out: Vec<char>)
    ensures
        out@ == text_of(facts_of(*e)),
{
    let joined = join_strings(&e.text, " ");
    let ws = words_of(&joined);
    join_parts(&ws, " ")
}

proof fn lemma_facts_step(es: Seq<Element>, i: int)
    requires
        0 <= i < es.len(),
    ensures
        all_facts(es).take(i + 1).drop_last() == all_facts(es).take(i),
        all_facts(es).take(i + 1).last() == facts_of(es[i]),
{
    assert(all_facts(es).take(i + 1).drop_last() =~= all_facts(es).take(i));
}

fn text_view(elements: &[Element]) -> (out: Vec<char>)
    ensures
        out@ == text_view_of(all_facts(elements@)),
{
    let mut parts: Vec<Vec<char>> = Vec::new();
    let mut i: usize = 0;
    assert(all_facts(elements@).take(0) =~= Seq::<Facts>::empty());
    assert(views(parts@) =~= Seq::<Seq<char>>::empty());
    while i < elements.len()
        invariant
            i <= elements.len(),
            views(parts@) == text_values(all_facts(elements@).take(i as int)),
        decreases elements.len() - i,
    {
        proof {
            lemma_facts_step(elements@, i as int);
        }
        let e = &elements[i];
        let block = heading_name(e) || name_is(e, "p") || name_is(e, "li") || name_is(e, "blockquote") || name_is(
            e,
            "pre",
        ) || name_is(e, "th") || name_is(e, "td");
        if block {
            let value = element_text(e);
            if value.len() > 0 {
                let ghost before = parts@;
                parts.push(value);
                assert(views(parts@) =~= views(before).push(text_of(facts_of(*e))));
            }
        }
        i = i + 1;
    }
    assert(all_facts(elements@).take(i as int) =~= all_facts(elements@));
    join_parts(&parts, "\n\n")
}

fn title(elements: &[Element]) -> (out: Vec<char>)
    ensures
        out@ == title_of(all_facts(elements@)),
{
    let mut i: usize = 0;
    assert(all_facts(elements@).skip(0) =~= all_facts(elements@));
    while i < elements.len()
        invariant
            i <= elements.len(),
            first_named(all_facts(elements@), "title"@) == first_named(all_facts(elements@).skip(i as int), "title"@),
        decreases elements.len() - i,
    {
        assert(all_facts(elements@).skip(i as int).drop_first() =~= all_facts(elements@).skip(i + 1));
        assert(all_facts(elements@).skip(i as int)[0] == facts_of(elements@[i as int]));
        if name_is(&elements[i], "title") {
            return element_text(&elements[i]);
        }
        i = i + 1;
    }
    Vec::new()
}

fn heading_line(e: &Element, value: &Vec<char>) -> (out: Vec<char>)
    requires
        is_heading(e.name@),
    ensures
        out@ == match attr_in(attrs_view(e.attrs@), "id"@) {
            Some(id) => "H"@ + e.name@.skip(1) + " ["@ + id + "] "@ + value@,
            None => "H"@ + e.name@.skip(1) + " "@ + value@,
        },
{
    let n = chars_of(e.name.as_str());
    proof {
        reveal_strlit("h1");
        reveal_strlit("h2");
        reveal_strlit("h3");
        reveal_strlit("h4");
        reveal_strlit("h5");
        reveal_strlit("h6");
    }
    let mut level: Vec<char> = Vec::new();
    let mut k: usize = 1;
    assert(n@.subrange(1, 1) =~= Seq::<char>::empty());
    while k < n.len()
        invariant
            1 <= k <= n.len(),
            n@ == e.name@,
            level@ == n@.subrange(1, k as int),
        decreases n.len() - k,
    {
        level.push(n[k]);
        k = k + 1;
        assert(level@ =~= n@.subrange(1, k as int));
    }
    assert(n@.subrange(1, n@.len() as int) =~= e.name@.skip(1));
    let mut v = chars_of("H");
    append_chars(&mut v, &level);
    match attr(e, "id") {
        Some(id) => {
            append_str(&mut v, " [");
            append_str(&mut v, id.as_str());
            append_str(&mut v, "] ");
        },
        None => {
            append_str(&mut v, " ");
        },
    }
    append_chars(&mut v, value);
    v
}

fn headings(elements: &[Element]) -> (out: Vec<Vec<char>>)
    ensures
        views(out@) == heading_lines(all_facts(elements@)),
{
    let mut lines: Vec<Vec<char>> = Vec::new();
    let mut i: usize = 0;
    assert(all_facts(elements@).take(0) =~= Seq::<Facts>::empty());
    assert(views(lines@) =~= Seq::<Seq<char>>::empty());
    while i < elements.len()
        invariant
            i <= elements.len(),
            views(lines@) == heading_lines(all_facts(elements@).take(i as int)),
        decreases elements.len() - i,
    {
        proof {
            lemma_facts_step(elements@, i as int);
        }
        let e = &elements[i];
        if heading_name(e) {
            let value = element_text(e);
            if value.len() > 0 {
                let line = heading_line(e, &value);
                let ghost before = lines@;
                lines.push(line);
                assert(views(lines@) =~= views(before).push(line@));
            }
        }
        i = i + 1;
    }
    assert(all_facts(elements@).take(i as int) =~= all_facts(elements@));
    lines
}

fn contains_chars(list: &Vec<Vec<char>>, s: &Vec<char>) -> (b: bool)
    ensures
        b == views(list@).contains(s@),
{
    let mut i: usize = 0;
    while i < list.len()
        invariant
            i <= list.len(),
            forall|k: int| 0 <= k < i ==> #[trigger] list@[k]@ != s@,
        decreases list.len() - i,
    {
        if chars_eq(&list[i], s) {
            assert(views(list@)[i as int] == s@);
            return true;
        }
        i = i + 1;
    }
    assert forall|k: int| 0 <= k < views(list@).len() implies views(list@)[k] != s@ by {
        assert(views(list@)[k] == list@[k]@);
    }
    false
}

fn links(elements: &[Element]) -> (out: Vec<Vec<char>>)
    ensures
        views(out@) == link_lines(all_facts(elements@)),
{
    let mut in_page: usize = 0;
    let mut external: Vec<Vec<char>> = Vec::new();
    let mut i: usize = 0;
    assert(all_facts(elements@).take(0) =~= Seq::<Facts>::empty());
    assert(views(external@) =~= Seq::<Seq<char>>::empty());
    while i < elements.len()
        invariant
            i <= elements.len(),
            in_page <= i,
            link_scan(all_facts(elements@).take(i as int)) == (in_page as int, views(external@)),
        decreases elements.len() - i,
    {
        proof {
            lemma_facts_step(elements@, i as int);
        }
        let e = &elements[i];
        if name_is(e, "a") {
            match attr(e, "href") {
                Some(href) => {
                    let h = chars_of(href.as_str());
                    if starts_with(&h, "#") {
                        in_page = in_page + 1;
                    } else if !contains_chars(&external, &h) {
                        let ghost before = external@;
                        external.push(h);
                        assert(views(external@) =~= views(before).push(href@));
                    }
                },
                None => {},
            }
        }
        i = i + 1;
    }
    assert(all_facts(elements@).take(i as int) =~= all_facts(elements@));
    let mut first = chars_of("LINKS ");
    append_chars(&mut first, &crate::text::digits_u128(in_page as u128));
    append_str(&mut first, " in-page, ");
    append_chars(&mut first, &crate::text::digits_u128(external.len() as u128));
    append_str(&mut first, " external");
    let mut out: Vec<Vec<char>> = Vec::new();
    out.push(first);
    let mut j: usize = 0;
    let ghost ext = views(external@);
    assert(views(out@) =~= seq![first@]);
    while j < external.len()
        invariant
            j <= external.len(),
            ext == views(external@),
            out@.len() == j + 1,
            views(out@) == seq![first@] + link_names(ext.take(j as int)),
        decreases external.len() - j,
    {
        let mut line = chars_of("LINK ");
        append_chars(&mut line, &external[j]);
        let ghost before = out@;
        out.push(line);
        assert(ext[j as int] == external@[j as int]@);
        assert(ext.take(j + 1).drop_last() =~= ext.take(j as int));
        assert(views(out@) =~= views(before).push(line@));
        assert(link_names(ext.take(j + 1)) == link_names(ext.take(j as int)).push(line@));
        assert(views(out@) =~= seq![first@] + link_names(ext.take(j + 1)));
        j = j + 1;
    }
    assert(ext.take(j as int) =~= ext);
    out
}

fn count_name(elements: &[Element], name: &str) -> (out: usize)
    ensures
        out == count_named(all_facts(elements@), name@),
{
    let mut n: usize = 0;
    let mut i: usize = 0;
    assert(all_facts(elements@).take(0) =~= Seq::<Facts>::empty());
    while i < elements.len()
        invariant
            i <= elements.len(),
            n <= i,
            n == count_named(all_facts(elements@).take(i as int), name@),
        decreases elements.len() - i,
    {
        proof {
            lemma_facts_step(elements@, i as int);
        }
        if name_is(&elements[i], name) {
            n = n + 1;
        }
        i = i + 1;
    }
    assert(all_facts(elements@).take(i as int) =~= all_facts(elements@));
    n
}

fn outline_view(elements: &[Element]) -> (out: Vec<char>)
    ensures
        out@ == outline_view_of(all_facts(elements@)),
{
    let fs = Ghost(all_facts(elements@));
    let mut parts: Vec<Vec<char>> = Vec::new();
    let mut t = chars_of("TITLE ");
    append_chars(&mut t, &title(elements));
    parts.push(t);
    let heads = join_parts(&headings(elements), "\n");
    proof {
        reveal_strlit("TITLE ");
        reveal_strlit("TABLES ");
        reveal_strlit("LINKS ");
    }
    let ghost after_title = views(parts@);
    assert(("TITLE "@ + title_of(fs@)).len() > 0);
    assert(seq!["TITLE "@ + title_of(fs@)].drop_last() =~= Seq::<Seq<char>>::empty());
    assert(after_title =~= seq!["TITLE "@ + title_of(fs@)]);
    let ghost one = seq!["TITLE "@ + title_of(fs@)];
    assert(one.last() == "TITLE "@ + title_of(fs@));
    assert(non_empty(one.drop_last()) =~= Seq::<Seq<char>>::empty());
    assert(non_empty(one) == non_empty(one.drop_last()).push(one.last()));
    assert(after_title =~= non_empty(one));
    if heads.len() > 0 {
        parts.push(heads);
    }
    let ghost two = seq!["TITLE "@ + title_of(fs@), join(heading_lines(fs@), "\n"@)];
    assert(two.drop_last() =~= seq!["TITLE "@ + title_of(fs@)]);
    assert(views(parts@) =~= non_empty(two));
    let link_text = join_parts(&links(elements), "\n");
    let ghost three = two.push(join(link_lines(fs@), "\n"@));
    assert(three.drop_last() =~= two);
    proof {
        crate::text::lemma_join_push(Seq::<Seq<char>>::empty(), "\n"@, link_lines(fs@)[0]);
        assert(link_lines(fs@).len() >= 1);
        lemma_join_nonempty(link_lines(fs@), "\n"@);
    }
    let ghost before3 = views(parts@);
    parts.push(link_text);
    assert(views(parts@) =~= non_empty(three));
    let mut tables = chars_of("TABLES ");
    append_chars(&mut tables, &crate::text::digits_u128(count_name(elements, "table") as u128));
    let ghost four = three.push("TABLES "@ + decimal(count_named(fs@, "table"@) as int));
    assert(four.drop_last() =~= three);
    parts.push(tables);
    assert(views(parts@) =~= non_empty(four));
    assert(four =~= seq![
        "TITLE "@ + title_of(fs@),
        join(heading_lines(fs@), "\n"@),
        join(link_lines(fs@), "\n"@),
        "TABLES "@ + decimal(count_named(fs@, "table"@) as int),
    ]);
    join_parts(&parts, "\n")
}

/// Joining parts whose first is not empty gives something not empty.
proof fn lemma_join_nonempty(parts: Seq<Seq<char>>, sep: Seq<char>)
    requires
        parts.len() >= 1,
        parts[0].len() > 0,
    ensures
        join(parts, sep).len() > 0,
    decreases parts.len(),
{
    if parts.len() > 1 {
        lemma_join_nonempty(parts.drop_last(), sep);
    }
}


fn language(elements: &[Element]) -> (out: Vec<char>)
    ensures
        out@ == language_of(all_facts(elements@)),
{
    let mut i: usize = 0;
    assert(all_facts(elements@).skip(0) =~= all_facts(elements@));
    while i < elements.len()
        invariant
            i <= elements.len(),
            first_named(all_facts(elements@), "html"@) == first_named(all_facts(elements@).skip(i as int), "html"@),
        decreases elements.len() - i,
    {
        assert(all_facts(elements@).skip(i as int).drop_first() =~= all_facts(elements@).skip(i + 1));
        assert(all_facts(elements@).skip(i as int)[0] == facts_of(elements@[i as int]));
        if name_is(&elements[i], "html") {
            return match attr(&elements[i], "lang") {
                Some(l) => chars_of(l.as_str()),
                None => chars_of("missing"),
            };
        }
        i = i + 1;
    }
    chars_of("missing")
}

fn landmark(e: &Element) -> (b: bool)
    ensures
        b == is_landmark(facts_of(*e)),
{
    if name_is(e, "main") || name_is(e, "nav") || name_is(e, "header") || name_is(e, "footer") || name_is(e, "aside") {
        return true;
    }
    match attr(e, "role") {
        Some(r) => {
            let r = r.as_str();
            crate::text::str_is(r, "main") || crate::text::str_is(r, "navigation") || crate::text::str_is(r, "banner")
                || crate::text::str_is(r, "contentinfo") || crate::text::str_is(r, "complementary")
        },
        None => false,
    }
}

fn unlabelled_image(e: &Element) -> (b: bool)
    ensures
        b == missing_alt(facts_of(*e)),
{
    name_is(e, "img") && attr(e, "alt").is_none()
}

fn silent(e: &Element) -> (b: bool)
    ensures
        b == silent_link(facts_of(*e)),
{
    name_is(e, "a") && attr(e, "href").is_some() && element_text(e).len() == 0 && attr(e, "aria-label").is_none()
}

fn control(e: &Element) -> (b: bool)
    ensures
        b == is_control(e.name@),
{
    name_is(e, "button") || name_is(e, "input") || name_is(e, "select") || name_is(e, "textarea")
}

/// The counts the accessibility report gives, in one pass.
struct Counts {
    landmarks: usize,
    images: usize,
    missing_alt: usize,
    silent_links: usize,
    controls: usize,
}

fn counts(elements: &[Element]) -> (out: Counts)
    ensures
        out.landmarks == count_landmarks(all_facts(elements@)),
        out.images == count_named(all_facts(elements@), "img"@),
        out.missing_alt == count_missing_alt(all_facts(elements@)),
        out.silent_links == count_silent_links(all_facts(elements@)),
        out.controls == count_controls(all_facts(elements@)),
{
    let mut c = Counts { landmarks: 0, images: 0, missing_alt: 0, silent_links: 0, controls: 0 };
    let mut i: usize = 0;
    assert(all_facts(elements@).take(0) =~= Seq::<Facts>::empty());
    while i < elements.len()
        invariant
            i <= elements.len(),
            c.landmarks <= i && c.images <= i && c.missing_alt <= i && c.silent_links <= i && c.controls <= i,
            c.landmarks == count_landmarks(all_facts(elements@).take(i as int)),
            c.images == count_named(all_facts(elements@).take(i as int), "img"@),
            c.missing_alt == count_missing_alt(all_facts(elements@).take(i as int)),
            c.silent_links == count_silent_links(all_facts(elements@).take(i as int)),
            c.controls == count_controls(all_facts(elements@).take(i as int)),
        decreases elements.len() - i,
    {
        proof {
            lemma_facts_step(elements@, i as int);
        }
        let e = &elements[i];
        if landmark(e) {
            c.landmarks = c.landmarks + 1;
        }
        if name_is(e, "img") {
            c.images = c.images + 1;
        }
        if unlabelled_image(e) {
            c.missing_alt = c.missing_alt + 1;
        }
        if silent(e) {
            c.silent_links = c.silent_links + 1;
        }
        if control(e) {
            c.controls = c.controls + 1;
        }
        i = i + 1;
    }
    assert(all_facts(elements@).take(i as int) =~= all_facts(elements@));
    c
}

fn levels(elements: &[Element]) -> (out: Vec<Vec<char>>)
    ensures
        views(out@) == heading_levels(all_facts(elements@)),
        forall|k: int| 0 <= k < out@.len() ==> (#[trigger] out@[k])@.len() == 1,
{
    let mut out: Vec<Vec<char>> = Vec::new();
    let mut i: usize = 0;
    assert(all_facts(elements@).take(0) =~= Seq::<Facts>::empty());
    assert(views(out@) =~= Seq::<Seq<char>>::empty());
    while i < elements.len()
        invariant
            i <= elements.len(),
            views(out@) == heading_levels(all_facts(elements@).take(i as int)),
            forall|k: int| 0 <= k < out@.len() ==> (#[trigger] out@[k])@.len() == 1,
        decreases elements.len() - i,
    {
        proof {
            lemma_facts_step(elements@, i as int);
            reveal_strlit("h1");
            reveal_strlit("h2");
            reveal_strlit("h3");
            reveal_strlit("h4");
            reveal_strlit("h5");
            reveal_strlit("h6");
        }
        let e = &elements[i];
        if heading_name(e) {
            let n = chars_of(e.name.as_str());
            let mut level: Vec<char> = Vec::new();
            level.push(n[1]);
            assert(level@ =~= e.name@.skip(1));
            let ghost before = out@;
            out.push(level);
            assert(views(out@) =~= views(before).push(level@));
            assert forall|k: int| 0 <= k < out@.len() implies (#[trigger] out@[k])@.len() == 1 by {
                if k < before.len() {
                    assert(out@[k] == before[k]);
                }
            }
        }
        i = i + 1;
    }
    assert(all_facts(elements@).take(i as int) =~= all_facts(elements@));
    out
}

fn skips_a_level(ls: &Vec<Vec<char>>) -> (b: bool)
    requires
        forall|k: int| 0 <= k < ls@.len() ==> (#[trigger] ls@[k])@.len() == 1,
    ensures
        b == level_skip(views(ls@)),
{
    let n = ls.len();
    if n < 2 {
        return false;
    }
    let mut i: usize = 0;
    while i <= n - 2
        invariant
            n == ls@.len(),
            n >= 2,
            i <= n - 1,
            forall|k: int| 0 <= k < ls@.len() ==> (#[trigger] ls@[k])@.len() == 1,
            forall|k: int|
                0 <= k < i && k + 1 < ls@.len() ==> !(#[trigger] level_value(views(ls@)[k + 1]) > level_value(
                    views(ls@)[k],
                ) + 1),
        decreases n - i,
    {
        assert(ls@[i as int]@.len() == 1);
        assert(ls@[i + 1]@.len() == 1);
        let ca = ls[i][0];
        let cb = ls[i + 1][0];
        assert(ca == ls@[i as int]@[0]);
        assert(cb == ls@[i + 1]@[0]);
        let a = (ca as u32) as u64;
        let b = (cb as u32) as u64;

        assert(views(ls@)[i as int] == ls@[i as int]@);
        assert(views(ls@)[i + 1] == ls@[i + 1]@);
        assert(level_value(views(ls@)[i + 1]) == b - 48);
        assert(level_value(views(ls@)[i as int]) == a - 48);
        if b > a + 1 {
            return true;
        }
        i = i + 1;
    }
    false
}

fn a11y_view(elements: &[Element]) -> (out: Vec<char>)
    ensures
        out@ == a11y_view_of(all_facts(elements@)),
{
    let c = counts(elements);
    let ls = levels(elements);
    let mut v = chars_of("TITLE: ");
    append_chars(&mut v, &title(elements));
    append_str(&mut v, "\nLANG: ");
    append_chars(&mut v, &language(elements));
    append_str(&mut v, "\nLANDMARKS: ");
    append_chars(&mut v, &crate::text::digits_u128(c.landmarks as u128));
    append_str(&mut v, "\nHEADINGS: ");
    append_chars(&mut v, &join_parts(&ls, ", "));
    append_str(&mut v, "\nHEADING_LEVEL_SKIP: ");
    if skips_a_level(&ls) {
        append_str(&mut v, "true");
    } else {
        append_str(&mut v, "false");
    }
    append_str(&mut v, "\nIMAGES: ");
    append_chars(&mut v, &crate::text::digits_u128(c.images as u128));
    append_str(&mut v, "\nIMAGES_MISSING_ALT: ");
    append_chars(&mut v, &crate::text::digits_u128(c.missing_alt as u128));
    append_str(&mut v, "\nLINKS_WITHOUT_TEXT: ");
    append_chars(&mut v, &crate::text::digits_u128(c.silent_links as u128));
    append_str(&mut v, "\nCONTROLS: ");
    append_chars(&mut v, &crate::text::digits_u128(c.controls as u128));
    v
}

/// A plan read one way, given the elements its HTML parses into.
pub fn project_elements(html: &str, elements: &[Element], view: View) -> (out: Projection)
    ensures
        out.view == view,
        out.content@ == projected(html@, all_facts(elements@), view),
{
    let content = match view {
        View::Html => string_of(&chars_of(html)),
        View::Text => string_of(&text_view(elements)),
        View::Outline => string_of(&outline_view(elements)),
        View::A11y => string_of(&a11y_view(elements)),
    };
    Projection { view, content }
}

/// A plan read one way.
pub fn project(html: &str, view: View) -> (out: Projection)
    ensures
        out.view == view,
        out.content@ == projected(html@, parsed_elements(html@), view),
{
    let elements = parse_elements(html);
    project_elements(html, elements.as_slice(), view)
}

} // verus!
