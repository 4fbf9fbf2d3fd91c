use plan_env_md::docs::valid_slug;
use plan_env_md::projection::{project, project_elements, Attr, Element, View};
use plan_env_md::tool::{resolve_url, UrlFacts};
use plan_env_md::tool::{failure_message, push_source, read_header, resolve_document, source_file_name, PushFile, PushSource};

#[test]
fn validates_slugs() {
    assert!(valid_slug("project-plan-2"));
    assert!(!valid_slug("Project_Plan"));
}

#[test]
fn projections_are_deterministic() {
    let html = "<html lang=\"en\"><head><title>Plan</title></head><body><main><h1 id=\"p1\">Title</h1><p>Text</p><img src=\"x\"><a href=\"/next\">Next</a></main></body></html>";
    assert_eq!(project(html, View::Text).content, "Title\n\nText");
    assert!(project(html, View::Outline).content.contains("H1 [p1] Title"));
    assert!(project(html, View::A11y).content.contains("IMAGES_MISSING_ALT: 1"));
}

#[test]
fn url_resolution_rejects_other_origins() {
    let docs_url = "https://plan.env.md/";
    assert!(resolve_document(docs_url, "https://example.com/id/plan", None).is_err());
    assert_eq!(
        resolve_document(docs_url, "https://plan.env.md/id/plan/rev/2", None).expect("document"),
        ("plan".to_string(), Some(2))
    );
}

#[test]
fn url_resolution_accepts_the_canonical_directory_form() {
    let docs_url = "https://plan.env.md/";
    assert_eq!(
        resolve_document(docs_url, "https://plan.env.md/id/plan/", None).expect("document"),
        ("plan".to_string(), None)
    );
    assert_eq!(
        resolve_document(docs_url, "https://plan.env.md/id/plan/rev/2/", None).expect("document"),
        ("plan".to_string(), Some(2))
    );
}

const PAGE: &str = r##"<html lang="en"><head><title>Plan</title></head><body><main>
        <h1 id="top">Title</h1><h2>Unanchored</h2>
        <nav><a href="#top">Contents</a><a href="#top">Top again</a><a href="#other">Other</a></nav>
        <p><a href="https://esm.sh/shiki@3">shiki</a> and <a href="https://esm.sh/shiki@3">again</a></p>
        </main></body></html>"##;

#[test]
fn the_outline_counts_in_page_links_and_names_the_rest() {
    let outline = project(PAGE, View::Outline).content;
    assert!(outline.contains("LINKS 3 in-page, 1 external"));
    assert!(outline.contains("LINK https://esm.sh/shiki@3"));
    assert!(!outline.contains("#top"));
}

#[test]
fn a_heading_without_an_id_prints_no_empty_bracket() {
    let outline = project(PAGE, View::Outline).content;
    assert!(outline.contains("H1 [top] Title"));
    assert!(outline.contains("H2 Unanchored"));
    assert!(!outline.contains("[-]"));
}

#[test]
fn the_outline_reads_in_full() {
    assert_eq!(
        project(PAGE, View::Outline).content,
        "TITLE Plan\nH1 [top] Title\nH2 Unanchored\nLINKS 3 in-page, 1 external\nLINK https://esm.sh/shiki@3\nTABLES 0"
    );
}

#[test]
fn the_accessibility_report_reads_in_full() {
    let html = "<html><head><title> A  plan </title></head><body><nav></nav><div role=\"main\"><h1>One</h1><h3>Three</h3><img alt=\"x\"><img><a href=\"/a\"></a><a href=\"/b\" aria-label=\"b\"></a><button>Go</button><input></div></body></html>";
    assert_eq!(
        project(html, View::A11y).content,
        "TITLE: A plan\nLANG: missing\nLANDMARKS: 2\nHEADINGS: 1, 3\nHEADING_LEVEL_SKIP: true\nIMAGES: 2\nIMAGES_MISSING_ALT: 1\nLINKS_WITHOUT_TEXT: 1\nCONTROLS: 2"
    );
}

#[test]
fn the_html_view_is_the_source_itself() {
    assert_eq!(project(PAGE, View::Html).content, PAGE);
    assert_eq!(View::Html.name(), "html");
    assert_eq!(View::A11y.name(), "a11y");
    assert_eq!(View::default().name(), "text");
}

fn element(name: &str, attrs: &[(&str, &str)], text: &[&str]) -> Element {
    Element {
        name: name.to_string(),
        attrs: attrs.iter().map(|(k, v)| Attr::plain(k.to_string(), v.to_string())).collect(),
        text: text.iter().map(|t| t.to_string()).collect(),
    }
}

#[test]
fn text_is_collapsed_and_empty_blocks_are_dropped() {
    let elements = vec![
        element("h2", &[], &["  A ", "\n title"]),
        element("p", &[], &["   "]),
        element("div", &[], &["ignored"]),
        element("td", &[], &["cell"]),
    ];
    assert_eq!(project_elements("", &elements, View::Text).content, "A title\n\ncell");
}

#[test]
fn a_document_argument_is_checked_against_its_origin_and_path() {
    let docs = "https://plan.env.md/";
    assert_eq!(resolve_document(docs, "my-plan", Some(3)).unwrap(), ("my-plan".to_string(), Some(3)));
    assert_eq!(resolve_document(docs, "not a url", None).unwrap_err(), "document must be a slug or a plan.env.md URL");
    assert_eq!(
        resolve_document(docs, "http://plan.env.md/id/plan", None).unwrap_err(),
        "document URL must use the configured documents origin"
    );
    assert_eq!(
        resolve_document(docs, "https://plan.env.md/id/plan/rev/x", None).unwrap_err(),
        "document URL has an invalid revision"
    );
    assert_eq!(
        resolve_document(docs, "https://plan.env.md/id", None).unwrap_err(),
        "document URL has an unsupported path"
    );
    assert_eq!(
        resolve_document(docs, "https://plan.env.md/id/Bad_Slug", None).unwrap_err(),
        "document URL has an invalid slug"
    );
    assert_eq!(
        resolve_document(docs, "https://plan.env.md/id/plan/rev/2", Some(3)).unwrap_err(),
        "revision conflicts with the revision in the document URL"
    );
    assert_eq!(
        resolve_document(docs, "https://plan.env.md/id/plan/rev/2", Some(2)).unwrap(),
        ("plan".to_string(), Some(2))
    );
}

#[test]
fn a_push_names_exactly_one_source() {
    let file = |path: &str| PushFile { path: path.to_string(), source: "/tmp/x".to_string() };
    assert_eq!(push_source("Bad", None, None).err().unwrap(), "slug must match [a-z0-9-]{1,64}");
    assert_eq!(
        push_source("ok", Some("<p>".to_string()), Some(vec![file("index.html")])).err().unwrap(),
        "supply either html or files, not both"
    );
    assert_eq!(push_source("ok", None, None).err().unwrap(), "supply html or files");
    assert_eq!(push_source("ok", None, Some(vec![file("a.css")])).err().unwrap(), "one file must be index.html");
    assert!(matches!(push_source("ok", Some("<p>".to_string()), None), Ok(PushSource::Html(h)) if h == "<p>"));
    assert!(matches!(push_source("ok", None, Some(vec![file("index.html")])), Ok(PushSource::Files(f)) if f.len() == 1));
}

#[test]
fn reads_are_labelled_and_written_by_name() {
    assert_eq!(read_header("plan", Some(2), View::Outline), "plan  rev 2  outline");
    assert_eq!(read_header("plan", None, View::Text), "plan  latest revision  text");
    assert_eq!(source_file_name("plan", Some(2)), "plan-rev2.html");
    assert_eq!(source_file_name("plan", None), "plan-latest.html");
}

#[test]
fn a_failed_call_says_why() {
    assert_eq!(failure_message(401, "401 Unauthorized", "x"), "authentication failed");
    assert_eq!(failure_message(404, "404 Not Found", ""), "document not found");
    assert_eq!(failure_message(500, "500 Internal Server Error", ""), "plan.env.md returned HTTP 500 Internal Server Error");
    assert_eq!(
        failure_message(422, "422 Unprocessable Entity", "bad slug"),
        "plan.env.md returned HTTP 422 Unprocessable Entity: bad slug"
    );
    let long = "x".repeat(2000);
    assert_eq!(failure_message(500, "500", &long).len(), "plan.env.md returned HTTP 500: ".len() + 1024);
}

#[test]
fn a_namespaced_href_is_not_a_link() {
    let html = "<a>x</a>";
    let namespaced = Element {
        name: "a".to_string(),
        attrs: vec![Attr {
            namespace: "http://www.w3.org/1999/xlink".to_string(),
            prefix: Some("xlink".to_string()),
            local: "href".to_string(),
            value: "/next".to_string(),
        }],
        text: vec!["Next".to_string()],
    };
    let bare = element("a", &[], &["Next"]);
    let plain = element("a", &[("href", "/next")], &["Next"]);
    let outline = |e: Element| project_elements(html, &[e], View::Outline).content;
    assert_eq!(outline(namespaced), outline(bare));
    assert_ne!(outline(plain), outline(element("a", &[], &["Next"])));
}

#[test]
fn a_parsed_address_resolves_on_the_documents_origin_only() {
    let facts = |origin: &str, segments: &[&str]| {
        Some(UrlFacts {
            origin: Some(origin.to_string()),
            segments: Some(segments.iter().map(|s| s.to_string()).collect()),
        })
    };
    let docs = Some("https://plan.env.md");
    assert_eq!(resolve_url(docs, facts("https://plan.env.md", &["id", "plan", ""]), None), Ok(("plan".to_string(), None)));
    assert_eq!(
        resolve_url(docs, facts("https://plan.env.md", &["id", "plan", "rev", "3"]), None),
        Ok(("plan".to_string(), Some(3)))
    );
    assert_eq!(
        resolve_url(docs, facts("https://plan.env.md", &["id", "plan", "rev", "3"]), Some(4)),
        Err("revision conflicts with the revision in the document URL".to_string())
    );
    assert_eq!(
        resolve_url(docs, facts("https://other.example", &["id", "plan"]), None),
        Err("document URL must use the configured documents origin".to_string())
    );
    assert_eq!(resolve_url(docs, None, None), Err("document must be a slug or a plan.env.md URL".to_string()));
}
