use hmac::Mac;
use plan_env_md::account::{
    after_insert, api_token_from, new_api_token, new_invite_code, register_step, Admission, RegisterOutcome,
};
use plan_env_md::answer_key::{is_answer_key, mint, mint_at, verify, verify_at};
use plan_env_md::auth::{session_from, bearer_token, check_login, new_session, rejects_foreign_write, Auth, AuthUser, BearerAuth, SessionAuth};
use plan_env_md::blobs::{blob_key, body_source, stores_as_object, BodySource};
use plan_env_md::config::{endpoint, AppUrl, DocsUrl, Origin};
use plan_env_md::crypto::{hash_password, hex_decode, hex_encode, random_base62, sha256, verify_password};
use plan_env_md::docs::{
    after_public_id_attempt, next_revision, objects_to_free, tag_from_lowered, MintStep, check_answer_body, check_patch, check_publish_password, check_push, check_registration, cors, document_url, find_question,
    answer_to_store, join_answers, normalize_tag, normalize_tags, valid_username, AnswerRow,
};
use plan_env_md::grant::{
    ask_location, is_document_path, issue_location, query_value, reader, reader_at, redeem, redeem_at, sign, sign_at,
    verify as grant_verify, verify_at as grant_verify_at,
};
use plan_env_md::number::parse_i64;
use plan_env_md::pages::{
    asset_headers, password_form_headers, raw_headers, render_file_headers, share_page_headers, page_body, page_headers, answer_widget_fragment, icon_links, password_form, script_safe_json, share_link, share_page, Icon,
};
use plan_env_md::projects::{
    alias_taken_message, aliases_for, check_alias, check_favicon, pick_favicon, scheme_name, sniff_image, AliasRow, Scheme,
};
use plan_env_md::question::{check_answer, validate_all, AnsweredQuestion, Question, QuestionOption};
use plan_env_md::static_files::{bundle_cache_control, bundle_path, content_type_of};
use plan_env_md::upload::{content_type_for, validate_path, validate_set, UploadedFile};
use plan_env_md::view::{
    access_cookie_at, asked_for_by_its_own_document, asset_cache_control, canonical_location, choose_revision,
    declares_icon, decide_serve, find_head_open, has_valid_access_cookie, html_escape, insert_into_head, is_icon_rel,
    is_public_id_shape, overlay_fragment, reads_as_owner, url_path, visitor_unlocked, Doc, ServeAction,
};

fn option(value: &str) -> QuestionOption {
    QuestionOption { value: value.to_string(), label: value.to_uppercase(), detail: None }
}

fn question(key: &str, options: &[&str], multiple: bool) -> Question {
    Question {
        key: key.to_string(),
        prompt: "Approve?".to_string(),
        detail: None,
        anchor: None,
        multiple,
        options: options.iter().map(|o| option(o)).collect(),
    }
}

fn strings(list: &[&str]) -> Vec<String> {
    list.iter().map(|s| s.to_string()).collect()
}

#[test]
fn a_question_may_not_declare_the_reserved_written_answer() {
    assert_eq!(
        validate_all(&[question("accept", &["accept", "other"], false)]).unwrap_err(),
        "question accept may not declare an option named other; the widget always offers one"
    );
}

#[test]
fn a_question_set_is_checked_in_order() {
    assert!(validate_all(&[question("a", &["x", "y"], false), question("b", &["x", "y"], false)]).is_ok());
    assert_eq!(
        validate_all(&[question("a", &["x", "y"], false), question("a", &["x", "y"], false)]).unwrap_err(),
        "duplicate question key a"
    );
    assert_eq!(
        validate_all(&[question("bad key", &["x", "y"], false)]).unwrap_err(),
        "question key bad key must match [A-Za-z0-9_-]{1,64}"
    );
    assert_eq!(
        validate_all(&[question("a", &["x"], false)]).unwrap_err(),
        "question a needs between 2 and 12 options"
    );
    assert_eq!(
        validate_all(&[question("a", &["x", "x"], false)]).unwrap_err(),
        "duplicate option x in question a"
    );
    let mut blank = question("a", &["x", "y"], false);
    blank.prompt = "  \t".to_string();
    assert_eq!(validate_all(&[blank]).unwrap_err(), "question a needs a prompt");
    let mut anchored = question("a", &["x", "y"], false);
    anchored.anchor = Some("no good".to_string());
    assert_eq!(validate_all(&[anchored]).unwrap_err(), "question a anchor must match [A-Za-z0-9_-]{1,64}");
    let many: Vec<Question> = (0..33).map(|i| question(&format!("q{i}"), &["x", "y"], false)).collect();
    assert_eq!(validate_all(&many).unwrap_err(), "at most 32 questions per revision");
}

#[test]
fn an_answer_must_fit_the_question_that_was_asked() {
    let single = question("plan", &["accept", "defer"], false);
    assert_eq!(check_answer(&single, &[], None).unwrap_err(), "select at least one option");
    assert_eq!(
        check_answer(&single, &strings(&["accept", "defer"]), None).unwrap_err(),
        "this question takes a single answer"
    );
    assert_eq!(check_answer(&single, &strings(&["nonsense"]), None).unwrap_err(), "option nonsense was not offered");
    assert_eq!(check_answer(&single, &strings(&["other"]), None).unwrap_err(), "a written answer needs text");
    assert_eq!(
        check_answer(&single, &strings(&["accept"]), Some("sneaky")).unwrap_err(),
        "text was given without selecting a written answer"
    );
    assert!(check_answer(&single, &strings(&["other"]), Some("my own")).is_ok());
    let multiple = question("plan", &["accept", "defer"], true);
    assert_eq!(
        check_answer(&multiple, &strings(&["accept", "accept"]), None).unwrap_err(),
        "option accept selected twice"
    );
    assert!(check_answer(&multiple, &strings(&["accept", "defer"]), None).is_ok());
}

#[test]
fn blank_text_counts_as_none_and_long_text_is_refused() {
    let q = question("plan", &["accept", "defer"], false);
    let (other, notes) =
        check_answer_body(&q, &strings(&["accept"]), Some("   ".to_string()), Some("after the previews".to_string()))
            .unwrap();
    assert_eq!(other, None);
    assert_eq!(notes.as_deref(), Some("after the previews"));
    assert_eq!(
        check_answer_body(&q, &strings(&["accept"]), None, Some("x".repeat(2001))).unwrap_err(),
        "text fields are limited to 2000 characters"
    );
    assert!(check_answer_body(&q, &strings(&["accept"]), None, Some("é".repeat(2000))).is_ok());
}

#[test]
fn an_answer_survives_a_revision_that_asks_again() {
    let declared = vec![question("approve", &["yes", "no"], false), question("later", &["yes", "no"], false)];
    let stored = answer_to_store(&declared[0], &strings(&["yes"]), Some("  ".to_string()), Some("ship it".to_string()))
        .expect("the answer fits the question");
    assert_eq!(stored.selected, "[\"yes\"]");
    assert_eq!(stored.other_text, None);
    let rows = vec![AnswerRow {
        key: "approve".to_string(),
        selected: stored.selected,
        other_text: stored.other_text,
        notes: stored.notes,
        answered_at: "2026-08-23 16:09:12".to_string(),
    }];
    let joined = join_answers(declared, &rows);
    assert_eq!(joined.len(), 2);
    let answer = joined[0].answer.as_ref().expect("the stored answer comes back");
    assert_eq!(answer.selected, strings(&["yes"]));
    assert_eq!(answer.notes.as_deref(), Some("ship it"));
    assert!(joined[1].answer.is_none());
    assert_eq!(find_question(&[question("a", &["x", "y"], false), question("b", &["x", "y"], false)], "b"), Some(1));
    assert_eq!(find_question(&[question("a", &["x", "y"], false)], "c"), None);
}

#[test]
fn a_file_set_must_fit_its_rules() {
    assert!(validate_path("index.html").is_ok());
    assert!(validate_path("img/chart.webp").is_ok());
    assert_eq!(
        validate_path("share").unwrap_err(),
        "path \"share\" is reserved; a document's own URLs live at share and rev/*"
    );
    assert!(validate_path("rev/2.css").unwrap_err().contains("is reserved"));
    assert_eq!(validate_path("../secret.css").unwrap_err(), "path \"../secret.css\" has an empty or relative segment");
    assert_eq!(validate_path("/etc/passwd.txt").unwrap_err(), "path \"/etc/passwd.txt\" must not start or end with a slash");
    assert_eq!(validate_path("payload.exe").unwrap_err(), "path \"payload.exe\" has no accepted file extension");
    assert_eq!(validate_path("").unwrap_err(), "path \"\" must be 1 to 128 characters");
    assert_eq!(
        validate_path("a b.css").unwrap_err(),
        "path \"a b.css\" may only contain letters, digits, dot, underscore, hyphen and slash"
    );
    assert_eq!(validate_path("a/b/c/d/e.css").unwrap_err(), "path \"a/b/c/d/e.css\" may be at most 4 segments deep");
    assert_eq!(validate_path("a//b.css").unwrap_err(), "path \"a//b.css\" has an empty or relative segment");
}

fn file(path: &str, size: usize) -> UploadedFile {
    UploadedFile { path: path.to_string(), content: vec![b'a'; size], content_type: "text/html; charset=utf-8" }
}

#[test]
fn a_revision_holds_an_entry_document_within_its_limits() {
    assert!(validate_set(&[file("index.html", 524_288), file("style.css", 10)]).is_ok());
    assert_eq!(validate_set(&[file("style.css", 10)]).unwrap_err(), "a revision needs an index.html");
    assert_eq!(
        validate_set(&[file("index.html", 524_289)]).unwrap_err(),
        "index.html is 512 KB, over the 512 KB limit"
    );
    assert_eq!(
        validate_set(&[file("index.html", 1), file("index.html", 1)]).unwrap_err(),
        "path \"index.html\" appears twice"
    );
    let many: Vec<UploadedFile> = (0..65).map(|i| file(&format!("f{i}.css"), 1)).collect();
    assert_eq!(validate_set(&many).unwrap_err(), "a revision may hold at most 64 files");
    let mut big = vec![file("index.html", 1)];
    for i in 0..5 {
        big.push(file(&format!("a{i}.png"), 2_000_000));
    }
    assert_eq!(validate_set(&big).unwrap_err(), "the revision totals 9765 KB, over the 8192 KB limit");
}

#[test]
fn the_type_comes_from_the_extension() {
    assert_eq!(content_type_for("style.CSS"), Some("text/css; charset=utf-8"));
    assert_eq!(content_type_for("a.b.svg"), Some("image/svg+xml"));
    assert_eq!(content_type_for("notes.md"), Some("text/markdown; charset=utf-8"));
    assert_eq!(content_type_for("Makefile"), None);
    assert_eq!(content_type_for("x.exe"), None);
    assert_eq!(content_type_of("assets/app.js"), "text/javascript; charset=utf-8");
    assert_eq!(content_type_of("site.webmanifest"), "application/json");
    assert_eq!(content_type_of("blob"), "application/octet-stream");
    assert_eq!(content_type_of("x.CSS"), "application/octet-stream");
    assert_eq!(bundle_cache_control("assets/app.js"), "public, max-age=31536000, immutable");
    assert_eq!(bundle_cache_control("index.html"), "no-cache");
    assert_eq!(bundle_path("/login"), "login");
    assert_eq!(bundle_path("login"), "login");
}

#[test]
fn tags_are_normalised_and_deduplicated() {
    assert_eq!(normalize_tag("  PR Review ").unwrap(), "pr-review");
    assert_eq!(normalize_tag("pr   review").unwrap(), "pr-review");
    assert_eq!(
        normalize_tag("a_b").unwrap_err(),
        "tag \"a_b\" must normalise to [a-z0-9-]{1,32}, got \"a_b\""
    );
    assert_eq!(normalize_tags(&strings(&["PR Review", "pr review", "plan"])).unwrap(), strings(&["pr-review", "plan"]));
    assert_eq!(normalize_tags(&strings(&["a"; 9])).unwrap_err(), "at most 8 tags per document");
}

#[test]
fn a_push_is_checked_before_anything_is_stored() {
    assert_eq!(check_push("Bad_Slug", &[], None, None).unwrap_err(), "slug must match [a-z0-9-]{1,64}");
    assert_eq!(check_push("ok", &[], Some("Nope"), None).unwrap_err(), "project must match [a-z0-9-]{1,64}");
    assert_eq!(check_push("ok", &[], None, None).unwrap(), None);
    let tags = strings(&["A B"]);
    assert_eq!(check_push("ok", &[], None, Some(tags.as_slice())).unwrap(), Some(strings(&["a-b"])));
    let none: Vec<String> = Vec::new();
    assert_eq!(check_patch(None, Some(none.as_slice())).unwrap(), Some(Vec::new()));
    assert!(check_registration("ab", "password123").is_err());
    assert_eq!(check_registration("admin", "short").unwrap_err(), "password must be at least 8 characters");
    assert!(check_registration("admin", "password123").is_ok());
    assert!(valid_username("a-b"));
    assert!(!valid_username("ab"));
}

fn docs() -> DocsUrl {
    DocsUrl(Origin("https://plan.env.md".to_string()))
}

#[test]
fn a_document_lives_at_its_public_id_and_slug() {
    assert_eq!(document_url(&docs(), "KPQgKFWuIX", "plan"), "https://plan.env.md/KPQgKFWuIX/plan");
    assert_eq!(cors(&docs()), "https://plan.env.md");
}

#[test]
fn origins_name_their_host() {
    assert_eq!(Origin("https://plan.env.md/".to_string()).authority(), "plan.env.md");
    assert_eq!(Origin("http://localhost:3000".to_string()).authority(), "localhost:3000");
    assert_eq!(Origin("localhost:3000//".to_string()).authority(), "localhost:3000");
    assert!(Origin("https://x".to_string()).is_https());
    assert!(!Origin("http://x".to_string()).is_https());
    assert_eq!(Origin("http://x".to_string()).as_str(), "http://x");
    assert_eq!(endpoint("rook", Some("443")), "https://rook:443");
    assert_eq!(endpoint("rook", Some("80")), "http://rook:80");
    assert_eq!(endpoint("rook", None), "http://rook");
    assert_eq!(endpoint("https://s3.example", Some("9000")), "https://s3.example");
}

#[test]
fn a_scoped_key_opens_its_document_until_it_expires() {
    let key = mint_at("secret", 42, 1_000);
    assert!(key.starts_with("planq_42.15400."));
    assert!(is_answer_key(&key));
    assert_eq!(verify_at("secret", &key, 1_000), Some(42));
    assert_eq!(verify_at("secret", &key, 15_399), Some(42));
    assert_eq!(verify_at("secret", &key, 15_400), None);
    assert_eq!(verify_at("other", &key, 1_000), None);
    assert_eq!(verify_at("secret", "pem_abc", 1_000), None);
}

#[test]
fn a_scoped_key_is_bound_to_one_document() {
    let key = mint_at("secret", 4, 1_000);
    let forged = key.replacen("planq_4.", "planq_400.", 1);
    assert_eq!(verify_at("secret", &forged, 1_000), None);
    assert_eq!(verify_at("secret", &key, 1_000), Some(4));
    let signature = key.rsplit('.').next().expect("a signature part");
    assert_eq!(signature.len(), 64);
    assert!(signature.bytes().all(|b| b.is_ascii_digit() || (b'a'..=b'f').contains(&b)));
    if !key.ends_with("00") {
        let tampered = format!("{}00", &key[..key.len() - 2]);
        assert_eq!(verify_at("secret", &tampered, 1_000), None);
    }
    assert_eq!(verify_at("other", &key, 1_000), None);
    assert_eq!(verify_at("secret", key.strip_prefix("planq_").expect("prefix"), 1_000), None);
}

#[test]
fn grants_are_signed_for_one_purpose_and_expire() {
    let token = sign_at("secret", "grant", 7, 30, 100);
    assert_eq!(grant_verify_at("secret", "grant", &token, 129), Some(7));
    assert_eq!(grant_verify_at("secret", "grant", &token, 130), None);
    assert_eq!(grant_verify_at("secret", "reader", &token, 100), None);
    assert_eq!(query_value("a=1&g=xyz&g=2", "g").as_deref(), Some("xyz"));
    assert_eq!(query_value("novalue&x=", "x").as_deref(), Some(""));
    assert_eq!(query_value("a=1", "g"), None);
    assert!(is_document_path("/abc/plan/"));
    assert!(!is_document_path("//evil.example/x"));
    assert!(!is_document_path("https://evil.example"));
    assert!(!is_document_path("/a?b"));
}

#[test]
fn a_grant_round_trips_into_a_reader_cookie() {
    let location = issue_location("secret", &docs(), "/abc/plan/", Some(7), 100).unwrap();
    let query = location.split_once('?').unwrap().1.to_string();
    assert!(location.starts_with("https://plan.env.md/abc/plan/?g=7."));
    let redeemed = redeem_at("secret", Some(&query), 110).unwrap();
    assert_eq!(redeemed.user_id, 7);
    assert_eq!(redeemed.seconds, 604_800);
    assert_eq!(reader_at("secret", Some(&redeemed.cookie), 200), Some(7));
    assert!(redeem_at("secret", Some(&query), 131).is_none());
    assert!(issue_location("secret", &docs(), "//evil", None, 100).is_none());
    let nobody = issue_location("secret", &docs(), "/abc/plan", None, 100).unwrap();
    let q = nobody.split_once('?').unwrap().1.to_string();
    let anonymous = redeem_at("secret", Some(&q), 100).unwrap();
    assert_eq!(anonymous.seconds, 60);
    assert_eq!(reader_at("secret", Some(&anonymous.cookie), 100), None);
    let app = AppUrl(Origin("https://env.md".to_string()));
    assert_eq!(ask_location(&app, false, Some("document"), "/x/y").as_deref(), Some("https://env.md/grant?next=/x/y"));
    assert_eq!(ask_location(&app, true, Some("document"), "/x/y"), None);
    assert_eq!(ask_location(&app, false, Some("image"), "/x/y"), None);
}

#[test]
fn a_visitor_cookie_is_bound_to_the_password() {
    let cookie = access_cookie_at("secret", 3, "hash-one", 1_000);
    assert!(has_valid_access_cookie("secret", 3, "hash-one", Some(&cookie), 1_000));
    assert!(!has_valid_access_cookie("secret", 3, "hash-two", Some(&cookie), 1_000));
    assert!(!has_valid_access_cookie("secret", 4, "hash-one", Some(&cookie), 1_000));
    assert!(!has_valid_access_cookie("secret", 3, "hash-one", Some(&cookie), 1_000 + 604_800));
    assert!(!has_valid_access_cookie("secret", 3, "hash-one", None, 1_000));
}

#[test]
fn files_are_only_handed_to_their_own_document() {
    assert!(asked_for_by_its_own_document(None, None, None, "abc", "plan"));
    assert!(asked_for_by_its_own_document(Some("style"), Some("none"), None, "abc", "plan"));
    assert!(asked_for_by_its_own_document(
        Some("style"),
        Some("same-origin"),
        Some("https://plan.env.md/abc/plan/"),
        "abc",
        "plan"
    ));
    assert!(!asked_for_by_its_own_document(
        Some("style"),
        Some("same-origin"),
        Some("https://plan.env.md/xyz/other/"),
        "abc",
        "plan"
    ));
    assert!(!asked_for_by_its_own_document(Some("empty"), Some("same-origin"), None, "abc", "plan"));
    assert!(!asked_for_by_its_own_document(Some("image"), Some("cross-site"), None, "abc", "plan"));
    assert_eq!(url_path("https://a.example/b/c?d"), Some("/b/c?d"));
    assert_eq!(url_path("https://a.example"), None);
    assert!(is_public_id_shape("KPQgKFWuIX"));
    assert!(!is_public_id_shape("KPQgKFWuI"));
    assert!(!is_public_id_shape("KPQgKFWu-X"));
}

#[test]
fn a_private_document_looks_missing() {
    let missing = decide_serve(true, false, false, false, false, false, true);
    let private = decide_serve(true, true, true, false, false, false, true);
    assert!(matches!(missing, ServeAction::AskForGrant));
    assert!(matches!(private, ServeAction::AskForGrant));
    assert!(matches!(decide_serve(true, true, true, false, false, true, true), ServeAction::PasswordForm));
    assert!(matches!(decide_serve(true, true, true, true, false, false, false), ServeAction::Document));
    assert!(matches!(decide_serve(true, true, false, true, false, false, false), ServeAction::RedirectCanonical));
    assert!(matches!(decide_serve(false, true, true, true, true, true, true), ServeAction::NotFound));
    assert_eq!(choose_revision(&[3, 2, 1], None), Some((3, 3)));
    assert_eq!(choose_revision(&[3, 2, 1], Some(1)), Some((1, 3)));
    assert_eq!(choose_revision(&[3, 2, 1], Some(4)), None);
    assert_eq!(choose_revision(&[], None), None);
    assert_eq!(canonical_location("abc", "plan", Some(1)), "/abc/plan/rev/1/");
    assert_eq!(canonical_location("abc", "plan", None), "/abc/plan/");
}

#[test]
fn the_head_is_found_by_a_byte_scan() {
    assert_eq!(find_head_open(b"<html><HEAD lang=x><title>"), Some(19));
    assert_eq!(find_head_open(b"<header></header>"), None);
    assert_eq!(find_head_open(b"<head"), None);
    let mut body = b"<html><head><title>t</title></head></html>".to_vec();
    insert_into_head(&mut body, b"<link>");
    assert_eq!(body, b"<html><head><link><title>t</title></head></html>".to_vec());
    let mut bare = b"<p>x</p>".to_vec();
    insert_into_head(&mut bare, b"<link>");
    assert_eq!(bare, b"<link><p>x</p>".to_vec());
    assert!(declares_icon(b"<LINK REL=\"Shortcut Icon\" href=x>"));
    assert!(declares_icon(b"<link rel=\"apple-touch-icon\">"));
    assert!(!declares_icon(b"<link rel=\"stylesheet\">"));
    assert!(is_icon_rel("shortcut icon"));
    assert!(!is_icon_rel("stylesheet"));
    assert_eq!(html_escape("<a href=\"x\">&</a>"), "&lt;a href=&quot;x&quot;&gt;&amp;&lt;/a&gt;");
}

fn doc(title: Option<&str>, published: bool) -> Doc {
    Doc {
        id: 1,
        owner_id: 1,
        slug: "plan".to_string(),
        title: title.map(str::to_string),
        project: None,
        published,
        password_hash: None,
    }
}

#[test]
fn the_overlay_names_the_revision_being_read() {
    let app = AppUrl(Origin("https://env.md".to_string()));
    let latest = overlay_fragment(&app, &docs(), "", "abc", &doc(Some("My <plan>"), false), 2, 2, &[2, 1], &[]);
    assert!(latest.contains("planenv-overlay"));
    assert!(latest.contains("rev 2 (current)"));
    assert!(latest.contains("title=\"My &lt;plan&gt;\""));
    assert!(latest.contains("plan<b>.env.md</b>"));
    assert!(latest.contains("<a class=\"viewing\" href=\"/abc/plan\">rev 2 (current)</a><a href=\"/abc/plan/rev/1\">rev 1</a>"));
    let pinned = overlay_fragment(&app, &docs(), "", "abc", &doc(None, false), 1, 2, &[2, 1], &[]);
    assert!(pinned.contains("rev 1 of 2"));
}

#[test]
fn a_question_cannot_break_out_of_the_json_island() {
    let safe = script_safe_json("[\"</script><script>x</script>\"]");
    assert!(!safe.contains('<'));
    assert_eq!(safe, "[\"\\u003c/script>\\u003cscript>x\\u003c/script>\"]");
}

#[test]
fn the_gate_and_the_share_page_say_where_the_reader_stands() {
    let form = password_form("abc", "plan", true, "");
    assert!(form.contains("<form method=\"post\" action=\"/abc/plan\">"));
    assert!(form.contains("Wrong password."));
    assert!(!password_form("abc", "plan", false, "").contains("Wrong password."));
    let private = share_page(&docs(), "abc", &doc(None, false));
    assert!(private.contains(">Publish</button>"));
    assert!(private.contains("value=\"https://plan.env.md/abc/plan\""));
    assert!(!private.contains("<button id=\"unpublish\""));
    let public = share_page(&docs(), "abc", &doc(None, true));
    assert!(public.contains("Rotate password"));
    assert!(public.contains("<button id=\"unpublish\" type=\"button\" class=\"quiet\">Unpublish</button>"));
    let links = icon_links(
        Some(Icon { bytes: b"hi".to_vec(), content_type: "image/png".to_string() }),
        None,
    );
    assert_eq!(
        links,
        "<link rel=\"icon\" media=\"(prefers-color-scheme: dark)\" type=\"image/png\" href=\"data:image/png;base64,aGk=\">"
    );
}

#[test]
fn an_icon_is_judged_by_its_bytes() {
    assert_eq!(sniff_image(b"\x89PNG\r\n\x1a\nrest"), Some("image/png"));
    assert_eq!(sniff_image(b"GIF89a"), Some("image/gif"));
    assert_eq!(sniff_image(b"\x00\x00\x01\x00"), Some("image/x-icon"));
    assert_eq!(sniff_image(b"RIFF\x00\x00\x00\x00WEBPVP8 "), Some("image/webp"));
    assert_eq!(sniff_image(b"<?xml version=\"1.0\"?><svg/>"), Some("image/svg+xml"));
    assert_eq!(sniff_image(b"\xff\xfe<svg"), None);
    assert_eq!(sniff_image(b"plain"), None);
    assert_eq!(check_favicon(&vec![0u8; 65_537]).unwrap_err(), "favicon must be at most 64 KB");
    assert_eq!(check_favicon(b"plain").unwrap_err(), "favicon must be a PNG, SVG, WebP, GIF or ICO");
    assert_eq!(pick_favicon(None, Some(2), Scheme::Light), Some(2));
    assert_eq!(pick_favicon(Some(1), Some(2), Scheme::Dark), Some(2));
    assert_eq!(pick_favicon::<i32>(None, None, Scheme::Dark), None);
}

#[test]
fn an_alias_is_another_name_for_one_project() {
    assert!(check_alias("open-lavatory", "openlv").is_ok());
    assert_eq!(check_alias("open-lavatory", "open-lavatory").unwrap_err(), "a project is already reachable by its own name");
    assert_eq!(check_alias("Open", "x").unwrap_err(), "project and alias must match [a-z0-9-]{1,64}");
    let rows = vec![
        AliasRow { project: "open-lavatory".to_string(), alias: "lav".to_string() },
        AliasRow { project: "other".to_string(), alias: "oth".to_string() },
        AliasRow { project: "open-lavatory".to_string(), alias: "openlv".to_string() },
    ];
    assert_eq!(aliases_for("open-lavatory", &rows), strings(&["lav", "openlv"]));
}

#[test]
fn credentials_are_read_from_their_own_places() {
    assert_eq!(bearer_token(Some("Bearer pem_x")), Some("pem_x"));
    assert_eq!(bearer_token(Some("Basic x")), None);
    assert_eq!(bearer_token(None), None);
    assert!(rejects_foreign_write("POST", true, Some("https://evil"), Some("https://env.md")));
    assert!(rejects_foreign_write("POST", true, None, Some("https://env.md")));
    assert!(!rejects_foreign_write("POST", true, Some("https://env.md"), Some("https://env.md")));
    assert!(!rejects_foreign_write("GET", true, Some("https://evil"), Some("https://env.md")));
    assert!(!rejects_foreign_write("POST", false, Some("https://evil"), Some("https://env.md")));
    let user = AuthUser { id: 9, username: "admin".to_string(), is_admin: true };
    assert_eq!(Auth::Bearer(BearerAuth(user.clone())).user().id, 9);
    assert_eq!(Auth::Session(SessionAuth(user)).user().username, "admin");
}

#[test]
fn tokens_and_sessions_are_random_and_kept_as_digests() {
    let session = new_session().expect("the random source works");
    assert_eq!(session.token.len(), 43);
    assert!(session.token.chars().all(|c| c.is_ascii_alphanumeric()));
    assert_eq!(session.token_hash, sha256(&session.token));
    let token = new_api_token("  agent ").unwrap().expect("the random source works");
    assert_eq!(token.name, "agent");
    assert!(token.token.starts_with("pem_"));
    assert_eq!(token.token.len(), 44);
    assert_eq!(token.token_prefix, token.token[..12]);
    assert_eq!(new_api_token("  ").err().unwrap(), "name must not be empty");
    let code = random_base62(16).unwrap();
    assert_eq!(code.len(), 16);
    assert_ne!(code, random_base62(16).unwrap());
}

#[test]
fn a_password_matches_the_hash_it_was_stored_as() {
    let hash = hash_password("password123").expect("hashing works");
    assert!(verify_password("password123", &hash));
    assert!(!verify_password("wrong-password", &hash));
    assert!(check_login(Some(&hash), "password123"));
    assert!(!check_login(None, "password123"));
    assert!(!check_login(Some("not a hash"), "password123"));
}

#[test]
fn digests_and_hex_match_the_published_vectors() {
    assert_eq!(
        hex_encode(&sha256("abc")),
        "ba7816bf8f01cfea414140de5dae2223b00361a396177a9cb410ff61f20015ad"
    );
    assert_eq!(hex_decode("00ffA0"), Some(vec![0, 255, 160]));
    assert_eq!(hex_decode("0"), None);
    assert_eq!(hex_decode("zz"), None);
    assert_eq!(
        blob_key(b"abc"),
        "blobs/ba7816bf8f01cfea414140de5dae2223b00361a396177a9cb410ff61f20015ad"
    );
}

#[test]
fn bodies_are_read_from_where_they_live() {
    assert!(matches!(body_source(Some(vec![1]), Some("k".to_string()), false), Ok(BodySource::Inline(c)) if c == vec![1]));
    assert!(matches!(body_source(None, Some("k".to_string()), true), Ok(BodySource::Object(k)) if k == "k"));
    assert_eq!(
        body_source(None, Some("blobs/k".to_string()), false).err().unwrap(),
        "blobs/k needs a bucket, and none is configured"
    );
    assert_eq!(body_source(None, None, true).err().unwrap(), "the row carries neither content nor a key");
    assert!(stores_as_object(262_145, true));
    assert!(!stores_as_object(262_144, true));
    assert!(!stores_as_object(1_000_000, false));
}

#[test]
fn numbers_read_as_the_standard_parser_reads_them() {
    let p = |s: &str| parse_i64(&s.chars().collect::<Vec<char>>());
    assert_eq!(p("42"), Some(42));
    assert_eq!(p("+42"), Some(42));
    assert_eq!(p("-9223372036854775808"), Some(i64::MIN));
    assert_eq!(p("9223372036854775808"), None);
    assert_eq!(p("-"), None);
    assert_eq!(p(""), None);
    assert_eq!(p("1x"), None);
}

#[test]
fn an_invite_code_is_sixteen_base62_characters() {
    let code = new_invite_code().expect("the system hands out randomness");
    assert_eq!(code.len(), 16);
    assert!(code.bytes().all(|b| b.is_ascii_alphanumeric()));
    assert_ne!(new_invite_code().expect("randomness"), code);
}

#[test]
fn a_key_minted_now_opens_its_document_now() {
    let key = mint("secret", 12);
    assert!(is_answer_key(&key));
    assert_eq!(verify("secret", &key), Some(12));
    assert_eq!(verify("another secret", &key), None);
}

#[test]
fn publishing_behind_a_password_needs_one() {
    assert_eq!(check_publish_password(""), Err("password must not be empty".to_string()));
    assert_eq!(check_publish_password("hunter2"), Ok(()));
}

#[test]
fn the_share_link_opens_the_share_page_of_its_document() {
    let app = AppUrl(Origin("https://env.md".to_string()));
    assert_eq!(
        share_link(&app, "abc", "plan"),
        "<a id=\"planenv-share\" href=\"https://env.md/share/abc/plan\" target=\"_blank\" rel=\"noopener\" onclick=\"window.open(this.href, 'planenv-share', 'width=440,height=600'); return false\">Share</a>"
    );
}

#[test]
fn the_answer_widget_carries_a_key_for_its_document() {
    let app = AppUrl(Origin("https://env.md".to_string()));
    let fragment = answer_widget_fragment(&app, "secret", &doc(None, true), "[{\"prompt\":\"</script>\"}]", "p{}");
    let head = "\n<style>p{}</style>\n<script type=\"application/json\" id=\"planenv-questions\">[{\"prompt\":\"\\u003c/script>\"}]</script>\n<script src=\"/_planenv/answer.js\" data-planenv-key=\"";
    assert!(fragment.starts_with(head));
    let rest = &fragment[head.len()..];
    let key = &rest[..rest.find('"').expect("the key is quoted")];
    assert!(is_answer_key(key));
    assert_eq!(verify("secret", key), Some(1));
    assert!(fragment.ends_with("\" data-planenv-slug=\"plan\" data-planenv-api=\"https://env.md\"></script>\n"));
}

#[test]
fn schemes_and_alias_refusals_read_as_words() {
    assert_eq!(scheme_name(Scheme::Light), "light");
    assert_eq!(scheme_name(Scheme::Dark), "dark");
    assert_eq!(alias_taken_message("openlv"), "openlv is a project of its own; merging projects is not supported");
}

#[test]
fn only_a_published_password_document_is_unlocked_by_its_cookie() {
    let cookie = access_cookie_at("secret", 3, "hash", 1_000);
    assert!(visitor_unlocked("secret", 3, true, Some("hash"), Some(&cookie), 1_000));
    assert!(!visitor_unlocked("secret", 3, false, Some("hash"), Some(&cookie), 1_000));
    assert!(!visitor_unlocked("secret", 3, true, None, Some(&cookie), 1_000));
    assert!(!visitor_unlocked("secret", 3, true, Some("other"), Some(&cookie), 1_000));
    assert!(!visitor_unlocked("secret", 3, true, Some("hash"), None, 1_000));
}

#[test]
fn the_owner_reads_by_grant_or_by_token() {
    assert!(reads_as_owner(Some(5), None, 5));
    assert!(reads_as_owner(None, Some(5), 5));
    assert!(reads_as_owner(Some(4), Some(5), 5));
    assert!(!reads_as_owner(Some(4), Some(6), 5));
    assert!(!reads_as_owner(None, None, 5));
}

#[test]
fn pinned_assets_are_cached_for_good_and_the_latest_is_revalidated() {
    assert_eq!(asset_cache_control(true), "private, max-age=31536000, immutable");
    assert_eq!(asset_cache_control(false), "no-cache");
}

#[test]
fn an_access_cookie_is_its_expiry_and_the_hmac_of_what_it_opens() {
    let mut mac = hmac::Hmac::<sha2::Sha256>::new_from_slice(b"secret").expect("any key length");
    mac.update(b"3.605800.hash");
    let expected = format!("605800.{}", hex_encode(&mac.finalize().into_bytes()));
    assert_eq!(access_cookie_at("secret", 3, "hash", 1_000), expected);
}

#[test]
fn an_answer_that_does_not_fit_is_not_stored() {
    let q = question("approve", &["yes", "no"], false);
    assert!(answer_to_store(&q, &strings(&["yes", "no"]), None, None).is_err());
    let stored = answer_to_store(&q, &strings(&["other"]), Some("maybe".to_string()), None).expect("written answer");
    assert_eq!(stored.selected, "[\"other\"]");
    assert_eq!(stored.other_text.as_deref(), Some("maybe"));
}

#[test]
fn a_grant_signed_now_is_redeemed_now_for_a_reader_cookie() {
    let grant = sign("secret", "grant", 42, 30);
    assert_eq!(grant_verify("secret", "grant", &grant), Some(42));
    assert_eq!(grant_verify("secret", "reader", &grant), None);
    let query = format!("next=%2Fa%2Fb&g={grant}");
    let redeemed = redeem("secret", Some(&query)).expect("a fresh grant redeems");
    assert_eq!(redeemed.user_id, 42);
    assert_eq!(redeemed.seconds, 604_800);
    assert_eq!(reader("secret", Some(&redeemed.cookie)), Some(42));
    assert_eq!(reader("other", Some(&redeemed.cookie)), None);
    assert!(redeem("secret", Some("g=1.2.3")).is_none());
}

#[test]
fn an_empty_token_needs_no_randomness() {
    assert_eq!(random_base62(0), Some(String::new()));
}

#[test]
fn the_head_is_found_past_a_tag_that_only_starts_like_it() {
    assert_eq!(find_head_open(b"<html><HEAD lang=en><title>"), Some(20));
    assert_eq!(find_head_open(b"<head>"), Some(6));
    assert_eq!(find_head_open(b"<header>x</header>"), None);
    assert_eq!(find_head_open(b"<p>no head</p>"), None);
    assert_eq!(find_head_open(b"<!--<header>--><head>"), Some(21));
    let mut body = b"<header></header><head><title>".to_vec();
    insert_into_head(&mut body, b"<link>");
    assert_eq!(body, b"<header></header><head><link><title>".to_vec());
}

#[test]
fn an_api_token_is_its_prefix_and_the_draw() {
    let drawn = "abcdefghijABCDEFGHIJ0123456789klmnopqrst";
    let token = api_token_from("  ci bot ", drawn);
    assert_eq!(token.name, "ci bot");
    assert_eq!(token.token, format!("pem_{drawn}"));
    assert_eq!(token.token_prefix, "pem_abcdefgh");
    assert_eq!(token.token_hash, sha256(&token.token));
    let minted = new_api_token("agent").expect("a name").expect("randomness");
    assert_eq!(minted.token.len(), 44);
    assert_eq!(minted.token_hash, sha256(&minted.token));
    assert_ne!(new_api_token("agent").expect("a name").expect("randomness").token, minted.token);
}

#[test]
fn a_session_keeps_only_the_digest_of_its_token() {
    let session = session_from("token".to_string());
    assert_eq!(session.token, "token");
    assert_eq!(
        hex_encode(&session.token_hash),
        "3c469e9d6c5875d37a43f353d4f88e61fcf812c66eee3457465a40b0da4153e0"
    );
    let fresh = new_session().expect("randomness");
    assert_eq!(fresh.token.len(), 43);
    assert_eq!(fresh.token_hash, sha256(&fresh.token));
}

#[test]
fn the_first_account_is_admin_and_later_ones_need_an_unused_invite() {
    assert!(matches!(register_step(0, false, None), Admission::Admin));
    assert!(matches!(register_step(0, true, Some(3)), Admission::Admin));
    assert!(matches!(register_step(2, false, None), Admission::BadInvite));
    assert!(matches!(register_step(2, true, None), Admission::BadInvite));
    assert!(matches!(register_step(2, true, Some(3)), Admission::UseInvite(3)));
    assert!(matches!(after_insert(true, Some(1)), RegisterOutcome::UsernameTaken));
    assert!(matches!(after_insert(false, Some(0)), RegisterOutcome::BadInvite));
    assert!(matches!(after_insert(false, Some(1)), RegisterOutcome::Created));
    assert!(matches!(after_insert(false, None), RegisterOutcome::Created));
}

fn answered(key: &str) -> AnsweredQuestion {
    AnsweredQuestion { question: question(key, &["yes", "no"], false), answer: None }
}

#[test]
fn visitors_get_no_widget_no_key_and_no_share_link() {
    let app = AppUrl(Origin("https://env.md".to_string()));
    let body = b"<html><head><title>t</title></head><body>x</body></html>".to_vec();
    let asked = vec![answered("approve")];
    let visitor = page_body(body.clone(), &app, &docs(), "secret", "abc", &doc(None, true), 1, 1, &[1], false, &asked, "[]", "p{}", None);
    let text = String::from_utf8(visitor).expect("UTF-8");
    let overlay = overlay_fragment(&app, &docs(), "", "abc", &doc(None, true), 1, 1, &[1], &[]);
    assert_eq!(text, format!("{}{}", String::from_utf8(body.clone()).expect("UTF-8"), overlay));
    assert!(!text.contains("id=\"planenv-share\""));
    assert!(!text.contains("data-planenv-key"));

    let owner = page_body(body.clone(), &app, &docs(), "secret", "abc", &doc(None, true), 1, 1, &[1], true, &asked, "[]", "p{}", None);
    let text = String::from_utf8(owner).expect("UTF-8");
    assert!(text.contains("id=\"planenv-share\""));
    assert!(text.contains("data-planenv-key=\"planq_1."));

    let unasked = page_body(body, &app, &docs(), "secret", "abc", &doc(None, true), 1, 1, &[1], true, &[], "[]", "p{}", None);
    assert!(!String::from_utf8(unasked).expect("UTF-8").contains("data-planenv-key"));
}

#[test]
fn a_document_that_declares_its_icon_keeps_it() {
    let app = AppUrl(Origin("https://env.md".to_string()));
    let plain = b"<html><head><title>t</title></head></html>".to_vec();
    let out = page_body(plain, &app, &docs(), "s", "abc", &doc(None, true), 1, 1, &[1], false, &[], "[]", "", Some("<link rel=\"icon\">"));
    assert!(String::from_utf8(out).expect("UTF-8").starts_with("<html><head><link rel=\"icon\"><title>"));
    let own = b"<html><head><link rel=\"icon\" href=\"x.png\"></head></html>".to_vec();
    let out = page_body(own.clone(), &app, &docs(), "s", "abc", &doc(None, true), 1, 1, &[1], false, &[], "[]", "", Some("<link rel=\"icon\">"));
    assert!(out.starts_with(&own));
}

#[test]
fn a_lowered_tag_is_hyphenated_and_checked() {
    assert_eq!(tag_from_lowered("PR Review", "pr review"), Ok("pr-review".to_string()));
    assert!(tag_from_lowered("!!", "!!").is_err());
}

#[test]
fn a_document_page_runs_sandboxed_and_unsniffed() {
    assert_eq!(
        page_headers(),
        vec![
            ("content-type", "text/html; charset=utf-8"),
            ("cache-control", "no-store"),
            ("content-security-policy", "sandbox allow-scripts allow-popups allow-popups-to-escape-sandbox"),
            ("cross-origin-opener-policy", "noopener-allow-popups"),
            ("x-content-type-options", "nosniff"),
            ("referrer-policy", "same-origin"),
        ]
    );
}

#[test]
fn a_new_document_tries_five_public_ids() {
    assert!(matches!(after_public_id_attempt(1, false), MintStep::Minted));
    assert!(matches!(after_public_id_attempt(1, true), MintStep::Retry));
    assert!(matches!(after_public_id_attempt(4, true), MintStep::Retry));
    assert!(matches!(after_public_id_attempt(5, true), MintStep::Exhausted));
}

#[test]
fn revisions_count_up_from_one() {
    assert_eq!(next_revision(None), Some(1));
    assert_eq!(next_revision(Some(3)), Some(4));
    assert_eq!(next_revision(Some(i64::MAX)), None);
}

#[test]
fn a_delete_frees_only_what_nothing_else_holds() {
    let keys = strings(&["a", "b", "c", "d"]);
    assert_eq!(objects_to_free(&keys, &[Some(false), Some(true), None, Some(false)]), strings(&["a", "d"]));
    assert!(objects_to_free(&[], &[]).is_empty());
}

#[test]
fn raw_sources_assets_and_forms_carry_their_own_headers() {
    assert_eq!(
        raw_headers(),
        vec![
            ("content-security-policy", "sandbox allow-scripts allow-popups"),
            ("x-content-type-options", "nosniff"),
            ("referrer-policy", "no-referrer"),
        ]
    );
    assert_eq!(asset_headers(true)[0], ("cache-control", "private, max-age=31536000, immutable"));
    assert_eq!(asset_headers(false)[0], ("cache-control", "no-cache"));
    assert_eq!(asset_headers(false)[2], ("referrer-policy", "same-origin"));
    assert_eq!(render_file_headers()[0], ("content-security-policy", "sandbox allow-scripts"));
    assert_eq!(password_form_headers()[1], ("cache-control", "no-store"));
    assert_eq!(share_page_headers(), vec![("content-type", "text/html; charset=utf-8"), ("x-content-type-options", "nosniff")]);
}

#[test]
fn hex_pairs_read_as_from_str_radix_reads_them() {
    assert_eq!(hex_decode("+f"), Some(vec![15]));
    assert_eq!(hex_decode("+F0a"), Some(vec![15, 10]));
    assert_eq!(hex_decode("f+"), None);
    assert_eq!(hex_decode("++"), None);
    assert_eq!(hex_decode("-f"), None);
    assert_eq!(hex_decode("abc"), None);
    assert_eq!(hex_encode(&hex_decode("0AfF").expect("hex")), "0aff");
}
