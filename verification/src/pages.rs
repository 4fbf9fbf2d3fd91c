//! The pages and fragments the docs origin writes around a document: the
//! password gate, the share page, the project icon links and the answer
//! widget.

use vstd::prelude::*;
use vstd::utf8::encode_utf8;

use crate::config::{AppUrl, DocsUrl};
use crate::text::{append_str, ascii_lower, chars_of, string_of};
use crate::question::AnsweredQuestion;
use crate::view::{
    asks_for_icon, declares_icon, head_open, html_escape, html_escaped, insert_into_head, overlay_fragment, overlay_text,
    utf8_lossy, Doc,
};

verus! {

pub const SHARE_PAGE_0: &'static str = "<!doctype html>\n<html lang=\"en\">\n<head>\n<meta charset=\"utf-8\">\n<meta name=\"viewport\" content=\"width=device-width, initial-scale=1\">\n<title>Share: ";

pub const SHARE_PAGE_1: &'static str = "</title>\n<style>\n  :root {\n    --bg: #f2f1ec; --surface: #faf9f6; --border: #d9d5cb;\n    --ink: #20242a; --muted: #6e6a5f; --accent: #196d59;\n    --accent-contrast: #f5faf8;\n  }\n  @media (prefers-color-scheme: dark) {\n    :root {\n      --bg: #17191c; --surface: #1e2125; --border: #34383d;\n      --ink: #d7d9d3; --muted: #8f9389; --accent: #4cc2a0;\n      --accent-contrast: #10201b;\n    }\n  }\n  * { box-sizing: border-box; }\n  body {\n    margin: 0; padding: 1.5rem; background: var(--bg); color: var(--ink);\n    font: 15px/1.6 system-ui, -apple-system, \"Segoe UI\", sans-serif;\n  }\n  h1 { font: 600 16px ui-monospace, \"SF Mono\", Menlo, Consolas, monospace; margin: 0 0 0.25rem; }\n  p { margin: 0.5rem 0; }\n  .muted { color: var(--muted); font-size: 13px; }\n  .url {\n    display: flex; gap: 6px; margin: 1rem 0;\n  }\n  .url input {\n    flex: 1; min-width: 0; font: 12px ui-monospace, Menlo, Consolas, monospace;\n    color: var(--muted); background: var(--surface);\n    border: 1px solid var(--border); border-radius: 6px; padding: 0.6em 0.8em;\n  }\n  label { display: block; font-size: 13px; font-weight: 500; color: var(--muted); margin: 1rem 0 0.3rem; }\n  input[type=\"password\"] {\n    width: 100%; font: inherit; color: var(--ink); background: var(--surface);\n    border: 1px solid var(--border); border-radius: 6px; padding: 0.55em 0.8em;\n  }\n  .actions { display: flex; gap: 8px; margin-top: 1rem; }\n  button {\n    font: 500 14px system-ui, sans-serif; cursor: pointer;\n    border-radius: 6px; padding: 0.55em 1em; border: 0;\n    background: var(--accent); color: var(--accent-contrast);\n  }\n  button.quiet {\n    background: var(--surface); color: var(--ink); border: 1px solid var(--border);\n  }\n  #status { min-height: 1.2em; font-size: 13px; margin-top: 0.75rem; }\n  #status.error { color: #a03030; }\n</style>\n</head>\n<body>\n<h1>";

pub const SHARE_PAGE_2: &'static str = "</h1>\n<p id=\"state\" class=\"muted\">";

pub const SHARE_PAGE_3: &'static str = "</p>\n<div class=\"url\">\n  <input id=\"url\" readonly value=\"";

pub const SHARE_PAGE_4: &'static str = "\">\n  <button id=\"copy\" type=\"button\" class=\"quiet\">Copy</button>\n</div>\n<p class=\"muted\">Documents are private by default. Publishing puts the document\nbehind one password that covers every revision, including future ones.\nRotating the password locks out everyone who has the old one.</p>\n<form id=\"publish-form\">\n  <label for=\"password\">Document password</label>\n  <div class=\"url\">\n    <input id=\"password\" type=\"text\" required minlength=\"1\" autocomplete=\"off\" spellcheck=\"false\">\n    <button id=\"generate\" type=\"button\" class=\"quiet\">Generate</button>\n  </div>\n  <div class=\"actions\">\n    <button type=\"submit\">";

pub const SHARE_PAGE_5: &'static str = "</button>\n    <button id=\"one-step\" type=\"button\" class=\"quiet\">Generate and copy link</button>\n    ";

pub const SHARE_PAGE_6: &'static str = "\n  </div>\n</form>\n<p id=\"status\"></p>\n<script>\n  const status = document.querySelector(\"#status\");\n  const say = (message, isError) => {\n    status.textContent = message;\n    status.className = isError ? \"error\" : \"\";\n  };\n  const field = document.querySelector(\"#password\");\n\n  // the same alphabet and length as the dashboard's share dialog, so a\n  // password does not tell you which surface made it. No look-alike\n  // characters, since these get read aloud and retyped\n  const ALPHABET = \"abcdefghijkmnopqrstuvwxyzABCDEFGHJKLMNPQRSTUVWXYZ23456789\";\n  const LENGTH = 20;\n  const generate = () => {\n    // bytes at or above the last whole multiple of the alphabet would make the\n    // first few characters likelier than the rest, so they are drawn again\n    const ceiling = 256 - (256 % ALPHABET.length);\n    const out = [];\n    while (out.length < LENGTH) {\n      for (const byte of crypto.getRandomValues(new Uint8Array(LENGTH))) {\n        if (byte < ceiling && out.length < LENGTH) out.push(ALPHABET[byte % ALPHABET.length]);\n      }\n    }\n    return out.join(\"\");\n  };\n\n  // the ";

pub const SHARE_PAGE_6_TAIL: &'static str = "gate reads the password out of the fragment, which never reaches the\n  // server and so stays out of the request log\n  const linkWithPassword = (password) =>\n    document.querySelector(\"#url\").value + \"#k=\" + encodeURIComponent(password);\n\n  const publish = (password) =>\n    fetch(\"/api/docs/";

pub const SHARE_PAGE_7: &'static str = "/publish\", {\n      method: \"POST\",\n      headers: { \"Content-Type\": \"application/json\" },\n      body: JSON.stringify({ password: password }),\n    });\n\n  document.querySelector(\"#copy\").addEventListener(\"click\", () => {\n    navigator.clipboard.writeText(document.querySelector(\"#url\").value)\n      .then(() => say(\"Link copied, without the password.\", false));\n  });\n\n  document.querySelector(\"#generate\").addEventListener(\"click\", () => {\n    field.value = generate();\n    field.focus();\n    say(\"Made. Publish to put it in force.\", false);\n  });\n\n  // the page renders its state on the server, so a publish reloads rather than\n  // patching the state line, the button label and the unpublish button by hand.\n  // The fragment survives the reload and is what reports the copy afterwards.\n  const publishThenCopy = (password) =>\n    publish(password).then((response) => {\n      if (!response.ok) return say(\"Publishing failed (status \" + response.status + \").\", true);\n      return navigator.clipboard.writeText(linkWithPassword(password)).then(() => {\n        location.hash = \"copied\";\n        location.reload();\n      });\n    });\n\n  document.querySelector(\"#one-step\").addEventListener(\"click\", () => {\n    const password = generate();\n    field.value = password;\n    publishThenCopy(password);\n  });\n\n  document.querySelector(\"#publish-form\").addEventListener(\"submit\", (event) => {\n    event.preventDefault();\n    publishThenCopy(field.value);\n  });\n\n  if (location.hash === \"#copied\") {\n    history.replaceState(null, \"\", location.pathname);\n    say(\"Link with password copied. Send it as one piece.\", false);\n  }\n\n  const unpublish = document.querySelector(\"#unpublish\");\n  if (unpublish) unpublish.addEventListener(\"click\", () => {\n    fetch(\"/api/docs/";

pub const SHARE_PAGE_8: &'static str = "/unpublish\", { method: \"POST\" }).then((response) => {\n      if (response.ok) location.reload();\n      else say(\"Unpublishing failed (status \" + response.status + \").\", true);\n    });\n  });\n</script>\n</body>\n</html>\n";

pub const PASSWORD_FORM_0: &'static str = "<!doctype html>\n<html lang=\"en\">\n<head>\n<meta charset=\"utf-8\">\n<meta name=\"viewport\" content=\"width=device-width, initial-scale=1\">\n";

pub const PASSWORD_FORM_1: &'static str = "\n<title>";

pub const PASSWORD_FORM_2: &'static str = "</title>\n<style>\n  body { font: 16px/1.6 system-ui, sans-serif; display: grid; place-items: center;\n         min-height: 100vh; margin: 0; background: #f2f1ec; color: #20242a; }\n  form { width: min(320px, 90vw); text-align: center; }\n  h1 { font-size: 18px; font-family: ui-monospace, monospace; }\n  input, button { width: 100%; box-sizing: border-box; font: inherit;\n                   padding: 0.6em 0.8em; margin-top: 0.5em; }\n  .error { color: #a03030; font-size: 14px; }\n  @media (prefers-color-scheme: dark) {\n    body { background: #17191c; color: #d7d9d3; }\n    input { background: #1e2125; color: inherit; border: 1px solid #34383d; }\n  }\n</style>\n</head>\n<body>\n<form method=\"post\" action=\"/";

pub const PASSWORD_FORM_3: &'static str = "/";

pub const PASSWORD_FORM_4: &'static str = "\">\n  <h1>";

pub const PASSWORD_FORM_5: &'static str = "</h1>\n  <p>This document is protected.</p>\n  ";

pub const PASSWORD_FORM_6: &'static str = "\n  <input type=\"password\" name=\"password\" placeholder=\"document password\" autofocus required>\n  <button type=\"submit\">Open document</button>\n</form>\n<script>\n(function () {\n  var key = new URLSearchParams(location.hash.slice(1)).get('k');\n  if (!key) return;\n  var form = document.forms[0];\n  form.password.value = key;\n  // drop it from the address bar before navigating, so a shared screen or a\n  // glance at the history does not hand the password over\n  history.replaceState(null, '', location.pathname + location.search);\n  form.submit();\n})();\n</script>\n</body>\n</html>\n";

pub const WIDGET_0: &'static str = "\n<style>";

pub const WIDGET_1: &'static str = "</style>\n<script type=\"application/json\" id=\"planenv-questions\">";

pub const WIDGET_2: &'static str = "</script>\n<script src=\"/_planenv/answer.js\" data-planenv-key=\"";

pub const WIDGET_3: &'static str = "\" data-planenv-slug=\"";

pub const WIDGET_4: &'static str = "\" data-planenv-api=\"";

pub const WIDGET_5: &'static str = "\"></script>\n";

pub const ICON_LINK_0: &'static str = "<link rel=\"icon\" media=\"";

pub const ICON_LINK_1: &'static str = "\" type=\"";

pub const ICON_LINK_2: &'static str = "\" href=\"data:";

pub const ICON_LINK_3: &'static str = ";base64,";

pub const ICON_LINK_4: &'static str = "\">";

pub const SHARE_LINK_0: &'static str = "<a id=\"planenv-share\" href=\"";

pub const SHARE_LINK_1: &'static str = "/share/";

pub const SHARE_LINK_2: &'static str = "/";

pub const SHARE_LINK_3: &'static str = "\" target=\"_blank\" rel=\"noopener\" onclick=\"window.open(this.href, 'planenv-share', 'width=440,height=600'); return false\">Share</a>";

/// The reply body of a document the caller may not see, missing or not.
pub const NOT_FOUND_BODY: &'static str = "not found";

pub const TOO_MANY_BODY: &'static str = "too many attempts from this address; try again later";

/// The owner's link to the share page, which lives on the app origin where the
/// session is, because publishing and rotating passwords belong to the app.
pub open spec fn share_link_text(app: Seq<char>, public_id: Seq<char>, slug: Seq<char>) -> Seq<char> {
    SHARE_LINK_0@ + app + SHARE_LINK_1@ + public_id + SHARE_LINK_2@ + slug + SHARE_LINK_3@
}

pub fn share_link(app_url: &AppUrl, public_id: &str, slug: &str) -> (out: String)
    ensures
        out@ == share_link_text(app_url.0.0@, public_id@, slug@),
{
    let mut v = chars_of(SHARE_LINK_0);
    append_str(&mut v, app_url.0.as_str());
    append_str(&mut v, SHARE_LINK_1);
    append_str(&mut v, public_id);
    append_str(&mut v, SHARE_LINK_2);
    append_str(&mut v, slug);
    append_str(&mut v, SHARE_LINK_3);
    string_of(&v)
}

/// JSON text made safe inside a script element: the HTML parser ends a script
/// block at the first `</script`, wherever it appears, so every `<` becomes the
/// escape `\u003c`, which is still the same string once parsed.
pub open spec fn script_safe(json: Seq<char>) -> Seq<char>
    decreases json.len(),
{
    if json.len() == 0 {
        Seq::empty()
    } else {
        script_safe(json.drop_last()) + if json.last() == '<' {
            "\\u003c"@
        } else {
            seq![json.last()]
        }
    }
}

pub fn script_safe_json(json: &str) -> (out: String)
    ensures
        out@ == script_safe(json@),
{
    let c = chars_of(json);
    let mut v: Vec<char> = Vec::new();
    let mut i: usize = 0;
    assert(c@.take(0) =~= Seq::<char>::empty());
    while i < c.len()
        invariant
            i <= c.len(),
            c@ == json@,
            v@ == script_safe(c@.take(i as int)),
        decreases c.len() - i,
    {
        proof {
            assert(c@.take(i + 1).drop_last() =~= c@.take(i as int));
        }
        if c[i] == '<' {
            append_str(&mut v, "\\u003c");
        } else {
            v.push(c[i]);
        }
        i = i + 1;
    }
    assert(c@.take(i as int) =~= c@);
    string_of(&v)
}

/// The answer widget for a document's owner: its stylesheet inline, the
/// question set as inert JSON, and the script that carries a scoped key and
/// the address of the API it writes to.
pub open spec fn widget_text(
    css: Seq<char>,
    questions_json: Seq<char>,
    key: Seq<char>,
    slug: Seq<char>,
    app: Seq<char>,
) -> Seq<char> {
    WIDGET_0@ + css + WIDGET_1@ + script_safe(questions_json) + WIDGET_2@ + key + WIDGET_3@ + slug + WIDGET_4@ + app
        + WIDGET_5@
}

/// Owner only: the question set (serialised as `questions_json`), plus a
/// scoped key that lets the widget write answers from the docs origin, where
/// the session cookie is never sent.
pub fn answer_widget_fragment(app_url: &AppUrl, secret: &str, doc: &Doc, questions_json: &str, css: &str) -> (out:
    String)
    ensures
        exists|expiry: i64|
            out@ == widget_text(
                css@,
                questions_json@,
                #[trigger] crate::answer_key::key_text(secret@, doc.id, expiry),
                doc.slug@,
                app_url.0.0@,
            ),
{
    let key = crate::answer_key::mint(secret, doc.id);
    let mut v = chars_of(WIDGET_0);
    append_str(&mut v, css);
    append_str(&mut v, WIDGET_1);
    append_str(&mut v, script_safe_json(questions_json).as_str());
    append_str(&mut v, WIDGET_2);
    append_str(&mut v, key.as_str());
    append_str(&mut v, WIDGET_3);
    append_str(&mut v, doc.slug.as_str());
    append_str(&mut v, WIDGET_4);
    append_str(&mut v, app_url.0.as_str());
    append_str(&mut v, WIDGET_5);
    string_of(&v)
}

/// One character of the standard base64 alphabet: `A-Z`, `a-z`, `0-9`, `+`, `/`.
pub open spec fn base64_char(n: int) -> char {
    if n < 26 {
        (65 + n) as char
    } else if n < 52 {
        (97 + n - 26) as char
    } else if n < 62 {
        (48 + n - 52) as char
    } else if n == 62 {
        '+'
    } else {
        '/'
    }
}

/// Standard base64 with padding (RFC 4648): each three bytes become four
/// characters of six bits each, and a final one or two bytes are padded with
/// `=` to four.
pub open spec fn base64_of(bytes: Seq<u8>) -> Seq<char>
    decreases bytes.len(),
{
    if bytes.len() == 0 {
        Seq::empty()
    } else if bytes.len() == 1 {
        let a = bytes[0] as int;
        seq![base64_char(a / 4), base64_char((a % 4) * 16), '=', '=']
    } else if bytes.len() == 2 {
        let a = bytes[0] as int;
        let b = bytes[1] as int;
        seq![base64_char(a / 4), base64_char((a % 4) * 16 + b / 16), base64_char((b % 16) * 4), '=']
    } else {
        let a = bytes[0] as int;
        let b = bytes[1] as int;
        let c = bytes[2] as int;
        seq![
            base64_char(a / 4),
            base64_char((a % 4) * 16 + b / 16),
            base64_char((b % 16) * 4 + c / 64),
            base64_char(c % 64),
        ] + base64_of(bytes.skip(3))
    }
}

/// `base64::engine::general_purpose::STANDARD.encode`: standard base64 with
/// padding, as `base64_of` spells it out.
#[verifier::external_body]
fn base64_standard(bytes: &[u8]) -> (out: String)
    ensures
        out@ == base64_of(bytes@),
{
    base64::engine::Engine::encode(&base64::engine::general_purpose::STANDARD, bytes)
}

/// A project icon as stored: its bytes and the type they were sniffed as.
pub struct Icon {
    pub bytes: Vec<u8>,
    pub content_type: String,
}

pub open spec fn icon_link_text(media: Seq<char>, icon: Icon) -> Seq<char> {
    ICON_LINK_0@ + media + ICON_LINK_1@ + icon.content_type@ + ICON_LINK_2@ + icon.content_type@ + ICON_LINK_3@
        + base64_of(icon.bytes@) + ICON_LINK_4@
}

fn icon_link(media: &str, icon: &Icon) -> (out: Vec<char>)
    ensures
        out@ == icon_link_text(media@, *icon),
{
    let mut v = chars_of(ICON_LINK_0);
    append_str(&mut v, media);
    append_str(&mut v, ICON_LINK_1);
    append_str(&mut v, icon.content_type.as_str());
    append_str(&mut v, ICON_LINK_2);
    append_str(&mut v, icon.content_type.as_str());
    append_str(&mut v, ICON_LINK_3);
    append_str(&mut v, base64_standard(icon.bytes.as_slice()).as_str());
    append_str(&mut v, ICON_LINK_4);
    v
}

pub open spec fn icon_links_text(dark: Option<Icon>, light: Option<Icon>) -> Seq<char> {
    (match dark {
        Some(i) => icon_link_text("(prefers-color-scheme: dark)"@, i),
        None => Seq::empty(),
    }) + (match light {
        Some(i) => icon_link_text("(prefers-color-scheme: light)"@, i),
        None => Seq::empty(),
    })
}

/// The project icon as data URIs, so it works for a link and password visitor
/// who cannot reach the owner-only icon route. Both schemes are emitted with a
/// media query, dark first, so a browser that ignores `media` on an icon link
/// takes the last one and lands on the light one.
pub fn icon_links(dark: Option<Icon>, light: Option<Icon>) -> (out: String)
    ensures
        out@ == icon_links_text(dark, light),
{
    let mut v: Vec<char> = Vec::new();
    match &dark {
        Some(i) => crate::text::append_chars(&mut v, &icon_link("(prefers-color-scheme: dark)", i)),
        None => {},
    }
    match &light {
        Some(i) => crate::text::append_chars(&mut v, &icon_link("(prefers-color-scheme: light)", i)),
        None => {},
    }
    string_of(&v)
}

/// The password gate, which also accepts the password from the address's
/// fragment so a share link can carry it.
pub open spec fn password_form_text(public_id: Seq<char>, slug: Seq<char>, wrong_password: bool, icon: Seq<char>) -> Seq<
    char,
> {
    let error = if wrong_password {
        "<p class=\"error\">Wrong password.</p>"@
    } else {
        Seq::empty()
    };
    PASSWORD_FORM_0@ + icon + PASSWORD_FORM_1@ + slug + PASSWORD_FORM_2@ + public_id + PASSWORD_FORM_3@ + slug
        + PASSWORD_FORM_4@ + slug + PASSWORD_FORM_5@ + error + PASSWORD_FORM_6@
}

pub fn password_form(public_id: &str, slug: &str, wrong_password: bool, icon: &str) -> (out: String)
    ensures
        out@ == password_form_text(public_id@, slug@, wrong_password, icon@),
{
    let mut v = chars_of(PASSWORD_FORM_0);
    append_str(&mut v, icon);
    append_str(&mut v, PASSWORD_FORM_1);
    append_str(&mut v, slug);
    append_str(&mut v, PASSWORD_FORM_2);
    append_str(&mut v, public_id);
    append_str(&mut v, PASSWORD_FORM_3);
    append_str(&mut v, slug);
    append_str(&mut v, PASSWORD_FORM_4);
    append_str(&mut v, slug);
    append_str(&mut v, PASSWORD_FORM_5);
    if wrong_password {
        append_str(&mut v, "<p class=\"error\">Wrong password.</p>");
    }
    append_str(&mut v, PASSWORD_FORM_6);
    string_of(&v)
}

/// The share page for a document's owner: where it lives, whether it is
/// published, and the controls that publish, rotate and unpublish.
pub open spec fn share_page_text(docs: Seq<char>, public_id: Seq<char>, doc: Doc) -> Seq<char> {
    let title = html_escaped(
        match doc.title {
            Some(t) => t@,
            None => doc.slug@,
        },
    );
    let url = docs + "/"@ + public_id + "/"@ + doc.slug@;
    let state_line = if doc.published {
        "Published. Anyone with the link and the document password can read it."@
    } else {
        "Private. Only you can open it."@
    };
    let publish_label = if doc.published {
        "Rotate password"@
    } else {
        "Publish"@
    };
    let unpublish_button = if doc.published {
        "<button id=\"unpublish\" type=\"button\" class=\"quiet\">Unpublish</button>"@
    } else {
        Seq::empty()
    };
    SHARE_PAGE_0@ + title + SHARE_PAGE_1@ + title + SHARE_PAGE_2@ + state_line + SHARE_PAGE_3@ + url + SHARE_PAGE_4@
        + publish_label + SHARE_PAGE_5@ + unpublish_button + SHARE_PAGE_6@ + SHARE_PAGE_6_TAIL@ + doc.slug@ + SHARE_PAGE_7@ + doc.slug@
        + SHARE_PAGE_8@
}

pub fn share_page(docs_url: &DocsUrl, public_id: &str, doc: &Doc) -> (out: String)
    ensures
        out@ == share_page_text(docs_url.0.0@, public_id@, *doc),
{
    let title = match &doc.title {
        Some(t) => html_escape(t.as_str()),
        None => html_escape(doc.slug.as_str()),
    };
    let mut url = chars_of(docs_url.0.as_str());
    append_str(&mut url, "/");
    append_str(&mut url, public_id);
    append_str(&mut url, "/");
    append_str(&mut url, doc.slug.as_str());
    let mut v = chars_of(SHARE_PAGE_0);
    append_str(&mut v, title.as_str());
    append_str(&mut v, SHARE_PAGE_1);
    append_str(&mut v, title.as_str());
    append_str(&mut v, SHARE_PAGE_2);
    if doc.published {
        append_str(&mut v, "Published. Anyone with the link and the document password can read it.");
    } else {
        append_str(&mut v, "Private. Only you can open it.");
    }
    append_str(&mut v, SHARE_PAGE_3);
    crate::text::append_chars(&mut v, &url);
    append_str(&mut v, SHARE_PAGE_4);
    if doc.published {
        append_str(&mut v, "Rotate password");
    } else {
        append_str(&mut v, "Publish");
    }
    append_str(&mut v, SHARE_PAGE_5);
    if doc.published {
        append_str(&mut v, "<button id=\"unpublish\" type=\"button\" class=\"quiet\">Unpublish</button>");
    }
    append_str(&mut v, SHARE_PAGE_6);
    append_str(&mut v, SHARE_PAGE_6_TAIL);
    append_str(&mut v, doc.slug.as_str());
    append_str(&mut v, SHARE_PAGE_7);
    append_str(&mut v, doc.slug.as_str());
    append_str(&mut v, SHARE_PAGE_8);
    string_of(&v)
}


/// Made safe, the question data holds no `<` at all, so nothing in it can end
/// the script element it sits in.
pub proof fn lemma_script_safe_has_no_angle(json: Seq<char>)
    ensures
        forall|i: int| 0 <= i < script_safe(json).len() ==> #[trigger] script_safe(json)[i] != '<',
    decreases json.len(),
{
    reveal_strlit("\\u003c");
    if json.len() > 0 {
        lemma_script_safe_has_no_angle(json.drop_last());
        let prev = script_safe(json.drop_last());
        let tail = if json.last() == '<' {
            "\\u003c"@
        } else {
            seq![json.last()]
        };
        assert forall|i: int| 0 <= i < script_safe(json).len() implies #[trigger] script_safe(json)[i] != '<' by {
            if i < prev.len() {
                assert(script_safe(json)[i] == prev[i]);
            } else {
                assert(script_safe(json)[i] == tail[i - prev.len()]);
            }
        }
    }
}

/// `fragment` put just after the opening `<head ...>` tag of `body`, or at its
/// very front when it opens none.
pub open spec fn with_head_fragment(body: Seq<u8>, fragment: Seq<u8>) -> Seq<u8> {
    let at = match head_open(body) {
        Some(k) => k,
        None => 0,
    };
    body.take(at) + fragment + body.skip(at)
}

/// The document with the project's icon links, when it has a project and
/// does not declare an icon of its own: a document that declared one keeps it.
pub open spec fn with_project_icon(body: Seq<u8>, icon: Option<Seq<char>>) -> Seq<u8> {
    match icon {
        Some(i) => if asks_for_icon(ascii_lower(utf8_lossy(body))) {
            body
        } else {
            with_head_fragment(body, encode_utf8(i))
        },
        None => body,
    }
}

/// What a reader's page holds before any answer widget: the document (with the
/// project icon) and the overlay. Only the owner gets the share link and the
/// questions; a visitor's overlay carries neither.
pub open spec fn page_base(
    body: Seq<u8>,
    icon: Option<Seq<char>>,
    app: Seq<char>,
    docs: Seq<char>,
    public_id: Seq<char>,
    doc: Doc,
    current: i64,
    latest: i64,
    revisions: Seq<i64>,
    is_owner: bool,
    owner_questions: Seq<AnsweredQuestion>,
) -> Seq<u8> {
    let share = if is_owner {
        share_link_text(app, public_id, doc.slug@)
    } else {
        Seq::empty()
    };
    let shown = if is_owner {
        owner_questions
    } else {
        Seq::empty()
    };
    with_project_icon(body, icon) + encode_utf8(
        overlay_text(app, docs, share, public_id, doc, current, latest, revisions, shown),
    )
}

/// Whether the owner's page gets the answer widget: exactly when the revision
/// asks questions, and never for a visitor.
pub open spec fn gets_widget(is_owner: bool, owner_questions: Seq<AnsweredQuestion>) -> bool {
    is_owner && owner_questions.len() > 0
}

fn append_bytes(out: &mut Vec<u8>, more: &[u8])
    ensures
        final(out)@ == old(out)@ + more@,
{
    let ghost start = out@;
    let mut i: usize = 0;
    while i < more.len()
        invariant
            i <= more.len(),
            out@ == start + more@.take(i as int),
        decreases more.len() - i,
    {
        out.push(more[i]);
        i = i + 1;
        assert(out@ =~= start + more@.take(i as int));
    }
    assert(more@.take(i as int) =~= more@);
}

/// The page a reader is served for a revision: the document as stored, with
/// the project icon put into its head unless it declares its own, then the
/// overlay, then, for the owner of a revision that asks questions, the answer
/// widget with a fresh scoped key. A visitor gets no share link, no
/// questions, no widget and no key. `owner_questions` is what the revision
/// asks and its owner answered, `questions_json` their JSON text, and `icon`
/// the project's icon links when the document belongs to a project.
pub fn page_body(
    body: Vec<u8>,
    app_url: &AppUrl,
    docs_url: &DocsUrl,
    secret: &str,
    public_id: &str,
    doc: &Doc,
    current: i64,
    latest: i64,
    revisions: &[i64],
    is_owner: bool,
    owner_questions: &[AnsweredQuestion],
    questions_json: &str,
    css: &str,
    icon: Option<&str>,
) -> (out: Vec<u8>)
    ensures
        ({
            let base = page_base(
                body@,
                crate::text::opt_str_view(icon),
                app_url.0.0@,
                docs_url.0.0@,
                public_id@,
                *doc,
                current,
                latest,
                revisions@,
                is_owner,
                owner_questions@,
            );
            &&& !gets_widget(is_owner, owner_questions@) ==> out@ == base
            &&& gets_widget(is_owner, owner_questions@) ==> exists|expiry: i64|
                out@ == base + encode_utf8(
                    widget_text(
                        css@,
                        questions_json@,
                        #[trigger] crate::answer_key::key_text(secret@, doc.id, expiry),
                        doc.slug@,
                        app_url.0.0@,
                    ),
                )
        }),
{
    let mut body = body;
    match icon {
        Some(i) => {
            if !declares_icon(body.as_slice()) {
                insert_into_head(&mut body, i.as_bytes());
            }
        },
        None => {},
    }
    let empty: Vec<AnsweredQuestion> = Vec::new();
    let share = if is_owner {
        share_link(app_url, public_id, doc.slug.as_str())
    } else {
        string_of(&Vec::new())
    };
    let shown: &[AnsweredQuestion] = if is_owner {
        owner_questions
    } else {
        empty.as_slice()
    };
    let overlay = overlay_fragment(app_url, docs_url, share.as_str(), public_id, doc, current, latest, revisions, shown);
    append_bytes(&mut body, overlay.as_str().as_bytes());
    if is_owner && owner_questions.len() > 0 {
        let widget = answer_widget_fragment(app_url, secret, doc, questions_json, css);
        append_bytes(&mut body, widget.as_str().as_bytes());
    }
    body
}

/// The headers a document page is served with, in order: it is HTML; it is
/// one reader's page, so nothing caches it; it runs sandboxed, with scripts
/// and popups allowed and popups let out of the sandbox; its type is not
/// sniffed; and only its own origin sees its address as a referrer.
pub open spec fn page_header_text() -> Seq<(Seq<char>, Seq<char>)> {
    seq![
        ("content-type"@, "text/html; charset=utf-8"@),
        ("cache-control"@, "no-store"@),
        ("content-security-policy"@, "sandbox allow-scripts allow-popups allow-popups-to-escape-sandbox"@),
        ("cross-origin-opener-policy"@, "noopener-allow-popups"@),
        ("x-content-type-options"@, "nosniff"@),
        ("referrer-policy"@, "same-origin"@),
    ]
}

pub open spec fn header_views(h: Seq<(&str, &str)>) -> Seq<(Seq<char>, Seq<char>)> {
    h.map_values(|p: (&str, &str)| (p.0@, p.1@))
}

/// The headers of a document page, as names and values.
pub fn page_headers() -> (out: Vec<(&'static str, &'static str)>)
    ensures
        header_views(out@) == page_header_text(),
{
    let out = vec![
        ("content-type", "text/html; charset=utf-8"),
        ("cache-control", "no-store"),
        ("content-security-policy", "sandbox allow-scripts allow-popups allow-popups-to-escape-sandbox"),
        ("cross-origin-opener-policy", "noopener-allow-popups"),
        ("x-content-type-options", "nosniff"),
        ("referrer-policy", "same-origin"),
    ];
    assert(header_views(out@) =~= page_header_text());
    out
}

/// The headers of a document's raw source on the app origin: pushed HTML is
/// arbitrary, so it runs sandboxed without same-origin rights, is not sniffed,
/// and sends no referrer.
pub open spec fn raw_header_text() -> Seq<(Seq<char>, Seq<char>)> {
    seq![
        ("content-security-policy"@, "sandbox allow-scripts allow-popups"@),
        ("x-content-type-options"@, "nosniff"@),
        ("referrer-policy"@, "no-referrer"@),
    ]
}

pub fn raw_headers() -> (out: Vec<(&'static str, &'static str)>)
    ensures
        header_views(out@) == raw_header_text(),
{
    let out = vec![
        ("content-security-policy", "sandbox allow-scripts allow-popups"),
        ("x-content-type-options", "nosniff"),
        ("referrer-policy", "no-referrer"),
    ];
    assert(header_views(out@) =~= raw_header_text());
    out
}

/// The headers of a document's asset, besides its stored content type: a
/// pinned revision's asset never changes and is cached for good, the latest
/// one is revalidated; its type is not sniffed; and the referrer policy lets
/// a stylesheet's own requests name it without the address leaving the
/// origin.
pub open spec fn asset_header_text(pinned: bool) -> Seq<(Seq<char>, Seq<char>)> {
    seq![
        ("cache-control"@, if pinned {
            "private, max-age=31536000, immutable"@
        } else {
            "no-cache"@
        }),
        ("x-content-type-options"@, "nosniff"@),
        ("referrer-policy"@, "same-origin"@),
    ]
}

pub fn asset_headers(pinned: bool) -> (out: Vec<(&'static str, &'static str)>)
    ensures
        header_views(out@) == asset_header_text(pinned),
{
    let out = vec![
        ("cache-control", crate::view::asset_cache_control(pinned)),
        ("x-content-type-options", "nosniff"),
        ("referrer-policy", "same-origin"),
    ];
    assert(header_views(out@) =~= asset_header_text(pinned));
    out
}

/// The headers of a revision file served for rendering a preview, besides its
/// content type: sandboxed with scripts, and not sniffed.
pub open spec fn render_file_header_text() -> Seq<(Seq<char>, Seq<char>)> {
    seq![("content-security-policy"@, "sandbox allow-scripts"@), ("x-content-type-options"@, "nosniff"@)]
}

pub fn render_file_headers() -> (out: Vec<(&'static str, &'static str)>)
    ensures
        header_views(out@) == render_file_header_text(),
{
    let out = vec![("content-security-policy", "sandbox allow-scripts"), ("x-content-type-options", "nosniff")];
    assert(header_views(out@) =~= render_file_header_text());
    out
}

/// The headers of the password form: HTML, never cached, not sniffed.
pub open spec fn password_form_header_text() -> Seq<(Seq<char>, Seq<char>)> {
    seq![
        ("content-type"@, "text/html; charset=utf-8"@),
        ("cache-control"@, "no-store"@),
        ("x-content-type-options"@, "nosniff"@),
    ]
}

pub fn password_form_headers() -> (out: Vec<(&'static str, &'static str)>)
    ensures
        header_views(out@) == password_form_header_text(),
{
    let out = vec![
        ("content-type", "text/html; charset=utf-8"),
        ("cache-control", "no-store"),
        ("x-content-type-options", "nosniff"),
    ];
    assert(header_views(out@) =~= password_form_header_text());
    out
}

/// The headers of the share page: HTML, not sniffed.
pub open spec fn share_page_header_text() -> Seq<(Seq<char>, Seq<char>)> {
    seq![("content-type"@, "text/html; charset=utf-8"@), ("x-content-type-options"@, "nosniff"@)]
}

pub fn share_page_headers() -> (out: Vec<(&'static str, &'static str)>)
    ensures
        header_views(out@) == share_page_header_text(),
{
    let out = vec![("content-type", "text/html; charset=utf-8"), ("x-content-type-options", "nosniff")];
    assert(header_views(out@) =~= share_page_header_text());
    out
}

/// Whatever the revision asks and its owner answered, a visitor is served the
/// same page: the owner's questions reach no visitor, and a visitor's page
/// never carries a widget or a key.
pub proof fn lemma_visitor_page_holds_no_questions(
    body: Seq<u8>,
    icon: Option<Seq<char>>,
    app: Seq<char>,
    docs: Seq<char>,
    public_id: Seq<char>,
    doc: Doc,
    current: i64,
    latest: i64,
    revisions: Seq<i64>,
    one: Seq<AnsweredQuestion>,
    another: Seq<AnsweredQuestion>,
)
    ensures
        page_base(body, icon, app, docs, public_id, doc, current, latest, revisions, false, one) == page_base(
            body,
            icon,
            app,
            docs,
            public_id,
            doc,
            current,
            latest,
            revisions,
            false,
            another,
        ),
        page_base(body, icon, app, docs, public_id, doc, current, latest, revisions, false, one) == with_project_icon(
            body,
            icon,
        ) + encode_utf8(overlay_text(app, docs, Seq::empty(), public_id, doc, current, latest, revisions, Seq::empty())),
        !gets_widget(false, one),
{
}

} // verus!
