//! The pages of the log viewer, rendered as text. Writing them to disk and
//! opening the browser is left to the caller.

use crate::record::{views, LogRecord, RecordView};
use crate::text::{decimal, decimal_text, join, joined, texts};
use vstd::prelude::*;

verus! {

/// How many records the viewer shows.
pub const VIEWER_LIMIT: usize = 100;

/// Name of the directory, under the system's temporary directory, that
/// the pages are written to.
pub const VIEWER_DIRECTORY: &'static str = "traza_ui";

/// Name of the index page.
pub const INDEX_NAME: &'static str = "index.html";

/// The index page up to the list of buttons.
pub const INDEX_HEAD: &'static str = r#"
<!DOCTYPE html>
<html lang="en">
<head>
    <meta charset="UTF-8">
    <title>Traza Log Viewer</title>
    <style>
        body { font-family: sans-serif; background: #f4f4f4; padding: 1em; }
        #logs { display: flex; gap: 1em; }
        #sidebar { width: 300px; max-height: 90vh; overflow-y: auto; background: #fff; border-right: 1px solid #ccc; padding: 1em; }
        #content { flex: 1; padding: 1em; background: #111; color: #0f0; overflow-x: auto; }
        button { display: block; width: 100%; margin-bottom: 0.5em; }
        pre { white-space: pre-wrap; word-wrap: break-word; }
    </style>
</head>
<body>
    <h1>📘 Traza Logs</h1>
    <div id="logs">
        <div id="sidebar">
            "#;

/// The index page after the list of buttons.
pub const INDEX_TAIL: &'static str = r#"
        </div>
        <div id="content"><em>Select a log from the left.</em></div>
    </div>

    <script>
        function loadLog(id) {
            fetch('log_' + id + '.html')
                .then(res => res.text())
                .then(html => {
                    document.getElementById('content').innerHTML = html;
                });
        }
    </script>
</body>
</html>

"#;

/// What stands for the character `c` in markup: its entity for each of
/// `&`, `<`, `>`, `"`, `'` and `/`, the character itself for any other.
pub open spec fn escaped_char(c: char) -> Seq<char> {
    if c == '&' {
        "&amp;"@
    } else if c == '<' {
        "&lt;"@
    } else if c == '>' {
        "&gt;"@
    } else if c == '"' {
        "&quot;"@
    } else if c == '\'' {
        "&#x27;"@
    } else if c == '/' {
        "&#x2F;"@
    } else {
        seq![c]
    }
}

/// `text` with each character replaced by what stands for it in markup.
pub open spec fn escaped(text: Seq<char>) -> Seq<char>
    decreases text.len(),
{
    if text.len() == 0 {
        Seq::empty()
    } else {
        escaped(text.drop_last()) + escaped_char(text.last())
    }
}

/// Calls `html_escape::encode_safe`. Trusted: the result is taken to be
/// the input with `&`, `<`, `>`, `"`, `'` and `/` replaced by `&amp;`,
/// `&lt;`, `&gt;`, `&quot;`, `&#x27;` and `&#x2F;`, and every other
/// character kept, as the crate documents.
#[verifier::external_body]
fn encode_safe(text: &str) -> (r: String)
    ensures
        r@ == escaped(text@),
{
    html_escape::encode_safe(text).into_owned()
}

/// Escapes `text` for use inside markup.
pub fn escape(text: &str) -> (r: String)
    ensures
        r@ == escaped(text@),
{
    encode_safe(text)
}

/// A character that can open or close a tag, end an attribute value or
/// close an element.
pub open spec fn is_markup_char(c: char) -> bool {
    c == '<' || c == '>' || c == '"' || c == '\'' || c == '/'
}

/// Escaped text holds no character that markup is made of: whatever the
/// log says, it cannot open a tag or leave the element it is shown in.
pub proof fn lemma_escaped_is_inert(text: Seq<char>)
    ensures
        forall|i: int| 0 <= i < escaped(text).len() ==> !is_markup_char(#[trigger] escaped(text)[i]),
    decreases text.len(),
{
    if text.len() > 0 {
        lemma_escaped_is_inert(text.drop_last());
        reveal_strlit("&amp;");
        reveal_strlit("&lt;");
        reveal_strlit("&gt;");
        reveal_strlit("&quot;");
        reveal_strlit("&#x27;");
        reveal_strlit("&#x2F;");
        let front = escaped(text.drop_last());
        let back = escaped_char(text.last());
        assert forall|j: int| 0 <= j < back.len() implies !is_markup_char(#[trigger] back[j]) by {}
        assert forall|i: int| 0 <= i < escaped(text).len() implies !is_markup_char(
            #[trigger] escaped(text)[i],
        ) by {
            if i < front.len() {
                assert(escaped(text)[i] == front[i]);
            } else {
                assert(escaped(text)[i] == back[i - front.len()]);
            }
        }
    }
}

/// Name of the page that shows the record with the given id.
pub open spec fn fragment_name_of(id: int) -> Seq<char> {
    "log_"@ + decimal(id) + ".html"@
}

/// The page that shows one record: project, timestamp and tags as they
/// are, and the log escaped.
pub open spec fn fragment_of(record: RecordView) -> Seq<char> {
    "<h2>Project: "@ + record.project + "</h2><h4>"@ + record.timestamp + " — Tags: "@
        + record.tags + "</h4><pre>"@ + escaped(record.log) + "</pre>\n"@
}

/// The button of the index page that leads to the page of `record`.
pub open spec fn button_of(record: RecordView) -> Seq<char> {
    "<button onclick=\"window.location.href='"@ + fragment_name_of(record.id) + "'\">["@
        + decimal(record.id) + "]_"@ + record.hash + " "@ + record.project + " ("@
        + record.timestamp + ")</button>"@
}

/// The buttons of the given records, in their order.
pub open spec fn buttons_of(records: Seq<RecordView>) -> Seq<Seq<char>> {
    Seq::new(records.len(), |i: int| button_of(records[i]))
}

/// The index page for the given records: one button for each, one to a
/// line, between the fixed head and tail.
pub open spec fn index_of(records: Seq<RecordView>) -> Seq<char> {
    INDEX_HEAD@ + joined(buttons_of(records), "\n"@) + INDEX_TAIL@
}

/// A page of the viewer: the name of its file and its contents.
#[derive(Clone, Debug, PartialEq, Eq)]
pub struct Page {
    pub name: String,
    pub contents: String,
}

/// Name of the page that shows the record with the given id.
pub fn fragment_name(id: i64) -> (r: String)
    ensures
        r@ == fragment_name_of(id as int),
{
    let mut name = String::new();
    name.append("log_");
    name.append(decimal_text(id).as_str());
    name.append(".html");
    assert(name@ =~= fragment_name_of(id as int));
    name
}

/// Renders the page that shows `record`.
pub fn render_fragment(record: &LogRecord) -> (page: Page)
    ensures
        page.name@ == fragment_name_of(record@.id),
        page.contents@ == fragment_of(record@),
{
    let mut contents = String::new();
    contents.append("<h2>Project: ");
    contents.append(record.project.as_str());
    contents.append("</h2><h4>");
    contents.append(record.timestamp.as_str());
    contents.append(" — Tags: ");
    contents.append(record.tags.as_str());
    contents.append("</h4><pre>");
    contents.append(escape(record.log.as_str()).as_str());
    contents.append("</pre>\n");
    assert(contents@ =~= fragment_of(record@));
    Page { name: fragment_name(record.id), contents }
}

/// Renders the button that leads to the page of `record`.
pub fn render_button(record: &LogRecord) -> (r: String)
    ensures
        r@ == button_of(record@),
{
    let number = decimal_text(record.id);
    let mut button = String::new();
    button.append("<button onclick=\"window.location.href='");
    button.append(fragment_name(record.id).as_str());
    button.append("'\">[");
    button.append(number.as_str());
    button.append("]_");
    button.append(record.hash.as_str());
    button.append(" ");
    button.append(record.project.as_str());
    button.append(" (");
    button.append(record.timestamp.as_str());
    button.append(")</button>");
    assert(button@ =~= button_of(record@));
    button
}

/// Renders the index page for `records`.
pub fn render_index(records: &Vec<LogRecord>) -> (page: Page)
    ensures
        page.name@ == INDEX_NAME@,
        page.contents@ == index_of(views(records@)),
{
    let mut buttons: Vec<String> = Vec::new();
    let mut i: usize = 0;
    while i < records.len()
        invariant
            i <= records.len(),
            buttons.len() == i,
            forall|k: int| 0 <= k < i ==> (#[trigger] buttons@[k])@ == button_of(records@[k]@),
        decreases records.len() - i,
    {
        buttons.push(render_button(&records[i]));
        i = i + 1;
    }
    assert(texts(buttons@) =~= buttons_of(views(records@)));
    let mut contents = String::new();
    contents.append(INDEX_HEAD);
    contents.append(join(&buttons, "\n").as_str());
    contents.append(INDEX_TAIL);
    assert(contents@ =~= index_of(views(records@)));
    Page { name: INDEX_NAME.to_owned(), contents }
}

/// The pages of the given records, in their order.
pub open spec fn fragments_of(records: Seq<RecordView>) -> Seq<(Seq<char>, Seq<char>)> {
    Seq::new(records.len(), |i: int| (fragment_name_of(records[i].id), fragment_of(records[i])))
}

/// The name and the contents of each page.
pub open spec fn page_views(pages: Seq<Page>) -> Seq<(Seq<char>, Seq<char>)> {
    Seq::new(pages.len(), |i: int| (pages[i].name@, pages[i].contents@))
}

/// Renders the whole viewer for `records`: the page of each record, in
/// their order, and the index page last.
pub fn render_viewer(records: &Vec<LogRecord>) -> (pages: Vec<Page>)
    ensures
        page_views(pages@) == fragments_of(views(records@)).push(
            (INDEX_NAME@, index_of(views(records@))),
        ),
{
    let mut pages: Vec<Page> = Vec::new();
    let mut i: usize = 0;
    while i < records.len()
        invariant
            i <= records.len(),
            pages.len() == i,
            forall|k: int|
                0 <= k < i ==> (#[trigger] pages@[k]).name@ == fragment_name_of(records@[k]@.id)
                    && pages@[k].contents@ == fragment_of(records@[k]@),
        decreases records.len() - i,
    {
        pages.push(render_fragment(&records[i]));
        i = i + 1;
    }
    pages.push(render_index(records));
    assert(page_views(pages@) =~= fragments_of(views(records@)).push(
        (INDEX_NAME@, index_of(views(records@))),
    ));
    pages
}

} // verus!
