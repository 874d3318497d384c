use traza::browse::{
    escape, fragment_name, render_button, render_fragment, render_index, render_viewer,
    INDEX_HEAD, INDEX_NAME, INDEX_TAIL, VIEWER_DIRECTORY, VIEWER_LIMIT,
};
use traza::record::LogRecord;
use traza::report::{
    exported_message, header_line, not_found_message, row_line, rule_line, saved_message,
    table_lines, DELETED_MESSAGE, MISSING_PROJECT_MESSAGE, TABLE_TITLE,
};

fn record(id: i64, log: &str) -> LogRecord {
    LogRecord {
        id,
        hash: "a1b2c3".to_string(),
        project: "fpga1".to_string(),
        timestamp: "2024-05-01 10:00:00".to_string(),
        tags: "ci,nightly".to_string(),
        log: log.to_string(),
    }
}

#[test]
fn escape_replaces_the_six_characters() {
    assert_eq!(escape("&"), "&amp;");
    assert_eq!(escape("<"), "&lt;");
    assert_eq!(escape(">"), "&gt;");
    assert_eq!(escape("\""), "&quot;");
    assert_eq!(escape("'"), "&#x27;");
    assert_eq!(escape("/"), "&#x2F;");
}

#[test]
fn escape_keeps_every_other_character() {
    assert_eq!(escape(""), "");
    assert_eq!(escape("build ok\n"), "build ok\n");
    assert_eq!(escape("ñandú 📘 = 100%;#"), "ñandú 📘 = 100%;#");
}

#[test]
fn escape_handles_mixed_text() {
    assert_eq!(
        escape("<script>alert('x' & \"y\")</script>"),
        "&lt;script&gt;alert(&#x27;x&#x27; &amp; &quot;y&quot;)&lt;&#x2F;script&gt;"
    );
    assert_eq!(escape("&amp;"), "&amp;amp;");
}

#[test]
fn escaped_text_holds_no_markup_character() {
    let out = escape("a<b>c\"d'e/f&g</pre><h1>");
    assert!(!out.contains('<'));
    assert!(!out.contains('>'));
    assert!(!out.contains('"'));
    assert!(!out.contains('\''));
    assert!(!out.contains('/'));
}

#[test]
fn fragment_name_holds_the_id() {
    assert_eq!(fragment_name(7), "log_7.html");
    assert_eq!(fragment_name(150), "log_150.html");
    assert_eq!(fragment_name(-3), "log_-3.html");
}

#[test]
fn fragment_shows_the_record_with_the_log_escaped() {
    let page = render_fragment(&record(7, "a < b && c > \"d\"\n"));
    assert_eq!(page.name, "log_7.html");
    assert_eq!(
        page.contents,
        "<h2>Project: fpga1</h2><h4>2024-05-01 10:00:00 — Tags: ci,nightly</h4><pre>a &lt; b &amp;&amp; c &gt; &quot;d&quot;\n</pre>\n"
    );
}

#[test]
fn fragment_cannot_be_left_by_the_log() {
    let page = render_fragment(&record(1, "</pre><script>steal()</script>"));
    assert_eq!(page.contents.matches("</pre>").count(), 1);
    assert!(!page.contents.contains("<script>"));
    assert!(page.contents.ends_with("</pre>\n"));
}

#[test]
fn button_leads_to_the_fragment() {
    assert_eq!(
        render_button(&record(7, "x")),
        "<button onclick=\"window.location.href='log_7.html'\">[7]_a1b2c3 fpga1 (2024-05-01 10:00:00)</button>"
    );
}

#[test]
fn index_lists_one_button_to_a_line() {
    let records = vec![record(2, "x"), record(1, "y")];
    let page = render_index(&records);
    assert_eq!(page.name, "index.html");
    let expected = format!(
        "{}{}\n{}{}",
        INDEX_HEAD,
        render_button(&records[0]),
        render_button(&records[1]),
        INDEX_TAIL
    );
    assert_eq!(page.contents, expected);
}

#[test]
fn index_of_no_records_has_no_button() {
    let page = render_index(&vec![]);
    assert_eq!(page.contents, format!("{}{}", INDEX_HEAD, INDEX_TAIL));
    assert!(page.contents.starts_with("\n<!DOCTYPE html>\n<html lang=\"en\">\n"));
    assert!(page.contents.contains("<div id=\"sidebar\">\n            \n        </div>"));
    assert!(page.contents.contains("body { font-family: sans-serif;"));
    assert!(page.contents.contains("function loadLog(id) {\n"));
    assert!(page.contents.ends_with("</body>\n</html>\n\n"));
}

#[test]
fn viewer_has_a_page_for_each_record_and_the_index_last() {
    let records = vec![record(3, "c"), record(2, "b"), record(1, "a")];
    let pages = render_viewer(&records);
    let names: Vec<&str> = pages.iter().map(|p| p.name.as_str()).collect();
    assert_eq!(names, vec!["log_3.html", "log_2.html", "log_1.html", "index.html"]);
    assert_eq!(pages[0], render_fragment(&records[0]));
    assert_eq!(pages[2], render_fragment(&records[2]));
    assert_eq!(pages[3], render_index(&records));
}

#[test]
fn viewer_constants() {
    assert_eq!(VIEWER_LIMIT, 100);
    assert_eq!(VIEWER_DIRECTORY, "traza_ui");
    assert_eq!(INDEX_NAME, "index.html");
}

#[test]
fn header_names_the_columns() {
    assert_eq!(
        header_line(),
        format!("{:<5} {:<8} {:<20} {:<20} {:<30}", "ID", "Hash", "Project", "Timestamp", "Tags")
    );
    assert_eq!(header_line().len(), 87);
}

#[test]
fn rule_is_ninety_dashes() {
    assert_eq!(rule_line(), "-".repeat(90));
}

#[test]
fn row_pads_each_cell() {
    assert_eq!(
        row_line(&record(7, "x")),
        "7     a1b2c3   fpga1                2024-05-01 10:00:00  ci,nightly                    "
    );
}

#[test]
fn row_does_not_cut_a_long_cell() {
    let mut rec = record(1234567, "x");
    rec.project = "a-project-with-a-rather-long-name".to_string();
    assert_eq!(
        row_line(&rec),
        format!(
            "{:<5} {:<8} {:<20} {:<20} {:<30}",
            1234567, "a1b2c3", "a-project-with-a-rather-long-name", "2024-05-01 10:00:00",
            "ci,nightly"
        )
    );
}

#[test]
fn table_has_title_header_rule_and_rows() {
    let records = vec![record(2, "x"), record(1, "y")];
    let lines = table_lines(&records);
    assert_eq!(lines.len(), 5);
    assert_eq!(lines[0], TABLE_TITLE);
    assert_eq!(lines[0], "📋 Logs List:");
    assert_eq!(lines[1], header_line());
    assert_eq!(lines[2], rule_line());
    assert_eq!(lines[3], row_line(&records[0]));
    assert_eq!(lines[4], row_line(&records[1]));
    assert_eq!(table_lines(&vec![]).len(), 3);
}

#[test]
fn messages_name_what_happened() {
    assert_eq!(
        saved_message(&record(1, "x")),
        "✅ Log saved for project 'fpga1' with tags [ci,nightly] and hash [a1b2c3]"
    );
    assert_eq!(
        exported_message("/home/op/traza_export_fpga1_a1b2c3.txt"),
        "📤 Exported log to: /home/op/traza_export_fpga1_a1b2c3.txt"
    );
    assert_eq!(not_found_message("zz"), "❌ No log found with hash starting with 'zz'");
    assert_eq!(DELETED_MESSAGE, "🧹 All logs deleted from database");
    assert_eq!(MISSING_PROJECT_MESSAGE, "❌ Missing required argument: --project");
}
