//! The lines that a run prints: the table of records and the messages.

use crate::record::{views, LogRecord, RecordView};
use crate::text::{decimal, decimal_text, pad_right, padded, texts};
use vstd::prelude::*;

verus! {

/// Width of the table, in characters.
pub const TABLE_WIDTH: usize = 90;

/// The title above the table.
pub const TABLE_TITLE: &'static str = "📋 Logs List:";

/// The message after every record was deleted.
pub const DELETED_MESSAGE: &'static str = "🧹 All logs deleted from database";

/// The message when an insert lacks its project name.
pub const MISSING_PROJECT_MESSAGE: &'static str = "❌ Missing required argument: --project";

/// One line of the table: the five cells, each padded on the right to the
/// width of its column, with one space between neighbours.
pub open spec fn table_line(
    id: Seq<char>,
    hash: Seq<char>,
    project: Seq<char>,
    timestamp: Seq<char>,
    tags: Seq<char>,
) -> Seq<char> {
    padded(id, 5) + " "@ + padded(hash, 8) + " "@ + padded(project, 20) + " "@ + padded(
        timestamp,
        20,
    ) + " "@ + padded(tags, 30)
}

/// The line that names the columns.
pub open spec fn header_of() -> Seq<char> {
    table_line("ID"@, "Hash"@, "Project"@, "Timestamp"@, "Tags"@)
}

/// The line of dashes under the header.
pub open spec fn rule_of() -> Seq<char> {
    Seq::new(TABLE_WIDTH as nat, |i: int| '-')
}

/// The line of one record.
pub open spec fn row_of(record: RecordView) -> Seq<char> {
    table_line(decimal(record.id), record.hash, record.project, record.timestamp, record.tags)
}

/// Lays out one line of the table.
fn lay_out(id: &str, hash: &str, project: &str, timestamp: &str, tags: &str) -> (r: String)
    ensures
        r@ == table_line(id@, hash@, project@, timestamp@, tags@),
{
    let mut line = String::new();
    line.append(pad_right(id, 5).as_str());
    line.append(" ");
    line.append(pad_right(hash, 8).as_str());
    line.append(" ");
    line.append(pad_right(project, 20).as_str());
    line.append(" ");
    line.append(pad_right(timestamp, 20).as_str());
    line.append(" ");
    line.append(pad_right(tags, 30).as_str());
    assert(line@ =~= table_line(id@, hash@, project@, timestamp@, tags@));
    line
}

/// The line that names the columns.
pub fn header_line() -> (r: String)
    ensures
        r@ == header_of(),
{
    lay_out("ID", "Hash", "Project", "Timestamp", "Tags")
}

/// The line of dashes under the header.
pub fn rule_line() -> (r: String)
    ensures
        r@ == rule_of(),
{
    let mut line = String::new();
    let mut n: usize = 0;
    while n < TABLE_WIDTH
        invariant
            n <= TABLE_WIDTH,
            line@ == Seq::new(n as nat, |i: int| '-'),
        decreases TABLE_WIDTH - n,
    {
        proof {
            reveal_strlit("-");
        }
        line.append("-");
        n = n + 1;
        assert(line@ =~= Seq::new(n as nat, |i: int| '-'));
    }
    line
}

/// The line of one record.
pub fn row_line(record: &LogRecord) -> (r: String)
    ensures
        r@ == row_of(record@),
{
    lay_out(
        decimal_text(record.id).as_str(),
        record.hash.as_str(),
        record.project.as_str(),
        record.timestamp.as_str(),
        record.tags.as_str(),
    )
}

/// The lines of the whole table: title, header, rule, then the records
/// in their order.
pub open spec fn table_of(records: Seq<RecordView>) -> Seq<Seq<char>> {
    seq![TABLE_TITLE@, header_of(), rule_of()] + Seq::new(
        records.len(),
        |i: int| row_of(records[i]),
    )
}

/// Renders the table of `records`, line by line.
pub fn table_lines(records: &Vec<LogRecord>) -> (lines: Vec<String>)
    ensures
        texts(lines@) == table_of(views(records@)),
{
    let mut lines: Vec<String> = Vec::new();
    lines.push(TABLE_TITLE.to_owned());
    lines.push(header_line());
    lines.push(rule_line());
    let mut i: usize = 0;
    while i < records.len()
        invariant
            i <= records.len(),
            lines.len() == 3 + i,
            lines@[0]@ == TABLE_TITLE@,
            lines@[1]@ == header_of(),
            lines@[2]@ == rule_of(),
            forall|k: int| 0 <= k < i ==> (#[trigger] lines@[3 + k])@ == row_of(records@[k]@),
        decreases records.len() - i,
    {
        lines.push(row_line(&records[i]));
        i = i + 1;
    }
    proof {
        let top = seq![TABLE_TITLE@, header_of(), rule_of()];
        let want = table_of(views(records@));
        assert(top.len() == 3);
        assert forall|j: int| 0 <= j < want.len() implies texts(lines@)[j] == want[j] by {
            if j >= 3 {
                assert(lines@[3 + (j - 3)]@ == row_of(records@[j - 3]@));
            }
        }
    }
    assert(texts(lines@) =~= table_of(views(records@)));
    lines
}

/// The message after an insert.
pub open spec fn saved_message_of(project: Seq<char>, tags: Seq<char>, hash: Seq<char>) -> Seq<
    char,
> {
    "✅ Log saved for project '"@ + project + "' with tags ["@ + tags + "] and hash ["@ + hash
        + "]"@
}

/// The message after an insert.
pub fn saved_message(record: &LogRecord) -> (r: String)
    ensures
        r@ == saved_message_of(record@.project, record@.tags, record@.hash),
{
    let mut message = String::new();
    message.append("✅ Log saved for project '");
    message.append(record.project.as_str());
    message.append("' with tags [");
    message.append(record.tags.as_str());
    message.append("] and hash [");
    message.append(record.hash.as_str());
    message.append("]");
    assert(message@ =~= saved_message_of(record@.project, record@.tags, record@.hash));
    message
}

/// The message after an export.
pub open spec fn exported_message_of(path: Seq<char>) -> Seq<char> {
    "📤 Exported log to: "@ + path
}

/// The message after an export to `path`.
pub fn exported_message(path: &str) -> (r: String)
    ensures
        r@ == exported_message_of(path@),
{
    let mut message = String::new();
    message.append("📤 Exported log to: ");
    message.append(path);
    message
}

/// The message when no fingerprint starts with a prefix.
pub open spec fn not_found_message_of(prefix: Seq<char>) -> Seq<char> {
    "❌ No log found with hash starting with '"@ + prefix + "'"@
}

/// The message when no fingerprint starts with `prefix`.
pub fn not_found_message(prefix: &str) -> (r: String)
    ensures
        r@ == not_found_message_of(prefix@),
{
    let mut message = String::new();
    message.append("❌ No log found with hash starting with '");
    message.append(prefix);
    message.append("'");
    assert(message@ =~= not_found_message_of(prefix@));
    message
}

} // verus!
