//! The log record, its mathematical view, and the order in which records
//! are listed.

use crate::order::{
    bytes_less, compare_bytes, lemma_bytes_less_asymmetric, lemma_bytes_less_irreflexive,
    lemma_bytes_less_total, lemma_bytes_less_transitive, Standing,
};
use crate::text::{join, joined, texts};
use vstd::prelude::*;
use vstd::utf8::{encode_utf8, encode_utf8_decode_utf8};

verus! {

/// One captured log, as it is kept in the store.
#[derive(Clone, Debug, PartialEq, Eq)]
pub struct LogRecord {
    /// Assigned by the store on insert; larger for later inserts.
    pub id: i64,
    /// Fingerprint of `(project, timestamp, log)`.
    pub hash: String,
    /// Name of the project the log belongs to.
    pub project: String,
    /// Local time of the insert, to the second.
    pub timestamp: String,
    /// The tags, joined by commas; empty when there are none.
    pub tags: String,
    /// The captured text, verbatim.
    pub log: String,
}

/// What a record holds, as plain mathematical values.
pub struct RecordView {
    pub id: int,
    pub hash: Seq<char>,
    pub project: Seq<char>,
    pub timestamp: Seq<char>,
    pub tags: Seq<char>,
    pub log: Seq<char>,
}

impl View for LogRecord {
    type V = RecordView;

    open spec fn view(&self) -> RecordView {
        RecordView {
            id: self.id as int,
            hash: self.hash@,
            project: self.project@,
            timestamp: self.timestamp@,
            tags: self.tags@,
            log: self.log@,
        }
    }
}

impl LogRecord {
    /// A copy of the record, field for field.
    pub fn duplicate(&self) -> (r: LogRecord)
        ensures
            r@ == self@,
    {
        LogRecord {
            id: self.id,
            hash: self.hash.clone(),
            project: self.project.clone(),
            timestamp: self.timestamp.clone(),
            tags: self.tags.clone(),
            log: self.log.clone(),
        }
    }
}

/// The views of a sequence of records.
pub open spec fn views(records: Seq<LogRecord>) -> Seq<RecordView> {
    Seq::new(records.len(), |i: int| records[i]@)
}

/// The tags written as one text, with a comma between neighbours and none
/// at either end.
pub open spec fn joined_tags(tags: Seq<Seq<char>>) -> Seq<char> {
    joined(tags, seq![','])
}

/// Joins the tags with commas.
///
/// A tag that itself holds a comma cannot be told apart afterwards; the
/// tags are joined as they are.
pub fn join_tags(tags: &Vec<String>) -> (r: String)
    ensures
        r@ == joined_tags(texts(tags@)),
{
    proof {
        reveal_strlit(",");
    }
    assert(","@ =~= seq![',']);
    join(tags, ",")
}

/// Whether timestamp `a` sorts strictly after timestamp `b`: byte by byte
/// over their UTF-8 encodings, which for timestamps of the fixed format is
/// the order of the instants they name.
pub open spec fn later(a: Seq<char>, b: Seq<char>) -> bool {
    bytes_less(encode_utf8(b), encode_utf8(a))
}

/// The listing order: `a` is listed before `b` when its timestamp is the
/// later one, or when the timestamps are equal and `a` was inserted later.
pub open spec fn listed_before(a: RecordView, b: RecordView) -> bool {
    later(a.timestamp, b.timestamp) || (a.timestamp == b.timestamp && a.id > b.id)
}

/// Two texts with the same UTF-8 encoding are the same text.
pub proof fn lemma_encoding_injective(a: Seq<char>, b: Seq<char>)
    requires
        encode_utf8(a) == encode_utf8(b),
    ensures
        a == b,
{
    encode_utf8_decode_utf8(a);
    encode_utf8_decode_utf8(b);
}

/// No record is listed before itself.
pub proof fn lemma_listed_before_irreflexive(a: RecordView)
    ensures
        !listed_before(a, a),
{
    lemma_bytes_less_irreflexive(encode_utf8(a.timestamp));
}

/// Of two records at most one is listed before the other.
pub proof fn lemma_listed_before_asymmetric(a: RecordView, b: RecordView)
    requires
        listed_before(a, b),
    ensures
        !listed_before(b, a),
{
    let ta = encode_utf8(a.timestamp);
    let tb = encode_utf8(b.timestamp);
    lemma_bytes_less_irreflexive(ta);
    if bytes_less(tb, ta) {
        lemma_bytes_less_asymmetric(tb, ta);
    }
}

/// The listing order is transitive.
pub proof fn lemma_listed_before_transitive(a: RecordView, b: RecordView, c: RecordView)
    requires
        listed_before(a, b),
        listed_before(b, c),
    ensures
        listed_before(a, c),
{
    let ta = encode_utf8(a.timestamp);
    let tb = encode_utf8(b.timestamp);
    let tc = encode_utf8(c.timestamp);
    if bytes_less(tb, ta) && bytes_less(tc, tb) {
        lemma_bytes_less_transitive(tc, tb, ta);
    }
}

/// Two records with different ids are listed one before the other.
pub proof fn lemma_listed_before_total(a: RecordView, b: RecordView)
    requires
        a.id != b.id,
    ensures
        listed_before(a, b) || listed_before(b, a),
{
    let ta = encode_utf8(a.timestamp);
    let tb = encode_utf8(b.timestamp);
    if ta == tb {
        lemma_encoding_injective(a.timestamp, b.timestamp);
    } else {
        lemma_bytes_less_total(ta, tb);
    }
}

/// Decides the listing order of two records.
pub fn comes_before(a: &LogRecord, b: &LogRecord) -> (r: bool)
    ensures
        r == listed_before(a@, b@),
{
    let standing = compare_bytes(a.timestamp.as_str().as_bytes(), b.timestamp.as_str().as_bytes());
    proof {
        let ta = encode_utf8(a@.timestamp);
        let tb = encode_utf8(b@.timestamp);
        lemma_bytes_less_irreflexive(ta);
        if ta == tb {
            lemma_encoding_injective(a@.timestamp, b@.timestamp);
        }
    }
    match standing {
        Standing::Above => true,
        Standing::Below => false,
        Standing::Same => a.id > b.id,
    }
}

} // verus!
