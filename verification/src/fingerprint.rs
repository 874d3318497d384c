//! The short fingerprint that names a record by its content.

use crate::text::{hex_of, hex_text, lemma_hex_len, lemma_hex_take};
use vstd::prelude::*;
use vstd::utf8::encode_utf8;

verus! {

/// The BLAKE3 digest of `input`, as the `blake3` crate computes it.
pub uninterp spec fn blake3_digest(input: Seq<u8>) -> Seq<u8>;

/// Number of characters in a fingerprint.
pub const FINGERPRINT_LEN: usize = 6;

/// Calls `blake3::hash` and hands back the 32 bytes of the hash it returns.
/// Trusted: the result is taken to be the BLAKE3 digest of `input`, a
/// function of the input bytes alone.
#[verifier::external_body]
fn digest(input: &[u8]) -> (out: [u8; 32])
    ensures
        out@ == blake3_digest(input@),
{
    blake3::hash(input).into()
}

/// The bytes that are hashed for a record: the project name, then the
/// timestamp, then the log body, with nothing in between.
pub open spec fn content_bytes(project: Seq<char>, timestamp: Seq<char>, log: Seq<u8>) -> Seq<u8> {
    encode_utf8(project) + encode_utf8(timestamp) + log
}

/// The fingerprint of a record's content: the first six characters of the
/// hexadecimal notation of the digest of `content_bytes`.
pub open spec fn fingerprint_of(project: Seq<char>, timestamp: Seq<char>, log: Seq<u8>) -> Seq<
    char,
> {
    hex_of(blake3_digest(content_bytes(project, timestamp, log))).take(FINGERPRINT_LEN as int)
}

/// Appends `more` to `out`.
pub fn append_bytes(out: &mut Vec<u8>, more: &[u8])
    ensures
        final(out)@ == old(out)@ + more@,
{
    let mut i: usize = 0;
    while i < more.len()
        invariant
            i <= more.len(),
            out@ == old(out)@ + more@.take(i as int),
        decreases more.len() - i,
    {
        out.push(more[i]);
        assert(out@ =~= old(out)@ + more@.take(i + 1));
        i = i + 1;
    }
    assert(more@.take(i as int) =~= more@);
}

/// The bytes of `project`, `timestamp` and `log`, one after the other.
pub fn content_of(project: &str, timestamp: &str, log: &[u8]) -> (content: Vec<u8>)
    ensures
        content@ == content_bytes(project@, timestamp@, log@),
{
    let mut content: Vec<u8> = Vec::new();
    append_bytes(&mut content, project.as_bytes());
    append_bytes(&mut content, timestamp.as_bytes());
    append_bytes(&mut content, log);
    assert(content@ =~= content_bytes(project@, timestamp@, log@));
    content
}

/// Shortens a digest to a fingerprint: the first six characters of its
/// lower-case hexadecimal notation, which are those of its first three
/// bytes.
pub fn shorten(digest: &[u8; 32]) -> (r: String)
    ensures
        r@ == hex_of(digest@).take(FINGERPRINT_LEN as int),
        r@ == hex_of(digest@.take(3)),
        r@.len() == FINGERPRINT_LEN,
{
    let mut head: Vec<u8> = Vec::new();
    head.push(digest[0]);
    head.push(digest[1]);
    head.push(digest[2]);
    assert(head@ =~= digest@.take(3));
    proof {
        lemma_hex_take(digest@, 3);
        lemma_hex_len(head@);
    }
    hex_text(head.as_slice())
}

/// Computes the fingerprint of `(project, timestamp, log)`.
///
/// The result depends on the three inputs and on nothing else, so equal
/// inputs give equal fingerprints on every call.
pub fn fingerprint(project: &str, timestamp: &str, log: &[u8]) -> (r: String)
    ensures
        r@ == fingerprint_of(project@, timestamp@, log@),
        r@.len() == FINGERPRINT_LEN,
{
    let content = content_of(project, timestamp, log);
    let d: [u8; 32] = digest(content.as_slice());
    shorten(&d)
}

/// Equal inputs have equal fingerprints.
pub proof fn lemma_fingerprint_deterministic(
    project_a: Seq<char>,
    timestamp_a: Seq<char>,
    log_a: Seq<u8>,
    project_b: Seq<char>,
    timestamp_b: Seq<char>,
    log_b: Seq<u8>,
)
    requires
        project_a == project_b,
        timestamp_a == timestamp_b,
        log_a == log_b,
    ensures
        fingerprint_of(project_a, timestamp_a, log_a) == fingerprint_of(
            project_b,
            timestamp_b,
            log_b,
        ),
{
}

} // verus!
