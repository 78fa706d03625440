//! Document identity: every data line gets an identifier derived from a
//! cryptographic digest of its exact characters, so byte-identical lines
//! always map to the same document and re-indexing a file is idempotent.

use vstd::prelude::*;

verus! {

/// The rendered SHA-256 digest of a line: the algorithm tag, a colon, and
/// the digest bytes in lowercase hex.  A pure function of the line's
/// characters.
pub uninterp spec fn digest_repr_of(line: Seq<char>) -> Seq<char>;

/// Relies on `ring::digest::digest` with `ring::digest::SHA256` and the
/// `Debug` rendering of `ring::digest::Digest`: the digest is a function of
/// the input bytes alone, and its rendering is the 6-character algorithm tag
/// `SHA256`, a colon, and the 32 digest bytes as two lowercase hex digits
/// each — 71 characters in all.
#[verifier::external_body]
fn sha256_debug(line: &str) -> (r: String)
    ensures
        r@ == digest_repr_of(line@),
        r@.len() == 71,
{
    let hash = ring::digest::digest(&ring::digest::SHA256, line.as_bytes());
    format!("{:x?}", hash)
}

/// The identifier of a data line: a fixed 11-character slice of the rendered
/// digest, starting right after the algorithm tag.  Shorter than the full
/// digest — a deliberate trade of collision margin for compactness, kept
/// as is because identifiers must stay stable for already indexed documents.
pub open spec fn doc_id_of(line: Seq<char>) -> Seq<char> {
    digest_repr_of(line).subrange(7, 18)
}

/// Derives the document identifier of a data line.
pub fn document_id(line: &str) -> (r: String)
    ensures
        r@ == doc_id_of(line@),
        r@.len() == 11,
{
    let digest = sha256_debug(line);
    let id = digest.as_str().substring_char(7, 18);
    id.to_owned()
}

/// Identity is deterministic: byte-identical lines always derive the same
/// document identifier, however often the pipeline runs over them.
pub proof fn lemma_identifier_deterministic(line_a: Seq<char>, line_b: Seq<char>)
    requires
        line_a == line_b,
    ensures
        doc_id_of(line_a) == doc_id_of(line_b),
{
}

} // verus!
