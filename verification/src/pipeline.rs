//! The pipeline driver: one sequential scan over the input lines, threading
//! the schema through header observations, decoding and enriching every data
//! line, then chunking the documents for submission.
//!
//! Everything here is a pure transformation; the caller performs the I/O
//! around it (reading the file, submitting each chunk, fetching the
//! response) and stops at the first error.

use vstd::prelude::*;

use crate::errors::PipelineError;
use crate::ident::doc_id_of;
use crate::ident::document_id;
use crate::payload::Doc;
use crate::payload::build_payloads;
use crate::payload::is_chunking;
use crate::record::add_metadata;
use crate::record::decode_data_line;
use crate::record::enriched;
use crate::record::record_of;
use crate::schema::is_fields_header;
use crate::schema::observe;
use crate::schema::update_keys_from_header;
use crate::text::split_char;
use crate::text::split_on;

verus! {

/// How many data lines one submission carries at most.
pub const CHUNK_SIZE: usize = 100;

/// A line with no characters: skipped.
pub open spec fn is_blank(l: Seq<char>) -> bool {
    l.len() == 0
}

/// A comment line: routed to the header tracker, never decoded.
pub open spec fn is_comment(l: Seq<char>) -> bool {
    l.len() > 0 && l[0] == '#'
}

/// A data line: neither blank nor a comment; decodes to one document.
pub open spec fn is_data(l: Seq<char>) -> bool {
    l.len() > 0 && l[0] != '#'
}

/// What one scan over `lines` yields, starting from schema `keys`: the
/// schema at the point the scan stops, and — unless a data line fails
/// enrichment, which aborts the scan — the decoded documents in input
/// order, one per data line.
pub open spec fn decoded(keys: Seq<Seq<char>>, lines: Seq<Seq<char>>) -> (
    Seq<Seq<char>>,
    Option<Seq<(Seq<char>, Seq<(Seq<char>, Seq<char>)>)>>,
)
    decreases lines.len(),
{
    if lines.len() == 0 {
        (keys, Some(Seq::empty()))
    } else {
        let l = lines[0];
        let rest = lines.drop_first();
        if is_blank(l) {
            decoded(keys, rest)
        } else if is_comment(l) {
            decoded(observe(keys, l), rest)
        } else {
            match enriched(record_of(keys, l)) {
                Option::None => (keys, None),
                Option::Some(rec) => {
                    let tail = decoded(keys, rest);
                    match tail.1 {
                        Option::None => tail,
                        Option::Some(t) => (tail.0, Some(seq![(doc_id_of(l), rec)] + t)),
                    }
                },
            }
        }
    }
}

/// How many data lines `lines` holds.
pub open spec fn data_count(lines: Seq<Seq<char>>) -> nat
    decreases lines.len(),
{
    if lines.len() == 0 {
        0
    } else {
        (if is_data(lines[0]) {
            1nat
        } else {
            0nat
        }) + data_count(lines.drop_first())
    }
}

/// A successful scan yields exactly one document per data line: blank lines
/// and comment lines contribute nothing.
pub proof fn lemma_decoded_count(keys: Seq<Seq<char>>, lines: Seq<Seq<char>>)
    ensures
        decoded(keys, lines).1 matches Some(docs) ==> docs.len() == data_count(lines),
    decreases lines.len(),
{
    if lines.len() > 0 {
        let l = lines[0];
        let rest = lines.drop_first();
        if is_blank(l) {
            lemma_decoded_count(keys, rest);
        } else if is_comment(l) {
            lemma_decoded_count(observe(keys, l), rest);
        } else {
            lemma_decoded_count(keys, rest);
        }
    }
}

/// Chunk sizing: when a scan of `lines` succeeds and its documents are
/// chunked at `c` per chunk, the number of submissions is the ceiling of
/// the number of data lines over `c`.
pub proof fn lemma_submission_count(
    keys: Seq<Seq<char>>,
    lines: Seq<Seq<char>>,
    chunks: Seq<Seq<Seq<char>>>,
    c: nat,
)
    requires
        decoded(keys, lines).1 is Some,
        is_chunking(chunks, decoded(keys, lines).1.unwrap(), c),
    ensures
        chunks.len() == crate::payload::ceil_div(data_count(lines), c),
{
    lemma_decoded_count(keys, lines);
}

/// Replacing the schema is total: once a `#Fields:` header line is scanned,
/// what follows is decoded the same whatever schema was active before — no
/// field of the prior schema leaks past a new header.
pub proof fn lemma_header_replaces_schema(
    keys_a: Seq<Seq<char>>,
    keys_b: Seq<Seq<char>>,
    header: Seq<char>,
    rest: Seq<Seq<char>>,
)
    requires
        is_comment(header),
        is_fields_header(header),
    ensures
        decoded(keys_a, seq![header] + rest) == decoded(keys_b, seq![header] + rest),
{
    let lines = seq![header] + rest;
    assert(lines[0] == header);
    assert(lines.drop_first() =~= rest);
}

/// Skip semantics: a blank line, or a comment line that is no `#Fields:`
/// header, contributes no document and changes no schema — scanning it is
/// scanning nothing.
pub proof fn lemma_skipped_line(keys: Seq<Seq<char>>, l: Seq<char>, rest: Seq<Seq<char>>)
    requires
        is_blank(l) || (is_comment(l) && !is_fields_header(l)),
    ensures
        decoded(keys, seq![l] + rest) == decoded(keys, rest),
{
    let lines = seq![l] + rest;
    assert(lines[0] == l);
    assert(lines.drop_first() =~= rest);
}

/// Re-running the pipeline over byte-identical input yields an identical
/// outcome — the same documents with the same identifiers, or the same
/// failure — because a scan is a pure function of the input.
pub proof fn lemma_rerun_identical(content_a: Seq<char>, content_b: Seq<char>)
    requires
        content_a == content_b,
    ensures
        decoded(Seq::empty(), split_on(content_a, '\n')) == decoded(
            Seq::empty(),
            split_on(content_b, '\n'),
        ),
{
}

/// `acc` prepended to the documents of a scan outcome.
pub open spec fn docs_after(
    acc: Seq<(Seq<char>, Seq<(Seq<char>, Seq<char>)>)>,
    st: (Seq<Seq<char>>, Option<Seq<(Seq<char>, Seq<(Seq<char>, Seq<char>)>)>>),
) -> (Seq<Seq<char>>, Option<Seq<(Seq<char>, Seq<(Seq<char>, Seq<char>)>)>>) {
    match st.1 {
        Option::None => st,
        Option::Some(t) => (st.0, Some(acc + t)),
    }
}

/// Scans `lines` under the schema in `keys`, updating it at every header
/// line, and decodes every data line into a document.  Fails — with the
/// schema as of the failing line — when a data line's record lacks the
/// query-string field that enrichment reads; the lines after it are not
/// scanned.
pub fn decode_lines(keys: &mut Vec<String>, lines: &Vec<String>) -> (r: Result<
    Vec<Doc>,
    PipelineError,
>)
    ensures
        ({
            let st = decoded(old(keys).deep_view(), lines.deep_view());
            &&& final(keys).deep_view() == st.0
            &&& match r {
                Ok(docs) => st.1 == Some(docs.deep_view()),
                Err(e) => st.1 is None && e is MissingField,
            }
        }),
{
    let ghost keys0 = keys.deep_view();
    let ghost all = lines.deep_view();
    let n = lines.len();
    let mut docs: Vec<Doc> = Vec::new();
    let mut i: usize = 0;
    proof {
        assert(all.skip(0) =~= all);
        assert(docs.deep_view() =~= Seq::<(Seq<char>, Seq<(Seq<char>, Seq<char>)>)>::empty());
        let st = decoded(keys.deep_view(), all);
        if st.1 is Some {
            assert(docs.deep_view() + st.1.unwrap() =~= st.1.unwrap());
        }
    }
    while i < n
        invariant
            n == all.len(),
            i <= n,
            all == lines.deep_view(),
            keys0 == old(keys).deep_view(),
            docs_after(docs.deep_view(), decoded(keys.deep_view(), all.skip(i as int))) == decoded(
                keys0,
                all,
            ),
        decreases n - i,
    {
        let ghost cur = all.skip(i as int);
        let ghost k_before = keys.deep_view();
        proof {
            assert(cur[0] == all[i as int]);
            assert(all[i as int] == lines@[i as int].deep_view());
            assert(cur.drop_first() =~= all.skip(i + 1));
        }
        let line = &lines[i];
        if line.as_str().unicode_len() == 0 {
            // blank: nothing to do
        } else if line.as_str().get_char(0) == '#' {
            update_keys_from_header(line.as_str(), keys);
        } else {
            let id = document_id(line.as_str());
            let mut rec = decode_data_line(line.as_str(), keys);
            match add_metadata(&mut rec) {
                Ok(_) => {},
                Err(e) => {
                    proof {
                        assert(decoded(k_before, cur) == (k_before, None::<
                            Seq<(Seq<char>, Seq<(Seq<char>, Seq<char>)>)>,
                        >));
                    }
                    return Err(e);
                },
            }
            let ghost d = (id@, rec@);
            let ghost acc0 = docs.deep_view();
            docs.push(Doc { id, record: rec });
            proof {
                assert(docs.deep_view() =~= acc0 + seq![d]);
                let tail = decoded(k_before, all.skip(i + 1));
                assert(decoded(k_before, cur) == docs_after(seq![d], tail));
                if tail.1 is Some {
                    assert(acc0 + (seq![d] + tail.1.unwrap()) =~= (acc0 + seq![d])
                        + tail.1.unwrap());
                }
            }
        }
        i += 1;
    }
    proof {
        assert(all.skip(n as int) =~= Seq::<Seq<char>>::empty());
        let st = decoded(keys.deep_view(), all.skip(n as int));
        assert(st.1 == Some(Seq::<(Seq<char>, Seq<(Seq<char>, Seq<char>)>)>::empty()));
        assert(docs.deep_view() + Seq::<(Seq<char>, Seq<(Seq<char>, Seq<char>)>)>::empty()
            =~= docs.deep_view());
    }
    Ok(docs)
}

/// The whole pure part of a run: splits the file's content into lines,
/// scans them starting from an empty schema, and chunks the decoded
/// documents into the payloads to submit, in order.  Fails exactly when the
/// scan fails.
pub fn prepare_run(content: &str, chunk_size: usize) -> (r: Result<Vec<Vec<String>>, PipelineError>)
    requires
        chunk_size > 0,
    ensures
        ({
            let st = decoded(Seq::empty(), split_on(content@, '\n'));
            match r {
                Ok(chunks) => match st.1 {
                    Option::Some(docs) => is_chunking(
                        chunks.deep_view(),
                        docs,
                        chunk_size as nat,
                    ),
                    Option::None => false,
                },
                Err(e) => st.1 is None && e is MissingField,
            }
        }),
{
    let lines = split_char(content, '\n');
    let mut keys: Vec<String> = Vec::new();
    proof {
        assert(keys.deep_view() =~= Seq::<Seq<char>>::empty());
    }
    let docs = match decode_lines(&mut keys, &lines) {
        Ok(docs) => docs,
        Err(e) => {
            return Err(e);
        },
    };
    Ok(build_payloads(&docs, chunk_size))
}

} // verus!
