//! The batcher: documents are grouped into chunks of a fixed maximum size,
//! and each chunk is serialized as an alternating action-descriptor /
//! document-body payload — the pairing and its order are a protocol
//! invariant of the sink and are never reordered.

use vstd::arithmetic::div_mod::lemma_fundamental_div_mod_converse;
use vstd::prelude::*;

use crate::record::Record;

verus! {

/// The compact JSON rendering of a flat object whose members are the given
/// name / value pairs, every value a JSON string.  A pure function of the
/// pairs.
pub uninterp spec fn json_object_of(fields: Seq<(Seq<char>, Seq<char>)>) -> Seq<char>;

/// Relies on `serde_json`: `Value::to_string` renders an object built from
/// the record's pairs (each value a `Value::String`) as one compact JSON
/// object, a function of the pairs alone.
#[verifier::external_body]
fn record_json(rec: &Record) -> (r: String)
    ensures
        r@ == json_object_of(rec@),
{
    let mut members = serde_json::Map::new();
    for (name, value) in rec.fields.iter() {
        members.insert(name.clone(), serde_json::Value::String(value.clone()));
    }
    serde_json::Value::Object(members).to_string()
}

/// Serializes a record as the JSON document body submitted to the sink.
pub fn document_json(rec: &Record) -> (r: String)
    ensures
        r@ == json_object_of(rec@),
{
    record_json(rec)
}

/// The action descriptor preceding a document in the bulk payload: one
/// `index` action naming the document's identifier and the fixed server-side
/// processing pipeline.
pub open spec fn action_of(id: Seq<char>) -> Seq<char> {
    "{\"index\":"@ + json_object_of(seq![("_id"@, id), ("pipeline"@, "cfn-logs"@)]) + "}"@
}

/// Builds the action descriptor for the document identified by `id`.
pub fn action_descriptor(id: &String) -> (r: String)
    ensures
        r@ == action_of(id@),
{
    let mut inner = Record { fields: Vec::new() };
    inner.fields.push(("_id".to_owned(), id.clone()));
    inner.fields.push(("pipeline".to_owned(), "cfn-logs".to_owned()));
    proof {
        assert(inner@ =~= seq![("_id"@, id@), ("pipeline"@, "cfn-logs"@)]);
    }
    let body = record_json(&inner);
    let mut r: String = "{\"index\":".to_owned();
    r.append(body.as_str());
    r.append("}");
    r
}

/// One decoded data line: its derived identifier and its enriched record.
pub struct Doc {
    pub id: String,
    pub record: Record,
}

impl DeepView for Doc {
    type V = (Seq<char>, Seq<(Seq<char>, Seq<char>)>);

    open spec fn deep_view(&self) -> (Seq<char>, Seq<(Seq<char>, Seq<char>)>) {
        (self.id@, self.record@)
    }
}

/// The two payload units of one document: its action descriptor followed
/// immediately by its serialized body.
pub open spec fn doc_units(d: (Seq<char>, Seq<(Seq<char>, Seq<char>)>)) -> Seq<Seq<char>> {
    seq![action_of(d.0), json_object_of(d.1)]
}

/// The payload of a group of documents, in input order.
pub open spec fn payload_of(docs: Seq<(Seq<char>, Seq<(Seq<char>, Seq<char>)>)>) -> Seq<Seq<char>>
    decreases docs.len(),
{
    if docs.len() == 0 {
        seq![]
    } else {
        doc_units(docs[0]) + payload_of(docs.drop_first())
    }
}

/// A group's payload holds exactly two units per document.
pub proof fn lemma_payload_len(docs: Seq<(Seq<char>, Seq<(Seq<char>, Seq<char>)>)>)
    ensures
        payload_of(docs).len() == 2 * docs.len(),
    decreases docs.len(),
{
    if docs.len() > 0 {
        lemma_payload_len(docs.drop_first());
    }
}

proof fn lemma_payload_snoc(
    docs: Seq<(Seq<char>, Seq<(Seq<char>, Seq<char>)>)>,
    d: (Seq<char>, Seq<(Seq<char>, Seq<char>)>),
)
    ensures
        payload_of(docs.push(d)) == payload_of(docs) + doc_units(d),
    decreases docs.len(),
{
    if docs.len() == 0 {
        assert(docs.push(d).drop_first() =~= docs);
        assert(payload_of(docs.push(d)) =~= payload_of(docs) + doc_units(d));
    } else {
        assert(docs.push(d).drop_first() =~= docs.drop_first().push(d));
        lemma_payload_snoc(docs.drop_first(), d);
        assert(payload_of(docs.push(d)) =~= payload_of(docs) + doc_units(d));
    }
}

/// How many chunks `n` documents fill at `c` documents per chunk.
pub open spec fn ceil_div(n: nat, c: nat) -> nat
    recommends
        c > 0,
{
    ((n + c - 1) as int / c as int) as nat
}

/// `chunks` is the chunked serialization of `docs` at `c` documents per
/// chunk: one chunk per submission the run will make — `ceil(len / c)` of
/// them — every chunk but the last full, and the chunk payloads
/// concatenating to the payload of all documents in input order, two units
/// per document, so no document is dropped, duplicated or reordered.
pub open spec fn is_chunking(
    chunks: Seq<Seq<Seq<char>>>,
    docs: Seq<(Seq<char>, Seq<(Seq<char>, Seq<char>)>)>,
    c: nat,
) -> bool {
    &&& chunks.len() == ceil_div(docs.len(), c)
    &&& forall|j: int| 0 <= j && j + 1 < chunks.len() ==> (#[trigger] chunks[j]).len() == 2 * c
    &&& chunks.len() > 0 ==> chunks.last().len() == 2 * (docs.len() - (chunks.len() - 1) * c)
    &&& chunks.flatten() == payload_of(docs)
}

/// Groups `docs` into chunks of at most `chunk_size` documents, in input
/// order, and serializes each chunk's payload.
pub fn build_payloads(docs: &Vec<Doc>, chunk_size: usize) -> (r: Vec<Vec<String>>)
    requires
        chunk_size > 0,
    ensures
        is_chunking(r.deep_view(), docs.deep_view(), chunk_size as nat),
{
    let n = docs.len();
    let mut r: Vec<Vec<String>> = Vec::new();
    let mut cur: Vec<String> = Vec::new();
    let mut filled: usize = 0;
    let mut i: usize = 0;
    proof {
        assert(docs.deep_view().take(0) =~= Seq::<(Seq<char>, Seq<(Seq<char>, Seq<char>)>)>::empty());
        assert(r.deep_view() =~= Seq::<Seq<Seq<char>>>::empty());
        assert(cur.deep_view() =~= Seq::<Seq<char>>::empty());
        assert(Seq::<Seq<Seq<char>>>::empty().flatten() =~= Seq::<Seq<char>>::empty());
    }
    while i < n
        invariant
            n == docs@.len(),
            i <= n,
            chunk_size > 0,
            filled < chunk_size,
            i == r.deep_view().len() * chunk_size + filled,
            cur.deep_view().len() == 2 * filled,
            forall|j: int| 0 <= j < r.deep_view().len() ==> (#[trigger] r.deep_view()[j]).len()
                == 2 * chunk_size,
            r.deep_view().flatten() + cur.deep_view() == payload_of(docs.deep_view().take(i as int)),
        decreases n - i,
    {
        let ghost prefix = docs.deep_view().take(i as int);
        let ghost cur0 = cur.deep_view();
        let d = &docs[i];
        let action = action_descriptor(&d.id);
        let body = record_json(&d.record);
        cur.push(action);
        cur.push(body);
        proof {
            assert(docs.deep_view()[i as int] == docs@[i as int].deep_view());
            assert(docs.deep_view().take(i + 1) =~= prefix.push(docs.deep_view()[i as int]));
            lemma_payload_snoc(prefix, docs.deep_view()[i as int]);
            assert(cur.deep_view() =~= cur0 + doc_units(docs.deep_view()[i as int]));
            assert(r.deep_view().flatten() + cur.deep_view() =~= payload_of(
                docs.deep_view().take(i + 1),
            ));
        }
        filled = filled + 1;
        i = i + 1;
        if filled == chunk_size {
            let ghost r0 = r.deep_view();
            let full = cur;
            cur = Vec::new();
            r.push(full);
            filled = 0;
            proof {
                assert(r.deep_view() =~= r0.push(full.deep_view()));
                r0.lemma_flatten_push(full.deep_view());
                assert(cur.deep_view() =~= Seq::<Seq<char>>::empty());
                assert(r.deep_view().flatten() + cur.deep_view() =~= r.deep_view().flatten());
                assert(r.deep_view().len() * chunk_size == r0.len() * chunk_size + chunk_size)
                    by (nonlinear_arith)
                    requires
                        r.deep_view().len() == r0.len() + 1,
                ;
            }
        }
    }
    proof {
        assert(docs.deep_view().take(n as int) =~= docs.deep_view());
    }
    let ghost k: int = r.deep_view().len() as int;
    if filled > 0 {
        let ghost r0 = r.deep_view();
        let last = cur;
        r.push(last);
        proof {
            assert(r.deep_view() =~= r0.push(last.deep_view()));
            r0.lemma_flatten_push(last.deep_view());
            assert(r.deep_view().flatten() =~= r0.flatten() + last.deep_view());
            assert((k + 1) * chunk_size == k * chunk_size + chunk_size) by (nonlinear_arith);
            lemma_fundamental_div_mod_converse(
                n + chunk_size - 1,
                chunk_size as int,
                k + 1,
                filled - 1,
            );
        }
    } else {
        proof {
            if n > 0 {
                assert(k > 0) by (nonlinear_arith)
                    requires
                        n == k * chunk_size,
                        n > 0,
                        chunk_size > 0,
                ;
                assert(r.deep_view().last().len() == 2 * chunk_size);
                assert(n - (k - 1) * chunk_size == chunk_size) by (nonlinear_arith)
                    requires
                        n == k * chunk_size,
                ;
            }
            lemma_fundamental_div_mod_converse(
                n + chunk_size - 1,
                chunk_size as int,
                k,
                chunk_size - 1,
            );
            assert(cur.deep_view() =~= Seq::<Seq<char>>::empty());
            assert(r.deep_view().flatten() + cur.deep_view() =~= r.deep_view().flatten());
        }
    }
    r
}

} // verus!
