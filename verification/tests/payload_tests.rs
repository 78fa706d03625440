use logship::payload::action_descriptor;
use logship::payload::build_payloads;
use logship::payload::document_json;
use logship::payload::Doc;
use logship::record::Record;

fn pairs_of(v: &[(&str, &str)]) -> Vec<(String, String)> {
    v.iter().map(|(k, w)| (k.to_string(), w.to_string())).collect()
}

fn doc_named(id: &str) -> Doc {
    Doc {
        id: id.to_string(),
        record: Record { fields: pairs_of(&[("date", id)]) },
    }
}

#[test]
fn document_body_is_compact_json() {
    let rec = Record {
        fields: pairs_of(&[
            ("date", "2020-01-01"),
            ("time", "00:00:00"),
            ("c-ip", "1.2.3.4"),
            ("cs-method", "GET"),
        ]),
    };
    assert_eq!(
        document_json(&rec),
        "{\"c-ip\":\"1.2.3.4\",\"cs-method\":\"GET\",\"date\":\"2020-01-01\",\"time\":\"00:00:00\"}"
    );
}

#[test]
fn json_escapes_special_characters() {
    let rec = Record { fields: pairs_of(&[("q", "say \"hi\"\\now")]) };
    assert_eq!(document_json(&rec), "{\"q\":\"say \\\"hi\\\"\\\\now\"}");
}

#[test]
fn action_descriptor_names_id_and_processing_pipeline() {
    let id = "997e693457b".to_string();
    assert_eq!(
        action_descriptor(&id),
        "{\"index\":{\"_id\":\"997e693457b\",\"pipeline\":\"cfn-logs\"}}"
    );
}

#[test]
fn chunks_hold_two_units_per_document() {
    let docs: Vec<Doc> = ["a", "b", "c", "d", "e"].iter().map(|s| doc_named(s)).collect();
    let chunks = build_payloads(&docs, 2);
    assert_eq!(chunks.len(), 3);
    assert_eq!(chunks[0].len(), 4);
    assert_eq!(chunks[1].len(), 4);
    assert_eq!(chunks[2].len(), 2);
}

#[test]
fn chunking_keeps_order_and_pairing() {
    let docs: Vec<Doc> = ["a", "b", "c"].iter().map(|s| doc_named(s)).collect();
    let chunks = build_payloads(&docs, 2);
    assert_eq!(chunks.len(), 2);
    assert_eq!(chunks[0][0], "{\"index\":{\"_id\":\"a\",\"pipeline\":\"cfn-logs\"}}");
    assert_eq!(chunks[0][1], "{\"date\":\"a\"}");
    assert_eq!(chunks[0][2], "{\"index\":{\"_id\":\"b\",\"pipeline\":\"cfn-logs\"}}");
    assert_eq!(chunks[0][3], "{\"date\":\"b\"}");
    assert_eq!(chunks[1][0], "{\"index\":{\"_id\":\"c\",\"pipeline\":\"cfn-logs\"}}");
    assert_eq!(chunks[1][1], "{\"date\":\"c\"}");
}

#[test]
fn exact_multiple_fills_every_chunk() {
    let docs: Vec<Doc> = ["a", "b", "c", "d"].iter().map(|s| doc_named(s)).collect();
    let chunks = build_payloads(&docs, 2);
    assert_eq!(chunks.len(), 2);
    assert_eq!(chunks[0].len(), 4);
    assert_eq!(chunks[1].len(), 4);
}

#[test]
fn no_documents_means_no_submissions() {
    let docs: Vec<Doc> = Vec::new();
    let chunks = build_payloads(&docs, 100);
    assert_eq!(chunks.len(), 0);
}
