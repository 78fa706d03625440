use logship::errors::PipelineError;
use logship::pipeline::decode_lines;
use logship::pipeline::prepare_run;
use logship::pipeline::CHUNK_SIZE;

fn lines_of(v: &[&str]) -> Vec<String> {
    v.iter().map(|s| s.to_string()).collect()
}

fn pairs_of(v: &[(&str, &str)]) -> Vec<(String, String)> {
    v.iter().map(|(k, w)| (k.to_string(), w.to_string())).collect()
}

#[test]
fn one_data_line_becomes_one_enriched_document() {
    let content = "#Fields: date cs-uri-query\n2020-01-01\ta=1&pk_campaign=summer&b=2\n";
    let chunks = prepare_run(content, CHUNK_SIZE).unwrap();
    assert_eq!(chunks.len(), 1);
    assert_eq!(chunks[0].len(), 2);
    assert_eq!(
        chunks[0][0],
        "{\"index\":{\"_id\":\"4f1e0e01b29\",\"pipeline\":\"cfn-logs\"}}"
    );
    assert_eq!(
        chunks[0][1],
        "{\"campaign\":\"summer\",\"cs-uri-query\":\"a=1&pk_campaign=summer&b=2\",\"date\":\"2020-01-01\"}"
    );
}

#[test]
fn rerun_over_identical_input_yields_identical_payloads() {
    let content = "#Fields: date cs-uri-query\n2020-01-01\ta=1&pk_campaign=summer&b=2\nd2\tq=v\n";
    let first = prepare_run(content, 1).unwrap();
    let second = prepare_run(content, 1).unwrap();
    assert_eq!(first, second);
}

#[test]
fn blanks_and_plain_comments_produce_nothing() {
    let content = "#Fields: date cs-uri-query\n\n#Version: 1.0\n\n#Remark: skip me\n";
    let chunks = prepare_run(content, CHUNK_SIZE).unwrap();
    assert_eq!(chunks.len(), 0);
}

#[test]
fn submissions_follow_the_ceiling_of_data_lines_over_chunk_size() {
    let content = "#Fields: cs-uri-query\nq=1\nq=2\n#Comment between\nq=3\n\nq=4\nq=5\n";
    let chunks = prepare_run(content, 2).unwrap();
    // five data lines at two per chunk: three submissions, each with two
    // payload units per line
    assert_eq!(chunks.len(), 3);
    assert_eq!(chunks[0].len(), 4);
    assert_eq!(chunks[1].len(), 4);
    assert_eq!(chunks[2].len(), 2);
}

#[test]
fn later_header_replaces_schema_for_later_lines() {
    let mut keys: Vec<String> = Vec::new();
    let lines = lines_of(&[
        "#Fields: date time cs-uri-query",
        "2020-01-01\t00:00:00\tq=old",
        "#Fields: cs-uri-query",
        "q=new",
    ]);
    let docs = decode_lines(&mut keys, &lines).unwrap();
    assert_eq!(docs.len(), 2);
    assert_eq!(
        docs[0].record.fields,
        pairs_of(&[("date", "2020-01-01"), ("time", "00:00:00"), ("cs-uri-query", "q=old")])
    );
    // nothing of the earlier schema leaks into the later record
    assert_eq!(docs[1].record.fields, pairs_of(&[("cs-uri-query", "q=new")]));
    assert_eq!(keys, lines_of(&["cs-uri-query"]));
}

#[test]
fn data_line_without_query_field_aborts_the_run() {
    let content = "#Fields: date\n2020-01-01\n";
    assert!(matches!(prepare_run(content, CHUNK_SIZE), Err(PipelineError::MissingField)));
}

#[test]
fn data_line_before_any_header_aborts_the_run() {
    // no schema yet, so the record is empty and the enrichment lookup fails
    let content = "2020-01-01\t00:00:00\n";
    assert!(matches!(prepare_run(content, CHUNK_SIZE), Err(PipelineError::MissingField)));
}

#[test]
fn scan_stops_at_the_failing_line() {
    let mut keys: Vec<String> = Vec::new();
    let lines = lines_of(&["#Fields: date", "2020-01-01", "#Fields: later"]);
    let r = decode_lines(&mut keys, &lines);
    assert!(matches!(r, Err(PipelineError::MissingField)));
    // the header after the failing data line was never observed
    assert_eq!(keys, lines_of(&["date"]));
}
