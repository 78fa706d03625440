use logship::errors::PipelineError;
use logship::response::check_response;

#[test]
fn clean_response_is_accepted() {
    assert!(check_response("{\"errors\": false, \"items\": []}").is_ok());
}

#[test]
fn reported_errors_fail_the_chunk_with_the_body() {
    let body = "{\"errors\": true, \"items\": [{\"index\": {\"status\": 400}}]}";
    match check_response(body) {
        Err(PipelineError::SinkErrors { body: b }) => assert_eq!(b, body),
        other => panic!("expected a sink error, got {:?}", other),
    }
}

#[test]
fn missing_flag_is_a_malformed_response() {
    let body = "{\"items\": []}";
    match check_response(body) {
        Err(PipelineError::BadResponse { body: b }) => assert_eq!(b, body),
        other => panic!("expected a malformed-response error, got {:?}", other),
    }
}

#[test]
fn non_boolean_flag_is_a_malformed_response() {
    assert!(matches!(
        check_response("{\"errors\": \"yes\"}"),
        Err(PipelineError::BadResponse { .. })
    ));
}

#[test]
fn unparsable_body_is_a_malformed_response() {
    assert!(matches!(
        check_response("not json at all"),
        Err(PipelineError::BadResponse { .. })
    ));
}
