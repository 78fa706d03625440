use logship::errors::PipelineError;
use logship::record::add_metadata;
use logship::record::decode_data_line;
use logship::record::Record;

fn keys_of(v: &[&str]) -> Vec<String> {
    v.iter().map(|s| s.to_string()).collect()
}

fn pairs_of(v: &[(&str, &str)]) -> Vec<(String, String)> {
    v.iter().map(|(k, w)| (k.to_string(), w.to_string())).collect()
}

#[test]
fn data_line_maps_positionally() {
    let keys = keys_of(&["date", "time", "c-ip", "cs-method"]);
    let rec = decode_data_line("2020-01-01\t00:00:00\t1.2.3.4\tGET", &keys);
    assert_eq!(
        rec.fields,
        pairs_of(&[
            ("date", "2020-01-01"),
            ("time", "00:00:00"),
            ("c-ip", "1.2.3.4"),
            ("cs-method", "GET"),
        ])
    );
}

#[test]
fn extra_tokens_are_dropped() {
    let keys = keys_of(&["date"]);
    let rec = decode_data_line("2020-01-01\t00:00:00\textra", &keys);
    assert_eq!(rec.fields, pairs_of(&[("date", "2020-01-01")]));
}

#[test]
fn extra_field_names_are_dropped() {
    let keys = keys_of(&["date", "time", "c-ip"]);
    let rec = decode_data_line("2020-01-01", &keys);
    assert_eq!(rec.fields, pairs_of(&[("date", "2020-01-01")]));
}

#[test]
fn empty_schema_gives_empty_record() {
    let keys: Vec<String> = Vec::new();
    let rec = decode_data_line("2020-01-01\t00:00:00", &keys);
    assert_eq!(rec.fields, Vec::<(String, String)>::new());
}

#[test]
fn campaign_parameter_is_extracted() {
    let mut rec = Record { fields: pairs_of(&[("cs-uri-query", "a=1&pk_campaign=summer&b=2")]) };
    assert!(add_metadata(&mut rec).is_ok());
    assert_eq!(
        rec.fields,
        pairs_of(&[("cs-uri-query", "a=1&pk_campaign=summer&b=2"), ("campaign", "summer")])
    );
}

#[test]
fn malformed_parameter_is_ignored() {
    let mut rec = Record { fields: pairs_of(&[("cs-uri-query", "pk_campaign"), ("a", "1")]) };
    assert!(add_metadata(&mut rec).is_ok());
    assert_eq!(rec.fields, pairs_of(&[("cs-uri-query", "pk_campaign"), ("a", "1")]));
}

#[test]
fn last_campaign_parameter_wins() {
    let mut rec = Record { fields: pairs_of(&[("cs-uri-query", "pk_campaign=a&pk_campaign=b")]) };
    assert!(add_metadata(&mut rec).is_ok());
    assert_eq!(
        rec.fields,
        pairs_of(&[("cs-uri-query", "pk_campaign=a&pk_campaign=b"), ("campaign", "b")])
    );
}

#[test]
fn existing_campaign_field_is_replaced_in_place() {
    let mut rec = Record {
        fields: pairs_of(&[("campaign", "old"), ("cs-uri-query", "pk_campaign=new")]),
    };
    assert!(add_metadata(&mut rec).is_ok());
    assert_eq!(
        rec.fields,
        pairs_of(&[("campaign", "new"), ("cs-uri-query", "pk_campaign=new")])
    );
}

#[test]
fn missing_query_field_is_a_lookup_error() {
    let mut rec = Record { fields: pairs_of(&[("date", "2020-01-01")]) };
    let r = add_metadata(&mut rec);
    assert!(matches!(r, Err(PipelineError::MissingField)));
    assert_eq!(rec.fields, pairs_of(&[("date", "2020-01-01")]));
}
