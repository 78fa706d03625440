use logship::ident::document_id;

#[test]
fn identifier_is_a_fixed_slice_of_the_digest() {
    // SHA-256 of the line, rendered as lowercase hex after the algorithm
    // tag, sliced to 11 characters.
    let id = document_id("2020-01-01\t00:00:00\t1.2.3.4\tGET");
    assert_eq!(id, "997e693457b");
}

#[test]
fn identifier_is_deterministic() {
    let a = document_id("x\ty");
    let b = document_id("x\ty");
    assert_eq!(a, b);
    assert_eq!(a, "50bfd0b417c");
}

#[test]
fn identifier_has_eleven_characters() {
    assert_eq!(document_id("").len(), 11);
    assert_eq!(document_id("a").len(), 11);
}

#[test]
fn different_lines_get_different_identifiers() {
    assert_ne!(document_id("a"), document_id("b"));
}
