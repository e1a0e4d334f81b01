use fhir_model::extension::{BuildError, Extension};
use fhir_model::primitive::Primitive;
use fhir_model::uri::Uri;

#[test]
fn builder_rejects_second_value() {
    let b = Extension::builder()
        .uri(Uri::parse("http://example.org/is_happy").unwrap())
        .atom(Primitive::from(false))
        .ok()
        .unwrap();
    let r = b.atom(Primitive::from(true));
    assert_eq!(r.err(), Some(BuildError::AlreadyHasValue));
}

#[test]
fn builder_rejects_second_value_of_other_kind() {
    let b = Extension::builder()
        .atom(Primitive::from(false))
        .ok()
        .unwrap();
    let r = b.extensions(Vec::new());
    assert_eq!(r.err(), Some(BuildError::AlreadyHasValue));
}

#[test]
fn build_with_neither_uri_nor_value_fails_with_combined_cause() {
    let r = Extension::builder().build();
    assert_eq!(r.err(), Some(BuildError::BothMissing));
}

#[test]
fn build_without_uri_fails() {
    let r = Extension::builder()
        .atom(Primitive::from(false))
        .ok()
        .unwrap()
        .build();
    assert_eq!(r.err(), Some(BuildError::MissingUri));
}

#[test]
fn build_without_value_fails() {
    let r = Extension::builder()
        .uri(Uri::parse("http://example.org/is_happy").unwrap())
        .build();
    assert_eq!(r.err(), Some(BuildError::MissingValue));
}

#[test]
fn build_with_both_succeeds() {
    let r = Extension::builder()
        .uri(Uri::parse("http://example.org/is_happy").unwrap())
        .id("e1")
        .atom(Primitive::from(false))
        .and_then(|b| b.build());
    assert!(r.is_ok());
}
