use fhir_model::decimal::Dec;
use fhir_model::json::Json;
use fhir_model::primitive::Primitive;
use fhir_model::stamp::Instant;
use fhir_model::time::Time;
use fhir_model::uri::Uri;
use fhir_model::vardate::VarDate;

#[test]
fn test_decimal_from_string() {
    let d = Dec::from_str("3.14").ok().unwrap();
    assert_eq!("3.14", d.to_string());
    assert_eq!(d.precision(), 2);
}

#[test]
fn test_decimal_representation() {
    let d = Dec::from_str("0.1").ok().unwrap();
    assert_eq!("0.1", d.to_string());
    assert_eq!(1, d.precision());
}

#[test]
fn test_decimal_representation_with_precision() {
    let d = Dec::from_str("0.10").ok().unwrap();
    assert_eq!("0.10", d.to_string());
    assert_eq!(2, d.precision());
}

#[test]
fn test_long_zero_decimal_from_string() {
    let d = Dec::from_str("0.0000000").ok().unwrap();
    assert_eq!("0.0000000", d.to_string());
    assert_eq!(7, d.precision());
}

#[test]
fn test_long_decimal_from_string() {
    let d = Dec::from_str("3.1415926").ok().unwrap();
    assert_eq!("3.1415926", d.to_string());
    assert_eq!(7, d.precision());
}

#[test]
fn test_integer_with_point_from_string() {
    let d = Dec::from_str("3.").ok().unwrap();
    assert_eq!("3", d.to_string());
    assert_eq!(0, d.precision());
}

#[test]
fn test_integer_from_string() {
    let d = Dec::from_str("3").ok().unwrap();
    assert_eq!("3", d.to_string());
    assert_eq!(0, d.precision());
}

#[test]
fn test_invalid_decimal_from_string() {
    let d = Dec::from_str("pi");
    assert!(d.is_err());
}

#[test]
fn test_invalid_numberlike_decimal_from_string() {
    let d = Dec::from_str("3.141.23");
    assert!(d.is_err());
}

#[test]
fn decimal_test_decimal_from_string() {
    let d = Dec::from_str("3.14").ok().unwrap();
    assert_eq!("3.14", d.to_string());
    assert_eq!(d.precision(), 2);
}

#[test]
fn decimal_test_decimal_representation() {
    let d = Dec::from_str("0.1").ok().unwrap();
    assert_eq!("0.1", d.to_string());
    assert_eq!(1, d.precision());
}

#[test]
fn decimal_test_decimal_representation_with_precision() {
    let d = Dec::from_str("0.10").ok().unwrap();
    assert_eq!("0.10", d.to_string());
    assert_eq!(2, d.precision());
}

#[test]
fn decimal_test_long_zero_decimal_from_string() {
    let d = Dec::from_str("0.0000000").ok().unwrap();
    assert_eq!("0.0000000", d.to_string());
    assert_eq!(7, d.precision());
}

#[test]
fn decimal_test_long_decimal_from_string() {
    let d = Dec::from_str("3.1415926").ok().unwrap();
    assert_eq!("3.1415926", d.to_string());
    assert_eq!(7, d.precision());
}

#[test]
fn decimal_test_integer_with_point_from_string() {
    let d = Dec::from_str("3.").ok().unwrap();
    assert_eq!("3", d.to_string());
    assert_eq!(0, d.precision());
}

#[test]
fn decimal_test_integer_from_string() {
    let d = Dec::from_str("3").ok().unwrap();
    assert_eq!("3", d.to_string());
    assert_eq!(0, d.precision());
}

#[test]
fn decimal_test_invalid_decimal_from_string() {
    let d = Dec::from_str("pi");
    assert!(d.is_err());
}

#[test]
fn decimal_test_invalid_numberlike_decimal_from_string() {
    let d = Dec::from_str("3.141.23");
    assert!(d.is_err());
}

#[test]
fn decimal_negative_round_trip() {
    let d = Dec::from_str("-12.50").ok().unwrap();
    assert_eq!("-12.50", d.to_string());
    assert_eq!(2, d.precision());
}

#[test]
fn decimal_drops_plus_sign_and_leading_zeros() {
    let d = Dec::from_str("+007.5").ok().unwrap();
    assert_eq!("7.5", d.to_string());
    assert_eq!(1, d.precision());
}

#[test]
fn test_time_repr() {
    let t = Time::from_hm(12, 30).unwrap();
    assert_eq!("12:30", t.to_string());
}

#[test]
fn test_time_invalid() {
    let t = Time::from_hm(53, 30);
    assert!(t.is_none());
}

#[test]
fn time_test_time_repr() {
    let t = Time::from_hm(12, 30).unwrap();
    assert_eq!("12:30", t.to_string());
}

#[test]
fn time_test_time_invalid() {
    let t = Time::from_hm(53, 30);
    assert!(t.is_none());
}

#[test]
fn time_minute_out_of_range() {
    assert!(Time::from_hm(12, 60).is_none());
    assert!(Time::from_hm(23, 59).is_some());
}

#[test]
fn test_parse_y() {
    let d = VarDate::parse("2015").unwrap();
    assert_eq!(d.year(), Some(2015));
    assert_eq!((d.month(), d.day(), d.has_stamp()), (None, None, false));
    assert_eq!("2015", d.to_string());
}

#[test]
fn test_parse_ym() {
    let d = VarDate::parse("2015-05").unwrap();
    assert_eq!(d.year(), Some(2015));
    assert_eq!(d.month(), Some(5));
    assert_eq!((d.day(), d.has_stamp()), (None, false));
    assert_eq!("2015-05", d.to_string());
}

#[test]
fn test_parse_ymd() {
    let d = VarDate::parse("2015-05-02").unwrap();
    assert_eq!(d.year(), Some(2015));
    assert_eq!(d.month(), Some(5));
    assert_eq!(d.day(), Some(2));
    assert_eq!(d.has_stamp(), false);
    assert_eq!("2015-05-02", d.to_string());
}

#[test]
fn test_parse_complete_date() {
    let d = VarDate::parse("2015-05-02T05:34:00-07:00").unwrap();
    assert!(d.has_stamp());
    assert_eq!("2015-05-02T05:34:00-07:00", d.to_string());
}

#[test]
fn vardate_test_parse_y() {
    let d = VarDate::parse("2015").unwrap();
    assert_eq!(d.year(), Some(2015));
    assert_eq!((d.month(), d.day(), d.has_stamp()), (None, None, false));
    assert_eq!("2015", d.to_string());
}

#[test]
fn vardate_test_parse_ym() {
    let d = VarDate::parse("2015-05").unwrap();
    assert_eq!(d.year(), Some(2015));
    assert_eq!(d.month(), Some(5));
    assert_eq!((d.day(), d.has_stamp()), (None, false));
    assert_eq!("2015-05", d.to_string());
}

#[test]
fn vardate_test_parse_ymd() {
    let d = VarDate::parse("2015-05-02").unwrap();
    assert_eq!(d.year(), Some(2015));
    assert_eq!(d.month(), Some(5));
    assert_eq!(d.day(), Some(2));
    assert_eq!(d.has_stamp(), false);
    assert_eq!("2015-05-02", d.to_string());
}

#[test]
fn vardate_test_parse_complete_date() {
    let d = VarDate::parse("2015-05-02T05:34:00-07:00").unwrap();
    assert!(d.has_stamp());
    assert_eq!("2015-05-02T05:34:00-07:00", d.to_string());
}

#[test]
fn vardate_month_out_of_range_falls_back_to_year() {
    let d = VarDate::parse("2015-13").unwrap();
    assert_eq!(d.year(), Some(2015));
    assert_eq!(d.month(), None);
    assert_eq!("2015", d.to_string());
}

#[test]
fn vardate_partial_time_falls_back_to_date() {
    let d = VarDate::parse("2015-05-02T05:34").unwrap();
    assert_eq!("2015-05-02", d.to_string());
}

#[test]
fn vardate_rejects_text_without_year() {
    assert!(VarDate::parse("abc").is_err());
    assert!(VarDate::parse("201").is_err());
    assert!(VarDate::parse("").is_err());
}

#[test]
fn vardate_normalizes_zulu_offset() {
    // the trusted timestamp parse must rewrite the text, not hand it back
    let d = VarDate::parse("2015-05-02T05:34:00Z").unwrap();
    assert!(d.has_stamp());
    assert_eq!("2015-05-02T05:34:00+00:00", d.to_string());
}

#[test]
fn test_bool() {
    let p = Primitive::from(true);
    assert_eq!("true", p.to_string());
    assert_eq!(Json::Boolean(true), p.to_json());
}

#[test]
fn test_i32() {
    let p = Primitive::from(5);
    assert_eq!("5", p.to_string());
    assert_eq!(Json::I64(5), p.to_json());
}

#[test]
fn test_u32() {
    let p = Primitive::from(5u32);
    assert_eq!("5", p.to_string());
    assert_eq!(Json::U64(5), p.to_json());
}

#[test]
fn test_positive() {
    let p = Primitive::PInt(5);
    assert_eq!("5", p.to_string());
    assert_eq!(Json::U64(5), p.to_json());
}

#[test]
fn test_decimal() {
    let d = Dec::from_str("3.14").ok().unwrap();
    let p = Primitive::from(d);
    assert_eq!("3.14", p.to_string());
    assert_eq!(Json::Num("3.14".to_string()), p.to_json());
}

#[test]
fn test_string() {
    let p = Primitive::from("hello, world");
    assert_eq!("hello, world", p.to_string());
    assert_eq!(Json::Str("hello, world".to_string()), p.to_json());
}

#[test]
fn test_url() {
    let u = Uri::parse("http://example.org/foo").unwrap();
    let p = Primitive::from(u);
    assert_eq!("http://example.org/foo", p.to_string());
    assert_eq!(Json::Str("http://example.org/foo".to_string()), p.to_json());
}

#[test]
fn test_urn() {
    let u = Uri::parse("urn:foo:bar").unwrap();
    let p = Primitive::Uri(u);
    assert_eq!("urn:foo:bar", p.to_string());
    assert_eq!(Json::Str("urn:foo:bar".to_string()), p.to_json());
}

#[test]
fn test_oid() {
    let u = Uri::parse("urn:oid:0.0.0.0").unwrap();
    let p = Primitive::Oid(u);
    assert_eq!("urn:oid:0.0.0.0", p.to_string());
    assert_eq!(Json::Str("urn:oid:0.0.0.0".to_string()), p.to_json());
}

#[test]
fn test_id() {
    let p = Primitive::Id("hello, world".to_string());
    assert_eq!("hello, world", p.to_string());
    assert_eq!(Json::Str("hello, world".to_string()), p.to_json());
}

#[test]
fn test_base64() {
    let p = Primitive::Base64("hello, world".to_string());
    assert_eq!("hello, world", p.to_string());
    assert_eq!(Json::Str("hello, world".to_string()), p.to_json());
}

#[test]
fn test_instant() {
    let dt = Instant::parse("2015-05-02T05:34:00-07:00").unwrap();
    let p = Primitive::from(dt);
    assert_eq!("2015-05-02T05:34:00-07:00", p.to_string());
    assert_eq!(Json::Str("2015-05-02T05:34:00-07:00".to_string()), p.to_json());
}

#[test]
fn test_date() {
    let dt: VarDate = VarDate::parse("2015").unwrap();
    let p = Primitive::Date(dt);
    assert_eq!("2015", p.to_string());
    assert_eq!(Json::Str("2015".to_string()), p.to_json());
}

#[test]
fn test_datetime() {
    let dt: VarDate = VarDate::parse("2015").unwrap();
    let p = Primitive::DateTime(dt);
    assert_eq!("2015", p.to_string());
    assert_eq!(Json::Str("2015".to_string()), p.to_json());
}

#[test]
fn uri_normalization_is_not_identity() {
    // the trusted URL parse must normalize, not hand the text back
    let u = Uri::parse("http://example.org").unwrap();
    assert_eq!("http://example.org/", u.to_string());
}

#[test]
fn uri_rejects_relative_reference() {
    assert!(Uri::parse("not a url").is_none());
}

#[test]
fn instant_rejects_partial_date() {
    assert!(Instant::parse("2015-05-02").is_none());
}
